use tetris::codec::{decode, encode};
use tetris::message::GameMessage;

fn all_samples() -> Vec<GameMessage> {
    vec![
        GameMessage::Join { player_id: "p1".to_string() },
        GameMessage::GameState { player_id: "p1".to_string(), score: 100 },
        GameMessage::GameState { player_id: "x".to_string(), score: -7 },
        GameMessage::GameState { player_id: "".to_string(), score: i32::MIN },
        GameMessage::LineCleared { player_id: "p2".to_string(), count: 2 },
        GameMessage::LineCleared { player_id: "p2".to_string(), count: i32::MAX },
        GameMessage::GameOver { player_id: "q\"uote\\back".to_string() },
        GameMessage::PlayerLeft { player_id: "tab\tline\nctl\u{1}é".to_string() },
    ]
}

#[test]
fn round_trip_every_variant() {
    for m in all_samples() {
        assert_eq!(decode(&encode(&m)), Some(m));
    }
}

#[test]
fn encode_gives_the_wire_schema() {
    assert_eq!(
        encode(&GameMessage::Join { player_id: "p1".to_string() }),
        "{\"Join\":{\"player_id\":\"p1\"}}"
    );
    assert_eq!(
        encode(&GameMessage::GameState { player_id: "p1".to_string(), score: 100 }),
        "{\"GameState\":{\"player_id\":\"p1\",\"score\":100}}"
    );
    assert_eq!(
        encode(&GameMessage::LineCleared { player_id: "p1".to_string(), count: -2 }),
        "{\"LineCleared\":{\"player_id\":\"p1\",\"count\":-2}}"
    );
    assert_eq!(
        encode(&GameMessage::GameOver { player_id: "a\"b".to_string() }),
        "{\"GameOver\":{\"player_id\":\"a\\\"b\"}}"
    );
    assert_eq!(
        encode(&GameMessage::PlayerLeft { player_id: "\n\u{1f}".to_string() }),
        "{\"PlayerLeft\":{\"player_id\":\"\\n\\u001f\"}}"
    );
}

#[test]
fn decode_rejects_malformed_frames() {
    let bad = [
        "",
        "{}",
        "not json",
        "{\"Join\":{\"player_id\":\"p1\"}",
        "{\"Join\":{\"player_id\":\"p1\"}}x",
        "{\"Join\":{\"player_id\":p1}}",
        "{\"GameState\":{\"player_id\":\"p1\",\"score\":}}",
        "{\"GameState\":{\"player_id\":\"p1\",\"score\":007}}",
        "{\"GameState\":{\"player_id\":\"p1\",\"score\":2147483648}}",
        "{\"GameState\":{\"player_id\":\"p1\",\"score\":99999999999999999999}}",
        "{\"LineCleared\":{\"player_id\":\"p1\",\"score\":2}}",
        "{\"Join\":{\"player_id\":\"a\\qb\"}}",
        "{\"Join\":{\"player_id\":\"a\nb\"}}",
        "{\"Unknown\":{\"player_id\":\"p1\"}}",
        "{\"Join\":{\"player_id\":\"p1\",\"player_id\":\"p2\"}}",
        "{\"Join\":{\"player_id\":\"p1\",}}",
        "{\"Join\":{}}",
        "{\"GameState\":{\"player_id\":\"p1\",\"score\":1.5}}",
        "{\"GameState\":{\"player_id\":\"p1\",\"score\":1e2}}",
        "{\"GameState\":{\"player_id\":\"p1\"}}",
        "{\"Join\":{\"player_id\":\"\\ud83d\"}}",
        "{\"Join\":{\"player_id\":\"\\ude00\"}}",
        "{\"Join\":{\"player_id\":\"p1\",\"extra\":[1,}}}",
        "{\"Join\":{\"player_id\":\"p1\",\"extra\":tru}}",
        "{\"Join\":{\"player_id\":\"p1\"},\"Join\":{\"player_id\":\"p2\"}}",
        "{\"Join\":[\"p1\",\"p2\"]}",
        "{\"Join\":{\"player_id\":\"p1\"}} x",
    ];
    for frame in bad.iter() {
        assert_eq!(decode(frame), None, "frame {:?}", frame);
    }
}

#[test]
fn decode_reads_any_json_layout() {
    let join = Some(GameMessage::Join { player_id: "p1".to_string() });
    let state = Some(GameMessage::GameState { player_id: "p1".to_string(), score: 100 });
    assert_eq!(decode(" {\"Join\":{\"player_id\":\"p1\"}}"), join);
    assert_eq!(decode("{ \"Join\" :\n{\t\"player_id\" : \"p1\" } }\r\n"), join);
    assert_eq!(decode("{\"GameState\":{\"score\":100,\"player_id\":\"p1\"}}"), state);
    assert_eq!(
        decode("{\"GameState\":{\"name\":{\"a\":[1,2.5e-3,true,null,\"x\\u00e9\"]},\"player_id\":\"p1\",\"score\":100,\"count\":false}}"),
        state
    );
    assert_eq!(decode("{\"GameState\":[\"p1\", 100]}"), state);
    assert_eq!(decode("{\"Join\":[\"p1\"]}"), join);
    assert_eq!(decode("{\"Join\":{\"player\\u005Fid\":\"p1\"}}"), join);
    assert_eq!(
        decode("{\"Join\":{\"player_id\":\"a\\/b\\u00E9\\ud83d\\ude00\\u0008\"}}"),
        Some(GameMessage::Join { player_id: "a/b\u{e9}\u{1f600}\u{8}".to_string() })
    );
    assert_eq!(
        decode("{\"GameState\":{\"player_id\":\"p1\",\"score\":-0}}"),
        Some(GameMessage::GameState { player_id: "p1".to_string(), score: 0 })
    );
}

#[test]
fn decode_reads_extreme_numbers() {
    assert_eq!(
        decode("{\"GameState\":{\"player_id\":\"p\",\"score\":-2147483648}}"),
        Some(GameMessage::GameState { player_id: "p".to_string(), score: i32::MIN })
    );
    assert_eq!(
        decode("{\"LineCleared\":{\"player_id\":\"p\",\"count\":0}}"),
        Some(GameMessage::LineCleared { player_id: "p".to_string(), count: 0 })
    );
}

#[test]
fn encoded_frames_are_json_that_serde_json_reads() {
    for m in all_samples() {
        let text = encode(&m);
        let v: serde_json::Value = serde_json::from_str(&text).expect("valid json");
        let obj = v.as_object().expect("object");
        assert_eq!(obj.len(), 1);
        let (tag, fields) = obj.iter().next().unwrap();
        let pid = fields.get("player_id").and_then(|p| p.as_str()).unwrap();
        match &m {
            GameMessage::Join { player_id } => {
                assert_eq!(tag, "Join");
                assert_eq!(pid, player_id);
            }
            GameMessage::GameState { player_id, score } => {
                assert_eq!(tag, "GameState");
                assert_eq!(pid, player_id);
                assert_eq!(fields.get("score").and_then(|s| s.as_i64()), Some(*score as i64));
            }
            GameMessage::LineCleared { player_id, count } => {
                assert_eq!(tag, "LineCleared");
                assert_eq!(pid, player_id);
                assert_eq!(fields.get("count").and_then(|s| s.as_i64()), Some(*count as i64));
            }
            GameMessage::GameOver { player_id } => {
                assert_eq!(tag, "GameOver");
                assert_eq!(pid, player_id);
            }
            GameMessage::PlayerLeft { player_id } => {
                assert_eq!(tag, "PlayerLeft");
                assert_eq!(pid, player_id);
            }
        }
        if !matches!(m, GameMessage::LineCleared { .. }) {
            assert_eq!(serde_json::to_string(&v).unwrap(), text);
        }
    }
}

#[test]
fn duplicate_and_player_id_keep_fields() {
    for m in all_samples() {
        let d = m.duplicate();
        assert_eq!(d, m);
        assert_eq!(d.player_id(), m.player_id());
    }
}

#[test]
fn accepted_layouts_are_json() {
    let frames = [
        " {\"Join\":{\"player_id\":\"p1\"}}",
        "{\"GameState\":{\"score\":100,\"player_id\":\"p1\"}}",
        "{\"GameState\":{\"name\":{\"a\":[1,2.5e-3,true,null]},\"player_id\":\"p1\",\"score\":-0}}",
        "{\"Join\":{\"player_id\":\"a\\/b\\u00E9\\ud83d\\ude00\"}}",
    ];
    for f in frames.iter() {
        assert!(decode(f).is_some(), "frame {:?}", f);
        assert!(serde_json::from_str::<serde_json::Value>(f).is_ok(), "frame {:?}", f);
    }
}
