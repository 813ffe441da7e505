use tetris::codec::encode;
use tetris::message::{GameMessage, PlayerState};
use tetris::server::MultiplayerServer;

fn id(s: &str) -> String {
    s.to_string()
}

fn join(p: &str) -> GameMessage {
    GameMessage::Join { player_id: id(p) }
}

fn state(p: &str, score: i32) -> GameMessage {
    GameMessage::GameState { player_id: id(p), score }
}

fn ids_of(states: &[PlayerState]) -> Vec<String> {
    states.iter().map(|s| s.player_id.clone()).collect()
}

#[test]
fn late_joiner_receives_roster_before_live_traffic() {
    let mut hub = MultiplayerServer::new();
    assert!(hub.admit_player(id("p1")));
    assert_eq!(hub.take_outbound(&id("p1")), vec![join("p1"), join("p1")]);
    hub.handle_frame(&id("p1"), &encode(&state("p1", 100)));
    assert!(hub.admit_player(id("p2")));
    assert_eq!(
        hub.take_outbound(&id("p2")),
        vec![join("p2"), state("p1", 100), join("p2")]
    );
    assert_eq!(hub.take_outbound(&id("p1")), vec![join("p2")]);
}

#[test]
fn line_clear_reaches_peer_only() {
    let mut hub = MultiplayerServer::new();
    hub.admit_player(id("p1"));
    hub.admit_player(id("p2"));
    hub.take_outbound(&id("p1"));
    hub.take_outbound(&id("p2"));
    let msg = GameMessage::LineCleared { player_id: id("p1"), count: 2 };
    hub.handle_frame(&id("p1"), &encode(&msg));
    assert_eq!(hub.take_outbound(&id("p2")), vec![msg]);
    assert!(hub.take_outbound(&id("p1")).is_empty());
}

#[test]
fn disconnect_is_announced_once() {
    let mut hub = MultiplayerServer::new();
    hub.admit_player(id("p1"));
    hub.admit_player(id("p2"));
    hub.take_outbound(&id("p2"));
    hub.teardown(&id("p1"));
    assert!(!hub.is_registered(&id("p1")));
    assert_eq!(ids_of(&hub.snapshot()), vec![id("p2")]);
    assert_eq!(
        hub.take_outbound(&id("p2")),
        vec![GameMessage::PlayerLeft { player_id: id("p1") }]
    );
    assert!(hub.take_outbound(&id("p1")).is_empty());
}

#[test]
fn register_and_unregister_keep_registry_and_store_together() {
    let mut hub = MultiplayerServer::new();
    assert!(hub.register(id("a")));
    assert!(hub.register(id("b")));
    assert!(!hub.register(id("a")));
    assert!(hub.register(id("c")));
    hub.unregister(&id("b"));
    assert!(hub.is_registered(&id("a")));
    assert!(!hub.is_registered(&id("b")));
    assert!(hub.is_registered(&id("c")));
    assert_eq!(ids_of(&hub.snapshot()), vec![id("a"), id("c")]);
    let snap = hub.snapshot();
    assert!(snap.iter().all(|p| p.score == 0));
}

#[test]
fn unregister_twice_or_unknown_is_a_no_op() {
    let mut hub = MultiplayerServer::new();
    hub.register(id("a"));
    hub.register(id("b"));
    hub.unregister(&id("a"));
    let once = hub.snapshot();
    hub.unregister(&id("a"));
    assert_eq!(hub.snapshot(), once);
    hub.unregister(&id("never"));
    assert_eq!(hub.snapshot(), once);
    assert_eq!(ids_of(&once), vec![id("b")]);
}

#[test]
fn broadcast_skips_the_excluded_session() {
    let mut hub = MultiplayerServer::new();
    hub.register(id("a"));
    hub.register(id("b"));
    hub.register(id("c"));
    let msg = GameMessage::GameOver { player_id: id("b") };
    hub.broadcast(&msg, Some(&id("b")));
    assert_eq!(hub.take_outbound(&id("a")), vec![msg.clone()]);
    assert!(hub.take_outbound(&id("b")).is_empty());
    assert_eq!(hub.take_outbound(&id("c")), vec![msg.clone()]);
    hub.broadcast(&msg, None);
    assert_eq!(hub.take_outbound(&id("b")), vec![msg]);
}

#[test]
fn outbound_queue_keeps_arrival_order() {
    let mut hub = MultiplayerServer::new();
    hub.register(id("a"));
    hub.register(id("b"));
    hub.broadcast(&state("b", 1), Some(&id("b")));
    hub.broadcast(&state("b", 2), Some(&id("b")));
    hub.broadcast(&state("b", 3), Some(&id("b")));
    assert_eq!(
        hub.take_outbound(&id("a")),
        vec![state("b", 1), state("b", 2), state("b", 3)]
    );
}

#[test]
fn update_score_overwrites_and_ignores_removed_ids() {
    let mut hub = MultiplayerServer::new();
    hub.register(id("a"));
    hub.update_score(&id("a"), 42);
    hub.update_score(&id("gone"), 7);
    let snap = hub.snapshot();
    assert_eq!(snap.len(), 1);
    assert_eq!(snap[0].player_id, id("a"));
    assert_eq!(snap[0].score, 42);
}

#[test]
fn malformed_frame_is_dropped() {
    let mut hub = MultiplayerServer::new();
    hub.admit_player(id("p1"));
    hub.admit_player(id("p2"));
    hub.take_outbound(&id("p1"));
    hub.take_outbound(&id("p2"));
    hub.handle_frame(&id("p1"), "not json");
    hub.handle_frame(&id("p1"), "{\"GameState\":{\"player_id\":\"p1\",\"score\":}}");
    assert!(hub.take_outbound(&id("p2")).is_empty());
    assert_eq!(hub.snapshot()[0].score, 0);
}

#[test]
fn game_state_message_updates_store_and_reaches_peers() {
    let mut hub = MultiplayerServer::new();
    hub.admit_player(id("p1"));
    hub.admit_player(id("p2"));
    hub.take_outbound(&id("p2"));
    hub.handle_message(&id("p1"), state("p1", 300));
    assert_eq!(hub.snapshot()[0].score, 300);
    assert_eq!(hub.take_outbound(&id("p2")), vec![state("p1", 300)]);
}

#[test]
fn admission_with_taken_id_is_refused() {
    let mut hub = MultiplayerServer::new();
    assert!(hub.admit_player(id("p1")));
    assert!(!hub.admit_player(id("p1")));
    assert_eq!(hub.snapshot().len(), 1);
}

#[test]
fn fresh_ids_are_distinct() {
    let mut hub = MultiplayerServer::new();
    let a = hub.admit_new().expect("fresh id");
    let b = hub.admit_new().expect("fresh id");
    assert_ne!(a, b);
    assert!(hub.is_registered(&a));
    assert!(hub.is_registered(&b));
    assert_eq!(hub.take_outbound(&b), vec![join(&b), state(&a, 0), join(&b)]);
}

#[test]
fn full_queue_drops_newest_broadcasts() {
    let mut hub = MultiplayerServer::new();
    hub.register(id("a"));
    hub.register(id("b"));
    for k in 0..(tetris::server::OUTBOUND_CAPACITY as i32 + 6) {
        hub.broadcast(&state("b", k), Some(&id("b")));
    }
    let q = hub.take_outbound(&id("a"));
    assert_eq!(q.len(), tetris::server::OUTBOUND_CAPACITY);
    assert_eq!(q[0], state("b", 0));
    assert_eq!(q[q.len() - 1], state("b", tetris::server::OUTBOUND_CAPACITY as i32 - 1));
    hub.broadcast(&state("b", 7), Some(&id("b")));
    assert_eq!(hub.take_outbound(&id("a")), vec![state("b", 7)]);
}
