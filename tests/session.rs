use tetris::message::GameMessage;
use tetris::server::MultiplayerServer;
use tetris::session::{Session, SessionPhase};

#[test]
fn session_walks_through_its_phases() {
    let mut hub = MultiplayerServer::new();
    let mut s = Session::new();
    assert_eq!(s.phase, SessionPhase::Connecting);
    assert!(s.enter(&mut hub));
    assert_eq!(s.phase, SessionPhase::Admitted);
    let id = s.player_id.clone().unwrap();
    assert!(hub.is_registered(&id));
    assert!(!s.enter(&mut hub));
    s.activate();
    assert_eq!(s.phase, SessionPhase::Active);
    s.end(&mut hub);
    assert_eq!(s.phase, SessionPhase::Terminating);
    assert!(!hub.is_registered(&id));
    s.close();
    assert_eq!(s.phase, SessionPhase::Closed);
    s.activate();
    s.end(&mut hub);
    s.close();
    assert_eq!(s.phase, SessionPhase::Closed);
}

#[test]
fn only_active_sessions_forward_frames() {
    let mut hub = MultiplayerServer::new();
    let mut a = Session::new();
    let mut b = Session::new();
    a.enter(&mut hub);
    b.enter(&mut hub);
    let a_id = a.player_id.clone().unwrap();
    let b_id = b.player_id.clone().unwrap();
    hub.take_outbound(&b_id);
    let frame = format!("{{\"GameOver\":{{\"player_id\":\"{}\"}}}}", a_id);
    a.receive(&mut hub, &frame);
    assert!(hub.take_outbound(&b_id).is_empty());
    a.activate();
    a.receive(&mut hub, &frame);
    assert_eq!(hub.take_outbound(&b_id), vec![GameMessage::GameOver { player_id: a_id.clone() }]);
}

#[test]
fn departure_is_announced_once() {
    let mut hub = MultiplayerServer::new();
    let mut a = Session::new();
    let mut b = Session::new();
    a.enter(&mut hub);
    b.enter(&mut hub);
    a.activate();
    let a_id = a.player_id.clone().unwrap();
    let b_id = b.player_id.clone().unwrap();
    hub.take_outbound(&b_id);
    a.end(&mut hub);
    a.end(&mut hub);
    assert_eq!(hub.take_outbound(&b_id), vec![GameMessage::PlayerLeft { player_id: a_id }]);
}

#[test]
fn first_session_is_always_admitted() {
    let mut hub = MultiplayerServer::new();
    let mut s = Session::new();
    assert!(s.enter(&mut hub));
    assert!(hub.admit_new().is_some());
}
