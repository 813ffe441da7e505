use tetris::input::KeyState;

#[test]
fn press_triggers_once_then_repeats_after_delay() {
    let mut k = KeyState { last_press_ms: 0, is_pressed: false, is_rotation: false };
    assert!(k.update_at(true, 1000));
    assert!(!k.update_at(true, 1100));
    assert!(!k.update_at(true, 1170));
    assert!(k.update_at(true, 1180));
    assert_eq!(k.last_press_ms, 1030);
    assert!(!k.update_at(true, 1200));
    assert!(k.update_at(true, 1210));
    assert!(!k.update_at(false, 1220));
    assert!(!k.is_pressed);
    assert_eq!(k.last_press_ms, 1220);
}

#[test]
fn rotation_key_repeats_slower() {
    let mut k = KeyState { last_press_ms: 0, is_pressed: false, is_rotation: true };
    assert!(k.update_at(true, 0));
    assert!(!k.update_at(true, 349));
    assert!(k.update_at(true, 350));
    assert_eq!(k.last_press_ms, 150);
}

#[test]
fn released_key_stays_quiet() {
    let mut k = KeyState::new(false);
    assert!(!k.is_pressed);
    assert!(!k.update(false));
    assert!(k.update(true));
    let d = KeyState::default();
    assert!(!d.is_rotation);
}
