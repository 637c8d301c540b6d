use rust_3d::input::{camera_moves, CameraKeys, CameraMove, InputState, KeyStates, WindowInput, KEY_COUNT};

const ESCAPE: usize = 36;

fn keys() -> CameraKeys {
    CameraKeys {
        left: 10,
        right: 13,
        forward: 32,
        backward: 28,
        down: 26,
        up: 14,
        pitch_up: 35,
        pitch_down: 33,
        yaw_left: 12,
        yaw_right: 31,
    }
}

#[test]
fn no_key_is_held_at_first() {
    let k = KeyStates::new();
    assert_eq!(k.len(), KEY_COUNT);
    assert!((0..KEY_COUNT).all(|c| !k.is_pressed(c)));
}

#[test]
fn press_and_release() {
    let mut k = KeyStates::new();
    k.press(5);
    assert!(k.is_pressed(5));
    assert!(!k.is_pressed(6));
    k.release(5);
    assert!(!k.is_pressed(5));
}

#[test]
fn closing_the_window_stops() {
    let mut s = InputState::new();
    assert!(s.running);
    s.handle(WindowInput::Closed, ESCAPE);
    assert!(!s.running);
}

#[test]
fn escape_stops() {
    let mut s = InputState::new();
    s.handle(WindowInput::KeyPressed { code: Some(10) }, ESCAPE);
    assert!(s.running);
    assert!(s.keys.is_pressed(10));
    s.handle(WindowInput::KeyPressed { code: Some(ESCAPE) }, ESCAPE);
    assert!(!s.running);
}

#[test]
fn releases_and_unknown_keys_keep_running() {
    let mut s = InputState::new();
    s.handle(WindowInput::KeyPressed { code: Some(3) }, ESCAPE);
    s.handle(WindowInput::KeyReleased { code: Some(3) }, ESCAPE);
    s.handle(WindowInput::KeyPressed { code: None }, ESCAPE);
    s.handle(WindowInput::Other, ESCAPE);
    assert!(s.running);
    assert!(!s.keys.is_pressed(3));
}

#[test]
fn stopped_stays_stopped() {
    let mut s = InputState::new();
    s.handle(WindowInput::Closed, ESCAPE);
    s.handle(WindowInput::KeyReleased { code: Some(ESCAPE) }, ESCAPE);
    s.handle(WindowInput::KeyPressed { code: Some(4) }, ESCAPE);
    assert!(!s.running);
}

#[test]
fn camera_moves_in_fixed_order() {
    let mut k = KeyStates::new();
    let c = keys();
    assert!(camera_moves(&k, &c).is_empty());
    k.press(c.yaw_right);
    k.press(c.left);
    k.press(c.up);
    assert_eq!(camera_moves(&k, &c), vec![CameraMove::Left, CameraMove::Up, CameraMove::YawRight]);
}

#[test]
fn all_camera_keys() {
    let mut k = KeyStates::new();
    let c = keys();
    for code in [c.left, c.right, c.forward, c.backward, c.down, c.up, c.pitch_up, c.pitch_down, c.yaw_left, c.yaw_right] {
        k.press(code);
    }
    assert_eq!(
        camera_moves(&k, &c),
        vec![
            CameraMove::Left,
            CameraMove::Right,
            CameraMove::Forward,
            CameraMove::Backward,
            CameraMove::Down,
            CameraMove::Up,
            CameraMove::PitchUp,
            CameraMove::PitchDown,
            CameraMove::YawLeft,
            CameraMove::YawRight
        ]
    );
}
