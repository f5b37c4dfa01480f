use scawy::input::{KeyEvent, KeyboardInput};

fn ev(code: u8, pressed: bool) -> KeyEvent {
    KeyEvent { scancode: code as u32 + 100, code: Some(code), pressed, modifiers: 0 }
}

#[test]
fn press_hold_and_release() {
    let mut input = KeyboardInput::new();
    assert!(!input.pressed(4) && !input.held(4) && !input.released(4));
    let mut keys = vec![ev(4, true)];
    input.capture_keys(&mut keys);
    assert!(keys.is_empty());
    assert!(input.pressed(4) && input.held(4) && !input.released(4));
    input.capture_keys(&mut keys);
    assert!(!input.pressed(4) && input.held(4));
    keys.push(ev(4, false));
    input.capture_keys(&mut keys);
    assert!(input.released(4) && !input.held(4) && !input.pressed(4));
}

#[test]
fn newest_event_is_taken_first() {
    let mut input = KeyboardInput::new();
    let mut keys = vec![ev(9, true), ev(9, false)];
    input.capture_keys(&mut keys);
    assert!(input.held(9));
    let mut keys = vec![ev(9, true), ev(9, true), KeyEvent { scancode: 1, code: None, pressed: true, modifiers: 0 }];
    input.capture_keys(&mut keys);
    assert!(input.held(9) && !input.pressed(9));
}
