use clip_recorder::capturer::key_listener::KeyListener as HotkeyListener;
use clip_recorder::key_listener::{Key, KeyEvent, KeyListener};

#[test]
fn shortcut_fires_when_its_last_key_goes_down() {
    let mut l = KeyListener::new();
    l.register_shortcut(&[Key::Alt, Key::KeyM]);
    assert!(l.handle_event(KeyEvent::KeyPress(Key::Alt)).is_empty());
    assert_eq!(l.handle_event(KeyEvent::KeyPress(Key::KeyM)), vec![0]);
}

#[test]
fn shortcut_fires_again_on_each_press_while_held() {
    let mut l = KeyListener::new();
    l.register_shortcut(&[Key::Alt, Key::KeyM]);
    l.handle_event(KeyEvent::KeyPress(Key::Alt));
    assert_eq!(l.handle_event(KeyEvent::KeyPress(Key::KeyM)), vec![0]);
    // Another key going down while both are held fires it again.
    assert_eq!(l.handle_event(KeyEvent::KeyPress(Key::Other(7))), vec![0]);
}

#[test]
fn release_undoes_a_press() {
    let mut l = KeyListener::new();
    l.register_shortcut(&[Key::Alt, Key::KeyM]);
    l.handle_event(KeyEvent::KeyPress(Key::Alt));
    assert!(l.handle_event(KeyEvent::KeyRelease(Key::Alt)).is_empty());
    assert!(l.handle_event(KeyEvent::KeyPress(Key::KeyM)).is_empty());
}

#[test]
fn several_shortcuts_fire_in_registration_order() {
    let mut l = KeyListener::new();
    l.register_shortcut(&[Key::KeyN]);
    l.register_shortcut(&[Key::ControlLeft, Key::KeyN]);
    l.register_shortcut(&[Key::KeyM]);
    l.register_shortcut(&[Key::KeyN, Key::KeyN]);
    l.handle_event(KeyEvent::KeyPress(Key::ControlLeft));
    assert_eq!(l.handle_event(KeyEvent::KeyPress(Key::KeyN)), vec![0, 1, 3]);
}

#[test]
fn reset_forgets_held_keys_and_other_events_fire_nothing() {
    let mut l = KeyListener::new();
    l.register_shortcut(&[Key::Alt, Key::KeyM]);
    l.handle_event(KeyEvent::KeyPress(Key::Alt));
    assert!(l.handle_event(KeyEvent::Other).is_empty());
    l.reset_keys();
    assert!(l.handle_event(KeyEvent::KeyPress(Key::KeyM)).is_empty());
}

#[test]
fn hotkey_fires_once_per_press_of_n() {
    let mut h = HotkeyListener::new();
    assert!(!h.handle_event(KeyEvent::KeyPress(Key::ControlLeft)));
    assert!(h.handle_event(KeyEvent::KeyPress(Key::KeyN)));
    assert!(!h.handle_event(KeyEvent::KeyPress(Key::Other(1))));
    assert!(!h.handle_event(KeyEvent::KeyRelease(Key::KeyN)));
    assert!(h.handle_event(KeyEvent::KeyPress(Key::KeyN)));
}

#[test]
fn hotkey_needs_control_held() {
    let mut h = HotkeyListener::new();
    assert!(!h.handle_event(KeyEvent::KeyPress(Key::KeyN)));
    // N is still held, so Control going down completes the hotkey.
    assert!(h.handle_event(KeyEvent::KeyPress(Key::ControlLeft)));
    assert!(!h.handle_event(KeyEvent::KeyRelease(Key::ControlLeft)));
    assert!(!h.handle_event(KeyEvent::KeyPress(Key::KeyN)));
}
