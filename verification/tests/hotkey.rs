use open_flow::common::types::HotkeyEvent;
use open_flow::hotkey::{HotkeyListener, COMMAND_FLAG, FN_FLAG, RIGHT_COMMAND};

#[test]
fn right_command_by_flags() {
    let mut listener = HotkeyListener::new("right_cmd".to_string());
    assert_eq!(listener.key_name(), "Right Command");
    assert!(!listener.is_fn_key());
    // Another key's flags say nothing.
    assert_eq!(listener.on_flags_changed(0x37, COMMAND_FLAG), None);
    assert_eq!(listener.on_flags_changed(RIGHT_COMMAND, 0), None);
    assert_eq!(listener.on_flags_changed(RIGHT_COMMAND, COMMAND_FLAG | 1), Some(HotkeyEvent::Pressed));
    assert_eq!(listener.on_flags_changed(RIGHT_COMMAND, COMMAND_FLAG), None);
    assert_eq!(listener.on_flags_changed(0x37, 0), None);
    assert_eq!(listener.on_flags_changed(RIGHT_COMMAND, FN_FLAG), Some(HotkeyEvent::Released));
    assert_eq!(listener.on_flags_changed(RIGHT_COMMAND, 0), None);
    assert_eq!(listener.counts(), (1, 1));
}

#[test]
fn fn_key_by_flags() {
    let mut listener = HotkeyListener::new("fn".to_string());
    assert_eq!(listener.key_name(), "Fn");
    assert_eq!(listener.on_flags_changed(1, COMMAND_FLAG), None);
    assert_eq!(listener.on_flags_changed(RIGHT_COMMAND, 0x800000), Some(HotkeyEvent::Pressed));
    assert_eq!(listener.on_flags_changed(2, FN_FLAG | COMMAND_FLAG), None);
    assert_eq!(listener.on_flags_changed(3, COMMAND_FLAG), Some(HotkeyEvent::Released));
    assert_eq!(listener.counts(), (1, 1));
}

#[test]
fn key_repeats_are_suppressed() {
    let mut listener = HotkeyListener::new("right_cmd".to_string());
    let inputs = [
        ("right_cmd", false),
        ("right_cmd", true),
        ("right_cmd", true),
        ("a", true),
        ("right_cmd", true),
        ("right_cmd", false),
        ("right_cmd", false),
        ("right_cmd", true),
    ];
    let events: Vec<HotkeyEvent> =
        inputs.into_iter().filter_map(|(key, down)| listener.on_key(key, down)).collect();
    assert_eq!(
        events,
        vec![HotkeyEvent::Pressed, HotkeyEvent::Released, HotkeyEvent::Pressed]
    );
    assert_eq!(listener.counts(), (2, 1));
}

#[test]
fn other_keys_can_be_the_hotkey() {
    let mut listener = HotkeyListener::new("f13".to_string());
    assert_eq!(listener.key_name(), "f13");
    assert!(!listener.uses_flags() && !listener.is_fn_key());
    let inputs = [("f13", true), ("f13", false), ("right_cmd", true), ("right_cmd", false)];
    let events: Vec<HotkeyEvent> =
        inputs.into_iter().filter_map(|(key, down)| listener.on_key(key, down)).collect();
    assert_eq!(events, vec![HotkeyEvent::Pressed, HotkeyEvent::Released]);
    assert_eq!(listener.on_flags_changed(RIGHT_COMMAND, COMMAND_FLAG), None);
    assert_eq!(listener.on_flags_changed(RIGHT_COMMAND, FN_FLAG), None);
    assert_eq!(listener.counts(), (1, 1));
}

#[test]
fn the_fn_key_is_for_macos() {
    let fn_key = HotkeyListener::new("fn".to_string());
    assert!(fn_key.uses_flags());
    assert!(fn_key.needs_warning(false) && !fn_key.needs_warning(true));
    let right = HotkeyListener::new("right_cmd".to_string());
    assert!(right.uses_flags());
    assert!(!right.needs_warning(false));
}
