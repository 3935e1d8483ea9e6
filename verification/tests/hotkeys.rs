use evdev::{EventType, KeyCode};
use goat_reuniao::hotkeys::{is_ptt_code, key_event_action, should_watch, HotkeyAction};

#[test]
fn recognizes_f1_and_mouse4_buttons() {
    assert!(is_ptt_code(KeyCode::KEY_F1.0));
    assert!(is_ptt_code(KeyCode::BTN_SIDE.0));
    assert!(is_ptt_code(KeyCode::BTN_EXTRA.0));
    assert!(!is_ptt_code(KeyCode::KEY_F2.0));
}

#[test]
fn key_events_map_to_actions() {
    let key = EventType::KEY.0;
    assert!(matches!(key_event_action(key, KeyCode::KEY_F1.0, 1), Some(HotkeyAction::PttPress)));
    assert!(matches!(key_event_action(key, KeyCode::BTN_SIDE.0, 0), Some(HotkeyAction::PttRelease)));
    assert!(key_event_action(key, KeyCode::KEY_F1.0, 2).is_none());
    assert!(matches!(key_event_action(key, KeyCode::KEY_F2.0, 1), Some(HotkeyAction::ToggleMeeting)));
    assert!(key_event_action(key, KeyCode::KEY_F2.0, 0).is_none());
    assert!(key_event_action(EventType::RELATIVE.0, KeyCode::KEY_F1.0, 1).is_none());
    assert!(key_event_action(key, KeyCode::KEY_A.0, 1).is_none());
}

#[test]
fn watches_keyboards_and_mice_with_side_buttons() {
    assert!(should_watch("event3", &Some(vec![KeyCode::KEY_A.0, KeyCode::KEY_B.0])));
    assert!(should_watch("event12", &Some(vec![KeyCode::BTN_EXTRA.0])));
    assert!(!should_watch("event4", &Some(vec![KeyCode::BTN_LEFT.0])));
    assert!(!should_watch("event5", &None));
    assert!(!should_watch("mouse0", &Some(vec![KeyCode::KEY_A.0])));
    assert!(!should_watch("ev", &Some(vec![KeyCode::KEY_A.0])));
}
