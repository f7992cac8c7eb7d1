use keymouse_monitor::counts::CountMap;
use keymouse_monitor::data::MonitorData;
use keymouse_monitor::listener::{
    event_name, hook_key_event, hook_mouse_event, raw_mouse_events, record_event, wheel_steps, InputEvent, ListenerKind,
};
use keymouse_monitor::maps::{Button, Key};

#[test]
fn listener_names() {
    assert_eq!(ListenerKind::from_str("RawInput", true), ListenerKind::RawInput);
    assert_eq!(ListenerKind::from_str("native", true), ListenerKind::Native);
    assert_eq!(ListenerKind::from_str("native", false), ListenerKind::Rdev);
    assert_eq!(ListenerKind::from_str("anything", true), ListenerKind::Rdev);
}

#[test]
fn event_names() {
    assert_eq!(event_name(&InputEvent::KeyRelease(Key::KeyA)), Some("a".to_string()));
    assert_eq!(event_name(&InputEvent::KeyPress(Key::KeyA)), None);
    assert_eq!(event_name(&InputEvent::ButtonPress(Button::Left)), Some("mouse_left".to_string()));
    assert_eq!(event_name(&InputEvent::ButtonRelease(Button::Left)), None);
    assert_eq!(event_name(&InputEvent::Wheel { delta_x: 0, delta_y: 1 }), Some("mouse_scroll_up".to_string()));
    assert_eq!(event_name(&InputEvent::Wheel { delta_x: 5, delta_y: -1 }), Some("mouse_scroll_down".to_string()));
    assert_eq!(event_name(&InputEvent::Wheel { delta_x: 1, delta_y: 0 }), Some("scroll_right_dir".to_string()));
    assert_eq!(event_name(&InputEvent::Wheel { delta_x: -1, delta_y: 0 }), Some("scroll_left_dir".to_string()));
    assert_eq!(event_name(&InputEvent::Wheel { delta_x: 0, delta_y: 0 }), None);
    assert_eq!(event_name(&InputEvent::Other), None);
}

#[test]
fn recording_events() {
    let mut data = MonitorData { base_counts: CountMap::new(), incremental_counts: CountMap::new(), today: "d".to_string() };
    assert!(record_event(&mut data, &InputEvent::KeyRelease(Key::Return), 1));
    assert!(!record_event(&mut data, &InputEvent::KeyRelease(Key::Return), 0));
    assert!(!record_event(&mut data, &InputEvent::KeyPress(Key::Return), 3));
    assert_eq!(data.incremental_counts.get("enter"), Some(&2));
    assert_eq!(data.incremental_counts.len(), 1);
}

#[test]
fn wheel_steps_round_toward_zero() {
    assert_eq!(wheel_steps(120), 1);
    assert_eq!(wheel_steps(-120), -1);
    assert_eq!(wheel_steps(-119), 0);
    assert_eq!(wheel_steps(240), 2);
    assert_eq!(wheel_steps(i16::MIN), (i16::MIN / 120) as i64);
}

#[test]
fn raw_input_mouse_flags() {
    assert_eq!(raw_mouse_events(0, 0), vec![]);
    assert_eq!(
        raw_mouse_events(0x0001 | 0x0008, 0),
        vec![InputEvent::ButtonPress(Button::Left), InputEvent::ButtonRelease(Button::Right)]
    );
    // Side buttons are X1 = 1 and X2 = 2 whatever the button data holds.
    assert_eq!(raw_mouse_events(0x0040, 0), vec![InputEvent::ButtonPress(Button::Unknown(1))]);
    assert_eq!(raw_mouse_events(0x0080, 0x0102), vec![InputEvent::ButtonRelease(Button::Unknown(1))]);
    assert_eq!(raw_mouse_events(0x0100, 0), vec![InputEvent::ButtonPress(Button::Unknown(2))]);
    assert_eq!(raw_mouse_events(0x0200, 7), vec![InputEvent::ButtonRelease(Button::Unknown(2))]);
    assert_eq!(raw_mouse_events(0x0400, (-240i16) as u16), vec![InputEvent::Wheel { delta_x: 0, delta_y: -2 }]);
    assert_eq!(raw_mouse_events(0x0800, 120), vec![InputEvent::Wheel { delta_x: 1, delta_y: 0 }]);
}

#[test]
fn hook_messages() {
    assert_eq!(hook_mouse_event(0x0201, 0), Some(InputEvent::ButtonPress(Button::Left)));
    assert_eq!(hook_mouse_event(0x0200, 0), None);
    assert_eq!(hook_mouse_event(0x020B, 2 << 16), Some(InputEvent::ButtonPress(Button::Unknown(2))));
    assert_eq!(hook_mouse_event(0x020A, ((-120i16) as u16 as u32) << 16), Some(InputEvent::Wheel { delta_x: 0, delta_y: -1 }));
    assert_eq!(hook_key_event(0x0101, Key::KeyA), Some(InputEvent::KeyRelease(Key::KeyA)));
    assert_eq!(hook_key_event(0x0104, Key::KeyA), Some(InputEvent::KeyPress(Key::KeyA)));
    assert_eq!(hook_key_event(0x0200, Key::KeyA), None);
}
