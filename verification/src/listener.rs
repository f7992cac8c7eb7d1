//! Input events: which listener to run, how the raw mouse data of Windows
//! becomes events, and how an event is counted.
use vstd::prelude::*;
use crate::data::MonitorData;
use crate::maps::{button_name, key_name, button_to_string, key_to_string, opt_string_view, Button, Key};
use crate::counts::count_of;
use crate::text::{all_ascii, ascii_lowercase, lowercase, str_eq, to_lowercase};

verus! {

/// The input listeners.
#[derive(Debug, Clone, Copy, PartialEq, Eq, Structural)]
pub enum ListenerKind {
    /// Windows low-level keyboard and mouse hooks.
    Native,
    /// Windows keyboard hook and Raw Input for the mouse.
    RawInput,
    /// The cross-platform `rdev` listener.
    Rdev,
}

/// The listener that a lowercased name selects on a platform: `native` and
/// `rawinput` exist on Windows only; anything else is `rdev`.
pub open spec fn listener_of(lower: Seq<char>, windows: bool) -> ListenerKind {
    if windows && lower == "native"@ {
        ListenerKind::Native
    } else if windows && lower == "rawinput"@ {
        ListenerKind::RawInput
    } else {
        ListenerKind::Rdev
    }
}

impl ListenerKind {
    /// Parses a listener name, ignoring case, for a platform that is Windows
    /// when `windows` holds.
    pub fn from_str(s: &str, windows: bool) -> (k: ListenerKind)
        ensures
            k == listener_of(lowercase(s@), windows),
            all_ascii(s@) ==> k == listener_of(ascii_lowercase(s@), windows),
    {
        let lower = to_lowercase(s);
        if windows && str_eq(lower.as_str(), "native") {
            ListenerKind::Native
        } else if windows && str_eq(lower.as_str(), "rawinput") {
            ListenerKind::RawInput
        } else {
            ListenerKind::Rdev
        }
    }
}

/// An input event, as the listeners report it.
#[derive(Debug, Clone, Copy, PartialEq, Eq)]
pub enum InputEvent {
    KeyPress(Key),
    KeyRelease(Key),
    ButtonPress(Button),
    ButtonRelease(Button),
    Wheel { delta_x: i64, delta_y: i64 },
    /// Anything that is not counted, such as a mouse move.
    Other,
}

/// The name under which an event is counted: released keys, pressed
/// buttons, and wheel turns by direction (vertical first); nothing else.
pub open spec fn event_name_spec(e: InputEvent) -> Option<Seq<char>> {
    match e {
        InputEvent::KeyRelease(k) => key_name(k),
        InputEvent::ButtonPress(b) => Some(button_name(b)),
        InputEvent::Wheel { delta_x, delta_y } => if delta_y > 0 {
            Some("mouse_scroll_up"@)
        } else if delta_y < 0 {
            Some("mouse_scroll_down"@)
        } else if delta_x > 0 {
            Some("scroll_right_dir"@)
        } else if delta_x < 0 {
            Some("scroll_left_dir"@)
        } else {
            None
        },
        _ => None,
    }
}

/// The name under which an event is counted, if it is counted.
pub fn event_name(e: &InputEvent) -> (name: Option<String>)
    ensures
        opt_string_view(name) == event_name_spec(*e),
{
    match e {
        InputEvent::KeyRelease(k) => key_to_string(k),
        InputEvent::ButtonPress(b) => button_to_string(b),
        InputEvent::Wheel { delta_x, delta_y } => {
            if *delta_y > 0 {
                Some("mouse_scroll_up".to_owned())
            } else if *delta_y < 0 {
                Some("mouse_scroll_down".to_owned())
            } else if *delta_x > 0 {
                Some("scroll_right_dir".to_owned())
            } else if *delta_x < 0 {
                Some("scroll_left_dir".to_owned())
            } else {
                None
            }
        },
        _ => None,
    }
}

/// Counts an event: a counted event adds one to its name's count. Tells
/// whether live clients must be told, which is when the event was counted
/// and at least one client is connected.
pub fn record_event(data: &mut MonitorData, e: &InputEvent, clients: usize) -> (notify: bool)
    requires
        event_name_spec(*e) matches Some(n) ==> count_of(old(data).incremental_counts@, n) < u64::MAX,
    ensures
        match event_name_spec(*e) {
            Some(n) => final(data).incremental_counts@ == old(data).incremental_counts@.insert(
                n,
                (count_of(old(data).incremental_counts@, n) + 1) as u64,
            ) && notify == (clients > 0),
            None => final(data).incremental_counts@ == old(data).incremental_counts@ && !notify,
        },
        final(data).base_counts@ == old(data).base_counts@,
        final(data).today == old(data).today,
{
    match event_name(e) {
        Some(name) => {
            data.increase_count(name.as_str());
            clients > 0
        },
        None => false,
    }
}

/// `a / b` rounded toward zero, as Rust's integer division does.
pub open spec fn div_toward_zero(a: int, b: int) -> int {
    if a >= 0 {
        a / b
    } else {
        -((-a) / b)
    }
}

/// The whole wheel steps (of 120 units) in a signed wheel delta, rounded
/// toward zero.
pub fn wheel_steps(delta: i16) -> (steps: i64)
    ensures
        steps == div_toward_zero(delta as int, 120),
{
    if delta >= 0 {
        (delta / 120) as i64
    } else {
        let m: i32 = -(delta as i32);
        -((m / 120) as i64)
    }
}

/// The signed value of the low 16 bits of `x`, as `x as i16` gives it.
pub open spec fn low_i16(x: int) -> int {
    let v = x % 65536;
    if v >= 32768 {
        v - 65536
    } else {
        v
    }
}

/// Reads the 16 bits of `data` as a signed wheel delta.
fn signed16(data: u16) -> (d: i16)
    ensures
        d == low_i16(data as int),
{
    if data >= 32768 {
        let v: i32 = (data as i32) - 65536;
        v as i16
    } else {
        data as i16
    }
}

/// The mouse button flags of a Raw Input record, as Windows defines them.
pub open spec fn raw_flag(bit: int) -> u32 {
    seq![0x0001u32, 0x0002, 0x0004, 0x0008, 0x0010, 0x0020, 0x0040, 0x0080, 0x0100, 0x0200, 0x0400, 0x0800][bit]
}

/// Whether `flags` has the flag of number `bit`.
pub open spec fn has_flag(flags: u32, bit: int) -> bool {
    flags & raw_flag(bit) != 0
}

/// The event that the flag of number `bit` stands for, with the record's
/// button data: presses and releases of the left, right and middle
/// buttons, of the side buttons (X1 is button 1 and X2 button 2 whatever
/// the data holds, since some systems always report 0 there), and turns of
/// the vertical and horizontal wheels.
pub open spec fn raw_flag_event(bit: int, data: u16) -> InputEvent {
    let steps = div_toward_zero(low_i16(data as int), 120) as i64;
    if bit == 0 {
        InputEvent::ButtonPress(Button::Left)
    } else if bit == 1 {
        InputEvent::ButtonRelease(Button::Left)
    } else if bit == 2 {
        InputEvent::ButtonPress(Button::Right)
    } else if bit == 3 {
        InputEvent::ButtonRelease(Button::Right)
    } else if bit == 4 {
        InputEvent::ButtonPress(Button::Middle)
    } else if bit == 5 {
        InputEvent::ButtonRelease(Button::Middle)
    } else if bit == 6 {
        InputEvent::ButtonPress(Button::Unknown(1))
    } else if bit == 7 {
        InputEvent::ButtonRelease(Button::Unknown(1))
    } else if bit == 8 {
        InputEvent::ButtonPress(Button::Unknown(2))
    } else if bit == 9 {
        InputEvent::ButtonRelease(Button::Unknown(2))
    } else if bit == 10 {
        InputEvent::Wheel { delta_x: 0, delta_y: steps }
    } else {
        InputEvent::Wheel { delta_x: steps, delta_y: 0 }
    }
}

/// The events of the flags numbered below `n`, in flag order.
pub open spec fn raw_events_upto(flags: u32, data: u16, n: int) -> Seq<InputEvent>
    decreases n,
{
    if n <= 0 {
        Seq::empty()
    } else {
        let prev = raw_events_upto(flags, data, n - 1);
        if has_flag(flags, n - 1) {
            prev.push(raw_flag_event(n - 1, data))
        } else {
            prev
        }
    }
}

/// The number of a mouse button in Windows' Raw Input flags: left, right,
/// middle, then the side buttons X1 and X2; the press flag of button `n` is
/// flag `2n` and its release flag `2n + 1`.
pub open spec fn raw_button_number(b: Button) -> Option<int> {
    match b {
        Button::Left => Some(0),
        Button::Right => Some(1),
        Button::Middle => Some(2),
        Button::Unknown(n) => if n == 1 {
            Some(3)
        } else if n == 2 {
            Some(4)
        } else {
            None
        },
    }
}

/// The low-level hook messages of a button's press and release
/// (`WM_LBUTTONDOWN` and the like), with the hook's mouse data that names a
/// side button.
pub open spec fn hook_button_messages(b: Button) -> (u32, u32, u32) {
    match b {
        Button::Left => (0x0201u32, 0x0202u32, 0u32),
        Button::Right => (0x0204u32, 0x0205u32, 0u32),
        Button::Middle => (0x0207u32, 0x0208u32, 0u32),
        Button::Unknown(n) => (0x020Bu32, 0x020Cu32, ((n as u32) * 65536) as u32),
    }
}

/// Law: in a Raw Input record that holds one button flag, the press flag of
/// each mouse button gives a press of that button and its release flag a
/// release of it, whatever the button data; and the low-level hook reports
/// the same event for the same button.
pub proof fn lemma_raw_button_flags(b: Button, data: u16)
    requires
        raw_button_number(b) is Some,
    ensures
        ({
            let n = raw_button_number(b).unwrap();
            &&& raw_events_upto(raw_flag(2 * n), data, 12) == seq![InputEvent::ButtonPress(b)]
            &&& raw_events_upto(raw_flag(2 * n + 1), data, 12) == seq![InputEvent::ButtonRelease(b)]
            &&& hook_mouse_event_spec(hook_button_messages(b).0, hook_button_messages(b).2) == Some(
                InputEvent::ButtonPress(b),
            )
            &&& hook_mouse_event_spec(hook_button_messages(b).1, hook_button_messages(b).2) == Some(
                InputEvent::ButtonRelease(b),
            )
        }),
{
    let n = raw_button_number(b).unwrap();
    lemma_single_flag(2 * n, data, 12);
    lemma_single_flag(2 * n + 1, data, 12);
}

/// Law: a Raw Input record that holds only a wheel flag gives one wheel
/// event, the same that the low-level hook gives for that wheel's message
/// with the same wheel data: turns of whole notches (120 units), rounded
/// toward zero, on the vertical or the horizontal axis; a turn of at least
/// one notch away from the user counts as a step up.
pub proof fn lemma_raw_wheel_flags(data: u16)
    ensures
        raw_events_upto(raw_flag(10), data, 12) == seq![hook_mouse_event_spec(0x020Au32, ((data as u32) * 65536) as u32).unwrap()],
        raw_events_upto(raw_flag(11), data, 12) == seq![hook_mouse_event_spec(0x020Eu32, ((data as u32) * 65536) as u32).unwrap()],
        raw_flag_event(10, data) matches InputEvent::Wheel { delta_x, delta_y } && delta_x == 0 && (120 <= low_i16(
            data as int,
        ) ==> delta_y >= 1) && (low_i16(data as int) <= -120 ==> delta_y <= -1),
{
    lemma_single_flag(10, data, 12);
    lemma_single_flag(11, data, 12);
    assert((((data as u32) * 65536) as u32) / 65536 == data as u32);
}

/// The flag values are the powers of two below 2^12.
proof fn lemma_flag_bits()
    by (bit_vector)
    ensures
        1u32 << 0u32 == 0x0001u32,
        1u32 << 1u32 == 0x0002u32,
        1u32 << 2u32 == 0x0004u32,
        1u32 << 3u32 == 0x0008u32,
        1u32 << 4u32 == 0x0010u32,
        1u32 << 5u32 == 0x0020u32,
        1u32 << 6u32 == 0x0040u32,
        1u32 << 7u32 == 0x0080u32,
        1u32 << 8u32 == 0x0100u32,
        1u32 << 9u32 == 0x0200u32,
        1u32 << 10u32 == 0x0400u32,
        1u32 << 11u32 == 0x0800u32,
        forall|j: u32, k: u32| j < 12 && k < 12 ==> (((1u32 << j) & (1u32 << k)) != 0u32) == (j == k),
{
}

/// A record that holds only flag `j` has the flag numbered `k` exactly when
/// `k` is `j`.
proof fn lemma_has_only(j: int, k: int)
    requires
        0 <= j < 12,
        0 <= k < 12,
    ensures
        has_flag(raw_flag(j), k) == (j == k),
{
    lemma_flag_bits();
    assert(raw_flag(j) == 1u32 << (j as u32));
    assert(raw_flag(k) == 1u32 << (k as u32));
}

/// The events of a record that holds only flag `j`: that flag's event, once
/// the flags up to it are read.
proof fn lemma_single_flag(j: int, data: u16, n: int)
    requires
        0 <= j < 12,
        0 <= n <= 12,
    ensures
        raw_events_upto(raw_flag(j), data, n) == if n > j {
            seq![raw_flag_event(j, data)]
        } else {
            Seq::<InputEvent>::empty()
        },
    decreases n,
{
    if n > 0 {
        lemma_single_flag(j, data, n - 1);
        lemma_has_only(j, n - 1);
    }
}

/// The events of a Raw Input mouse record with button flags `flags` and
/// button data `data`, one per flag set, in flag order.
pub fn raw_mouse_events(flags: u32, data: u16) -> (events: Vec<InputEvent>)
    ensures
        events@ == raw_events_upto(flags, data, 12),
{
    let mut events: Vec<InputEvent> = Vec::new();
    let steps = wheel_steps(signed16(data));
    let masks: [u32; 12] = [0x0001, 0x0002, 0x0004, 0x0008, 0x0010, 0x0020, 0x0040, 0x0080, 0x0100, 0x0200, 0x0400, 0x0800];
    assert forall|k: int| 0 <= k < 12 implies masks@[k] == raw_flag(k) by {
        assert(masks@ =~= seq![0x0001u32, 0x0002, 0x0004, 0x0008, 0x0010, 0x0020, 0x0040, 0x0080, 0x0100, 0x0200, 0x0400, 0x0800]);
    }
    let mut bit: usize = 0;
    while bit < 12
        invariant
            bit <= 12,
            forall|k: int| 0 <= k < 12 ==> masks@[k] == raw_flag(k),
            steps == div_toward_zero(low_i16(data as int), 120) as i64,
            events@ == raw_events_upto(flags, data, bit as int),
        decreases 12 - bit,
    {
        assert(masks@[bit as int] == raw_flag(bit as int));
        if flags & masks[bit] != 0 {
            let e = if bit == 0 {
                InputEvent::ButtonPress(Button::Left)
            } else if bit == 1 {
                InputEvent::ButtonRelease(Button::Left)
            } else if bit == 2 {
                InputEvent::ButtonPress(Button::Right)
            } else if bit == 3 {
                InputEvent::ButtonRelease(Button::Right)
            } else if bit == 4 {
                InputEvent::ButtonPress(Button::Middle)
            } else if bit == 5 {
                InputEvent::ButtonRelease(Button::Middle)
            } else if bit == 6 {
                InputEvent::ButtonPress(Button::Unknown(1))
            } else if bit == 7 {
                InputEvent::ButtonRelease(Button::Unknown(1))
            } else if bit == 8 {
                InputEvent::ButtonPress(Button::Unknown(2))
            } else if bit == 9 {
                InputEvent::ButtonRelease(Button::Unknown(2))
            } else if bit == 10 {
                InputEvent::Wheel { delta_x: 0, delta_y: steps }
            } else {
                InputEvent::Wheel { delta_x: steps, delta_y: 0 }
            };
            assert(e == raw_flag_event(bit as int, data));
            events.push(e);
        }
        bit = bit + 1;
    }
    events
}

/// The mouse event that a low-level mouse hook message stands for, with the
/// hook's mouse data: button presses and releases (side buttons numbered
/// by the data's high word), wheel turns, nothing for moves and others.
pub open spec fn hook_mouse_event_spec(msg: u32, mouse_data: u32) -> Option<InputEvent> {
    let high = (mouse_data / 65536) as int;
    let side = Button::Unknown((high % 256) as u8);
    let steps = div_toward_zero(low_i16(high), 120) as i64;
    if msg == 0x0201 {
        Some(InputEvent::ButtonPress(Button::Left))
    } else if msg == 0x0202 {
        Some(InputEvent::ButtonRelease(Button::Left))
    } else if msg == 0x0204 {
        Some(InputEvent::ButtonPress(Button::Right))
    } else if msg == 0x0205 {
        Some(InputEvent::ButtonRelease(Button::Right))
    } else if msg == 0x0207 {
        Some(InputEvent::ButtonPress(Button::Middle))
    } else if msg == 0x0208 {
        Some(InputEvent::ButtonRelease(Button::Middle))
    } else if msg == 0x020B {
        Some(InputEvent::ButtonPress(side))
    } else if msg == 0x020C {
        Some(InputEvent::ButtonRelease(side))
    } else if msg == 0x020A {
        Some(InputEvent::Wheel { delta_x: 0, delta_y: steps })
    } else if msg == 0x020E {
        Some(InputEvent::Wheel { delta_x: steps, delta_y: 0 })
    } else {
        None
    }
}

/// The mouse event of a low-level mouse hook message (`WM_LBUTTONDOWN` and
/// the like), or none.
pub fn hook_mouse_event(msg: u32, mouse_data: u32) -> (e: Option<InputEvent>)
    ensures
        e == hook_mouse_event_spec(msg, mouse_data),
{
    let high: u16 = (mouse_data / 65536) as u16;
    let side = Button::Unknown((high % 256) as u8);
    let steps = wheel_steps(signed16(high));
    if msg == 0x0201 {
        Some(InputEvent::ButtonPress(Button::Left))
    } else if msg == 0x0202 {
        Some(InputEvent::ButtonRelease(Button::Left))
    } else if msg == 0x0204 {
        Some(InputEvent::ButtonPress(Button::Right))
    } else if msg == 0x0205 {
        Some(InputEvent::ButtonRelease(Button::Right))
    } else if msg == 0x0207 {
        Some(InputEvent::ButtonPress(Button::Middle))
    } else if msg == 0x0208 {
        Some(InputEvent::ButtonRelease(Button::Middle))
    } else if msg == 0x020B {
        Some(InputEvent::ButtonPress(side))
    } else if msg == 0x020C {
        Some(InputEvent::ButtonRelease(side))
    } else if msg == 0x020A {
        Some(InputEvent::Wheel { delta_x: 0, delta_y: steps })
    } else if msg == 0x020E {
        Some(InputEvent::Wheel { delta_x: steps, delta_y: 0 })
    } else {
        None
    }
}

/// Whether a low-level keyboard hook message is a key press
/// (`WM_KEYDOWN`, `WM_SYSKEYDOWN`), a release (`WM_KEYUP`, `WM_SYSKEYUP`),
/// or neither, with the key that the hook resolved.
pub fn hook_key_event(msg: u32, key: Key) -> (e: Option<InputEvent>)
    ensures
        e == if msg == 0x0100 || msg == 0x0104 {
            Some(InputEvent::KeyPress(key))
        } else if msg == 0x0101 || msg == 0x0105 {
            Some(InputEvent::KeyRelease(key))
        } else {
            None
        },
{
    if msg == 0x0100 || msg == 0x0104 {
        Some(InputEvent::KeyPress(key))
    } else if msg == 0x0101 || msg == 0x0105 {
        Some(InputEvent::KeyRelease(key))
    } else {
        None
    }
}

} // verus!
