//! Names under which key presses and mouse buttons are counted.
use vstd::prelude::*;
use crate::text::{chars_of, decimal, push_decimal, string_of};

verus! {

/// A keyboard key, as reported by the input listeners.
#[derive(Debug, Clone, Copy, PartialEq, Eq)]
pub enum Key {
    Alt,
    AltGr,
    Backspace,
    CapsLock,
    ControlLeft,
    ControlRight,
    Delete,
    DownArrow,
    End,
    Escape,
    F1,
    F10,
    F11,
    F12,
    F2,
    F3,
    F4,
    F5,
    F6,
    F7,
    F8,
    F9,
    Home,
    LeftArrow,
    MetaLeft,
    MetaRight,
    PageDown,
    PageUp,
    Return,
    RightArrow,
    ShiftLeft,
    ShiftRight,
    Space,
    Tab,
    UpArrow,
    PrintScreen,
    ScrollLock,
    Pause,
    NumLock,
    BackQuote,
    Num1,
    Num2,
    Num3,
    Num4,
    Num5,
    Num6,
    Num7,
    Num8,
    Num9,
    Num0,
    Minus,
    Equal,
    KeyQ,
    KeyW,
    KeyE,
    KeyR,
    KeyT,
    KeyY,
    KeyU,
    KeyI,
    KeyO,
    KeyP,
    LeftBracket,
    RightBracket,
    KeyA,
    KeyS,
    KeyD,
    KeyF,
    KeyG,
    KeyH,
    KeyJ,
    KeyK,
    KeyL,
    SemiColon,
    Quote,
    BackSlash,
    IntlBackslash,
    KeyZ,
    KeyX,
    KeyC,
    KeyV,
    KeyB,
    KeyN,
    KeyM,
    Comma,
    Dot,
    Slash,
    Insert,
    KpReturn,
    KpMinus,
    KpPlus,
    KpMultiply,
    KpDivide,
    Kp0,
    Kp1,
    Kp2,
    Kp3,
    Kp4,
    Kp5,
    Kp6,
    Kp7,
    Kp8,
    Kp9,
    KpDelete,
    Function,
    Unknown(u32),
}

/// A mouse button, as reported by the input listeners.
#[derive(Debug, Clone, Copy, PartialEq, Eq)]
pub enum Button {
    Left,
    Right,
    Middle,
    Unknown(u8),
}

/// The name counted for a Windows virtual-key code, if it has one.
pub open spec fn vk_name(vk: u32) -> Option<Seq<char>> {
    match vk {
        48u32 => Some("0"@),
        49u32 => Some("1"@),
        50u32 => Some("2"@),
        51u32 => Some("3"@),
        52u32 => Some("4"@),
        53u32 => Some("5"@),
        54u32 => Some("6"@),
        55u32 => Some("7"@),
        56u32 => Some("8"@),
        57u32 => Some("9"@),
        96u32 => Some("numpad0"@),
        97u32 => Some("numpad1"@),
        98u32 => Some("numpad2"@),
        99u32 => Some("numpad3"@),
        100u32 => Some("numpad4"@),
        101u32 => Some("numpad5"@),
        102u32 => Some("numpad6"@),
        103u32 => Some("numpad7"@),
        104u32 => Some("numpad8"@),
        105u32 => Some("numpad9"@),
        106u32 => Some("numpad_multiply"@),
        107u32 => Some("numpad_add"@),
        109u32 => Some("numpad_subtract"@),
        110u32 => Some("numpad_decimal"@),
        111u32 => Some("numpad_divide"@),
        144u32 => Some("numpad_lock"@),
        65u32 => Some("a"@),
        66u32 => Some("b"@),
        67u32 => Some("c"@),
        68u32 => Some("d"@),
        69u32 => Some("e"@),
        70u32 => Some("f"@),
        71u32 => Some("g"@),
        72u32 => Some("h"@),
        73u32 => Some("i"@),
        74u32 => Some("j"@),
        75u32 => Some("k"@),
        76u32 => Some("l"@),
        77u32 => Some("m"@),
        78u32 => Some("n"@),
        79u32 => Some("o"@),
        80u32 => Some("p"@),
        81u32 => Some("q"@),
        82u32 => Some("r"@),
        83u32 => Some("s"@),
        84u32 => Some("t"@),
        85u32 => Some("u"@),
        86u32 => Some("v"@),
        87u32 => Some("w"@),
        88u32 => Some("x"@),
        89u32 => Some("y"@),
        90u32 => Some("z"@),
        91u32 => Some("meta"@),
        19u32 => Some("pause"@),
        34u32 => Some("page_down"@),
        33u32 => Some("page_up"@),
        35u32 => Some("end"@),
        36u32 => Some("home"@),
        237u32 => Some("fn"@),
        8u32 => Some("backspace"@),
        9u32 => Some("tab"@),
        13u32 => Some("enter"@),
        20u32 => Some("caps_lock"@),
        27u32 => Some("esc"@),
        32u32 => Some("space"@),
        16u32 => Some("shift"@),
        160u32 => Some("shift_l"@),
        161u32 => Some("shift_r"@),
        17u32 => Some("ctrl"@),
        162u32 => Some("ctrl_l"@),
        163u32 => Some("ctrl_r"@),
        18u32 => Some("alt"@),
        164u32 => Some("alt_l"@),
        165u32 => Some("alt_r"@),
        93u32 => Some("menu"@),
        186u32 => Some(";"@),
        187u32 => Some("="@),
        188u32 => Some(","@),
        189u32 => Some("-"@),
        190u32 => Some("."@),
        191u32 => Some("/"@),
        192u32 => Some("`"@),
        219u32 => Some("["@),
        220u32 => Some("backslash"@),
        221u32 => Some("]"@),
        222u32 => Some("'"@),
        112u32 => Some("f1"@),
        113u32 => Some("f2"@),
        114u32 => Some("f3"@),
        115u32 => Some("f4"@),
        116u32 => Some("f5"@),
        117u32 => Some("f6"@),
        118u32 => Some("f7"@),
        119u32 => Some("f8"@),
        120u32 => Some("f9"@),
        121u32 => Some("f10"@),
        122u32 => Some("f11"@),
        123u32 => Some("f12"@),
        _ => None,
    }
}

/// The name counted for a key, if it has one.
pub open spec fn key_name(key: Key) -> Option<Seq<char>> {
    match key {
        Key::Alt => Some("alt_l"@),
        Key::AltGr => Some("alt_r"@),
        Key::Backspace => Some("backspace"@),
        Key::CapsLock => Some("caps_lock"@),
        Key::ControlLeft => Some("ctrl_l"@),
        Key::ControlRight => Some("ctrl_r"@),
        Key::Delete => Some("delete"@),
        Key::DownArrow => Some("down"@),
        Key::End => Some("end"@),
        Key::Escape => Some("esc"@),
        Key::F1 => Some("f1"@),
        Key::F2 => Some("f2"@),
        Key::F3 => Some("f3"@),
        Key::F4 => Some("f4"@),
        Key::F5 => Some("f5"@),
        Key::F6 => Some("f6"@),
        Key::F7 => Some("f7"@),
        Key::F8 => Some("f8"@),
        Key::F9 => Some("f9"@),
        Key::F10 => Some("f10"@),
        Key::F11 => Some("f11"@),
        Key::F12 => Some("f12"@),
        Key::Home => Some("home"@),
        Key::Insert => Some("insert"@),
        Key::LeftArrow => Some("left"@),
        Key::MetaLeft => Some("meta"@),
        Key::MetaRight => Some("meta_r"@),
        Key::NumLock => Some("numpad_lock"@),
        Key::PageDown => Some("page_down"@),
        Key::PageUp => Some("page_up"@),
        Key::Pause => Some("pause"@),
        Key::PrintScreen => Some("print_screen"@),
        Key::Return => Some("enter"@),
        Key::RightArrow => Some("right"@),
        Key::ScrollLock => Some("scroll_lock"@),
        Key::ShiftLeft => Some("shift_l"@),
        Key::ShiftRight => Some("shift_r"@),
        Key::Space => Some("space"@),
        Key::Tab => Some("tab"@),
        Key::UpArrow => Some("up"@),
        Key::KeyA => Some("a"@),
        Key::KeyB => Some("b"@),
        Key::KeyC => Some("c"@),
        Key::KeyD => Some("d"@),
        Key::KeyE => Some("e"@),
        Key::KeyF => Some("f"@),
        Key::KeyG => Some("g"@),
        Key::KeyH => Some("h"@),
        Key::KeyI => Some("i"@),
        Key::KeyJ => Some("j"@),
        Key::KeyK => Some("k"@),
        Key::KeyL => Some("l"@),
        Key::KeyM => Some("m"@),
        Key::KeyN => Some("n"@),
        Key::KeyO => Some("o"@),
        Key::KeyP => Some("p"@),
        Key::KeyQ => Some("q"@),
        Key::KeyR => Some("r"@),
        Key::KeyS => Some("s"@),
        Key::KeyT => Some("t"@),
        Key::KeyU => Some("u"@),
        Key::KeyV => Some("v"@),
        Key::KeyW => Some("w"@),
        Key::KeyX => Some("x"@),
        Key::KeyY => Some("y"@),
        Key::KeyZ => Some("z"@),
        Key::Num0 => Some("0"@),
        Key::Num1 => Some("1"@),
        Key::Num2 => Some("2"@),
        Key::Num3 => Some("3"@),
        Key::Num4 => Some("4"@),
        Key::Num5 => Some("5"@),
        Key::Num6 => Some("6"@),
        Key::Num7 => Some("7"@),
        Key::Num8 => Some("8"@),
        Key::Num9 => Some("9"@),
        Key::BackQuote => Some("`"@),
        Key::Minus => Some("-"@),
        Key::Equal => Some("="@),
        Key::LeftBracket => Some("["@),
        Key::RightBracket => Some("]"@),
        Key::SemiColon => Some(";"@),
        Key::Quote => Some("'"@),
        Key::BackSlash => Some("backslash"@),
        Key::IntlBackslash => Some("intl_backslash"@),
        Key::Comma => Some(","@),
        Key::Dot => Some("."@),
        Key::Slash => Some("/"@),
        Key::Kp0 => Some("numpad0"@),
        Key::Kp1 => Some("numpad1"@),
        Key::Kp2 => Some("numpad2"@),
        Key::Kp3 => Some("numpad3"@),
        Key::Kp4 => Some("numpad4"@),
        Key::Kp5 => Some("numpad5"@),
        Key::Kp6 => Some("numpad6"@),
        Key::Kp7 => Some("numpad7"@),
        Key::Kp8 => Some("numpad8"@),
        Key::Kp9 => Some("numpad9"@),
        Key::KpReturn => Some("numpad_enter"@),
        Key::KpMinus => Some("numpad_subtract"@),
        Key::KpPlus => Some("numpad_add"@),
        Key::KpMultiply => Some("numpad_multiply"@),
        Key::KpDivide => Some("numpad_divide"@),
        Key::KpDelete => Some("numpad_decimal"@),
        Key::Function => Some("fn"@),
        Key::Unknown(vk) => vk_name(vk),
    }
}

/// The name counted for a mouse button: side buttons 1 and 2 are `mouse_x1`
/// and `mouse_x2`, other unknown buttons carry their number.
pub open spec fn button_name(button: Button) -> Seq<char> {
    match button {
        Button::Left => "mouse_left"@,
        Button::Right => "mouse_right"@,
        Button::Middle => "mouse_middle"@,
        Button::Unknown(n) => if n == 1 {
            "mouse_x1"@
        } else if n == 2 {
            "mouse_x2"@
        } else {
            "mouse_unknown_"@ + decimal(n as nat)
        },
    }
}

/// The view of an optional owned name.
pub open spec fn opt_string_view(o: Option<String>) -> Option<Seq<char>> {
    match o {
        Some(s) => Some(s@),
        None => None,
    }
}

/// The view of an optional borrowed name.
pub open spec fn opt_str_view(o: Option<&str>) -> Option<Seq<char>> {
    match o {
        Some(s) => Some(s@),
        None => None,
    }
}

/// The Windows virtual-key code of a key, as the low-level keyboard hook
/// reports it; none for a key that has no code of its own (the numpad's
/// Enter shares the main Enter's code) and for an unknown key.
pub open spec fn key_vk(key: Key) -> Option<u32> {
    match key {
        Key::Alt => Some(164u32),
        Key::AltGr => Some(165u32),
        Key::Backspace => Some(8u32),
        Key::CapsLock => Some(20u32),
        Key::ControlLeft => Some(162u32),
        Key::ControlRight => Some(163u32),
        Key::Delete => Some(46u32),
        Key::DownArrow => Some(40u32),
        Key::End => Some(35u32),
        Key::Escape => Some(27u32),
        Key::F1 => Some(112u32),
        Key::F2 => Some(113u32),
        Key::F3 => Some(114u32),
        Key::F4 => Some(115u32),
        Key::F5 => Some(116u32),
        Key::F6 => Some(117u32),
        Key::F7 => Some(118u32),
        Key::F8 => Some(119u32),
        Key::F9 => Some(120u32),
        Key::F10 => Some(121u32),
        Key::F11 => Some(122u32),
        Key::F12 => Some(123u32),
        Key::Home => Some(36u32),
        Key::Insert => Some(45u32),
        Key::LeftArrow => Some(37u32),
        Key::MetaLeft => Some(91u32),
        Key::MetaRight => Some(92u32),
        Key::NumLock => Some(144u32),
        Key::PageDown => Some(34u32),
        Key::PageUp => Some(33u32),
        Key::Pause => Some(19u32),
        Key::PrintScreen => Some(44u32),
        Key::Return => Some(13u32),
        Key::RightArrow => Some(39u32),
        Key::ScrollLock => Some(145u32),
        Key::ShiftLeft => Some(160u32),
        Key::ShiftRight => Some(161u32),
        Key::Space => Some(32u32),
        Key::Tab => Some(9u32),
        Key::UpArrow => Some(38u32),
        Key::KeyA => Some(65u32),
        Key::KeyB => Some(66u32),
        Key::KeyC => Some(67u32),
        Key::KeyD => Some(68u32),
        Key::KeyE => Some(69u32),
        Key::KeyF => Some(70u32),
        Key::KeyG => Some(71u32),
        Key::KeyH => Some(72u32),
        Key::KeyI => Some(73u32),
        Key::KeyJ => Some(74u32),
        Key::KeyK => Some(75u32),
        Key::KeyL => Some(76u32),
        Key::KeyM => Some(77u32),
        Key::KeyN => Some(78u32),
        Key::KeyO => Some(79u32),
        Key::KeyP => Some(80u32),
        Key::KeyQ => Some(81u32),
        Key::KeyR => Some(82u32),
        Key::KeyS => Some(83u32),
        Key::KeyT => Some(84u32),
        Key::KeyU => Some(85u32),
        Key::KeyV => Some(86u32),
        Key::KeyW => Some(87u32),
        Key::KeyX => Some(88u32),
        Key::KeyY => Some(89u32),
        Key::KeyZ => Some(90u32),
        Key::Num0 => Some(48u32),
        Key::Num1 => Some(49u32),
        Key::Num2 => Some(50u32),
        Key::Num3 => Some(51u32),
        Key::Num4 => Some(52u32),
        Key::Num5 => Some(53u32),
        Key::Num6 => Some(54u32),
        Key::Num7 => Some(55u32),
        Key::Num8 => Some(56u32),
        Key::Num9 => Some(57u32),
        Key::BackQuote => Some(192u32),
        Key::Minus => Some(189u32),
        Key::Equal => Some(187u32),
        Key::LeftBracket => Some(219u32),
        Key::RightBracket => Some(221u32),
        Key::SemiColon => Some(186u32),
        Key::Quote => Some(222u32),
        Key::BackSlash => Some(220u32),
        Key::IntlBackslash => Some(226u32),
        Key::Comma => Some(188u32),
        Key::Dot => Some(190u32),
        Key::Slash => Some(191u32),
        Key::Kp0 => Some(96u32),
        Key::Kp1 => Some(97u32),
        Key::Kp2 => Some(98u32),
        Key::Kp3 => Some(99u32),
        Key::Kp4 => Some(100u32),
        Key::Kp5 => Some(101u32),
        Key::Kp6 => Some(102u32),
        Key::Kp7 => Some(103u32),
        Key::Kp8 => Some(104u32),
        Key::Kp9 => Some(105u32),
        Key::KpMinus => Some(109u32),
        Key::KpPlus => Some(107u32),
        Key::KpMultiply => Some(106u32),
        Key::KpDivide => Some(111u32),
        Key::KpDelete => Some(110u32),
        Key::Function => Some(237u32),
        _ => None,
    }
}

/// A fingerprint of a name: its length, first and last character.
pub open spec fn name_print(s: Seq<char>) -> (int, int, int) {
    (s.len() as int, (s[0] as u32) as int, (s[s.len() - 1] as u32) as int)
}

/// The key whose name has the fingerprint `t`, if any.
spec fn key_of_print(t: (int, int, int)) -> Option<Key> {
    if false {
        None
    } else if t == (5int, 97int, 108int) {
        Some(Key::Alt)
    } else if t == (5int, 97int, 114int) {
        Some(Key::AltGr)
    } else if t == (9int, 98int, 101int) {
        Some(Key::Backspace)
    } else if t == (9int, 99int, 107int) {
        Some(Key::CapsLock)
    } else if t == (6int, 99int, 108int) {
        Some(Key::ControlLeft)
    } else if t == (6int, 99int, 114int) {
        Some(Key::ControlRight)
    } else if t == (6int, 100int, 101int) {
        Some(Key::Delete)
    } else if t == (4int, 100int, 110int) {
        Some(Key::DownArrow)
    } else if t == (3int, 101int, 100int) {
        Some(Key::End)
    } else if t == (3int, 101int, 99int) {
        Some(Key::Escape)
    } else if t == (2int, 102int, 49int) {
        Some(Key::F1)
    } else if t == (2int, 102int, 50int) {
        Some(Key::F2)
    } else if t == (2int, 102int, 51int) {
        Some(Key::F3)
    } else if t == (2int, 102int, 52int) {
        Some(Key::F4)
    } else if t == (2int, 102int, 53int) {
        Some(Key::F5)
    } else if t == (2int, 102int, 54int) {
        Some(Key::F6)
    } else if t == (2int, 102int, 55int) {
        Some(Key::F7)
    } else if t == (2int, 102int, 56int) {
        Some(Key::F8)
    } else if t == (2int, 102int, 57int) {
        Some(Key::F9)
    } else if t == (3int, 102int, 48int) {
        Some(Key::F10)
    } else if t == (3int, 102int, 49int) {
        Some(Key::F11)
    } else if t == (3int, 102int, 50int) {
        Some(Key::F12)
    } else if t == (4int, 104int, 101int) {
        Some(Key::Home)
    } else if t == (6int, 105int, 116int) {
        Some(Key::Insert)
    } else if t == (4int, 108int, 116int) {
        Some(Key::LeftArrow)
    } else if t == (4int, 109int, 97int) {
        Some(Key::MetaLeft)
    } else if t == (6int, 109int, 114int) {
        Some(Key::MetaRight)
    } else if t == (11int, 110int, 107int) {
        Some(Key::NumLock)
    } else if t == (9int, 112int, 110int) {
        Some(Key::PageDown)
    } else if t == (7int, 112int, 112int) {
        Some(Key::PageUp)
    } else if t == (5int, 112int, 101int) {
        Some(Key::Pause)
    } else if t == (12int, 112int, 110int) {
        Some(Key::PrintScreen)
    } else if t == (5int, 101int, 114int) {
        Some(Key::Return)
    } else if t == (5int, 114int, 116int) {
        Some(Key::RightArrow)
    } else if t == (11int, 115int, 107int) {
        Some(Key::ScrollLock)
    } else if t == (7int, 115int, 108int) {
        Some(Key::ShiftLeft)
    } else if t == (7int, 115int, 114int) {
        Some(Key::ShiftRight)
    } else if t == (5int, 115int, 101int) {
        Some(Key::Space)
    } else if t == (3int, 116int, 98int) {
        Some(Key::Tab)
    } else if t == (2int, 117int, 112int) {
        Some(Key::UpArrow)
    } else if t == (1int, 97int, 97int) {
        Some(Key::KeyA)
    } else if t == (1int, 98int, 98int) {
        Some(Key::KeyB)
    } else if t == (1int, 99int, 99int) {
        Some(Key::KeyC)
    } else if t == (1int, 100int, 100int) {
        Some(Key::KeyD)
    } else if t == (1int, 101int, 101int) {
        Some(Key::KeyE)
    } else if t == (1int, 102int, 102int) {
        Some(Key::KeyF)
    } else if t == (1int, 103int, 103int) {
        Some(Key::KeyG)
    } else if t == (1int, 104int, 104int) {
        Some(Key::KeyH)
    } else if t == (1int, 105int, 105int) {
        Some(Key::KeyI)
    } else if t == (1int, 106int, 106int) {
        Some(Key::KeyJ)
    } else if t == (1int, 107int, 107int) {
        Some(Key::KeyK)
    } else if t == (1int, 108int, 108int) {
        Some(Key::KeyL)
    } else if t == (1int, 109int, 109int) {
        Some(Key::KeyM)
    } else if t == (1int, 110int, 110int) {
        Some(Key::KeyN)
    } else if t == (1int, 111int, 111int) {
        Some(Key::KeyO)
    } else if t == (1int, 112int, 112int) {
        Some(Key::KeyP)
    } else if t == (1int, 113int, 113int) {
        Some(Key::KeyQ)
    } else if t == (1int, 114int, 114int) {
        Some(Key::KeyR)
    } else if t == (1int, 115int, 115int) {
        Some(Key::KeyS)
    } else if t == (1int, 116int, 116int) {
        Some(Key::KeyT)
    } else if t == (1int, 117int, 117int) {
        Some(Key::KeyU)
    } else if t == (1int, 118int, 118int) {
        Some(Key::KeyV)
    } else if t == (1int, 119int, 119int) {
        Some(Key::KeyW)
    } else if t == (1int, 120int, 120int) {
        Some(Key::KeyX)
    } else if t == (1int, 121int, 121int) {
        Some(Key::KeyY)
    } else if t == (1int, 122int, 122int) {
        Some(Key::KeyZ)
    } else if t == (1int, 48int, 48int) {
        Some(Key::Num0)
    } else if t == (1int, 49int, 49int) {
        Some(Key::Num1)
    } else if t == (1int, 50int, 50int) {
        Some(Key::Num2)
    } else if t == (1int, 51int, 51int) {
        Some(Key::Num3)
    } else if t == (1int, 52int, 52int) {
        Some(Key::Num4)
    } else if t == (1int, 53int, 53int) {
        Some(Key::Num5)
    } else if t == (1int, 54int, 54int) {
        Some(Key::Num6)
    } else if t == (1int, 55int, 55int) {
        Some(Key::Num7)
    } else if t == (1int, 56int, 56int) {
        Some(Key::Num8)
    } else if t == (1int, 57int, 57int) {
        Some(Key::Num9)
    } else if t == (1int, 96int, 96int) {
        Some(Key::BackQuote)
    } else if t == (1int, 45int, 45int) {
        Some(Key::Minus)
    } else if t == (1int, 61int, 61int) {
        Some(Key::Equal)
    } else if t == (1int, 91int, 91int) {
        Some(Key::LeftBracket)
    } else if t == (1int, 93int, 93int) {
        Some(Key::RightBracket)
    } else if t == (1int, 59int, 59int) {
        Some(Key::SemiColon)
    } else if t == (1int, 39int, 39int) {
        Some(Key::Quote)
    } else if t == (9int, 98int, 104int) {
        Some(Key::BackSlash)
    } else if t == (14int, 105int, 104int) {
        Some(Key::IntlBackslash)
    } else if t == (1int, 44int, 44int) {
        Some(Key::Comma)
    } else if t == (1int, 46int, 46int) {
        Some(Key::Dot)
    } else if t == (1int, 47int, 47int) {
        Some(Key::Slash)
    } else if t == (7int, 110int, 48int) {
        Some(Key::Kp0)
    } else if t == (7int, 110int, 49int) {
        Some(Key::Kp1)
    } else if t == (7int, 110int, 50int) {
        Some(Key::Kp2)
    } else if t == (7int, 110int, 51int) {
        Some(Key::Kp3)
    } else if t == (7int, 110int, 52int) {
        Some(Key::Kp4)
    } else if t == (7int, 110int, 53int) {
        Some(Key::Kp5)
    } else if t == (7int, 110int, 54int) {
        Some(Key::Kp6)
    } else if t == (7int, 110int, 55int) {
        Some(Key::Kp7)
    } else if t == (7int, 110int, 56int) {
        Some(Key::Kp8)
    } else if t == (7int, 110int, 57int) {
        Some(Key::Kp9)
    } else if t == (12int, 110int, 114int) {
        Some(Key::KpReturn)
    } else if t == (15int, 110int, 116int) {
        Some(Key::KpMinus)
    } else if t == (10int, 110int, 100int) {
        Some(Key::KpPlus)
    } else if t == (15int, 110int, 121int) {
        Some(Key::KpMultiply)
    } else if t == (13int, 110int, 101int) {
        Some(Key::KpDivide)
    } else if t == (14int, 110int, 108int) {
        Some(Key::KpDelete)
    } else if t == (2int, 102int, 110int) {
        Some(Key::Function)
    } else {
        None
    }
}

/// Every known key's name is found again from its fingerprint.
proof fn lemma_key_print(k: Key)
    requires
        !(k is Unknown),
    ensures
        key_name(k) is Some,
        key_of_print(name_print(key_name(k).unwrap())) == Some(k),
{
    match k {
        Key::Alt => {
            reveal_strlit("alt_l");
        },
        Key::AltGr => {
            reveal_strlit("alt_r");
        },
        Key::Backspace => {
            reveal_strlit("backspace");
        },
        Key::CapsLock => {
            reveal_strlit("caps_lock");
        },
        Key::ControlLeft => {
            reveal_strlit("ctrl_l");
        },
        Key::ControlRight => {
            reveal_strlit("ctrl_r");
        },
        Key::Delete => {
            reveal_strlit("delete");
        },
        Key::DownArrow => {
            reveal_strlit("down");
        },
        Key::End => {
            reveal_strlit("end");
        },
        Key::Escape => {
            reveal_strlit("esc");
        },
        Key::F1 => {
            reveal_strlit("f1");
        },
        Key::F2 => {
            reveal_strlit("f2");
        },
        Key::F3 => {
            reveal_strlit("f3");
        },
        Key::F4 => {
            reveal_strlit("f4");
        },
        Key::F5 => {
            reveal_strlit("f5");
        },
        Key::F6 => {
            reveal_strlit("f6");
        },
        Key::F7 => {
            reveal_strlit("f7");
        },
        Key::F8 => {
            reveal_strlit("f8");
        },
        Key::F9 => {
            reveal_strlit("f9");
        },
        Key::F10 => {
            reveal_strlit("f10");
        },
        Key::F11 => {
            reveal_strlit("f11");
        },
        Key::F12 => {
            reveal_strlit("f12");
        },
        Key::Home => {
            reveal_strlit("home");
        },
        Key::Insert => {
            reveal_strlit("insert");
        },
        Key::LeftArrow => {
            reveal_strlit("left");
        },
        Key::MetaLeft => {
            reveal_strlit("meta");
        },
        Key::MetaRight => {
            reveal_strlit("meta_r");
        },
        Key::NumLock => {
            reveal_strlit("numpad_lock");
        },
        Key::PageDown => {
            reveal_strlit("page_down");
        },
        Key::PageUp => {
            reveal_strlit("page_up");
        },
        Key::Pause => {
            reveal_strlit("pause");
        },
        Key::PrintScreen => {
            reveal_strlit("print_screen");
        },
        Key::Return => {
            reveal_strlit("enter");
        },
        Key::RightArrow => {
            reveal_strlit("right");
        },
        Key::ScrollLock => {
            reveal_strlit("scroll_lock");
        },
        Key::ShiftLeft => {
            reveal_strlit("shift_l");
        },
        Key::ShiftRight => {
            reveal_strlit("shift_r");
        },
        Key::Space => {
            reveal_strlit("space");
        },
        Key::Tab => {
            reveal_strlit("tab");
        },
        Key::UpArrow => {
            reveal_strlit("up");
        },
        Key::KeyA => {
            reveal_strlit("a");
        },
        Key::KeyB => {
            reveal_strlit("b");
        },
        Key::KeyC => {
            reveal_strlit("c");
        },
        Key::KeyD => {
            reveal_strlit("d");
        },
        Key::KeyE => {
            reveal_strlit("e");
        },
        Key::KeyF => {
            reveal_strlit("f");
        },
        Key::KeyG => {
            reveal_strlit("g");
        },
        Key::KeyH => {
            reveal_strlit("h");
        },
        Key::KeyI => {
            reveal_strlit("i");
        },
        Key::KeyJ => {
            reveal_strlit("j");
        },
        Key::KeyK => {
            reveal_strlit("k");
        },
        Key::KeyL => {
            reveal_strlit("l");
        },
        Key::KeyM => {
            reveal_strlit("m");
        },
        Key::KeyN => {
            reveal_strlit("n");
        },
        Key::KeyO => {
            reveal_strlit("o");
        },
        Key::KeyP => {
            reveal_strlit("p");
        },
        Key::KeyQ => {
            reveal_strlit("q");
        },
        Key::KeyR => {
            reveal_strlit("r");
        },
        Key::KeyS => {
            reveal_strlit("s");
        },
        Key::KeyT => {
            reveal_strlit("t");
        },
        Key::KeyU => {
            reveal_strlit("u");
        },
        Key::KeyV => {
            reveal_strlit("v");
        },
        Key::KeyW => {
            reveal_strlit("w");
        },
        Key::KeyX => {
            reveal_strlit("x");
        },
        Key::KeyY => {
            reveal_strlit("y");
        },
        Key::KeyZ => {
            reveal_strlit("z");
        },
        Key::Num0 => {
            reveal_strlit("0");
        },
        Key::Num1 => {
            reveal_strlit("1");
        },
        Key::Num2 => {
            reveal_strlit("2");
        },
        Key::Num3 => {
            reveal_strlit("3");
        },
        Key::Num4 => {
            reveal_strlit("4");
        },
        Key::Num5 => {
            reveal_strlit("5");
        },
        Key::Num6 => {
            reveal_strlit("6");
        },
        Key::Num7 => {
            reveal_strlit("7");
        },
        Key::Num8 => {
            reveal_strlit("8");
        },
        Key::Num9 => {
            reveal_strlit("9");
        },
        Key::BackQuote => {
            reveal_strlit("`");
        },
        Key::Minus => {
            reveal_strlit("-");
        },
        Key::Equal => {
            reveal_strlit("=");
        },
        Key::LeftBracket => {
            reveal_strlit("[");
        },
        Key::RightBracket => {
            reveal_strlit("]");
        },
        Key::SemiColon => {
            reveal_strlit(";");
        },
        Key::Quote => {
            reveal_strlit("'");
        },
        Key::BackSlash => {
            reveal_strlit("backslash");
        },
        Key::IntlBackslash => {
            reveal_strlit("intl_backslash");
        },
        Key::Comma => {
            reveal_strlit(",");
        },
        Key::Dot => {
            reveal_strlit(".");
        },
        Key::Slash => {
            reveal_strlit("/");
        },
        Key::Kp0 => {
            reveal_strlit("numpad0");
        },
        Key::Kp1 => {
            reveal_strlit("numpad1");
        },
        Key::Kp2 => {
            reveal_strlit("numpad2");
        },
        Key::Kp3 => {
            reveal_strlit("numpad3");
        },
        Key::Kp4 => {
            reveal_strlit("numpad4");
        },
        Key::Kp5 => {
            reveal_strlit("numpad5");
        },
        Key::Kp6 => {
            reveal_strlit("numpad6");
        },
        Key::Kp7 => {
            reveal_strlit("numpad7");
        },
        Key::Kp8 => {
            reveal_strlit("numpad8");
        },
        Key::Kp9 => {
            reveal_strlit("numpad9");
        },
        Key::KpReturn => {
            reveal_strlit("numpad_enter");
        },
        Key::KpMinus => {
            reveal_strlit("numpad_subtract");
        },
        Key::KpPlus => {
            reveal_strlit("numpad_add");
        },
        Key::KpMultiply => {
            reveal_strlit("numpad_multiply");
        },
        Key::KpDivide => {
            reveal_strlit("numpad_divide");
        },
        Key::KpDelete => {
            reveal_strlit("numpad_decimal");
        },
        Key::Function => {
            reveal_strlit("fn");
        },
        Key::Unknown(_) => {},
    }
}

/// Law: a key is counted under the same name whichever listener reports
/// it: the name that the key gets is the name of its virtual-key code,
/// whenever that code has one. In particular a letter key is counted under
/// its own lowercase letter.
pub proof fn lemma_key_names_match_vk(k: Key)
    ensures
        match key_vk(k) {
            Some(v) => {
                &&& vk_name(v) is Some ==> key_name(k) == vk_name(v)
                &&& 65 <= v <= 90 ==> key_name(k) == Some(seq![((v + 32) as u32) as char])
            },
            None => true,
        },
{
    match key_vk(k) {
        Some(v) => {
            lemma_vk_names(v);
        },
        None => {},
    }
}

/// Law: distinct keys are counted under distinct names (an unknown key is
/// counted under its virtual-key code's name instead).
pub proof fn lemma_key_names_distinct(k1: Key, k2: Key)
    requires
        !(k1 is Unknown),
        !(k2 is Unknown),
        key_name(k1) == key_name(k2),
    ensures
        k1 == k2,
{
    lemma_key_print(k1);
    lemma_key_print(k2);
}

/// The virtual-key codes that have a name.
pub open spec fn vk_named(vk: u32) -> bool {
    ||| vk == 8 || vk == 9 || vk == 13 || (16 <= vk <= 20) || vk == 27 || (32 <= vk <= 36)
    ||| vk == 93 || vk == 144 || vk == 237
    ||| 48 <= vk <= 57 || 65 <= vk <= 91 || 96 <= vk <= 107 || 109 <= vk <= 123
    ||| 160 <= vk <= 165 || 186 <= vk <= 192 || 219 <= vk <= 222
}

/// Law: exactly the codes of `vk_named` have a name; the digit keys are
/// named by their digit, the letter keys by their lowercase letter, the
/// numpad digits `numpad` and the digit, the function keys `f` and their
/// number.
pub proof fn lemma_vk_names(vk: u32)
    ensures
        vk_name(vk) is Some <==> vk_named(vk),
        48 <= vk <= 57 ==> vk_name(vk) == Some(decimal((vk - 48) as nat)),
        65 <= vk <= 90 ==> vk_name(vk) == Some(seq![((vk + 32) as u32) as char]),
        96 <= vk <= 105 ==> vk_name(vk) == Some("numpad"@ + decimal((vk - 96) as nat)),
        112 <= vk <= 123 ==> vk_name(vk) == Some("f"@ + decimal((vk - 111) as nat)),
{
    reveal_strlit("numpad");
    reveal_strlit("f");
    reveal_with_fuel(decimal, 2);
    if vk == 48 {
        reveal_strlit("0");
    } else if vk == 49 {
        reveal_strlit("1");
    } else if vk == 50 {
        reveal_strlit("2");
    } else if vk == 51 {
        reveal_strlit("3");
    } else if vk == 52 {
        reveal_strlit("4");
    } else if vk == 53 {
        reveal_strlit("5");
    } else if vk == 54 {
        reveal_strlit("6");
    } else if vk == 55 {
        reveal_strlit("7");
    } else if vk == 56 {
        reveal_strlit("8");
    } else if vk == 57 {
        reveal_strlit("9");
    } else if vk == 96 {
        reveal_strlit("numpad0");
    } else if vk == 97 {
        reveal_strlit("numpad1");
    } else if vk == 98 {
        reveal_strlit("numpad2");
    } else if vk == 99 {
        reveal_strlit("numpad3");
    } else if vk == 100 {
        reveal_strlit("numpad4");
    } else if vk == 101 {
        reveal_strlit("numpad5");
    } else if vk == 102 {
        reveal_strlit("numpad6");
    } else if vk == 103 {
        reveal_strlit("numpad7");
    } else if vk == 104 {
        reveal_strlit("numpad8");
    } else if vk == 105 {
        reveal_strlit("numpad9");
    } else if vk == 106 {
        reveal_strlit("numpad_multiply");
    } else if vk == 107 {
        reveal_strlit("numpad_add");
    } else if vk == 109 {
        reveal_strlit("numpad_subtract");
    } else if vk == 110 {
        reveal_strlit("numpad_decimal");
    } else if vk == 111 {
        reveal_strlit("numpad_divide");
    } else if vk == 144 {
        reveal_strlit("numpad_lock");
    } else if vk == 65 {
        reveal_strlit("a");
    } else if vk == 66 {
        reveal_strlit("b");
    } else if vk == 67 {
        reveal_strlit("c");
    } else if vk == 68 {
        reveal_strlit("d");
    } else if vk == 69 {
        reveal_strlit("e");
    } else if vk == 70 {
        reveal_strlit("f");
    } else if vk == 71 {
        reveal_strlit("g");
    } else if vk == 72 {
        reveal_strlit("h");
    } else if vk == 73 {
        reveal_strlit("i");
    } else if vk == 74 {
        reveal_strlit("j");
    } else if vk == 75 {
        reveal_strlit("k");
    } else if vk == 76 {
        reveal_strlit("l");
    } else if vk == 77 {
        reveal_strlit("m");
    } else if vk == 78 {
        reveal_strlit("n");
    } else if vk == 79 {
        reveal_strlit("o");
    } else if vk == 80 {
        reveal_strlit("p");
    } else if vk == 81 {
        reveal_strlit("q");
    } else if vk == 82 {
        reveal_strlit("r");
    } else if vk == 83 {
        reveal_strlit("s");
    } else if vk == 84 {
        reveal_strlit("t");
    } else if vk == 85 {
        reveal_strlit("u");
    } else if vk == 86 {
        reveal_strlit("v");
    } else if vk == 87 {
        reveal_strlit("w");
    } else if vk == 88 {
        reveal_strlit("x");
    } else if vk == 89 {
        reveal_strlit("y");
    } else if vk == 90 {
        reveal_strlit("z");
    } else if vk == 91 {
        reveal_strlit("meta");
    } else if vk == 19 {
        reveal_strlit("pause");
    } else if vk == 34 {
        reveal_strlit("page_down");
    } else if vk == 33 {
        reveal_strlit("page_up");
    } else if vk == 35 {
        reveal_strlit("end");
    } else if vk == 36 {
        reveal_strlit("home");
    } else if vk == 237 {
        reveal_strlit("fn");
    } else if vk == 8 {
        reveal_strlit("backspace");
    } else if vk == 9 {
        reveal_strlit("tab");
    } else if vk == 13 {
        reveal_strlit("enter");
    } else if vk == 20 {
        reveal_strlit("caps_lock");
    } else if vk == 27 {
        reveal_strlit("esc");
    } else if vk == 32 {
        reveal_strlit("space");
    } else if vk == 16 {
        reveal_strlit("shift");
    } else if vk == 160 {
        reveal_strlit("shift_l");
    } else if vk == 161 {
        reveal_strlit("shift_r");
    } else if vk == 17 {
        reveal_strlit("ctrl");
    } else if vk == 162 {
        reveal_strlit("ctrl_l");
    } else if vk == 163 {
        reveal_strlit("ctrl_r");
    } else if vk == 18 {
        reveal_strlit("alt");
    } else if vk == 164 {
        reveal_strlit("alt_l");
    } else if vk == 165 {
        reveal_strlit("alt_r");
    } else if vk == 93 {
        reveal_strlit("menu");
    } else if vk == 186 {
        reveal_strlit(";");
    } else if vk == 187 {
        reveal_strlit("=");
    } else if vk == 188 {
        reveal_strlit(",");
    } else if vk == 189 {
        reveal_strlit("-");
    } else if vk == 190 {
        reveal_strlit(".");
    } else if vk == 191 {
        reveal_strlit("/");
    } else if vk == 192 {
        reveal_strlit("`");
    } else if vk == 219 {
        reveal_strlit("[");
    } else if vk == 220 {
        reveal_strlit("backslash");
    } else if vk == 221 {
        reveal_strlit("]");
    } else if vk == 222 {
        reveal_strlit("'");
    } else if vk == 112 {
        reveal_strlit("f1");
    } else if vk == 113 {
        reveal_strlit("f2");
    } else if vk == 114 {
        reveal_strlit("f3");
    } else if vk == 115 {
        reveal_strlit("f4");
    } else if vk == 116 {
        reveal_strlit("f5");
    } else if vk == 117 {
        reveal_strlit("f6");
    } else if vk == 118 {
        reveal_strlit("f7");
    } else if vk == 119 {
        reveal_strlit("f8");
    } else if vk == 120 {
        reveal_strlit("f9");
    } else if vk == 121 {
        reveal_strlit("f10");
    } else if vk == 122 {
        reveal_strlit("f11");
    } else if vk == 123 {
        reveal_strlit("f12");
    }
}

/// Maps a Windows virtual-key code to the name it is counted under.
pub fn vk_to_string(vk: u32) -> (name: Option<&'static str>)
    ensures
        opt_str_view(name) == vk_name(vk),
{
    match vk {
        48 => Some("0"),
        49 => Some("1"),
        50 => Some("2"),
        51 => Some("3"),
        52 => Some("4"),
        53 => Some("5"),
        54 => Some("6"),
        55 => Some("7"),
        56 => Some("8"),
        57 => Some("9"),
        96 => Some("numpad0"),
        97 => Some("numpad1"),
        98 => Some("numpad2"),
        99 => Some("numpad3"),
        100 => Some("numpad4"),
        101 => Some("numpad5"),
        102 => Some("numpad6"),
        103 => Some("numpad7"),
        104 => Some("numpad8"),
        105 => Some("numpad9"),
        106 => Some("numpad_multiply"),
        107 => Some("numpad_add"),
        109 => Some("numpad_subtract"),
        110 => Some("numpad_decimal"),
        111 => Some("numpad_divide"),
        144 => Some("numpad_lock"),
        65 => Some("a"),
        66 => Some("b"),
        67 => Some("c"),
        68 => Some("d"),
        69 => Some("e"),
        70 => Some("f"),
        71 => Some("g"),
        72 => Some("h"),
        73 => Some("i"),
        74 => Some("j"),
        75 => Some("k"),
        76 => Some("l"),
        77 => Some("m"),
        78 => Some("n"),
        79 => Some("o"),
        80 => Some("p"),
        81 => Some("q"),
        82 => Some("r"),
        83 => Some("s"),
        84 => Some("t"),
        85 => Some("u"),
        86 => Some("v"),
        87 => Some("w"),
        88 => Some("x"),
        89 => Some("y"),
        90 => Some("z"),
        91 => Some("meta"),
        19 => Some("pause"),
        34 => Some("page_down"),
        33 => Some("page_up"),
        35 => Some("end"),
        36 => Some("home"),
        237 => Some("fn"),
        8 => Some("backspace"),
        9 => Some("tab"),
        13 => Some("enter"),
        20 => Some("caps_lock"),
        27 => Some("esc"),
        32 => Some("space"),
        16 => Some("shift"),
        160 => Some("shift_l"),
        161 => Some("shift_r"),
        17 => Some("ctrl"),
        162 => Some("ctrl_l"),
        163 => Some("ctrl_r"),
        18 => Some("alt"),
        164 => Some("alt_l"),
        165 => Some("alt_r"),
        93 => Some("menu"),
        186 => Some(";"),
        187 => Some("="),
        188 => Some(","),
        189 => Some("-"),
        190 => Some("."),
        191 => Some("/"),
        192 => Some("`"),
        219 => Some("["),
        220 => Some("backslash"),
        221 => Some("]"),
        222 => Some("'"),
        112 => Some("f1"),
        113 => Some("f2"),
        114 => Some("f3"),
        115 => Some("f4"),
        116 => Some("f5"),
        117 => Some("f6"),
        118 => Some("f7"),
        119 => Some("f8"),
        120 => Some("f9"),
        121 => Some("f10"),
        122 => Some("f11"),
        123 => Some("f12"),
        _ => None,
    }
}

/// Maps a key to the name it is counted under; unknown keys are looked up
/// by their virtual-key code.
pub fn key_to_string(key: &Key) -> (name: Option<String>)
    ensures
        opt_string_view(name) == key_name(*key),
{
    match key {
        Key::Alt => Some("alt_l".to_owned()),
        Key::AltGr => Some("alt_r".to_owned()),
        Key::Backspace => Some("backspace".to_owned()),
        Key::CapsLock => Some("caps_lock".to_owned()),
        Key::ControlLeft => Some("ctrl_l".to_owned()),
        Key::ControlRight => Some("ctrl_r".to_owned()),
        Key::Delete => Some("delete".to_owned()),
        Key::DownArrow => Some("down".to_owned()),
        Key::End => Some("end".to_owned()),
        Key::Escape => Some("esc".to_owned()),
        Key::F1 => Some("f1".to_owned()),
        Key::F2 => Some("f2".to_owned()),
        Key::F3 => Some("f3".to_owned()),
        Key::F4 => Some("f4".to_owned()),
        Key::F5 => Some("f5".to_owned()),
        Key::F6 => Some("f6".to_owned()),
        Key::F7 => Some("f7".to_owned()),
        Key::F8 => Some("f8".to_owned()),
        Key::F9 => Some("f9".to_owned()),
        Key::F10 => Some("f10".to_owned()),
        Key::F11 => Some("f11".to_owned()),
        Key::F12 => Some("f12".to_owned()),
        Key::Home => Some("home".to_owned()),
        Key::Insert => Some("insert".to_owned()),
        Key::LeftArrow => Some("left".to_owned()),
        Key::MetaLeft => Some("meta".to_owned()),
        Key::MetaRight => Some("meta_r".to_owned()),
        Key::NumLock => Some("numpad_lock".to_owned()),
        Key::PageDown => Some("page_down".to_owned()),
        Key::PageUp => Some("page_up".to_owned()),
        Key::Pause => Some("pause".to_owned()),
        Key::PrintScreen => Some("print_screen".to_owned()),
        Key::Return => Some("enter".to_owned()),
        Key::RightArrow => Some("right".to_owned()),
        Key::ScrollLock => Some("scroll_lock".to_owned()),
        Key::ShiftLeft => Some("shift_l".to_owned()),
        Key::ShiftRight => Some("shift_r".to_owned()),
        Key::Space => Some("space".to_owned()),
        Key::Tab => Some("tab".to_owned()),
        Key::UpArrow => Some("up".to_owned()),
        Key::KeyA => Some("a".to_owned()),
        Key::KeyB => Some("b".to_owned()),
        Key::KeyC => Some("c".to_owned()),
        Key::KeyD => Some("d".to_owned()),
        Key::KeyE => Some("e".to_owned()),
        Key::KeyF => Some("f".to_owned()),
        Key::KeyG => Some("g".to_owned()),
        Key::KeyH => Some("h".to_owned()),
        Key::KeyI => Some("i".to_owned()),
        Key::KeyJ => Some("j".to_owned()),
        Key::KeyK => Some("k".to_owned()),
        Key::KeyL => Some("l".to_owned()),
        Key::KeyM => Some("m".to_owned()),
        Key::KeyN => Some("n".to_owned()),
        Key::KeyO => Some("o".to_owned()),
        Key::KeyP => Some("p".to_owned()),
        Key::KeyQ => Some("q".to_owned()),
        Key::KeyR => Some("r".to_owned()),
        Key::KeyS => Some("s".to_owned()),
        Key::KeyT => Some("t".to_owned()),
        Key::KeyU => Some("u".to_owned()),
        Key::KeyV => Some("v".to_owned()),
        Key::KeyW => Some("w".to_owned()),
        Key::KeyX => Some("x".to_owned()),
        Key::KeyY => Some("y".to_owned()),
        Key::KeyZ => Some("z".to_owned()),
        Key::Num0 => Some("0".to_owned()),
        Key::Num1 => Some("1".to_owned()),
        Key::Num2 => Some("2".to_owned()),
        Key::Num3 => Some("3".to_owned()),
        Key::Num4 => Some("4".to_owned()),
        Key::Num5 => Some("5".to_owned()),
        Key::Num6 => Some("6".to_owned()),
        Key::Num7 => Some("7".to_owned()),
        Key::Num8 => Some("8".to_owned()),
        Key::Num9 => Some("9".to_owned()),
        Key::BackQuote => Some("`".to_owned()),
        Key::Minus => Some("-".to_owned()),
        Key::Equal => Some("=".to_owned()),
        Key::LeftBracket => Some("[".to_owned()),
        Key::RightBracket => Some("]".to_owned()),
        Key::SemiColon => Some(";".to_owned()),
        Key::Quote => Some("'".to_owned()),
        Key::BackSlash => Some("backslash".to_owned()),
        Key::IntlBackslash => Some("intl_backslash".to_owned()),
        Key::Comma => Some(",".to_owned()),
        Key::Dot => Some(".".to_owned()),
        Key::Slash => Some("/".to_owned()),
        Key::Kp0 => Some("numpad0".to_owned()),
        Key::Kp1 => Some("numpad1".to_owned()),
        Key::Kp2 => Some("numpad2".to_owned()),
        Key::Kp3 => Some("numpad3".to_owned()),
        Key::Kp4 => Some("numpad4".to_owned()),
        Key::Kp5 => Some("numpad5".to_owned()),
        Key::Kp6 => Some("numpad6".to_owned()),
        Key::Kp7 => Some("numpad7".to_owned()),
        Key::Kp8 => Some("numpad8".to_owned()),
        Key::Kp9 => Some("numpad9".to_owned()),
        Key::KpReturn => Some("numpad_enter".to_owned()),
        Key::KpMinus => Some("numpad_subtract".to_owned()),
        Key::KpPlus => Some("numpad_add".to_owned()),
        Key::KpMultiply => Some("numpad_multiply".to_owned()),
        Key::KpDivide => Some("numpad_divide".to_owned()),
        Key::KpDelete => Some("numpad_decimal".to_owned()),
        Key::Function => Some("fn".to_owned()),
        Key::Unknown(vk) => match vk_to_string(*vk) {
            Some(s) => Some(s.to_owned()),
            None => None,
        },
    }
}

/// Maps a mouse button to the name it is counted under.
pub fn button_to_string(button: &Button) -> (name: Option<String>)
    ensures
        opt_string_view(name) == Some(button_name(*button)),
{
    match button {
        Button::Left => Some("mouse_left".to_owned()),
        Button::Right => Some("mouse_right".to_owned()),
        Button::Middle => Some("mouse_middle".to_owned()),
        Button::Unknown(n) => {
            if *n == 1 {
                Some("mouse_x1".to_owned())
            } else if *n == 2 {
                Some("mouse_x2".to_owned())
            } else {
                let mut out = chars_of("mouse_unknown_");
                push_decimal(&mut out, *n as u64);
                Some(string_of(out.as_slice()))
            }
        },
    }
}

} // verus!
