//! Hotkeys: keys, modifiers, shortcuts, and the listener that turns keyboard
//! events into hotkey events.

use vstd::prelude::*;

use crate::chord::{WM_KEYDOWN, WM_KEYUP, WM_SYSKEYDOWN, WM_SYSKEYUP};
use crate::text::joined;

verus! {

/// A combination of modifier keys.
#[derive(Debug, Clone, Copy, PartialEq, Eq, Structural)]
pub enum Modifiers {
    /// No modifier at all.
    Unmodified,
    Alt,
    Control,
    Shift,
    Win,
    AltControl,
    AltShift,
    ControlShift,
    AltControlShift,
    WinAlt,
    WinControl,
    WinShift,
    WinAltControl,
    WinAltShift,
    WinControlShift,
    WinAltControlShift,
}

impl Modifiers {
    pub open spec fn has_alt(self) -> bool {
        self is Alt || self is AltControl || self is AltShift || self is AltControlShift
            || self is WinAlt || self is WinAltControl || self is WinAltShift
            || self is WinAltControlShift
    }

    pub open spec fn has_control(self) -> bool {
        self is Control || self is AltControl || self is ControlShift || self is AltControlShift
            || self is WinControl || self is WinAltControl || self is WinControlShift
            || self is WinAltControlShift
    }

    pub open spec fn has_shift(self) -> bool {
        self is Shift || self is AltShift || self is ControlShift || self is AltControlShift
            || self is WinShift || self is WinAltShift || self is WinControlShift
            || self is WinAltControlShift
    }

    pub open spec fn has_win(self) -> bool {
        self is Win || self is WinAlt || self is WinControl || self is WinShift
            || self is WinAltControl || self is WinAltShift || self is WinControlShift
            || self is WinAltControlShift
    }

    /// The combination holds exactly these modifiers.
    pub open spec fn is_of(self, alt: bool, ctrl: bool, shift: bool, win: bool) -> bool {
        self.has_alt() == alt && self.has_control() == ctrl && self.has_shift() == shift
            && self.has_win() == win
    }
}

/// A key or mouse button.
#[derive(Debug, Clone, Copy, PartialEq, Eq, Structural)]
pub enum Key {
    KeyA,
    KeyB,
    KeyC,
    KeyD,
    KeyE,
    KeyF,
    KeyG,
    KeyH,
    KeyI,
    KeyJ,
    KeyK,
    KeyL,
    KeyM,
    KeyN,
    KeyO,
    KeyP,
    KeyQ,
    KeyR,
    KeyS,
    KeyT,
    KeyU,
    KeyV,
    KeyW,
    KeyX,
    KeyY,
    KeyZ,
    Key0,
    Key1,
    Key2,
    Key3,
    Key4,
    Key5,
    Key6,
    Key7,
    Key8,
    Key9,
    F1,
    F2,
    F3,
    F4,
    F5,
    F6,
    F7,
    F8,
    F9,
    F10,
    F11,
    F12,
    Space,
    Enter,
    Escape,
    Tab,
    Backspace,
    LeftAlt,
    RightAlt,
    LeftControl,
    RightControl,
    LeftShift,
    RightShift,
    LeftWin,
    RightWin,
    CapsLock,
    Comma,
    Period,
    Slash,
    Semicolon,
    Quote,
    BracketLeft,
    BracketRight,
    Backslash,
    Minus,
    Equal,
    Grave,
    MouseLeft,
    MouseRight,
    MouseMiddle,
}

/// The virtual-key code of a key.
pub open spec fn key_code(key: Key) -> u16 {
    match key {
        Key::KeyA => 0x41,
        Key::KeyB => 0x42,
        Key::KeyC => 0x43,
        Key::KeyD => 0x44,
        Key::KeyE => 0x45,
        Key::KeyF => 0x46,
        Key::KeyG => 0x47,
        Key::KeyH => 0x48,
        Key::KeyI => 0x49,
        Key::KeyJ => 0x4A,
        Key::KeyK => 0x4B,
        Key::KeyL => 0x4C,
        Key::KeyM => 0x4D,
        Key::KeyN => 0x4E,
        Key::KeyO => 0x4F,
        Key::KeyP => 0x50,
        Key::KeyQ => 0x51,
        Key::KeyR => 0x52,
        Key::KeyS => 0x53,
        Key::KeyT => 0x54,
        Key::KeyU => 0x55,
        Key::KeyV => 0x56,
        Key::KeyW => 0x57,
        Key::KeyX => 0x58,
        Key::KeyY => 0x59,
        Key::KeyZ => 0x5A,
        Key::Key0 => 0x30,
        Key::Key1 => 0x31,
        Key::Key2 => 0x32,
        Key::Key3 => 0x33,
        Key::Key4 => 0x34,
        Key::Key5 => 0x35,
        Key::Key6 => 0x36,
        Key::Key7 => 0x37,
        Key::Key8 => 0x38,
        Key::Key9 => 0x39,
        Key::F1 => 0x70,
        Key::F2 => 0x71,
        Key::F3 => 0x72,
        Key::F4 => 0x73,
        Key::F5 => 0x74,
        Key::F6 => 0x75,
        Key::F7 => 0x76,
        Key::F8 => 0x77,
        Key::F9 => 0x78,
        Key::F10 => 0x79,
        Key::F11 => 0x7A,
        Key::F12 => 0x7B,
        Key::Space => 0x20,
        Key::Enter => 0x0D,
        Key::Escape => 0x1B,
        Key::Tab => 0x09,
        Key::Backspace => 0x08,
        Key::LeftAlt => 0xA4,
        Key::RightAlt => 0xA5,
        Key::LeftControl => 0xA2,
        Key::RightControl => 0xA3,
        Key::LeftShift => 0xA0,
        Key::RightShift => 0xA1,
        Key::LeftWin => 0x5B,
        Key::RightWin => 0x5C,
        Key::CapsLock => 0x14,
        Key::Comma => 0xBC,
        Key::Period => 0xBE,
        Key::Slash => 0xBF,
        Key::Semicolon => 0xBA,
        Key::Quote => 0xDE,
        Key::BracketLeft => 0xDB,
        Key::BracketRight => 0xDD,
        Key::Backslash => 0xDC,
        Key::Minus => 0xBD,
        Key::Equal => 0xBB,
        Key::Grave => 0xC0,
        Key::MouseLeft => 0x01,
        Key::MouseRight => 0x02,
        Key::MouseMiddle => 0x04,
    }
}

/// A key together with the modifiers that must be held.
#[derive(Debug, Clone, Copy, PartialEq, Eq, Structural)]
pub struct Hotkey {
    pub modifiers: Modifiers,
    pub key: Key,
}

/// What happened to a registered hotkey.
#[derive(Debug, Clone, Copy, PartialEq, Eq, Structural)]
pub enum HotkeyEvent {
    Down { shortcut: Hotkey },
    Up { shortcut: Hotkey },
}

/// The combination of the given modifiers.
pub fn modifiers_from_bools(alt: bool, ctrl: bool, shift: bool, win: bool) -> (m: Modifiers)
    ensures
        m.is_of(alt, ctrl, shift, win),
{
    match (win, alt, ctrl, shift) {
        (false, false, false, false) => Modifiers::Unmodified,
        (false, true, false, false) => Modifiers::Alt,
        (false, false, true, false) => Modifiers::Control,
        (false, false, false, true) => Modifiers::Shift,
        (false, true, true, false) => Modifiers::AltControl,
        (false, true, false, true) => Modifiers::AltShift,
        (false, false, true, true) => Modifiers::ControlShift,
        (false, true, true, true) => Modifiers::AltControlShift,
        (true, false, false, false) => Modifiers::Win,
        (true, true, false, false) => Modifiers::WinAlt,
        (true, false, true, false) => Modifiers::WinControl,
        (true, false, false, true) => Modifiers::WinShift,
        (true, true, true, false) => Modifiers::WinAltControl,
        (true, true, false, true) => Modifiers::WinAltShift,
        (true, false, true, true) => Modifiers::WinControlShift,
        (true, true, true, true) => Modifiers::WinAltControlShift,
    }
}

/// Exactly one combination holds a given set of modifiers.
pub proof fn law_modifiers_are_determined(
    a: Modifiers,
    b: Modifiers,
    alt: bool,
    ctrl: bool,
    shift: bool,
    win: bool,
)
    requires
        a.is_of(alt, ctrl, shift, win),
        b.is_of(alt, ctrl, shift, win),
    ensures
        a == b,
{
}

/// The key with a virtual-key code, if the code belongs to one.
spec fn key_at(vk: u16) -> Option<Key> {
    match vk {
        0x41 => Some(Key::KeyA),
        0x42 => Some(Key::KeyB),
        0x43 => Some(Key::KeyC),
        0x44 => Some(Key::KeyD),
        0x45 => Some(Key::KeyE),
        0x46 => Some(Key::KeyF),
        0x47 => Some(Key::KeyG),
        0x48 => Some(Key::KeyH),
        0x49 => Some(Key::KeyI),
        0x4A => Some(Key::KeyJ),
        0x4B => Some(Key::KeyK),
        0x4C => Some(Key::KeyL),
        0x4D => Some(Key::KeyM),
        0x4E => Some(Key::KeyN),
        0x4F => Some(Key::KeyO),
        0x50 => Some(Key::KeyP),
        0x51 => Some(Key::KeyQ),
        0x52 => Some(Key::KeyR),
        0x53 => Some(Key::KeyS),
        0x54 => Some(Key::KeyT),
        0x55 => Some(Key::KeyU),
        0x56 => Some(Key::KeyV),
        0x57 => Some(Key::KeyW),
        0x58 => Some(Key::KeyX),
        0x59 => Some(Key::KeyY),
        0x5A => Some(Key::KeyZ),
        0x30 => Some(Key::Key0),
        0x31 => Some(Key::Key1),
        0x32 => Some(Key::Key2),
        0x33 => Some(Key::Key3),
        0x34 => Some(Key::Key4),
        0x35 => Some(Key::Key5),
        0x36 => Some(Key::Key6),
        0x37 => Some(Key::Key7),
        0x38 => Some(Key::Key8),
        0x39 => Some(Key::Key9),
        0x70 => Some(Key::F1),
        0x71 => Some(Key::F2),
        0x72 => Some(Key::F3),
        0x73 => Some(Key::F4),
        0x74 => Some(Key::F5),
        0x75 => Some(Key::F6),
        0x76 => Some(Key::F7),
        0x77 => Some(Key::F8),
        0x78 => Some(Key::F9),
        0x79 => Some(Key::F10),
        0x7A => Some(Key::F11),
        0x7B => Some(Key::F12),
        0x20 => Some(Key::Space),
        0x0D => Some(Key::Enter),
        0x1B => Some(Key::Escape),
        0x09 => Some(Key::Tab),
        0x08 => Some(Key::Backspace),
        0xA4 => Some(Key::LeftAlt),
        0xA5 => Some(Key::RightAlt),
        0xA2 => Some(Key::LeftControl),
        0xA3 => Some(Key::RightControl),
        0xA0 => Some(Key::LeftShift),
        0xA1 => Some(Key::RightShift),
        0x5B => Some(Key::LeftWin),
        0x5C => Some(Key::RightWin),
        0x14 => Some(Key::CapsLock),
        0xBC => Some(Key::Comma),
        0xBE => Some(Key::Period),
        0xBF => Some(Key::Slash),
        0xBA => Some(Key::Semicolon),
        0xDE => Some(Key::Quote),
        0xDB => Some(Key::BracketLeft),
        0xDD => Some(Key::BracketRight),
        0xDC => Some(Key::Backslash),
        0xBD => Some(Key::Minus),
        0xBB => Some(Key::Equal),
        0xC0 => Some(Key::Grave),
        0x01 => Some(Key::MouseLeft),
        0x02 => Some(Key::MouseRight),
        0x04 => Some(Key::MouseMiddle),
        _ => None,
    }
}

proof fn lemma_key_at_code(key: Key)
    ensures
        key_at(key_code(key)) == Some(key),
{
}

/// No two keys share a virtual-key code.
pub proof fn law_key_codes_are_distinct(a: Key, b: Key)
    requires
        key_code(a) == key_code(b),
    ensures
        a == b,
{
    lemma_key_at_code(a);
    lemma_key_at_code(b);
}

/// The key with the virtual-key code `vk`, if there is one.
pub fn vk_to_key(vk: u16) -> (r: Option<Key>)
    ensures
        r matches Some(k) ==> key_code(k) == vk,
        r is None ==> forall|k: Key| #[trigger] key_code(k) != vk,
{
    proof {
        assert forall|k: Key| #[trigger] key_code(k) == vk implies key_at(vk) == Some(k) by {
            lemma_key_at_code(k);
        }
    }
    Some(match vk {
        0x41 => Key::KeyA,
        0x42 => Key::KeyB,
        0x43 => Key::KeyC,
        0x44 => Key::KeyD,
        0x45 => Key::KeyE,
        0x46 => Key::KeyF,
        0x47 => Key::KeyG,
        0x48 => Key::KeyH,
        0x49 => Key::KeyI,
        0x4A => Key::KeyJ,
        0x4B => Key::KeyK,
        0x4C => Key::KeyL,
        0x4D => Key::KeyM,
        0x4E => Key::KeyN,
        0x4F => Key::KeyO,
        0x50 => Key::KeyP,
        0x51 => Key::KeyQ,
        0x52 => Key::KeyR,
        0x53 => Key::KeyS,
        0x54 => Key::KeyT,
        0x55 => Key::KeyU,
        0x56 => Key::KeyV,
        0x57 => Key::KeyW,
        0x58 => Key::KeyX,
        0x59 => Key::KeyY,
        0x5A => Key::KeyZ,
        0x30 => Key::Key0,
        0x31 => Key::Key1,
        0x32 => Key::Key2,
        0x33 => Key::Key3,
        0x34 => Key::Key4,
        0x35 => Key::Key5,
        0x36 => Key::Key6,
        0x37 => Key::Key7,
        0x38 => Key::Key8,
        0x39 => Key::Key9,
        0x70 => Key::F1,
        0x71 => Key::F2,
        0x72 => Key::F3,
        0x73 => Key::F4,
        0x74 => Key::F5,
        0x75 => Key::F6,
        0x76 => Key::F7,
        0x77 => Key::F8,
        0x78 => Key::F9,
        0x79 => Key::F10,
        0x7A => Key::F11,
        0x7B => Key::F12,
        0x20 => Key::Space,
        0x0D => Key::Enter,
        0x1B => Key::Escape,
        0x09 => Key::Tab,
        0x08 => Key::Backspace,
        0xA4 => Key::LeftAlt,
        0xA5 => Key::RightAlt,
        0xA2 => Key::LeftControl,
        0xA3 => Key::RightControl,
        0xA0 => Key::LeftShift,
        0xA1 => Key::RightShift,
        0x5B => Key::LeftWin,
        0x5C => Key::RightWin,
        0x14 => Key::CapsLock,
        0xBC => Key::Comma,
        0xBE => Key::Period,
        0xBF => Key::Slash,
        0xBA => Key::Semicolon,
        0xDE => Key::Quote,
        0xDB => Key::BracketLeft,
        0xDD => Key::BracketRight,
        0xDC => Key::Backslash,
        0xBD => Key::Minus,
        0xBB => Key::Equal,
        0xC0 => Key::Grave,
        0x01 => Key::MouseLeft,
        0x02 => Key::MouseRight,
        0x04 => Key::MouseMiddle,
        _ => return None,
    })
}

/// The codes of the keys that only modify others.
pub open spec fn is_modifier_code(vk: u16) -> bool {
    exists|k: Key|
        #[trigger] key_code(k) == vk && (k is LeftAlt || k is RightAlt || k is LeftControl
            || k is RightControl || k is LeftShift || k is RightShift || k is LeftWin
            || k is RightWin)
}

/// Whether the code is that of an Alt, Control, Shift or Win key.
pub fn is_modifier(vk: u16) -> (b: bool)
    ensures
        b == is_modifier_code(vk),
{
    let b = vk == 0xA4 || vk == 0xA5 || vk == 0xA2 || vk == 0xA3 || vk == 0xA0 || vk == 0xA1 || vk
        == 0x5B || vk == 0x5C;
    proof {
        if b {
            let k = if vk == 0xA4 {
                Key::LeftAlt
            } else if vk == 0xA5 {
                Key::RightAlt
            } else if vk == 0xA2 {
                Key::LeftControl
            } else if vk == 0xA3 {
                Key::RightControl
            } else if vk == 0xA0 {
                Key::LeftShift
            } else if vk == 0xA1 {
                Key::RightShift
            } else if vk == 0x5B {
                Key::LeftWin
            } else {
                Key::RightWin
            };
            assert(key_code(k) == vk);
        }
    }
    b
}

/// Whether the code is that of the hotkey's key.
pub fn key_matches(hotkey: &Hotkey, vk: u16) -> (b: bool)
    ensures
        b == (key_code(hotkey.key) == vk),
{
    match vk_to_key(vk) {
        Some(k) => {
            proof {
                if key_code(hotkey.key) == vk {
                    law_key_codes_are_distinct(k, hotkey.key);
                }
            }
            k == hotkey.key
        },
        None => false,
    }
}

/// The modifier keys that are down.
#[derive(Debug, Clone, Copy, PartialEq, Eq, Structural)]
pub struct HeldModifiers {
    pub alt: bool,
    pub ctrl: bool,
    pub shift: bool,
    pub win: bool,
}

/// Whether exactly the expected modifiers are down.
pub fn modifiers_match(expected: Modifiers, held: HeldModifiers) -> (b: bool)
    ensures
        b == expected.is_of(held.alt, held.ctrl, held.shift, held.win),
{
    let now = modifiers_from_bools(held.alt, held.ctrl, held.shift, held.win);
    proof {
        if expected.is_of(held.alt, held.ctrl, held.shift, held.win) {
            law_modifiers_are_determined(
                expected,
                now,
                held.alt,
                held.ctrl,
                held.shift,
                held.win,
            );
        }
    }
    now == expected
}

/// Each combination holds the modifiers that it is named after.
pub proof fn law_modifiers_are_what_they_are_named()
    ensures
        Modifiers::Unmodified.is_of(false, false, false, false),
        Modifiers::Alt.is_of(true, false, false, false),
        Modifiers::Control.is_of(false, true, false, false),
        Modifiers::Shift.is_of(false, false, true, false),
        Modifiers::Win.is_of(false, false, false, true),
        Modifiers::AltControl.is_of(true, true, false, false),
        Modifiers::AltShift.is_of(true, false, true, false),
        Modifiers::ControlShift.is_of(false, true, true, false),
        Modifiers::AltControlShift.is_of(true, true, true, false),
        Modifiers::WinAlt.is_of(true, false, false, true),
        Modifiers::WinControl.is_of(false, true, false, true),
        Modifiers::WinShift.is_of(false, false, true, true),
        Modifiers::WinAltControl.is_of(true, true, false, true),
        Modifiers::WinAltShift.is_of(true, false, true, true),
        Modifiers::WinControlShift.is_of(false, true, true, true),
        Modifiers::WinAltControlShift.is_of(true, true, true, true),
{
}

/// The code of a letter or digit is that of its character.
pub proof fn law_codes_of_characters()
    ensures
        key_code(Key::KeyA) == 'A' as u16,
        key_code(Key::KeyB) == 'B' as u16,
        key_code(Key::KeyC) == 'C' as u16,
        key_code(Key::KeyD) == 'D' as u16,
        key_code(Key::KeyE) == 'E' as u16,
        key_code(Key::KeyF) == 'F' as u16,
        key_code(Key::KeyG) == 'G' as u16,
        key_code(Key::KeyH) == 'H' as u16,
        key_code(Key::KeyI) == 'I' as u16,
        key_code(Key::KeyJ) == 'J' as u16,
        key_code(Key::KeyK) == 'K' as u16,
        key_code(Key::KeyL) == 'L' as u16,
        key_code(Key::KeyM) == 'M' as u16,
        key_code(Key::KeyN) == 'N' as u16,
        key_code(Key::KeyO) == 'O' as u16,
        key_code(Key::KeyP) == 'P' as u16,
        key_code(Key::KeyQ) == 'Q' as u16,
        key_code(Key::KeyR) == 'R' as u16,
        key_code(Key::KeyS) == 'S' as u16,
        key_code(Key::KeyT) == 'T' as u16,
        key_code(Key::KeyU) == 'U' as u16,
        key_code(Key::KeyV) == 'V' as u16,
        key_code(Key::KeyW) == 'W' as u16,
        key_code(Key::KeyX) == 'X' as u16,
        key_code(Key::KeyY) == 'Y' as u16,
        key_code(Key::KeyZ) == 'Z' as u16,
        key_code(Key::Key0) == '0' as u16,
        key_code(Key::Key1) == '1' as u16,
        key_code(Key::Key2) == '2' as u16,
        key_code(Key::Key3) == '3' as u16,
        key_code(Key::Key4) == '4' as u16,
        key_code(Key::Key5) == '5' as u16,
        key_code(Key::Key6) == '6' as u16,
        key_code(Key::Key7) == '7' as u16,
        key_code(Key::Key8) == '8' as u16,
        key_code(Key::Key9) == '9' as u16,
{
}

/// The function keys follow each other.
pub proof fn law_codes_of_function_keys()
    ensures
        key_code(Key::F1) == 111 + 1,
        key_code(Key::F2) == 111 + 2,
        key_code(Key::F3) == 111 + 3,
        key_code(Key::F4) == 111 + 4,
        key_code(Key::F5) == 111 + 5,
        key_code(Key::F6) == 111 + 6,
        key_code(Key::F7) == 111 + 7,
        key_code(Key::F8) == 111 + 8,
        key_code(Key::F9) == 111 + 9,
        key_code(Key::F10) == 111 + 10,
        key_code(Key::F11) == 111 + 11,
        key_code(Key::F12) == 111 + 12,
{
}

/// The codes of the other keys.
pub proof fn law_codes_of_other_keys()
    ensures
        key_code(Key::Space) == 32,
        key_code(Key::Enter) == 13,
        key_code(Key::Escape) == 27,
        key_code(Key::Tab) == 9,
        key_code(Key::Backspace) == 8,
        key_code(Key::LeftAlt) == 164,
        key_code(Key::RightAlt) == 165,
        key_code(Key::LeftControl) == 162,
        key_code(Key::RightControl) == 163,
        key_code(Key::LeftShift) == 160,
        key_code(Key::RightShift) == 161,
        key_code(Key::LeftWin) == 91,
        key_code(Key::RightWin) == 92,
        key_code(Key::CapsLock) == 20,
        key_code(Key::Comma) == 188,
        key_code(Key::Period) == 190,
        key_code(Key::Slash) == 191,
        key_code(Key::Semicolon) == 186,
        key_code(Key::Quote) == 222,
        key_code(Key::BracketLeft) == 219,
        key_code(Key::BracketRight) == 221,
        key_code(Key::Backslash) == 220,
        key_code(Key::Minus) == 189,
        key_code(Key::Equal) == 187,
        key_code(Key::Grave) == 192,
        key_code(Key::MouseLeft) == 1,
        key_code(Key::MouseRight) == 2,
        key_code(Key::MouseMiddle) == 4,
{
}

/// The keys that only modify others are Shift, Control and Alt, left and right, and
/// the two Win keys.
pub proof fn law_modifier_codes(vk: u16)
    ensures
        is_modifier_code(vk) <==> 160 <= vk <= 165 || 91 <= vk <= 92,
{
    if 160 <= vk <= 165 || 91 <= vk <= 92 {
        let k = if vk == 160 {
            Key::LeftShift
        } else if vk == 161 {
            Key::RightShift
        } else if vk == 162 {
            Key::LeftControl
        } else if vk == 163 {
            Key::RightControl
        } else if vk == 164 {
            Key::LeftAlt
        } else if vk == 165 {
            Key::RightAlt
        } else if vk == 91 {
            Key::LeftWin
        } else {
            Key::RightWin
        };
        assert(key_code(k) == vk);
    }
}

/// Why a hotkey could not be used.
#[derive(Debug, Clone)]
pub enum HotkeyError {
    RegistrationFailed(String),
    AlreadyRegistered,
    Platform(String),
    PermissionDenied,
}

impl HotkeyError {
    /// The text of the error.
    pub open spec fn text(self) -> Seq<char> {
        match self {
            HotkeyError::RegistrationFailed(e) => "Failed to register hotkey: "@ + e@,
            HotkeyError::AlreadyRegistered => "Hotkey already registered"@,
            HotkeyError::Platform(e) => "Platform error: "@ + e@,
            HotkeyError::PermissionDenied => "Permission denied"@,
        }
    }

    pub fn message(&self) -> (s: String)
        ensures
            s@ == self.text(),
    {
        match self {
            HotkeyError::RegistrationFailed(e) => joined("Failed to register hotkey: ", e.as_str()),
            HotkeyError::AlreadyRegistered => "Hotkey already registered".to_owned(),
            HotkeyError::Platform(e) => joined("Platform error: ", e.as_str()),
            HotkeyError::PermissionDenied => "Permission denied".to_owned(),
        }
    }
}

/// The window message is a key press or a key release.
pub open spec fn is_key_message(message: u32) -> bool {
    message == WM_KEYDOWN || message == WM_SYSKEYDOWN || message == WM_KEYUP || message
        == WM_SYSKEYUP
}

/// The hotkey event that a keyboard event amounts to.
pub open spec fn hotkey_event(
    hotkey: Option<Hotkey>,
    vk: u16,
    message: u32,
    held: HeldModifiers,
) -> Option<HotkeyEvent> {
    match hotkey {
        Some(h) if is_key_message(message) && !is_modifier_code(vk) && key_code(h.key) == vk
            && h.modifiers.is_of(held.alt, held.ctrl, held.shift, held.win) => Some(
            if message == WM_KEYDOWN || message == WM_SYSKEYDOWN {
                HotkeyEvent::Down { shortcut: h }
            } else {
                HotkeyEvent::Up { shortcut: h }
            },
        ),
        _ => None,
    }
}

/// The texts of the errors.
pub proof fn law_hotkey_error_texts(e: String)
    ensures
        HotkeyError::RegistrationFailed(e).text() == "Failed to register hotkey: "@ + e@,
        HotkeyError::AlreadyRegistered.text() == "Hotkey already registered"@,
        HotkeyError::Platform(e).text() == "Platform error: "@ + e@,
        HotkeyError::PermissionDenied.text() == "Permission denied"@,
{
}

/// A hotkey fires exactly where its own key moves while just its modifiers are
/// held: it goes down with the messages for a press and up with those for a
/// release. No other key and no other modifiers bring it about, and no key does
/// that only modifies others.
pub proof fn law_hotkey_fires(h: Hotkey, vk: u16, message: u32, held: HeldModifiers)
    ensures
        hotkey_event(None, vk, message, held) is None,
        hotkey_event(Some(h), vk, message, held) == Some(HotkeyEvent::Down { shortcut: h }) <==> (
        message == 0x100 || message == 0x104) && key_code(h.key) == vk && !(160 <= vk <= 165) && !(91
            <= vk <= 92) && h.modifiers.has_alt() == held.alt && h.modifiers.has_control()
            == held.ctrl && h.modifiers.has_shift() == held.shift && h.modifiers.has_win()
            == held.win,
        hotkey_event(Some(h), vk, message, held) == Some(HotkeyEvent::Up { shortcut: h }) <==> (
        message == 0x101 || message == 0x105) && key_code(h.key) == vk && !(160 <= vk <= 165) && !(91
            <= vk <= 92) && h.modifiers.has_alt() == held.alt && h.modifiers.has_control()
            == held.ctrl && h.modifiers.has_shift() == held.shift && h.modifiers.has_win()
            == held.win,
        hotkey_event(Some(h), vk, message, held) matches Some(e) ==> e == (HotkeyEvent::Down {
            shortcut: h,
        }) || e == (HotkeyEvent::Up { shortcut: h }),
{
    law_modifier_codes(vk);
}

/// Listener behind a low-level keyboard hook: it knows the registered hotkey
/// and tells which keyboard events belong to it.
#[derive(Debug, Clone, Copy, PartialEq, Eq, Structural)]
pub struct WindowsHotkeyListener {
    pub hotkey: Option<Hotkey>,
}

impl WindowsHotkeyListener {
    /// A listener without a hotkey.
    pub fn new() -> (l: WindowsHotkeyListener)
        ensures
            l.hotkey is None,
    {
        WindowsHotkeyListener { hotkey: None }
    }

    /// The hotkey event, if any, that a keyboard event brings about.
    pub fn on_key(&self, vk: u16, message: u32, held: HeldModifiers) -> (r: Option<HotkeyEvent>)
        ensures
            r == hotkey_event(self.hotkey, vk, message, held),
    {
        let is_down = message == WM_KEYDOWN || message == WM_SYSKEYDOWN;
        let is_up = message == WM_KEYUP || message == WM_SYSKEYUP;
        if (is_down || is_up) && !is_modifier(vk) {
            if let Some(hotkey) = self.hotkey {
                if key_matches(&hotkey, vk) && modifiers_match(hotkey.modifiers, held) {
                    return Some(
                        if is_down {
                            HotkeyEvent::Down { shortcut: hotkey }
                        } else {
                            HotkeyEvent::Up { shortcut: hotkey }
                        },
                    );
                }
            }
        }
        None
    }
}

/// Hotkey listener: what a platform offers.
pub trait HotkeyListener {
    /// Makes `shortcut` the hotkey that is listened for.
    fn register(&mut self, shortcut: Hotkey) -> Result<(), HotkeyError>;
}

impl HotkeyListener for WindowsHotkeyListener {
    fn register(&mut self, shortcut: Hotkey) -> (r: Result<(), HotkeyError>)
        ensures
            r is Ok,
            final(self).hotkey == Some(shortcut),
    {
        self.hotkey = Some(shortcut);
        Ok(())
    }
}

/// Listener for platforms without global hotkeys: it accepts every hotkey and
/// reports none.
#[derive(Debug, Clone, Copy, PartialEq, Eq, Structural)]
pub struct NullHotkeyListener;

impl HotkeyListener for NullHotkeyListener {
    fn register(&mut self, shortcut: Hotkey) -> (r: Result<(), HotkeyError>)
        ensures
            r is Ok,
    {
        Ok(())
    }
}

} // verus!
