//! Keys of a graphical front end, and the editor keys they stand for.

use vstd::prelude::*;
use crate::editor::{KeyCode, KeyInput, KeyKind, KeyModifiers};

verus! {

/// A key as a graphical toolkit reports it: named keys, the digit keys
/// `Num(0)` to `Num(9)`, the letter keys `Letter(0)` (A) to `Letter(25)`
/// (Z), and the function keys `F(1)` to `F(12)`.
#[derive(Debug, Clone, Copy, PartialEq, Eq, Structural)]
pub enum GuiKey {
    ArrowDown,
    ArrowLeft,
    ArrowRight,
    ArrowUp,
    Escape,
    Tab,
    Backspace,
    Enter,
    Space,
    Insert,
    Delete,
    Home,
    End,
    PageUp,
    PageDown,
    Num(u8),
    Letter(u8),
    F(u8),
    Other,
}

/// The modifier keys a graphical toolkit reports.
#[derive(Debug, Clone, Copy, PartialEq, Eq, Structural)]
pub struct GuiModifiers {
    pub shift: bool,
    pub ctrl: bool,
    pub alt: bool,
    pub command: bool,
}

/// The editor key for a toolkit key: letters are upper case with shift and
/// lower case without, digit keys are digit characters, space is `' '`.
pub open spec fn spec_gui_code(key: GuiKey, shift: bool) -> Option<KeyCode> {
    match key {
        GuiKey::ArrowDown => Some(KeyCode::Down),
        GuiKey::ArrowLeft => Some(KeyCode::Left),
        GuiKey::ArrowRight => Some(KeyCode::Right),
        GuiKey::ArrowUp => Some(KeyCode::Up),
        GuiKey::Escape => Some(KeyCode::Esc),
        GuiKey::Tab => Some(KeyCode::Tab),
        GuiKey::Backspace => Some(KeyCode::Backspace),
        GuiKey::Enter => Some(KeyCode::Enter),
        GuiKey::Space => Some(KeyCode::Char(' ')),
        GuiKey::Insert => Some(KeyCode::Insert),
        GuiKey::Delete => Some(KeyCode::Delete),
        GuiKey::Home => Some(KeyCode::Home),
        GuiKey::End => Some(KeyCode::End),
        GuiKey::PageUp => Some(KeyCode::PageUp),
        GuiKey::PageDown => Some(KeyCode::PageDown),
        GuiKey::Num(d) => if d <= 9 {
            Some(KeyCode::Char(((48 + d) as u8) as char))
        } else {
            None
        },
        GuiKey::Letter(i) => if i < 26 {
            if shift {
                Some(KeyCode::Char(((65 + i) as u8) as char))
            } else {
                Some(KeyCode::Char(((97 + i) as u8) as char))
            }
        } else {
            None
        },
        GuiKey::F(n) => if 1 <= n <= 12 {
            Some(KeyCode::F(n))
        } else {
            None
        },
        GuiKey::Other => None,
    }
}

pub open spec fn spec_modifiers(m: GuiModifiers) -> KeyModifiers {
    KeyModifiers { shift: m.shift, control: m.ctrl, alt: m.alt, meta: m.command }
}

/// The key press that a toolkit key stands for, with its modifiers (command
/// as meta); nothing for keys the editor does not know.
pub fn translate_egui_key(key: GuiKey, modifiers: GuiModifiers) -> (r: Option<KeyInput>)
    ensures
        r == match spec_gui_code(key, modifiers.shift) {
            Some(code) => Some(KeyInput { code, modifiers: spec_modifiers(modifiers), kind: KeyKind::Press }),
            None => None,
        },
{
    let code = match key {
        GuiKey::ArrowDown => KeyCode::Down,
        GuiKey::ArrowLeft => KeyCode::Left,
        GuiKey::ArrowRight => KeyCode::Right,
        GuiKey::ArrowUp => KeyCode::Up,
        GuiKey::Escape => KeyCode::Esc,
        GuiKey::Tab => KeyCode::Tab,
        GuiKey::Backspace => KeyCode::Backspace,
        GuiKey::Enter => KeyCode::Enter,
        GuiKey::Space => KeyCode::Char(' '),
        GuiKey::Insert => KeyCode::Insert,
        GuiKey::Delete => KeyCode::Delete,
        GuiKey::Home => KeyCode::Home,
        GuiKey::End => KeyCode::End,
        GuiKey::PageUp => KeyCode::PageUp,
        GuiKey::PageDown => KeyCode::PageDown,
        GuiKey::Num(d) => {
            if d > 9 {
                return None;
            }
            KeyCode::Char((48 + d) as char)
        },
        GuiKey::Letter(i) => {
            if i >= 26 {
                return None;
            }
            if modifiers.shift {
                KeyCode::Char((65 + i) as char)
            } else {
                KeyCode::Char((97 + i) as char)
            }
        },
        GuiKey::F(n) => {
            if n < 1 || n > 12 {
                return None;
            }
            KeyCode::F(n)
        },
        GuiKey::Other => {
            return None;
        },
    };
    let mods = KeyModifiers {
        shift: modifiers.shift,
        control: modifiers.ctrl,
        alt: modifiers.alt,
        meta: modifiers.command,
    };
    Some(KeyInput { code, modifiers: mods, kind: KeyKind::Press })
}

/// Letter keys give their letter, lower case without shift and upper case
/// with it; digit keys give their digit; the named keys give the editor key
/// of the same name, space a blank; there is no thirteenth function key and
/// no letter or digit beyond the last.
pub proof fn law_keys_give_their_characters(i: u8, shift: bool)
    ensures
        i < 26 ==> (spec_gui_code(GuiKey::Letter(i), false) matches Some(KeyCode::Char(c)) && c as int == 'a'
            as int + i),
        i < 26 ==> (spec_gui_code(GuiKey::Letter(i), true) matches Some(KeyCode::Char(c)) && c as int == 'A'
            as int + i),
        i <= 9 ==> (spec_gui_code(GuiKey::Num(i), shift) matches Some(KeyCode::Char(c)) && c as int == '0' as int
            + i),
        i >= 26 ==> spec_gui_code(GuiKey::Letter(i), shift) is None,
        i > 9 ==> spec_gui_code(GuiKey::Num(i), shift) is None,
        1 <= i <= 12 ==> spec_gui_code(GuiKey::F(i), shift) == Some(KeyCode::F(i)),
        spec_gui_code(GuiKey::F(13), shift) is None,
        spec_gui_code(GuiKey::ArrowLeft, shift) == Some(KeyCode::Left),
        spec_gui_code(GuiKey::ArrowRight, shift) == Some(KeyCode::Right),
        spec_gui_code(GuiKey::ArrowUp, shift) == Some(KeyCode::Up),
        spec_gui_code(GuiKey::ArrowDown, shift) == Some(KeyCode::Down),
        spec_gui_code(GuiKey::Escape, shift) == Some(KeyCode::Esc),
        spec_gui_code(GuiKey::Enter, shift) == Some(KeyCode::Enter),
        spec_gui_code(GuiKey::Backspace, shift) == Some(KeyCode::Backspace),
        spec_gui_code(GuiKey::Space, shift) == Some(KeyCode::Char(' ')),
        spec_gui_code(GuiKey::Other, shift) is None,
{
}

} // verus!
