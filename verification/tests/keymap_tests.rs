use vimtelligence::editor::{KeyCode, KeyInput, KeyKind, KeyModifiers};
use vimtelligence::keymap::{translate_egui_key, GuiKey, GuiModifiers};

const PLAIN: GuiModifiers = GuiModifiers { shift: false, ctrl: false, alt: false, command: false };

fn code(key: GuiKey, mods: GuiModifiers) -> Option<KeyCode> {
    translate_egui_key(key, mods).map(|k| k.code)
}

#[test]
fn letters_follow_shift() {
    assert_eq!(code(GuiKey::Letter(0), PLAIN), Some(KeyCode::Char('a')));
    assert_eq!(code(GuiKey::Letter(25), PLAIN), Some(KeyCode::Char('z')));
    let shifted = GuiModifiers { shift: true, ..PLAIN };
    assert_eq!(code(GuiKey::Letter(22), shifted), Some(KeyCode::Char('W')));
    assert_eq!(code(GuiKey::Letter(26), PLAIN), None);
}

#[test]
fn digits_space_and_function_keys() {
    assert_eq!(code(GuiKey::Num(0), PLAIN), Some(KeyCode::Char('0')));
    assert_eq!(code(GuiKey::Num(9), PLAIN), Some(KeyCode::Char('9')));
    assert_eq!(code(GuiKey::Num(10), PLAIN), None);
    assert_eq!(code(GuiKey::Space, PLAIN), Some(KeyCode::Char(' ')));
    assert_eq!(code(GuiKey::F(1), PLAIN), Some(KeyCode::F(1)));
    assert_eq!(code(GuiKey::F(12), PLAIN), Some(KeyCode::F(12)));
    assert_eq!(code(GuiKey::F(13), PLAIN), None);
    assert_eq!(code(GuiKey::F(0), PLAIN), None);
}

#[test]
fn named_keys() {
    assert_eq!(code(GuiKey::Escape, PLAIN), Some(KeyCode::Esc));
    assert_eq!(code(GuiKey::Enter, PLAIN), Some(KeyCode::Enter));
    assert_eq!(code(GuiKey::Backspace, PLAIN), Some(KeyCode::Backspace));
    assert_eq!(code(GuiKey::ArrowUp, PLAIN), Some(KeyCode::Up));
    assert_eq!(code(GuiKey::PageDown, PLAIN), Some(KeyCode::PageDown));
    assert_eq!(code(GuiKey::Other, PLAIN), None);
}

#[test]
fn modifiers_are_carried_and_kind_is_press() {
    let mods = GuiModifiers { shift: false, ctrl: true, alt: true, command: true };
    assert_eq!(
        translate_egui_key(GuiKey::Letter(22), mods),
        Some(KeyInput {
            code: KeyCode::Char('w'),
            modifiers: KeyModifiers { shift: false, control: true, alt: true, meta: true },
            kind: KeyKind::Press,
        })
    );
}
