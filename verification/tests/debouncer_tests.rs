use vimtelligence::debouncer::Debouncer;
use vimtelligence::parser::{Action, Motion, Operator, TextObject, VimCommand};

fn typed(text: &str) -> Debouncer {
    let mut d = Debouncer::new();
    for c in text.chars() {
        d.push(c);
    }
    d
}

#[test]
fn new_debouncer_matches_nothing() {
    assert!(Debouncer::new().matches_command().is_none());
}

#[test]
fn command_after_a_space_is_found() {
    let d = typed("hello ciw");
    let (s, cmd) = d.matches_command().unwrap();
    assert_eq!(s, "ciw");
    assert_eq!(cmd, VimCommand { count: 1, operator: Some(Operator::Change), action: Action::Inside(TextObject::Word) });
}

#[test]
fn command_inside_a_word_is_not_found() {
    assert!(typed("abcdw").matches_command().is_none());
}

#[test]
fn motion_without_operator_is_not_found() {
    assert!(typed("go w").matches_command().is_none());
}

#[test]
fn longest_matching_suffix_wins() {
    let d = typed("3dd");
    let (s, cmd) = d.matches_command().unwrap();
    assert_eq!(s, "3dd");
    assert_eq!(cmd.count, 3);
}

#[test]
fn punctuation_is_a_boundary() {
    let d = typed("x.daw");
    let (s, _) = d.matches_command().unwrap();
    assert_eq!(s, "daw");
}

#[test]
fn only_the_last_twenty_characters_are_kept() {
    let spaces = |n: usize| " ".repeat(n);
    // The first of 21 characters is forgotten, so "dd" becomes "d ".
    let d = typed(&format!("dd{}x", spaces(18)));
    assert!(d.matches_command().is_none());
    // The letter in front of the count is forgotten, so the count starts at
    // the front of what is kept.
    let digits = "1".repeat(18);
    let d = typed(&format!("a{}dd", digits));
    let (s, cmd) = d.matches_command().unwrap();
    assert_eq!(s, format!("{}dd", digits));
    assert_eq!(cmd.operator, Some(Operator::Delete));
    assert_eq!(cmd.action, Action::Line);
    // With the letter kept, the count would not start at a boundary.
    assert!(typed(&format!("a{}dd", "1".repeat(17))).matches_command().is_none());
}

#[test]
fn typing_after_a_command_cancels_it() {
    assert!(typed("dd x").matches_command().is_none());
    assert!(typed("ddx").matches_command().is_none());
    assert!(typed(" dd").matches_command().is_some());
    assert!(typed("ciw ").matches_command().is_none());
    assert!(typed("3dwz").matches_command().is_none());
}

#[test]
fn a_command_typed_after_another_is_found() {
    let d = typed("dd dw");
    let (s, cmd) = d.matches_command().unwrap();
    assert_eq!(s, "dw");
    assert_eq!(cmd.action, Action::Motion(Motion::WordForward));
}

#[test]
fn clear_forgets_everything() {
    let mut d = typed(" dd");
    assert!(d.matches_command().is_some());
    d.clear();
    assert!(d.matches_command().is_none());
}

#[test]
fn unicode_letter_is_not_a_boundary() {
    assert!(typed("édd").matches_command().is_none());
    assert!(typed("\u{3000}dd").matches_command().is_some());
}
