use vimtelligence::editor::{
    command_fits, execute_command, handle_event, key_fits, on_pause, pending_command, Effect, EditorState, KeyCode,
    KeyInput, KeyKind, KeyModifiers, Mode, PauseOutcome,
};

const NONE: KeyModifiers = KeyModifiers { shift: false, control: false, alt: false, meta: false };

fn press(code: KeyCode) -> KeyInput {
    KeyInput { code, modifiers: NONE, kind: KeyKind::Press }
}

fn key(state: &mut EditorState, code: KeyCode) -> Effect {
    let k = press(code);
    assert!(key_fits(&k, state));
    handle_event(&k, state)
}

fn type_str(state: &mut EditorState, text: &str) {
    for c in text.chars() {
        key(state, KeyCode::Char(c));
    }
}

fn run(state: &mut EditorState, cmd: &str) {
    assert!(command_fits(cmd, state));
    execute_command(cmd, state);
}

#[test]
fn new_editor_is_empty_and_normal() {
    let s = EditorState::new();
    assert_eq!(s.text(), "");
    assert_eq!(s.mode, Mode::Normal);
    assert_eq!((s.cursor_row, s.cursor_col), (0, 0));
    assert!(!s.should_quit);
    assert_eq!(s.line_count(), 1);
}

#[test]
fn line_count_follows_ropey_line_breaks() {
    assert_eq!(EditorState::with_text("a\nb\n").line_count(), 3);
    assert_eq!(EditorState::with_text("a\r\nb").line_count(), 2);
    assert_eq!(EditorState::with_text("a\rb\u{2028}c").line_count(), 3);
    assert_eq!(EditorState::with_text("\r\n\r").line_count(), 3);
}

#[test]
fn i_enters_insert_and_esc_returns_to_normal() {
    let mut s = EditorState::new();
    assert_eq!(key(&mut s, KeyCode::Char('i')), Effect::Nothing);
    assert_eq!(s.mode, Mode::Insert);
    key(&mut s, KeyCode::Esc);
    assert_eq!(s.mode, Mode::Normal);
}

#[test]
fn typing_inserts_at_the_cursor() {
    let mut s = EditorState::with_text("ac");
    s.cursor_col = 1;
    key(&mut s, KeyCode::Char('i'));
    key(&mut s, KeyCode::Char('b'));
    assert_eq!(s.text(), "abc");
    assert_eq!(s.cursor_col, 2);
}

#[test]
fn typing_on_a_later_line() {
    let mut s = EditorState::with_text("one\r\ntwo");
    s.cursor_row = 1;
    s.cursor_col = 3;
    key(&mut s, KeyCode::Char('i'));
    type_str(&mut s, "!");
    assert_eq!(s.text(), "one\r\ntwo!");
}

#[test]
fn type_then_backspace_restores_the_text() {
    let mut s = EditorState::with_text("ab\ncd");
    s.cursor_row = 1;
    s.cursor_col = 1;
    key(&mut s, KeyCode::Char('i'));
    key(&mut s, KeyCode::Char('X'));
    assert_eq!(s.text(), "ab\ncXd");
    key(&mut s, KeyCode::Backspace);
    assert_eq!(s.text(), "ab\ncd");
    assert_eq!((s.cursor_row, s.cursor_col), (1, 1));
}

#[test]
fn line_feed_after_lone_carriage_return_joins_the_break() {
    // The one case the type-then-backspace law leaves out.
    let mut s = EditorState::with_text("a\rb");
    s.cursor_row = 1;
    s.cursor_col = 0;
    key(&mut s, KeyCode::Char('i'));
    key(&mut s, KeyCode::Char('\n'));
    assert_eq!(s.text(), "a\r\nb");
    key(&mut s, KeyCode::Backspace);
    assert_eq!(s.text(), "a\r\n");
}

#[test]
fn backspace_at_line_start_does_nothing() {
    let mut s = EditorState::with_text("ab");
    key(&mut s, KeyCode::Char('i'));
    key(&mut s, KeyCode::Backspace);
    assert_eq!(s.text(), "ab");
}

#[test]
fn normal_mode_keys() {
    let mut s = EditorState::with_text("abc\nde");
    assert_eq!(key(&mut s, KeyCode::Char('s')), Effect::Save);
    key(&mut s, KeyCode::Char('l'));
    key(&mut s, KeyCode::Char('l'));
    key(&mut s, KeyCode::Char('l'));
    assert_eq!(s.cursor_col, 3);
    key(&mut s, KeyCode::Char('l'));
    assert_eq!(s.cursor_col, 3);
    key(&mut s, KeyCode::Char('j'));
    assert_eq!((s.cursor_row, s.cursor_col), (1, 2));
    key(&mut s, KeyCode::Char('j'));
    assert_eq!(s.cursor_row, 1);
    key(&mut s, KeyCode::Char('h'));
    assert_eq!(s.cursor_col, 1);
    key(&mut s, KeyCode::Char('k'));
    assert_eq!((s.cursor_row, s.cursor_col), (0, 1));
    key(&mut s, KeyCode::Char('k'));
    assert_eq!(s.cursor_row, 0);
    key(&mut s, KeyCode::Char('q'));
    assert!(s.should_quit);
}

#[test]
fn released_keys_do_nothing() {
    let mut s = EditorState::new();
    let k = KeyInput { code: KeyCode::Char('i'), modifiers: NONE, kind: KeyKind::Release };
    assert_eq!(handle_event(&k, &mut s), Effect::Nothing);
    assert_eq!(s.mode, Mode::Normal);
}

#[test]
fn assistant_prompt_collects_a_query() {
    let mut s = EditorState::new();
    key(&mut s, KeyCode::Char('W'));
    assert_eq!(s.mode, Mode::Normal);
    let k = KeyInput { code: KeyCode::Char('w'), modifiers: KeyModifiers { control: true, ..NONE }, kind: KeyKind::Press };
    handle_event(&k, &mut s);
    assert_eq!(s.mode, Mode::EzMode);
    type_str(&mut s, "delete wordx");
    key(&mut s, KeyCode::Backspace);
    assert_eq!(s.ez_input, "delete word");
    assert_eq!(key(&mut s, KeyCode::Enter), Effect::Query("delete word".to_string()));
    assert_eq!(s.mode, Mode::Normal);
}

#[test]
fn dd_deletes_the_cursor_line() {
    let mut s = EditorState::with_text("one\ntwo\nthree");
    s.cursor_row = 1;
    s.cursor_col = 2;
    run(&mut s, "dd");
    assert_eq!(s.text(), "one\nthree");
    assert_eq!((s.cursor_row, s.cursor_col), (1, 0));
}

#[test]
fn dd_on_the_last_line_moves_up() {
    let mut s = EditorState::with_text("one\ntwo");
    s.cursor_row = 1;
    run(&mut s, "dd");
    assert_eq!(s.text(), "one\n");
    assert_eq!(s.cursor_row, 1);
    run(&mut s, "dd");
    assert_eq!(s.text(), "one\n");
    let mut s = EditorState::with_text("only");
    run(&mut s, "dd");
    assert_eq!(s.text(), "");
    assert_eq!(s.cursor_row, 0);
}

#[test]
fn dd_removes_a_crlf_line_break_whole() {
    let mut s = EditorState::with_text("a\r\nb");
    run(&mut s, "dd");
    assert_eq!(s.text(), "b");
}

#[test]
fn daw_deletes_the_word_and_following_spaces() {
    let mut s = EditorState::with_text("hello big world");
    s.cursor_col = 7;
    run(&mut s, "daw");
    assert_eq!(s.text(), "hello world");
    assert_eq!(s.cursor_col, 6);
    assert_eq!(s.mode, Mode::Normal);
}

#[test]
fn diw_keeps_the_spaces() {
    let mut s = EditorState::with_text("foo_bar baz");
    s.cursor_col = 3;
    run(&mut s, "diw");
    assert_eq!(s.text(), " baz");
    assert_eq!(s.cursor_col, 0);
}

#[test]
fn diw_handles_unicode_letters() {
    let mut s = EditorState::with_text("x héllo y");
    s.cursor_col = 4;
    run(&mut s, "diw");
    assert_eq!(s.text(), "x  y");
}

#[test]
fn daw_runs_over_the_line_break() {
    let mut s = EditorState::with_text("foo\nbar");
    run(&mut s, "daw");
    assert_eq!(s.text(), "bar");
}

#[test]
fn ciw_enters_insert_mode() {
    let mut s = EditorState::with_text("abc def");
    s.cursor_col = 5;
    run(&mut s, "ciw");
    assert_eq!(s.text(), "abc ");
    assert_eq!(s.cursor_col, 4);
    assert_eq!(s.mode, Mode::Insert);
}

#[test]
fn word_command_off_a_word_changes_nothing() {
    let mut s = EditorState::with_text("a  b");
    s.cursor_col = 2;
    run(&mut s, "diw");
    assert_eq!(s.text(), "a  b");
    assert_eq!(s.cursor_col, 2);
}

#[test]
fn typed_command_is_erased_before_it_runs() {
    let mut s = EditorState::with_text("keep drop");
    s.cursor_col = 9;
    key(&mut s, KeyCode::Char('i'));
    type_str(&mut s, " ciw");
    assert_eq!(s.text(), "keep drop ciw");
    let (cmd, _) = pending_command(&s).unwrap();
    assert_eq!(cmd, "ciw");
    run(&mut s, &cmd);
    s.debouncer.clear();
    assert_eq!(s.text(), "keep drop ");
    assert!(pending_command(&s).is_none());
}

#[test]
fn unknown_command_in_normal_mode_changes_nothing() {
    let mut s = EditorState::with_text("abc");
    s.cursor_col = 1;
    run(&mut s, "l");
    assert_eq!(s.text(), "abc");
    assert_eq!(s.cursor_col, 1);
}

#[test]
fn no_pending_command_outside_insert_mode() {
    let mut s = EditorState::new();
    s.debouncer.push(' ');
    s.debouncer.push('d');
    s.debouncer.push('d');
    assert!(pending_command(&s).is_none());
}

#[test]
fn checks_refuse_out_of_range_cursors() {
    let mut s = EditorState::with_text("ab");
    s.cursor_col = 5;
    assert!(!command_fits("dd", &s));
    s.cursor_row = 3;
    s.cursor_col = 0;
    assert!(!command_fits("dd", &s));
    s.cursor_row = 1;
    assert!(command_fits("dd", &s));
    assert!(!command_fits("diw", &s));
    s.mode = Mode::Insert;
    s.cursor_row = 0;
    s.cursor_col = 3;
    assert!(!key_fits(&press(KeyCode::Char('x')), &s));
    assert!(key_fits(&press(KeyCode::Esc), &s));
}

#[test]
fn ciw_is_diw_then_insert_mode() {
    let mut a = EditorState::with_text("one two three");
    a.cursor_col = 5;
    let mut b = EditorState::with_text("one two three");
    b.cursor_col = 5;
    run(&mut a, "ciw");
    run(&mut b, "diw");
    assert_eq!(a.text(), b.text());
    assert_eq!(a.cursor_col, b.cursor_col);
    assert_eq!(a.mode, Mode::Insert);
    assert_eq!(b.mode, Mode::Normal);
}

#[test]
fn dd_leaves_one_line_less() {
    let mut s = EditorState::with_text("one\ntwo\nthree\n");
    assert_eq!(s.line_count(), 4);
    s.cursor_row = 2;
    run(&mut s, "dd");
    assert_eq!(s.line_count(), 3);
    assert_eq!(s.text(), "one\ntwo\n");
}

#[test]
fn dd_between_carriage_return_and_line_feed_joins_them() {
    // The exception of the one-line-less law.
    let mut s = EditorState::with_text("a\rb\n\nc");
    assert_eq!(s.line_count(), 4);
    s.cursor_row = 1;
    run(&mut s, "dd");
    assert_eq!(s.text(), "a\r\nc");
    assert_eq!(s.line_count(), 2);
}

#[test]
fn control_w_opens_the_prompt_with_or_without_shift() {
    for c in ['w', 'W'] {
        let mut s = EditorState::new();
        let k = KeyInput { code: KeyCode::Char(c), modifiers: KeyModifiers { control: true, ..NONE }, kind: KeyKind::Press };
        handle_event(&k, &mut s);
        assert_eq!(s.mode, Mode::EzMode);
        assert_eq!(s.ez_input, "");
    }
    let mut s = EditorState::new();
    key(&mut s, KeyCode::Char('w'));
    assert_eq!(s.mode, Mode::Normal);
}

#[test]
fn a_pause_runs_the_pending_command_and_forgets_the_typing() {
    let mut s = EditorState::with_text("keep drop");
    s.cursor_col = 9;
    key(&mut s, KeyCode::Char('i'));
    type_str(&mut s, " ciw");
    assert_eq!(on_pause(&mut s), PauseOutcome::Ran("ciw".to_string()));
    assert_eq!(s.text(), "keep drop ");
    assert!(pending_command(&s).is_none());
}

#[test]
fn a_pause_without_a_command_only_forgets_the_typing() {
    let mut s = EditorState::with_text("ab");
    key(&mut s, KeyCode::Char('i'));
    type_str(&mut s, "xy");
    assert_eq!(on_pause(&mut s), PauseOutcome::Nothing);
    assert_eq!(s.text(), "xyab");
    assert_eq!(s.mode, Mode::Insert);
    s.debouncer.push(' ');
    s.debouncer.push('d');
    s.debouncer.push('d');
    s.debouncer.clear();
    assert!(pending_command(&s).is_none());
}

#[test]
fn a_pause_hands_back_a_command_that_does_not_fit() {
    let mut s = EditorState::with_text("ab");
    key(&mut s, KeyCode::Char('i'));
    type_str(&mut s, " dd");
    s.cursor_row = 5;
    assert_eq!(on_pause(&mut s), PauseOutcome::DoesNotFit("dd".to_string()));
    assert_eq!(s.text(), " ddab");
}
