//! The editor's state and what keys and structural commands do to it.

use vstd::prelude::*;
use ropey::Rope;
use crate::buffer::{
    line_count, line_start, line_text, remove_range, rope_from_str, rope_insert_char, rope_len_chars,
    rope_clone, rope_len_lines, rope_to_string, rope_line, rope_line_to_char, rope_remove, rope_text, is_line_break_char,
    lemma_line_start_bounds, lemma_insert_keeps_line_start, lemma_remove_line_count,
};
use crate::debouncer::{is_match_result, pushed, Debouncer, CAPACITY};
use crate::parser::VimCommand;
use vstd::utf8::encode_utf8;
use vstd::string::StringSliceAdditionalSpecFns;
use crate::text::{
    char_is_alphanumeric, char_is_whitespace, chars_of, is_whitespace_char, is_word_char, pop_char, push_char,
    str_eq, unicode_alphanumeric,
};

verus! {

#[derive(Debug, Clone, Copy, PartialEq, Eq, Structural)]
pub enum Mode {
    Normal,
    Insert,
    PendingMotion,
    EzMode,
}

pub struct EditorState {
    pub buffer: Rope,
    pub cursor_row: usize,
    pub cursor_col: usize,
    pub mode: Mode,
    pub should_quit: bool,
    pub debouncer: Debouncer,
    pub ez_input: String,
}

/// The editor's state as plain values.
pub struct EditorView {
    pub text: Seq<char>,
    pub row: int,
    pub col: int,
    pub mode: Mode,
    pub should_quit: bool,
    pub typed: Seq<char>,
    pub ez_input: Seq<char>,
}

impl View for EditorState {
    type V = EditorView;

    open spec fn view(&self) -> EditorView {
        EditorView {
            text: rope_text(self.buffer),
            row: self.cursor_row as int,
            col: self.cursor_col as int,
            mode: self.mode,
            should_quit: self.should_quit,
            typed: self.debouncer@,
            ez_input: self.ez_input@,
        }
    }
}

impl EditorView {
    pub open spec fn with_text(self, text: Seq<char>) -> EditorView {
        EditorView { text, ..self }
    }

    pub open spec fn with_cursor(self, row: int, col: int) -> EditorView {
        EditorView { row, col, ..self }
    }

    pub open spec fn with_mode(self, mode: Mode) -> EditorView {
        EditorView { mode, ..self }
    }

    /// Where the cursor stands in the text.
    pub open spec fn cursor_index(self) -> int {
        line_start(self.text, self.row) + self.col
    }
}

// ---------------------------------------------------------------------
// Word scans over a line.

/// Moves back from `k` over word characters.
pub open spec fn scan_word_back(line: Seq<char>, k: int) -> int
    decreases k,
{
    if 0 < k <= line.len() && is_word_char(line[k - 1]) {
        scan_word_back(line, k - 1)
    } else {
        k
    }
}

/// Moves forward from `k` over word characters.
pub open spec fn scan_word_forward(line: Seq<char>, k: int) -> int
    decreases line.len() - k,
{
    if 0 <= k < line.len() && is_word_char(line[k]) {
        scan_word_forward(line, k + 1)
    } else {
        k
    }
}

/// Moves forward from `k` over whitespace.
pub open spec fn scan_space_forward(line: Seq<char>, k: int) -> int
    decreases line.len() - k,
{
    if 0 <= k < line.len() && is_whitespace_char(line[k]) {
        scan_space_forward(line, k + 1)
    } else {
        k
    }
}

/// How many characters of a line come before its line break.
pub open spec fn content_len(line: Seq<char>) -> int
    decreases line.len(),
{
    if line.len() == 0 || is_line_break_char(line[0]) {
        0
    } else {
        1 + content_len(line.drop_first())
    }
}

// ---------------------------------------------------------------------
// Structural commands.

/// Removes the `n` characters just before the cursor, when the cursor is at
/// least `n` characters into its line, and moves the cursor back over them.
pub open spec fn erase_before_cursor(v: EditorView, n: int) -> EditorView {
    if v.col >= n {
        let col = v.col - n;
        let p = line_start(v.text, v.row) + col;
        v.with_text(remove_range(v.text, p, p + n)).with_cursor(v.row, col)
    } else {
        v
    }
}

/// `dd`: removes the cursor's line with its line break, puts the cursor at
/// the start of the line, and moves it up when its line no longer exists.
pub open spec fn delete_line(v: EditorView) -> EditorView {
    let start = line_start(v.text, v.row);
    let end = line_start(v.text, v.row + 1);
    let text = if start < end {
        remove_range(v.text, start, end)
    } else {
        v.text
    };
    let row = if v.row >= line_count(text) && v.row > 0 {
        v.row - 1
    } else {
        v.row
    };
    v.with_text(text).with_cursor(row, 0)
}

/// `diw`, `daw` and `ciw`: removes the word around the cursor (with the
/// whitespace after it for `daw`) and puts the cursor where it began;
/// `ciw` then enters insert mode.
pub open spec fn delete_word(v: EditorView, around: bool, change: bool) -> EditorView {
    let line = line_text(v.text, v.row);
    let ls = line_start(v.text, v.row);
    let start = scan_word_back(line, v.col);
    let word_end = scan_word_forward(line, v.col);
    let end = if around {
        scan_space_forward(line, word_end)
    } else {
        word_end
    };
    let v2 = if start < end {
        v.with_text(remove_range(v.text, ls + start, ls + end)).with_cursor(v.row, start)
    } else {
        v
    };
    if change {
        v2.with_mode(Mode::Insert)
    } else {
        v2
    }
}

/// How many characters a command erases before it runs: the byte length of
/// its text in insert mode (where it was typed), none otherwise.
pub open spec fn typed_len(v: EditorView, cmd_bytes: int) -> int {
    if v.mode == Mode::Insert {
        cmd_bytes
    } else {
        0
    }
}

pub open spec fn is_word_command(cmd: Seq<char>) -> bool {
    cmd == "ciw"@ || cmd == "diw"@ || cmd == "daw"@
}

/// What running the structural command `cmd` does.
pub open spec fn spec_execute(v: EditorView, cmd: Seq<char>, cmd_bytes: int) -> EditorView {
    let v1 = erase_before_cursor(v, typed_len(v, cmd_bytes));
    if cmd == "dd"@ {
        delete_line(v1)
    } else if is_word_command(cmd) {
        delete_word(v1, cmd == "daw"@, cmd == "ciw"@)
    } else {
        v1
    }
}

/// The states on which running `cmd` reads no line and no character
/// outside the text.
pub open spec fn execute_ok(v: EditorView, cmd: Seq<char>, cmd_bytes: int) -> bool {
    let v1 = erase_before_cursor(v, typed_len(v, cmd_bytes));
    &&& v.col >= typed_len(v, cmd_bytes) ==> v.row <= line_count(v.text) && v.cursor_index() <= v.text.len()
    &&& cmd == "dd"@ ==> v1.row <= line_count(v1.text)
    &&& is_word_command(cmd) ==> v1.row < line_count(v1.text)
}

// ---------------------------------------------------------------------
// Keys.

#[derive(Debug, Clone, Copy, PartialEq, Eq, Structural)]
pub enum KeyCode {
    Char(char),
    Esc,
    Backspace,
    Enter,
    Left,
    Right,
    Up,
    Down,
    Tab,
    Insert,
    Delete,
    Home,
    End,
    PageUp,
    PageDown,
    F(u8),
    /// Any other key.
    Other,
}

/// The modifier keys held with a key.
#[derive(Debug, Clone, Copy, PartialEq, Eq, Structural)]
pub struct KeyModifiers {
    pub shift: bool,
    pub control: bool,
    pub alt: bool,
    pub meta: bool,
}

#[derive(Debug, Clone, Copy, PartialEq, Eq, Structural)]
pub enum KeyKind {
    Press,
    Repeat,
    Release,
}

#[derive(Debug, Clone, Copy, PartialEq, Eq, Structural)]
pub struct KeyInput {
    pub code: KeyCode,
    pub modifiers: KeyModifiers,
    pub kind: KeyKind,
}

/// What the caller has to do after a key: nothing, save the buffer, or send
/// a query to the assistant.
#[derive(Debug, Clone, PartialEq, Eq)]
pub enum Effect {
    Nothing,
    Save,
    Query(String),
}

pub enum EffectView {
    Nothing,
    Save,
    Query(Seq<char>),
}

impl View for Effect {
    type V = EffectView;

    open spec fn view(&self) -> EffectView {
        match self {
            Effect::Nothing => EffectView::Nothing,
            Effect::Save => EffectView::Save,
            Effect::Query(s) => EffectView::Query(s@),
        }
    }
}

pub open spec fn move_left(v: EditorView) -> EditorView {
    if v.col > 0 {
        v.with_cursor(v.row, v.col - 1)
    } else {
        v
    }
}

pub open spec fn move_right(v: EditorView) -> EditorView {
    if 0 <= v.row < line_count(v.text) && v.col < content_len(line_text(v.text, v.row)) {
        v.with_cursor(v.row, v.col + 1)
    } else {
        v
    }
}

pub open spec fn clamp_col(col: int, len: int) -> int {
    if col < len {
        col
    } else {
        len
    }
}

pub open spec fn move_down(v: EditorView) -> EditorView {
    if v.row + 1 < line_count(v.text) {
        v.with_cursor(v.row + 1, clamp_col(v.col, content_len(line_text(v.text, v.row + 1))))
    } else {
        v
    }
}

pub open spec fn move_up(v: EditorView) -> EditorView {
    if 0 < v.row <= line_count(v.text) {
        v.with_cursor(v.row - 1, clamp_col(v.col, content_len(line_text(v.text, v.row - 1))))
    } else {
        v
    }
}

/// What a key does in normal mode.
pub open spec fn normal_key(v: EditorView, key: KeyInput) -> (EditorView, EffectView) {
    match key.code {
        KeyCode::Char(c) => if c == 'i' {
            (v.with_mode(Mode::Insert), EffectView::Nothing)
        } else if c == 'q' {
            (EditorView { should_quit: true, ..v }, EffectView::Nothing)
        } else if c == 's' {
            (v, EffectView::Save)
        } else if c == 'h' {
            (move_left(v), EffectView::Nothing)
        } else if c == 'l' {
            (move_right(v), EffectView::Nothing)
        } else if c == 'j' {
            (move_down(v), EffectView::Nothing)
        } else if c == 'k' {
            (move_up(v), EffectView::Nothing)
        } else if (c == 'w' || c == 'W') && key.modifiers.control {
            (EditorView { mode: Mode::EzMode, ez_input: Seq::empty(), ..v }, EffectView::Nothing)
        } else {
            (v, EffectView::Nothing)
        },
        _ => (v, EffectView::Nothing),
    }
}

/// What a key does in insert mode: a character is remembered and inserted
/// at the cursor; backspace removes the character before the cursor.
pub open spec fn insert_key(v: EditorView, key: KeyInput) -> EditorView {
    match key.code {
        KeyCode::Char(c) => EditorView {
            text: v.text.insert(v.cursor_index(), c),
            col: v.col + 1,
            typed: pushed(v.typed, c),
            ..v
        },
        KeyCode::Backspace => if v.col > 0 {
            let p = v.cursor_index() - 1;
            v.with_text(remove_range(v.text, p, p + 1)).with_cursor(v.row, v.col - 1)
        } else {
            v
        },
        _ => v,
    }
}

/// What a key does in the assistant prompt.
pub open spec fn ez_key(v: EditorView, key: KeyInput) -> (EditorView, EffectView) {
    match key.code {
        KeyCode::Char(c) => (EditorView { ez_input: v.ez_input.push(c), ..v }, EffectView::Nothing),
        KeyCode::Backspace => (
            EditorView {
                ez_input: if v.ez_input.len() > 0 {
                    v.ez_input.drop_last()
                } else {
                    v.ez_input
                },
                ..v
            },
            EffectView::Nothing,
        ),
        KeyCode::Enter => (v.with_mode(Mode::Normal), EffectView::Query(v.ez_input)),
        _ => (v, EffectView::Nothing),
    }
}

/// What a key event does to the editor, and what it asks of the caller.
pub open spec fn spec_key(v: EditorView, key: KeyInput) -> (EditorView, EffectView) {
    if key.kind != KeyKind::Press {
        (v, EffectView::Nothing)
    } else if key.code == KeyCode::Esc {
        (EditorView { mode: Mode::Normal, typed: Seq::empty(), ..v }, EffectView::Nothing)
    } else {
        match v.mode {
            Mode::Normal => normal_key(v, key),
            Mode::Insert => (insert_key(v, key), EffectView::Nothing),
            Mode::EzMode => ez_key(v, key),
            Mode::PendingMotion => (v, EffectView::Nothing),
        }
    }
}

/// The states on which a key reads and writes only inside the text.
pub open spec fn key_ok(v: EditorView, key: KeyInput) -> bool {
    key.kind == KeyKind::Press && key.code != KeyCode::Esc && v.mode == Mode::Insert ==> match key.code {
        KeyCode::Char(_) => v.row <= line_count(v.text) && v.cursor_index() <= v.text.len()
            && v.text.len() < usize::MAX,
        KeyCode::Backspace => v.col > 0 ==> v.row <= line_count(v.text) && v.cursor_index()
            <= v.text.len(),
        _ => true,
    }
}

// ---------------------------------------------------------------------
// Executable code.

fn is_break_char(c: char) -> (r: bool)
    ensures
        r == is_line_break_char(c),
{
    c == '\n' || c == '\u{b}' || c == '\u{c}' || c == '\r' || c == '\u{85}' || c == '\u{2028}'
        || c == '\u{2029}'
}

fn is_word_at(line: &Vec<char>, k: usize) -> (r: bool)
    requires
        k < line@.len(),
    ensures
        r == is_word_char(line@[k as int]),
{
    let c = line[k];
    char_is_alphanumeric(c) || c == '_'
}

fn content_length(line: &Vec<char>) -> (n: usize)
    ensures
        n == content_len(line@),
{
    let mut i: usize = 0;
    assert(line@.skip(0) =~= line@);
    while i < line.len()
        invariant
            i <= line@.len(),
            content_len(line@) == i + content_len(line@.skip(i as int)),
        decreases line@.len() - i,
    {
        assert(line@.skip(i as int)[0] == line@[i as int]);
        if is_break_char(line[i]) {
            return i;
        }
        assert(line@.skip(i as int).drop_first() =~= line@.skip(i + 1));
        i = i + 1;
    }
    i
}

impl EditorState {
    /// An editor on an empty buffer, in normal mode.
    pub fn new() -> (s: Self)
        ensures
            s@.text == Seq::<char>::empty(),
            s@.row == 0 && s@.col == 0,
            s@.mode == Mode::Normal,
            !s@.should_quit,
            s@.typed == Seq::<char>::empty(),
            s@.ez_input == Seq::<char>::empty(),
    {
        proof {
            reveal_strlit("");
        }
        EditorState::with_text("")
    }

    /// An editor on a buffer that holds `text`, in normal mode.
    pub fn with_text(text: &str) -> (s: Self)
        ensures
            s@.text == text@,
            s@.row == 0 && s@.col == 0,
            s@.mode == Mode::Normal,
            !s@.should_quit,
            s@.typed == Seq::<char>::empty(),
            s@.ez_input == Seq::<char>::empty(),
    {
        EditorState {
            buffer: rope_from_str(text),
            cursor_row: 0,
            cursor_col: 0,
            mode: Mode::Normal,
            should_quit: false,
            debouncer: Debouncer::new(),
            ez_input: String::new(),
        }
    }

    /// All the text of the buffer.
    pub fn text(&self) -> (t: String)
        ensures
            t@ == self@.text,
    {
        rope_to_string(&self.buffer)
    }

    /// How many lines the buffer has.
    pub fn line_count(&self) -> (n: usize)
        ensures
            n == line_count(self@.text),
    {
        rope_len_lines(&self.buffer)
    }

    fn line_content_length(&self, row: usize) -> (n: usize)
        requires
            row < line_count(rope_text(self.buffer)),
        ensures
            n == content_len(line_text(rope_text(self.buffer), row as int)),
    {
        let line = rope_line(&self.buffer, row);
        let chars = chars_of(line.as_str());
        content_length(&chars)
    }

    pub fn move_cursor_left(&mut self)
        ensures
            final(self)@ == move_left(old(self)@),
    {
        if self.cursor_col > 0 {
            self.cursor_col = self.cursor_col - 1;
        }
    }

    pub fn move_cursor_right(&mut self)
        ensures
            final(self)@ == move_right(old(self)@),
    {
        let lines = rope_len_lines(&self.buffer);
        if self.cursor_row < lines {
            let len = self.line_content_length(self.cursor_row);
            if self.cursor_col < len {
                self.cursor_col = self.cursor_col + 1;
            }
        }
    }

    pub fn move_cursor_down(&mut self)
        ensures
            final(self)@ == move_down(old(self)@),
    {
        let lines = rope_len_lines(&self.buffer);
        if self.cursor_row < lines - 1 {
            let row = self.cursor_row + 1;
            let len = self.line_content_length(row);
            self.cursor_row = row;
            if self.cursor_col >= len {
                self.cursor_col = len;
            }
        }
    }

    pub fn move_cursor_up(&mut self)
        ensures
            final(self)@ == move_up(old(self)@),
    {
        let lines = rope_len_lines(&self.buffer);
        if self.cursor_row > 0 && self.cursor_row <= lines {
            let row = self.cursor_row - 1;
            let len = self.line_content_length(row);
            self.cursor_row = row;
            if self.cursor_col >= len {
                self.cursor_col = len;
            }
        }
    }
}

fn delete_current_line(state: &mut EditorState)
    requires
        old(state)@.row <= line_count(old(state)@.text),
    ensures
        final(state)@ == delete_line(old(state)@),
{
    let ghost t = state@.text;
    let start = rope_line_to_char(&state.buffer, state.cursor_row);
    let lines = rope_len_lines(&state.buffer);
    let end = if state.cursor_row < lines - 1 {
        rope_line_to_char(&state.buffer, state.cursor_row + 1)
    } else {
        rope_len_chars(&state.buffer)
    };
    proof {
        lemma_line_start_bounds(t, state.cursor_row as int, state.cursor_row + 1);
    }
    assert(end == line_start(t, state.cursor_row + 1));
    if start < end {
        rope_remove(&mut state.buffer, start, end);
    }
    state.cursor_col = 0;
    let lines_after = rope_len_lines(&state.buffer);
    if state.cursor_row >= lines_after && state.cursor_row > 0 {
        state.cursor_row = state.cursor_row - 1;
    }
}

fn delete_current_word(state: &mut EditorState, around: bool, change: bool)
    requires
        old(state)@.row < line_count(old(state)@.text),
    ensures
        final(state)@ == delete_word(old(state)@, around, change),
{
    let ghost t = state@.text;
    let _len = rope_len_chars(&state.buffer);
    let row = state.cursor_row;
    let line_string = rope_line(&state.buffer, row);
    let line = chars_of(line_string.as_str());
    let ghost l = line@;
    let col = state.cursor_col;
    let n = line.len();
    let mut start = col;
    loop
        invariant
            start <= col,
            l == line@,
            n == l.len(),
            scan_word_back(l, col as int) == scan_word_back(l, start as int),
            col > n ==> start == col,
        ensures
            start <= col,
            start == scan_word_back(l, col as int),
            col > n ==> start == col,
        decreases start,
    {
        if start == 0 || start > n {
            break;
        }
        if !is_word_at(&line, start - 1) {
            break;
        }
        start = start - 1;
    }
    let mut end = col;
    loop
        invariant
            col <= end,
            l == line@,
            n == l.len(),
            scan_word_forward(l, col as int) == scan_word_forward(l, end as int),
            col <= n ==> end <= n,
            col > n ==> end == col,
        ensures
            col <= end,
            end == scan_word_forward(l, col as int),
            col <= n ==> end <= n,
            col > n ==> end == col,
        decreases n - end,
    {
        if end >= n {
            break;
        }
        if !is_word_at(&line, end) {
            break;
        }
        end = end + 1;
    }
    let ghost word_end = end;
    if around {
        loop
            invariant
                col <= end,
                l == line@,
                n == l.len(),
                scan_space_forward(l, word_end as int) == scan_space_forward(l, end as int),
                col <= n ==> end <= n,
                col > n ==> end == col,
            ensures
                col <= end,
                end == scan_space_forward(l, word_end as int),
                col <= n ==> end <= n,
                col > n ==> end == col,
            decreases n - end,
        {
            if end >= n {
                break;
            }
            if !char_is_whitespace(line[end]) {
                break;
            }
            end = end + 1;
        }
    }
    assert(l == line_text(t, row as int));
    assert(start == scan_word_back(l, col as int));
    assert(word_end == scan_word_forward(l, col as int));
    assert(end == if around { scan_space_forward(l, word_end as int) } else { word_end as int });
    if start < end {
        let char_idx = rope_line_to_char(&state.buffer, row);
        proof {
            lemma_line_start_bounds(t, row as int, row + 1);
        }
        rope_remove(&mut state.buffer, char_idx + start, char_idx + end);
        state.cursor_col = start;
    }
    if change {
        state.mode = Mode::Insert;
    }
}

/// Runs a structural command (`dd`, `ciw`, `diw` or `daw`) at the cursor.
/// In insert mode the command's text was typed into the buffer just before
/// the cursor, and is erased first.
pub fn execute_command(cmd: &str, state: &mut EditorState)
    requires
        execute_ok(old(state)@, cmd@, cmd.len() as int),
    ensures
        final(state)@ == spec_execute(old(state)@, cmd@, cmd.len() as int),
{
    let n = match state.mode {
        Mode::Insert => cmd.len(),
        _ => 0,
    };
    let _len = rope_len_chars(&state.buffer);
    if state.cursor_col >= n {
        state.cursor_col = state.cursor_col - n;
        let line = rope_line_to_char(&state.buffer, state.cursor_row);
        rope_remove(&mut state.buffer, line + state.cursor_col, line + state.cursor_col + n);
    }
    if str_eq(cmd, "dd") {
        delete_current_line(state);
    } else if str_eq(cmd, "ciw") || str_eq(cmd, "diw") || str_eq(cmd, "daw") {
        let around = str_eq(cmd, "daw");
        let change = str_eq(cmd, "ciw");
        delete_current_word(state, around, change);
    }
}

/// Applies a key event to the editor and says what the caller has to do
/// next.
pub fn handle_event(key: &KeyInput, state: &mut EditorState) -> (r: Effect)
    requires
        key_ok(old(state)@, *key),
    ensures
        final(state)@ == spec_key(old(state)@, *key).0,
        r@ == spec_key(old(state)@, *key).1,
{
    if key.kind != KeyKind::Press {
        return Effect::Nothing;
    }
    if key.code == KeyCode::Esc {
        state.mode = Mode::Normal;
        state.debouncer.clear();
        return Effect::Nothing;
    }
    match state.mode {
        Mode::Normal => {
            match key.code {
                KeyCode::Char(c) => {
                    if c == 'i' {
                        state.mode = Mode::Insert;
                    } else if c == 'q' {
                        state.should_quit = true;
                    } else if c == 's' {
                        return Effect::Save;
                    } else if c == 'h' {
                        state.move_cursor_left();
                    } else if c == 'l' {
                        state.move_cursor_right();
                    } else if c == 'j' {
                        state.move_cursor_down();
                    } else if c == 'k' {
                        state.move_cursor_up();
                    } else if (c == 'w' || c == 'W') && key.modifiers.control {
                        state.mode = Mode::EzMode;
                        state.ez_input = String::new();
                    }
                },
                _ => {},
            }
            Effect::Nothing
        },
        Mode::Insert => {
            match key.code {
                KeyCode::Char(c) => {
                    state.debouncer.push(c);
                    let col = state.cursor_col;
                    let line = rope_line_to_char(&state.buffer, state.cursor_row);
                    rope_insert_char(&mut state.buffer, line + col, c);
                    state.cursor_col = state.cursor_col + 1;
                },
                KeyCode::Backspace => {
                    if state.cursor_col > 0 {
                        let _len = rope_len_chars(&state.buffer);
                        state.cursor_col = state.cursor_col - 1;
                        let line = rope_line_to_char(&state.buffer, state.cursor_row);
                        rope_remove(&mut state.buffer, line + state.cursor_col, line + state.cursor_col + 1);
                    }
                },
                _ => {},
            }
            Effect::Nothing
        },
        Mode::EzMode => {
            match key.code {
                KeyCode::Char(c) => {
                    push_char(&mut state.ez_input, c);
                    Effect::Nothing
                },
                KeyCode::Backspace => {
                    pop_char(&mut state.ez_input);
                    Effect::Nothing
                },
                KeyCode::Enter => {
                    state.mode = Mode::Normal;
                    let query = state.ez_input.clone();
                    Effect::Query(query)
                },
                _ => Effect::Nothing,
            }
        },
        Mode::PendingMotion => Effect::Nothing,
    }
}

/// Whether running `cmd` stays inside the text: the condition that
/// `execute_command` needs.
pub fn command_fits(cmd: &str, state: &EditorState) -> (ok: bool)
    ensures
        ok == execute_ok(state@, cmd@, cmd.len() as int),
{
    let ghost v = state@;
    let n = match state.mode {
        Mode::Insert => cmd.len(),
        _ => 0,
    };
    let len = rope_len_chars(&state.buffer);
    let lines = rope_len_lines(&state.buffer);
    let mut text = rope_clone(&state.buffer);
    let row = state.cursor_row;
    if state.cursor_col >= n {
        if row > lines {
            return false;
        }
        let start = rope_line_to_char(&state.buffer, row);
        if start > len || state.cursor_col > len - start {
            return false;
        }
        let col = state.cursor_col - n;
        rope_remove(&mut text, start + col, start + col + n);
    }
    let lines_after = rope_len_lines(&text);
    if str_eq(cmd, "dd") {
        proof {
            reveal_strlit("dd");
            reveal_strlit("ciw");
            reveal_strlit("diw");
            reveal_strlit("daw");
        }
        row <= lines_after
    } else if str_eq(cmd, "ciw") || str_eq(cmd, "diw") || str_eq(cmd, "daw") {
        row < lines_after
    } else {
        true
    }
}

/// Whether a key stays inside the text: the condition that `handle_event`
/// needs.
pub fn key_fits(key: &KeyInput, state: &EditorState) -> (ok: bool)
    ensures
        ok == key_ok(state@, *key),
{
    let inserting = match state.mode {
        Mode::Insert => true,
        _ => false,
    };
    if key.kind != KeyKind::Press || key.code == KeyCode::Esc || !inserting {
        return true;
    }
    let len = rope_len_chars(&state.buffer);
    let lines = rope_len_lines(&state.buffer);
    let row = state.cursor_row;
    let inside = if row > lines {
        false
    } else {
        let start = rope_line_to_char(&state.buffer, row);
        start <= len && state.cursor_col <= len - start
    };
    match key.code {
        KeyCode::Char(_) => inside && len < usize::MAX,
        KeyCode::Backspace => state.cursor_col == 0 || inside,
        _ => true,
    }
}

/// The structural command that the characters typed in insert mode end
/// with, if any; nothing outside insert mode.
pub fn pending_command(state: &EditorState) -> (r: Option<(String, VimCommand)>)
    ensures
        state.mode == Mode::Insert ==> is_match_result(state@.typed, r),
        state.mode != Mode::Insert ==> r is None,
{
    match state.mode {
        Mode::Insert => state.debouncer.matches_command(),
        _ => None,
    }
}

/// What a pause in typing led to.
#[derive(Debug, Clone, PartialEq, Eq)]
pub enum PauseOutcome {
    /// No command was pending.
    Nothing,
    /// The pending command ran.
    Ran(String),
    /// A command was pending but would read outside the text; it did not run.
    DoesNotFit(String),
}

/// The length in bytes of a text, as `str::len` gives it.
pub open spec fn byte_len(s: Seq<char>) -> int {
    (encode_utf8(s).len() as usize) as int
}

/// The typed characters forgotten.
pub open spec fn forget_typed(v: EditorView) -> EditorView {
    EditorView { typed: Seq::empty(), ..v }
}

/// What a pause in typing does: the pending command, if there is one, runs,
/// and the typed characters are forgotten. A pending command that would read
/// outside the text is handed back without running, and nothing changes.
pub fn on_pause(state: &mut EditorState) -> (out: PauseOutcome)
    ensures
        out is Nothing ==> (old(state).mode == Mode::Insert ==> is_match_result(old(state)@.typed, None))
            && final(state)@ == forget_typed(old(state)@),
        out matches PauseOutcome::Ran(s) ==> old(state).mode == Mode::Insert && (exists|c: VimCommand|
            #[trigger] is_match_result(old(state)@.typed, Some((s, c)))) && execute_ok(
            old(state)@,
            s@,
            byte_len(s@),
        ) && final(state)@ == forget_typed(spec_execute(old(state)@, s@, byte_len(s@))),
        out matches PauseOutcome::DoesNotFit(s) ==> old(state).mode == Mode::Insert && (exists|c: VimCommand|
            #[trigger] is_match_result(old(state)@.typed, Some((s, c)))) && !execute_ok(
            old(state)@,
            s@,
            byte_len(s@),
        ) && final(state)@ == old(state)@,
{
    match pending_command(state) {
        Some((cmd, c)) => {
            assert(is_match_result(old(state)@.typed, Some((cmd, c))));
            let t = cmd.as_str();
            assert(t.spec_bytes() == encode_utf8(cmd@));
            assert(t.len() == byte_len(cmd@));
            if command_fits(t, state) {
                execute_command(t, state);
                state.debouncer.clear();
                PauseOutcome::Ran(cmd)
            } else {
                PauseOutcome::DoesNotFit(cmd)
            }
        },
        None => {
            state.debouncer.clear();
            PauseOutcome::Nothing
        },
    }
}

// ---------------------------------------------------------------------
// Laws.

pub open spec fn press(code: KeyCode) -> KeyInput {
    KeyInput {
        code,
        modifiers: KeyModifiers { shift: false, control: false, alt: false, meta: false },
        kind: KeyKind::Press,
    }
}

/// In insert mode, typing a character and then pressing backspace gives
/// back the text and the cursor, and both keys stay inside the text. The one
/// exception is a line feed typed at the start of a line that follows a
/// lone carriage return: the two become one line break and the line moves.
pub proof fn law_type_then_backspace(v: EditorView, c: char)
    requires
        v.mode == Mode::Insert,
        0 <= v.row < line_count(v.text),
        0 <= v.col,
        v.cursor_index() <= v.text.len() < usize::MAX,
        !(v.col == 0 && v.row > 0 && c == '\n' && v.text[line_start(v.text, v.row) - 1] == '\r'),
    ensures
        key_ok(v, press(KeyCode::Char(c))),
        key_ok(spec_key(v, press(KeyCode::Char(c))).0, press(KeyCode::Backspace)),
        ({
            let back = spec_key(spec_key(v, press(KeyCode::Char(c))).0, press(KeyCode::Backspace)).0;
            back.text == v.text && back.row == v.row && back.col == v.col && back.mode == v.mode
        }),
{
    let idx = v.cursor_index();
    lemma_line_start_bounds(v.text, 0, v.row);
    lemma_insert_keeps_line_start(v.text, v.row, idx, c);
    let typed = spec_key(v, press(KeyCode::Char(c))).0;
    assert(typed.cursor_index() == idx + 1);
    let back = spec_key(typed, press(KeyCode::Backspace)).0;
    assert(back.text =~= v.text);
}

/// Escape, in any mode, returns to normal mode and forgets the typed
/// characters, leaving the text and the cursor alone.
pub proof fn law_escape_returns_to_normal(v: EditorView)
    ensures
        key_ok(v, press(KeyCode::Esc)),
        spec_key(v, press(KeyCode::Esc)).0.mode == Mode::Normal,
        spec_key(v, press(KeyCode::Esc)).0.typed == Seq::<char>::empty(),
        spec_key(v, press(KeyCode::Esc)).0.text == v.text,
        spec_key(v, press(KeyCode::Esc)).0.row == v.row,
        spec_key(v, press(KeyCode::Esc)).0.col == v.col,
{
}

/// `ciw` does what `diw` does and then enters insert mode.
pub proof fn law_ciw_is_diw_then_insert(v: EditorView, cmd_bytes: int)
    ensures
        spec_execute(v, "ciw"@, cmd_bytes) == spec_execute(v, "diw"@, cmd_bytes).with_mode(Mode::Insert),
        execute_ok(v, "ciw"@, cmd_bytes) == execute_ok(v, "diw"@, cmd_bytes),
{
    reveal_strlit("ciw");
    reveal_strlit("diw");
    reveal_strlit("daw");
    reveal_strlit("dd");
    assert("ciw"@.len() == 3 && "diw"@.len() == 3 && "dd"@.len() == 2);
    assert("ciw"@[0] == 'c' && "diw"@[0] == 'd' && "daw"@[1] == 'a' && "diw"@[1] == 'i');
    assert("ciw"@ != "dd"@ && "diw"@ != "dd"@);
    assert("ciw"@ != "daw"@ && "diw"@ != "daw"@ && "diw"@ != "ciw"@);
    let v1 = erase_before_cursor(v, typed_len(v, cmd_bytes));
    assert(spec_execute(v, "ciw"@, cmd_bytes) == delete_word(v1, false, true));
    assert(spec_execute(v, "diw"@, cmd_bytes) == delete_word(v1, false, false));
}

/// In normal mode, a command other than `dd`, `ciw`, `diw` and `daw`
/// changes nothing.
pub proof fn law_other_commands_change_nothing(v: EditorView, cmd: Seq<char>, cmd_bytes: int)
    requires
        v.mode == Mode::Normal,
        0 <= v.row,
        0 <= v.col,
        execute_ok(v, cmd, cmd_bytes),
        cmd != "dd"@,
        !is_word_command(cmd),
    ensures
        spec_execute(v, cmd, cmd_bytes) == v,
{
    let p = line_start(v.text, v.row) + v.col;
    lemma_line_start_bounds(v.text, 0, v.row);
    assert(remove_range(v.text, p, p) =~= v.text);
}

/// No key makes the debouncer remember more than its capacity.
pub proof fn law_keys_keep_typed_within_capacity(v: EditorView, key: KeyInput)
    requires
        v.typed.len() <= CAPACITY,
    ensures
        spec_key(v, key).0.typed.len() <= CAPACITY,
{
}

/// In normal mode, `dd` on a line that has a line after it leaves one line
/// less. The exception: when the line before ends with a lone carriage
/// return and the line after starts with a line feed, the two join into one
/// line break and one more line goes.
pub proof fn law_dd_removes_one_line(v: EditorView, cmd_bytes: int)
    requires
        v.mode == Mode::Normal,
        0 <= v.row,
        0 <= v.col,
        v.row + 1 < line_count(v.text),
        v.cursor_index() <= v.text.len(),
        !(v.row > 0 && line_start(v.text, v.row + 1) < v.text.len() && v.text[line_start(v.text, v.row) - 1]
            == '\r' && v.text[line_start(v.text, v.row + 1)] == '\n'),
    ensures
        line_count(spec_execute(v, "dd"@, cmd_bytes).text) + 1 == line_count(v.text),
{
    let p = v.cursor_index();
    lemma_line_start_bounds(v.text, 0, v.row);
    assert(remove_range(v.text, p, p) =~= v.text);
    lemma_remove_line_count(v.text, v.row);
}

/// In the assistant prompt, typing a character and then pressing backspace
/// gives back the prompt's text.
pub proof fn law_prompt_type_then_backspace(v: EditorView, c: char)
    requires
        v.mode == Mode::EzMode,
    ensures
        spec_key(spec_key(v, press(KeyCode::Char(c))).0, press(KeyCode::Backspace)).0.ez_input == v.ez_input,
{
    assert(v.ez_input.push(c).drop_last() =~= v.ez_input);
}

/// In normal mode, Ctrl+W (with or without shift) opens the assistant
/// prompt, empty, and leaves the text and the cursor alone.
pub proof fn law_control_w_opens_the_prompt(v: EditorView, c: char, shift: bool, alt: bool, meta: bool)
    requires
        v.mode == Mode::Normal,
        c == 'w' || c == 'W',
    ensures
        ({
            let key = KeyInput {
                code: KeyCode::Char(c),
                modifiers: KeyModifiers { shift, control: true, alt, meta },
                kind: KeyKind::Press,
            };
            let (after, effect) = spec_key(v, key);
            &&& key_ok(v, key)
            &&& after.mode == Mode::EzMode
            &&& after.ez_input == Seq::<char>::empty()
            &&& after.text == v.text
            &&& after.row == v.row
            &&& after.col == v.col
            &&& effect == EffectView::Nothing
        }),
{
}

proof fn lemma_scan_word_back(line: Seq<char>, k: int)
    requires
        0 <= k <= line.len(),
    ensures
        0 <= scan_word_back(line, k) <= k,
        forall|j: int| scan_word_back(line, k) <= j < k ==> is_word_char(#[trigger] line[j]),
        scan_word_back(line, k) == 0 || !is_word_char(line[scan_word_back(line, k) - 1]),
    decreases k,
{
    if 0 < k && is_word_char(line[k - 1]) {
        lemma_scan_word_back(line, k - 1);
    }
}

proof fn lemma_scan_word_forward(line: Seq<char>, k: int)
    requires
        0 <= k <= line.len(),
    ensures
        k <= scan_word_forward(line, k) <= line.len(),
        forall|j: int| k <= j < scan_word_forward(line, k) ==> is_word_char(#[trigger] line[j]),
        scan_word_forward(line, k) == line.len() || !is_word_char(line[scan_word_forward(line, k)]),
    decreases line.len() - k,
{
    if k < line.len() && is_word_char(line[k]) {
        lemma_scan_word_forward(line, k + 1);
    }
}

proof fn lemma_scan_space_forward(line: Seq<char>, k: int)
    requires
        0 <= k <= line.len(),
    ensures
        k <= scan_space_forward(line, k) <= line.len(),
        forall|j: int| k <= j < scan_space_forward(line, k) ==> is_whitespace_char(#[trigger] line[j]),
        scan_space_forward(line, k) == line.len() || !is_whitespace_char(line[scan_space_forward(line, k)]),
    decreases line.len() - k,
{
    if k < line.len() && is_whitespace_char(line[k]) {
        lemma_scan_space_forward(line, k + 1);
    }
}

/// In normal mode, with the cursor inside its line, `diw` removes the
/// longest run of word characters (alphanumeric characters, digits among
/// them, and `_`) around the cursor, and `daw` removes it with the
/// whitespace after it; the cursor goes to where the run began. The
/// returned triple is, within the line, the run's start, its end, and the
/// end of the whitespace after it.
pub proof fn law_word_commands_remove_the_whole_word(v: EditorView, cmd_bytes: int) -> (run: (int, int, int))
    requires
        v.mode != Mode::Insert,
        0 <= v.col <= line_text(v.text, v.row).len(),
    ensures
        ({
            let line = line_text(v.text, v.row);
            let ls = line_start(v.text, v.row);
            let (a, b, c) = run;
            &&& 0 <= a <= v.col <= b <= c <= line.len()
            &&& forall|j: int| a <= j < b ==> unicode_alphanumeric(#[trigger] line[j]) || line[j] == '_'
            &&& a == 0 || !(unicode_alphanumeric(line[a - 1]) || line[a - 1] == '_')
            &&& b == line.len() || !(unicode_alphanumeric(line[b]) || line[b] == '_')
            &&& spec_execute(v, "diw"@, cmd_bytes).text == remove_range(v.text, ls + a, ls + b)
            &&& spec_execute(v, "diw"@, cmd_bytes).row == v.row
            &&& spec_execute(v, "diw"@, cmd_bytes).col == (if a < b { a } else { v.col })
            &&& spec_execute(v, "diw"@, cmd_bytes).mode == v.mode
            &&& forall|j: int| b <= j < c ==> is_whitespace_char(#[trigger] line[j])
            &&& c == line.len() || !is_whitespace_char(line[c])
            &&& spec_execute(v, "daw"@, cmd_bytes).text == remove_range(v.text, ls + a, ls + c)
            &&& spec_execute(v, "daw"@, cmd_bytes).row == v.row
            &&& spec_execute(v, "daw"@, cmd_bytes).col == (if a < c { a } else { v.col })
        }),
{
    reveal_strlit("ciw");
    reveal_strlit("diw");
    reveal_strlit("daw");
    reveal_strlit("dd");
    assert("diw"@.len() == 3 && "daw"@.len() == 3 && "ciw"@.len() == 3 && "dd"@.len() == 2);
    assert("diw"@[0] == 'd' && "ciw"@[0] == 'c' && "daw"@[1] == 'a' && "diw"@[1] == 'i');
    assert("diw"@ != "dd"@ && "daw"@ != "dd"@ && "diw"@ != "daw"@ && "diw"@ != "ciw"@ && "daw"@ != "ciw"@);
    let line = line_text(v.text, v.row);
    let ls = line_start(v.text, v.row);
    lemma_line_start_bounds(v.text, v.row, v.row + 1);
    let v1 = erase_before_cursor(v, 0);
    assert(remove_range(v.text, ls + v.col, ls + v.col) =~= v.text);
    assert(v1 == v);
    lemma_scan_word_back(line, v.col);
    lemma_scan_word_forward(line, v.col);
    let a = scan_word_back(line, v.col);
    let b = scan_word_forward(line, v.col);
    lemma_scan_space_forward(line, b);
    let c = scan_space_forward(line, b);
    if a == b {
        assert(remove_range(v.text, ls + a, ls + b) =~= v.text);
    }
    if a == c {
        assert(remove_range(v.text, ls + a, ls + c) =~= v.text);
    }
    assert(spec_execute(v, "daw"@, cmd_bytes) == delete_word(v, true, false));
    assert(spec_execute(v, "diw"@, cmd_bytes) == delete_word(v, false, false));
    assert forall|j: int| a <= j < b implies unicode_alphanumeric(#[trigger] line[j]) || line[j] == '_' by {
        assert(is_word_char(line[j]));
    }
    assert(forall|j: int| b <= j < c ==> is_whitespace_char(#[trigger] line[j]));
    assert(spec_execute(v, "daw"@, cmd_bytes).text == remove_range(v.text, ls + a, ls + c));
    assert(spec_execute(v, "daw"@, cmd_bytes).col == (if a < c { a } else { v.col }));
    assert(spec_execute(v, "diw"@, cmd_bytes).text == remove_range(v.text, ls + a, ls + b));
    (a, b, c)
}

/// A plain key press, with no modifier held.
pub open spec fn plain_press(c: char) -> KeyInput {
    KeyInput {
        code: KeyCode::Char(c),
        modifiers: KeyModifiers { shift: false, control: false, alt: false, meta: false },
        kind: KeyKind::Press,
    }
}

/// In normal mode the keys do what the editor's help promises: `i` enters
/// insert mode, `q` quits, `s` asks for a save, `h` moves one column left
/// (not past the start of the line), `l` at most one column right, `j` at
/// most one row down and `k` one row up (not above the first); none of
/// them changes the text, and the moves stay in normal mode.
pub proof fn law_normal_mode_keys(v: EditorView)
    requires
        v.mode == Mode::Normal,
    ensures
        spec_key(v, plain_press('i')).0 == (EditorView { mode: Mode::Insert, ..v }),
        spec_key(v, plain_press('i')).1 == EffectView::Nothing,
        spec_key(v, plain_press('q')).0 == (EditorView { should_quit: true, ..v }),
        spec_key(v, plain_press('s')).0 == v,
        spec_key(v, plain_press('s')).1 == EffectView::Save,
        ({
            let h = spec_key(v, plain_press('h')).0;
            &&& h.text == v.text && h.row == v.row && h.mode == Mode::Normal
            &&& h.col == (if v.col > 0 { v.col - 1 } else { v.col })
        }),
        ({
            let l = spec_key(v, plain_press('l')).0;
            &&& l.text == v.text && l.row == v.row && l.mode == Mode::Normal
            &&& v.col <= l.col <= v.col + 1
        }),
        ({
            let j = spec_key(v, plain_press('j')).0;
            &&& j.text == v.text && j.mode == Mode::Normal
            &&& v.row <= j.row <= v.row + 1
        }),
        ({
            let k = spec_key(v, plain_press('k')).0;
            &&& k.text == v.text && k.mode == Mode::Normal
            &&& k.row == (if 0 < v.row <= line_count(v.text) { v.row - 1 } else { v.row })
        }),
{
}

/// In insert mode a typed character goes into the text just before the
/// cursor, which moves one column right; nothing else of the text changes.
/// In the assistant prompt a typed character is added to the request, and
/// Enter sends the request and returns to normal mode.
pub proof fn law_typing_and_sending(v: EditorView, c: char)
    ensures
        v.mode == Mode::Insert ==> ({
            let t = spec_key(v, plain_press(c)).0;
            let p = v.cursor_index();
            0 <= p <= v.text.len() ==> (t.text.len() == v.text.len() + 1 && t.text[p] == c && t.text.subrange(0, p)
                == v.text.subrange(0, p) && t.text.subrange(p + 1, t.text.len() as int) == v.text.subrange(
                p,
                v.text.len() as int,
            ) && t.row == v.row && t.col == v.col + 1 && t.mode == Mode::Insert)
        }),
        v.mode == Mode::EzMode ==> spec_key(v, plain_press(c)).0.ez_input == v.ez_input.push(c)
            && spec_key(v, plain_press(c)).0.text == v.text,
        v.mode == Mode::EzMode ==> spec_key(v, press(KeyCode::Enter)).0.mode == Mode::Normal
            && spec_key(v, press(KeyCode::Enter)).1 == EffectView::Query(v.ez_input)
            && spec_key(v, press(KeyCode::Enter)).0.text == v.text,
{
    let p = v.cursor_index();
    if v.mode == Mode::Insert && 0 <= p <= v.text.len() {
        let t = spec_key(v, plain_press(c)).0;
        assert(t.text.subrange(0, p) =~= v.text.subrange(0, p));
        assert(t.text.subrange(p + 1, t.text.len() as int) =~= v.text.subrange(p, v.text.len() as int));
    }
}

/// In normal mode `dd` removes the cursor's line, its line break included,
/// leaves the rest of the text as it was, and puts the cursor at the start
/// of a line: the same row, or the one above when the last line went.
pub proof fn law_dd_removes_the_cursor_line(v: EditorView, cmd_bytes: int)
    requires
        v.mode != Mode::Insert,
        0 <= v.col,
        v.cursor_index() <= v.text.len(),
    ensures
        ({
            let r = spec_execute(v, "dd"@, cmd_bytes);
            let ls = line_start(v.text, v.row);
            &&& r.text == v.text.subrange(0, ls) + v.text.subrange(
                ls + line_text(v.text, v.row).len(),
                v.text.len() as int,
            )
            &&& r.col == 0
            &&& r.row == v.row || r.row == v.row - 1
            &&& r.mode == v.mode
        }),
{
    reveal_strlit("dd");
    let ls = line_start(v.text, v.row);
    lemma_line_start_bounds(v.text, v.row, v.row + 1);
    assert(remove_range(v.text, line_start(v.text, v.row) + v.col, line_start(v.text, v.row) + v.col)
        =~= v.text);
    assert(erase_before_cursor(v, 0) == v);
    let le = line_start(v.text, v.row + 1);
    if ls == le {
        assert(v.text.subrange(0, ls) + v.text.subrange(ls, v.text.len() as int) =~= v.text);
    }
}

} // verus!
