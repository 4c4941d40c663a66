//! The grammar of Vim-style commands: an optional count, an optional
//! operator, and a motion, a text object or a doubled operator.

use vstd::prelude::*;

verus! {

#[derive(Debug, Clone, PartialEq, Eq)]
pub enum Operator {
    Delete,
    Change,
    Yank,
    VisualLine,
    Visual,
}

#[derive(Debug, Clone, PartialEq, Eq)]
pub enum Motion {
    Left,
    Right,
    Up,
    Down,
    WordForward,
    WordBackward,
    WordEnd,
    BigWordForward,
    BigWordBackward,
    BigWordEnd,
    EndOfLine,
    StartOfLine,
    FirstNonBlank,
    Top,
    Bottom,
    FindChar(char),
    TillChar(char),
}

#[derive(Debug, Clone, PartialEq, Eq)]
pub enum TextObject {
    Word,
    BigWord,
    DoubleQuote,
    SingleQuote,
    Parentheses,
    Braces,
    Brackets,
    Paragraph,
}

#[derive(Debug, Clone, PartialEq, Eq)]
pub enum Action {
    Motion(Motion),
    Inside(TextObject),
    Around(TextObject),
    /// The whole line, as in `dd`, `cc`, `yy`.
    Line,
    /// The current visual selection.
    VisualSelection,
}

#[derive(Debug, Clone, PartialEq, Eq)]
pub struct VimCommand {
    pub count: usize,
    pub operator: Option<Operator>,
    pub action: Action,
}

#[derive(Debug, Clone, PartialEq, Eq)]
pub enum ParseResult {
    Complete(VimCommand),
    Incomplete,
    Invalid,
}

// ---------------------------------------------------------------------
// The grammar, stated over sequences of characters.

pub open spec fn is_ascii_digit(c: char) -> bool {
    '0' <= c && c <= '9'
}

pub open spec fn digit_value(c: char) -> nat {
    (c as int - '0' as int) as nat
}

/// Length of the run of ASCII digits at the front of `s`.
pub open spec fn digit_run(s: Seq<char>) -> nat
    decreases s.len(),
{
    if s.len() > 0 && is_ascii_digit(s[0]) {
        1 + digit_run(s.drop_first())
    } else {
        0
    }
}

/// Length of the count prefix: a run of digits that does not start with `0`.
pub open spec fn count_len(s: Seq<char>) -> nat {
    if s.len() > 0 && s[0] != '0' {
        digit_run(s)
    } else {
        0
    }
}

/// The number that a string of decimal digits denotes.
pub open spec fn decimal_value(s: Seq<char>) -> nat
    decreases s.len(),
{
    if s.len() == 0 {
        0
    } else {
        decimal_value(s.drop_last()) * 10 + digit_value(s.last())
    }
}

/// The count of a command: the count prefix when there is one and it fits
/// in a `usize`, and 1 otherwise.
pub open spec fn spec_count(s: Seq<char>) -> usize {
    let k = count_len(s);
    if k == 0 {
        1
    } else if decimal_value(s.take(k as int)) <= usize::MAX {
        decimal_value(s.take(k as int)) as usize
    } else {
        1
    }
}

pub open spec fn complete(count: usize, operator: Option<Operator>, action: Action) -> ParseResult {
    ParseResult::Complete(VimCommand { count, operator, action })
}

/// The motion that a single character names, if any.
pub open spec fn spec_simple_motion(c: char) -> Option<Motion> {
    if c == 'h' {
        Some(Motion::Left)
    } else if c == 'l' {
        Some(Motion::Right)
    } else if c == 'j' {
        Some(Motion::Down)
    } else if c == 'k' {
        Some(Motion::Up)
    } else if c == 'w' {
        Some(Motion::WordForward)
    } else if c == 'W' {
        Some(Motion::BigWordForward)
    } else if c == 'b' {
        Some(Motion::WordBackward)
    } else if c == 'B' {
        Some(Motion::BigWordBackward)
    } else if c == 'e' {
        Some(Motion::WordEnd)
    } else if c == 'E' {
        Some(Motion::BigWordEnd)
    } else if c == '$' {
        Some(Motion::EndOfLine)
    } else if c == '0' {
        Some(Motion::StartOfLine)
    } else if c == '^' {
        Some(Motion::FirstNonBlank)
    } else if c == 'G' {
        Some(Motion::Bottom)
    } else {
        None
    }
}

/// The text object that the character after `i` or `a` names, if any.
pub open spec fn spec_text_object(c: char) -> Option<TextObject> {
    if c == 'w' {
        Some(TextObject::Word)
    } else if c == 'W' {
        Some(TextObject::BigWord)
    } else if c == '"' {
        Some(TextObject::DoubleQuote)
    } else if c == '\'' {
        Some(TextObject::SingleQuote)
    } else if c == '(' || c == ')' {
        Some(TextObject::Parentheses)
    } else if c == '{' || c == '}' {
        Some(TextObject::Braces)
    } else if c == '[' || c == ']' {
        Some(TextObject::Brackets)
    } else if c == 'p' {
        Some(TextObject::Paragraph)
    } else {
        None
    }
}

/// The operator that a character names, if any.
pub open spec fn spec_operator(c: char) -> Option<Operator> {
    if c == 'd' {
        Some(Operator::Delete)
    } else if c == 'c' {
        Some(Operator::Change)
    } else if c == 'y' {
        Some(Operator::Yank)
    } else {
        None
    }
}

/// What the text `m`, which starts at the motion character, makes of a
/// command with the given count and operator.
pub open spec fn spec_parse_motion(count: usize, operator: Option<Operator>, m: Seq<char>) -> ParseResult {
    if m.len() == 0 {
        ParseResult::Incomplete
    } else {
        let c = m[0];
        if spec_simple_motion(c) is Some {
            complete(count, operator, Action::Motion(spec_simple_motion(c)->0))
        } else if c == 'g' {
            if m.len() == 1 {
                ParseResult::Incomplete
            } else if m[1] == 'g' {
                complete(count, operator, Action::Motion(Motion::Top))
            } else {
                ParseResult::Invalid
            }
        } else if c == 'f' || c == 'F' || c == 't' || c == 'T' {
            if m.len() == 1 {
                ParseResult::Incomplete
            } else if c == 't' || c == 'T' {
                complete(count, operator, Action::Motion(Motion::TillChar(m[1])))
            } else {
                complete(count, operator, Action::Motion(Motion::FindChar(m[1])))
            }
        } else if c == 'i' || c == 'a' {
            if operator is None {
                ParseResult::Invalid
            } else if m.len() == 1 {
                ParseResult::Incomplete
            } else if spec_text_object(m[1]) is None {
                ParseResult::Invalid
            } else if c == 'i' {
                complete(count, operator, Action::Inside(spec_text_object(m[1])->0))
            } else {
                complete(count, operator, Action::Around(spec_text_object(m[1])->0))
            }
        } else {
            ParseResult::Invalid
        }
    }
}

/// The meaning of a command text. Characters after a complete command are
/// ignored.
pub open spec fn spec_parse(s: Seq<char>) -> ParseResult {
    if s.len() == 0 {
        ParseResult::Incomplete
    } else {
        let count = spec_count(s);
        let r = s.skip(count_len(s) as int);
        if r.len() == 0 {
            ParseResult::Incomplete
        } else if r[0] == 'v' {
            complete(count, Some(Operator::Visual), Action::Motion(Motion::Right))
        } else if r[0] == 'V' {
            complete(count, Some(Operator::VisualLine), Action::Motion(Motion::Right))
        } else if r[0] == 'D' {
            complete(count, Some(Operator::Delete), Action::Motion(Motion::EndOfLine))
        } else if r[0] == 'C' {
            complete(count, Some(Operator::Change), Action::Motion(Motion::EndOfLine))
        } else if spec_operator(r[0]) is Some {
            if r.len() == 1 {
                ParseResult::Incomplete
            } else if r[1] == r[0] {
                complete(count, spec_operator(r[0]), Action::Line)
            } else {
                spec_parse_motion(count, spec_operator(r[0]), r.drop_first())
            }
        } else {
            spec_parse_motion(count, None, r)
        }
    }
}

// ---------------------------------------------------------------------
// Lemmas on the count prefix.

proof fn lemma_digit_run_exact(s: Seq<char>, k: int)
    requires
        0 <= k <= s.len(),
        forall|j: int| 0 <= j < k ==> is_ascii_digit(#[trigger] s[j]),
        k == s.len() || !is_ascii_digit(s[k]),
    ensures
        digit_run(s) == k,
    decreases k,
{
    if k > 0 {
        assert(is_ascii_digit(s[0]));
        let t = s.drop_first();
        assert forall|j: int| 0 <= j < k - 1 implies is_ascii_digit(#[trigger] t[j]) by {
            assert(t[j] == s[j + 1]);
        }
        if k - 1 < t.len() {
            assert(t[k - 1] == s[k]);
        }
        lemma_digit_run_exact(t, k - 1);
    }
}

proof fn lemma_decimal_push(s: Seq<char>, c: char)
    ensures
        decimal_value(s.push(c)) == decimal_value(s) * 10 + digit_value(c),
{
    assert(s.push(c).drop_last() =~= s);
}

// ---------------------------------------------------------------------
// Executable parsing.

fn simple_motion(c: char) -> (r: Option<Motion>)
    ensures
        r == spec_simple_motion(c),
{
    if c == 'h' {
        Some(Motion::Left)
    } else if c == 'l' {
        Some(Motion::Right)
    } else if c == 'j' {
        Some(Motion::Down)
    } else if c == 'k' {
        Some(Motion::Up)
    } else if c == 'w' {
        Some(Motion::WordForward)
    } else if c == 'W' {
        Some(Motion::BigWordForward)
    } else if c == 'b' {
        Some(Motion::WordBackward)
    } else if c == 'B' {
        Some(Motion::BigWordBackward)
    } else if c == 'e' {
        Some(Motion::WordEnd)
    } else if c == 'E' {
        Some(Motion::BigWordEnd)
    } else if c == '$' {
        Some(Motion::EndOfLine)
    } else if c == '0' {
        Some(Motion::StartOfLine)
    } else if c == '^' {
        Some(Motion::FirstNonBlank)
    } else if c == 'G' {
        Some(Motion::Bottom)
    } else {
        None
    }
}

fn text_object(c: char) -> (r: Option<TextObject>)
    ensures
        r == spec_text_object(c),
{
    if c == 'w' {
        Some(TextObject::Word)
    } else if c == 'W' {
        Some(TextObject::BigWord)
    } else if c == '"' {
        Some(TextObject::DoubleQuote)
    } else if c == '\'' {
        Some(TextObject::SingleQuote)
    } else if c == '(' || c == ')' {
        Some(TextObject::Parentheses)
    } else if c == '{' || c == '}' {
        Some(TextObject::Braces)
    } else if c == '[' || c == ']' {
        Some(TextObject::Brackets)
    } else if c == 'p' {
        Some(TextObject::Paragraph)
    } else {
        None
    }
}

fn parse_motion(count: usize, operator: Option<Operator>, v: &[char], i: usize) -> (r: ParseResult)
    requires
        i <= v@.len(),
    ensures
        r == spec_parse_motion(count, operator, v@.skip(i as int)),
{
    let ghost m = v@.skip(i as int);
    if i >= v.len() {
        return ParseResult::Incomplete;
    }
    let c = v[i];
    assert(m[0] == c);
    match simple_motion(c) {
        Some(motion) => {
            return ParseResult::Complete(VimCommand { count, operator, action: Action::Motion(motion) });
        },
        None => {},
    }
    let has_next = i + 1 < v.len();
    if has_next {
        assert(m[1] == v@[i + 1]);
    }
    if c == 'g' {
        if !has_next {
            ParseResult::Incomplete
        } else if v[i + 1] == 'g' {
            ParseResult::Complete(VimCommand { count, operator, action: Action::Motion(Motion::Top) })
        } else {
            ParseResult::Invalid
        }
    } else if c == 'f' || c == 'F' || c == 't' || c == 'T' {
        if !has_next {
            ParseResult::Incomplete
        } else {
            let target = v[i + 1];
            let motion = if c == 't' || c == 'T' {
                Motion::TillChar(target)
            } else {
                Motion::FindChar(target)
            };
            ParseResult::Complete(VimCommand { count, operator, action: Action::Motion(motion) })
        }
    } else if c == 'i' || c == 'a' {
        if operator.is_none() {
            ParseResult::Invalid
        } else if !has_next {
            ParseResult::Incomplete
        } else {
            match text_object(v[i + 1]) {
                None => ParseResult::Invalid,
                Some(obj) => {
                    if c == 'i' {
                        ParseResult::Complete(VimCommand { count, operator, action: Action::Inside(obj) })
                    } else {
                        ParseResult::Complete(VimCommand { count, operator, action: Action::Around(obj) })
                    }
                },
            }
        }
    } else {
        ParseResult::Invalid
    }
}

/// Parses the command that starts at index `start` of `v`.
pub fn parse_chars(v: &[char], start: usize) -> (r: ParseResult)
    requires
        start <= v@.len(),
    ensures
        r == spec_parse(v@.skip(start as int)),
{
    let ghost s = v@.skip(start as int);
    if start >= v.len() {
        return ParseResult::Incomplete;
    }
    // The count prefix.
    let mut i = start;
    let mut value: usize = 0;
    let mut overflow = false;
    if v[start] != '0' {
        while i < v.len() && '0' <= v[i] && v[i] <= '9'
            invariant
                start <= i <= v@.len(),
                s == v@.skip(start as int),
                forall|j: int| 0 <= j < i - start ==> is_ascii_digit(#[trigger] s[j]),
                !overflow ==> value == decimal_value(s.take(i - start)),
                overflow ==> decimal_value(s.take(i - start)) > usize::MAX,
            decreases v@.len() - i,
        {
            let c = v[i];
            let d = (c as u32 - '0' as u32) as usize;
            proof {
                assert(s[i - start] == c);
                assert(s.take(i - start + 1) =~= s.take(i - start).push(c));
                lemma_decimal_push(s.take(i - start), c);
            }
            if !overflow {
                match value.checked_mul(10) {
                    Some(t) => match t.checked_add(d) {
                        Some(n) => {
                            value = n;
                        },
                        None => {
                            overflow = true;
                        },
                    },
                    None => {
                        overflow = true;
                    },
                }
            }
            i = i + 1;
        }
        proof {
            if i < v@.len() {
                assert(s[i - start] == v@[i as int]);
            }
            lemma_digit_run_exact(s, i - start);
        }
    }
    let k = i - start;
    assert(k == count_len(s));
    let count: usize = if k == 0 || overflow {
        1
    } else {
        value
    };
    assert(count == spec_count(s));
    let ghost r = s.skip(k as int);
    assert(r =~= v@.skip(i as int));
    if i >= v.len() {
        return ParseResult::Incomplete;
    }
    let c = v[i];
    assert(r[0] == c);
    if c == 'v' {
        return ParseResult::Complete(
            VimCommand { count, operator: Some(Operator::Visual), action: Action::Motion(Motion::Right) },
        );
    }
    if c == 'V' {
        return ParseResult::Complete(
            VimCommand { count, operator: Some(Operator::VisualLine), action: Action::Motion(Motion::Right) },
        );
    }
    if c == 'D' {
        return ParseResult::Complete(
            VimCommand { count, operator: Some(Operator::Delete), action: Action::Motion(Motion::EndOfLine) },
        );
    }
    if c == 'C' {
        return ParseResult::Complete(
            VimCommand { count, operator: Some(Operator::Change), action: Action::Motion(Motion::EndOfLine) },
        );
    }
    let operator = if c == 'd' {
        Some(Operator::Delete)
    } else if c == 'c' {
        Some(Operator::Change)
    } else if c == 'y' {
        Some(Operator::Yank)
    } else {
        None
    };
    assert(operator == spec_operator(c));
    if operator.is_some() {
        if i + 1 >= v.len() {
            return ParseResult::Incomplete;
        }
        assert(r[1] == v@[i + 1]);
        if v[i + 1] == c {
            return ParseResult::Complete(VimCommand { count, operator, action: Action::Line });
        }
        assert(r.drop_first() =~= v@.skip(i + 1));
        parse_motion(count, operator, v, i + 1)
    } else {
        parse_motion(count, operator, v, i)
    }
}

/// Parses a Vim command such as `3dw`, `ciw`, `dd` or `gg`.
pub fn parse_command(input: &str) -> (r: ParseResult)
    ensures
        r == spec_parse(input@),
{
    let n = input.unicode_len();
    let mut v: Vec<char> = Vec::new();
    let mut i: usize = 0;
    while i < n
        invariant
            n == input@.len(),
            i <= n,
            v@ =~= input@.take(i as int),
        decreases n - i,
    {
        v.push(input.get_char(i));
        i = i + 1;
    }
    assert(v@.skip(0) =~= input@);
    parse_chars(v.as_slice(), 0)
}

// ---------------------------------------------------------------------
// Laws.

proof fn lemma_motion_ignores_rest(count: usize, operator: Option<Operator>, m: Seq<char>, t: Seq<char>)
    requires
        !(spec_parse_motion(count, operator, m) is Incomplete),
    ensures
        spec_parse_motion(count, operator, m + t) == spec_parse_motion(count, operator, m),
{
    let u = m + t;
    assert(u[0] == m[0]);
    if m.len() >= 2 {
        assert(u[1] == m[1]);
    }
}

/// Once a command text is decided, complete or invalid, what is typed
/// after it changes nothing: the parse stays the same.
pub proof fn law_decided_ignores_rest(s: Seq<char>, t: Seq<char>)
    requires
        !(spec_parse(s) is Incomplete),
    ensures
        spec_parse(s + t) == spec_parse(s),
{
    let u = s + t;
    let k = count_len(s) as int;
    assert(u[0] == s[0]);
    if s[0] != '0' {
        assert forall|j: int| 0 <= j < k implies is_ascii_digit(#[trigger] s[j]) by {
            lemma_digit_run_prefix(s, j);
        }
        lemma_digit_run_end(s);
        assert forall|j: int| 0 <= j < k implies is_ascii_digit(#[trigger] u[j]) by {
            assert(u[j] == s[j]);
        }
        assert(u[k] == s[k]);
        lemma_digit_run_exact(u, k);
    }
    assert(count_len(u) == k);
    assert(u.take(k) =~= s.take(k));
    assert(spec_count(u) == spec_count(s));
    let r = s.skip(k);
    let ru = u.skip(k);
    assert(ru =~= r + t);
    assert(ru[0] == r[0]);
    if r.len() >= 2 {
        assert(ru[1] == r[1]);
    }
    if spec_operator(r[0]) is Some && r.len() >= 2 && r[1] != r[0] && r[0] != 'v' && r[0] != 'V'
        && r[0] != 'D' && r[0] != 'C' {
        assert(ru.drop_first() =~= r.drop_first() + t);
        lemma_motion_ignores_rest(spec_count(s), spec_operator(r[0]), r.drop_first(), t);
    }
    if spec_operator(r[0]) is None && r[0] != 'v' && r[0] != 'V' && r[0] != 'D' && r[0] != 'C' {
        lemma_motion_ignores_rest(spec_count(s), None, r, t);
    }
}

/// After a count (a string of ASCII digits, possibly empty), `D` is the
/// same command as `d$`, and `C` the same as `c$`.
pub proof fn law_shorthand_to_end_of_line(p: Seq<char>)
    requires
        forall|j: int| 0 <= j < p.len() ==> is_ascii_digit(#[trigger] p[j]),
    ensures
        spec_parse(p.push('D')) == spec_parse(p.push('d').push('$')),
        spec_parse(p.push('C')) == spec_parse(p.push('c').push('$')),
{
    lemma_digits_then(p, seq!['D']);
    lemma_digits_then(p, seq!['d', '$']);
    lemma_digits_then(p, seq!['C']);
    lemma_digits_then(p, seq!['c', '$']);
    assert(p.push('D') =~= p + seq!['D']);
    assert(p.push('d').push('$') =~= p + seq!['d', '$']);
    assert(p.push('C') =~= p + seq!['C']);
    assert(p.push('c').push('$') =~= p + seq!['c', '$']);
    assert(spec_simple_motion('$') == Some(Motion::EndOfLine));
    if p.len() > 0 && p[0] == '0' {
        assert(spec_simple_motion('0') == Some(Motion::StartOfLine));
    }
}

/// A count followed by text that starts with no digit: the count is all
/// of the digits, and the rest is that text.
proof fn lemma_digits_then(p: Seq<char>, q: Seq<char>)
    requires
        forall|j: int| 0 <= j < p.len() ==> is_ascii_digit(#[trigger] p[j]),
        q.len() > 0,
        !is_ascii_digit(q[0]),
    ensures
        (p + q)[0] == (if p.len() > 0 { p[0] } else { q[0] }),
        p.len() == 0 || p[0] != '0' ==> count_len(p + q) == p.len(),
        p.len() == 0 || p[0] != '0' ==> (p + q).take(p.len() as int) == p,
        p.len() == 0 || p[0] != '0' ==> (p + q).skip(p.len() as int) == q,
        p.len() > 0 && p[0] == '0' ==> count_len(p + q) == 0,
{
    let u = p + q;
    assert forall|j: int| 0 <= j < p.len() implies is_ascii_digit(#[trigger] u[j]) by {
        assert(u[j] == p[j]);
    }
    assert(u[p.len() as int] == q[0]);
    lemma_digit_run_exact(u, p.len() as int);
    assert(u.take(p.len() as int) =~= p);
    assert(u.skip(p.len() as int) =~= q);
}

/// The digits counted at the front of `s` are all digits.
proof fn lemma_digit_run_prefix(s: Seq<char>, j: int)
    requires
        0 <= j < digit_run(s),
    ensures
        is_ascii_digit(s[j]),
    decreases j,
{
    assert(s.len() > 0 && is_ascii_digit(s[0]));
    lemma_digit_run_end(s);
    if j > 0 {
        lemma_digit_run_prefix(s.drop_first(), j - 1);
        assert(s.drop_first()[j - 1] == s[j]);
    }
}

/// The run of digits stops at the end or at a character that is no digit.
proof fn lemma_digit_run_end(s: Seq<char>)
    ensures
        digit_run(s) <= s.len(),
        digit_run(s) < s.len() ==> !is_ascii_digit(s[digit_run(s) as int]),
    decreases s.len(),
{
    if s.len() > 0 && is_ascii_digit(s[0]) {
        lemma_digit_run_end(s.drop_first());
    }
}

/// The operator that an operator character names.
pub open spec fn operator_named(o: char) -> Operator {
    if o == 'd' {
        Operator::Delete
    } else if o == 'c' {
        Operator::Change
    } else {
        Operator::Yank
    }
}

proof fn lemma_operator_object(o: char, m: char, x: char, t: Seq<char>)
    requires
        o == 'd' || o == 'c' || o == 'y',
        m == 'i' || m == 'a',
        spec_text_object(x) is Some,
    ensures
        spec_parse(seq![o, m, x] + t) == complete(
            1,
            Some(operator_named(o)),
            if m == 'i' {
                Action::Inside(spec_text_object(x)->0)
            } else {
                Action::Around(spec_text_object(x)->0)
            },
        ),
{
    let s = seq![o, m, x];
    let u = s + t;
    assert(u[0] == o && u[1] == m && u[2] == x);
    assert(digit_run(u) == 0);
    assert(count_len(u) == 0);
    assert(u.skip(0) =~= u);
    let r = u.drop_first();
    assert(r[0] == m && r[1] == x);
    assert(spec_simple_motion(m) is None);
    law_decided_ignores_rest(s, t);
    assert(s.skip(0) =~= s);
    assert(s.drop_first() =~= seq![m, x]);
    assert(seq![m, x][0] == m && seq![m, x][1] == x);
}

/// The characters after `i` or `a` name these text objects, whatever
/// operator comes first and whatever is typed after: `w` a word, `W` a
/// blank-delimited word, `"` a double-quoted string, `'` a single-quoted
/// one, `(` or `)` parentheses, `{` or `}` braces, `[` or `]` brackets, `p`
/// a paragraph.
pub proof fn law_text_object_characters(o: char, t: Seq<char>)
    requires
        o == 'd' || o == 'c' || o == 'y',
    ensures
        ({
            let table = seq![
                ('w', TextObject::Word),
                ('W', TextObject::BigWord),
                ('"', TextObject::DoubleQuote),
                ('\'', TextObject::SingleQuote),
                ('(', TextObject::Parentheses),
                (')', TextObject::Parentheses),
                ('{', TextObject::Braces),
                ('}', TextObject::Braces),
                ('[', TextObject::Brackets),
                (']', TextObject::Brackets),
                ('p', TextObject::Paragraph),
            ];
            forall|k: int|
                0 <= k < table.len() ==> spec_parse(seq![o, 'i', #[trigger] table[k].0] + t) == complete(
                    1,
                    Some(operator_named(o)),
                    Action::Inside(table[k].1),
                ) && spec_parse(seq![o, 'a', table[k].0] + t) == complete(
                    1,
                    Some(operator_named(o)),
                    Action::Around(table[k].1),
                )
        }),
{
    let table = seq![
        ('w', TextObject::Word),
        ('W', TextObject::BigWord),
        ('"', TextObject::DoubleQuote),
        ('\'', TextObject::SingleQuote),
        ('(', TextObject::Parentheses),
        (')', TextObject::Parentheses),
        ('{', TextObject::Braces),
        ('}', TextObject::Braces),
        ('[', TextObject::Brackets),
        (']', TextObject::Brackets),
        ('p', TextObject::Paragraph),
    ];
    assert forall|k: int| 0 <= k < table.len() implies spec_parse(seq![o, 'i', #[trigger] table[k].0] + t)
        == complete(1, Some(operator_named(o)), Action::Inside(table[k].1)) && spec_parse(
        seq![o, 'a', table[k].0] + t,
    ) == complete(1, Some(operator_named(o)), Action::Around(table[k].1)) by {
        assert(spec_text_object(table[k].0) == Some(table[k].1));
        lemma_operator_object(o, 'i', table[k].0, t);
        lemma_operator_object(o, 'a', table[k].0, t);
    }
}

proof fn lemma_no_count(s: Seq<char>)
    requires
        s.len() > 0,
        !is_ascii_digit(s[0]) || s[0] == '0',
    ensures
        count_len(s) == 0,
        spec_count(s) == 1,
        s.skip(0) == s,
{
    assert(s.skip(0) =~= s);
}

/// Each motion key alone, whatever is typed after it, is that motion once:
/// `h` left, `l` right, `j` down, `k` up, `w`/`W` to the next word, `b`/`B`
/// back a word, `e`/`E` to a word's end, `$` to the line's end, `0` to its
/// start, `^` to its first non-blank, `G` to the last line.
pub proof fn law_motion_keys(t: Seq<char>)
    ensures
        ({
            let table = seq![
                ('h', Motion::Left),
                ('l', Motion::Right),
                ('j', Motion::Down),
                ('k', Motion::Up),
                ('w', Motion::WordForward),
                ('W', Motion::BigWordForward),
                ('b', Motion::WordBackward),
                ('B', Motion::BigWordBackward),
                ('e', Motion::WordEnd),
                ('E', Motion::BigWordEnd),
                ('$', Motion::EndOfLine),
                ('0', Motion::StartOfLine),
                ('^', Motion::FirstNonBlank),
                ('G', Motion::Bottom),
            ];
            forall|k: int|
                0 <= k < table.len() ==> spec_parse(seq![#[trigger] table[k].0] + t) == complete(
                    1,
                    None,
                    Action::Motion(table[k].1),
                )
        }),
{
    let table = seq![
        ('h', Motion::Left),
        ('l', Motion::Right),
        ('j', Motion::Down),
        ('k', Motion::Up),
        ('w', Motion::WordForward),
        ('W', Motion::BigWordForward),
        ('b', Motion::WordBackward),
        ('B', Motion::BigWordBackward),
        ('e', Motion::WordEnd),
        ('E', Motion::BigWordEnd),
        ('$', Motion::EndOfLine),
        ('0', Motion::StartOfLine),
        ('^', Motion::FirstNonBlank),
        ('G', Motion::Bottom),
    ];
    assert forall|k: int| 0 <= k < table.len() implies spec_parse(seq![#[trigger] table[k].0] + t) == complete(
        1,
        None,
        Action::Motion(table[k].1),
    ) by {
        let s = seq![table[k].0];
        assert(spec_simple_motion(table[k].0) == Some(table[k].1));
        lemma_no_count(s);
        law_decided_ignores_rest(s, t);
    }
}

/// `f` and `F` followed by any character find it, `t` and `T` go till it;
/// `gg` goes to the first line; an operator typed twice works on the line.
pub proof fn law_find_till_top_and_line(x: char, o: char, t: Seq<char>)
    requires
        o == 'd' || o == 'c' || o == 'y',
    ensures
        spec_parse(seq!['f', x] + t) == complete(1, None, Action::Motion(Motion::FindChar(x))),
        spec_parse(seq!['F', x] + t) == complete(1, None, Action::Motion(Motion::FindChar(x))),
        spec_parse(seq!['t', x] + t) == complete(1, None, Action::Motion(Motion::TillChar(x))),
        spec_parse(seq!['T', x] + t) == complete(1, None, Action::Motion(Motion::TillChar(x))),
        spec_parse(seq!['g', 'g'] + t) == complete(1, None, Action::Motion(Motion::Top)),
        spec_parse(seq![o, o] + t) == complete(1, Some(operator_named(o)), Action::Line),
{
    lemma_no_count(seq!['f', x]);
    lemma_no_count(seq!['F', x]);
    lemma_no_count(seq!['t', x]);
    lemma_no_count(seq!['T', x]);
    lemma_no_count(seq!['g', 'g']);
    lemma_no_count(seq![o, o]);
    law_decided_ignores_rest(seq!['f', x], t);
    law_decided_ignores_rest(seq!['F', x], t);
    law_decided_ignores_rest(seq!['t', x], t);
    law_decided_ignores_rest(seq!['T', x], t);
    law_decided_ignores_rest(seq!['g', 'g'], t);
    law_decided_ignores_rest(seq![o, o], t);
}

} // verus!
