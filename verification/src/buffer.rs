//! The text buffer: a `ropey::Rope`, seen as the sequence of characters it
//! holds, and the lines that Ropey's line breaks cut it into.

use vstd::prelude::*;
use ropey::Rope;

verus! {

#[verifier::external_type_specification]
#[verifier::external_body]
pub struct ExRope(Rope);

/// The characters that a rope holds, in order.
pub uninterp spec fn rope_text(r: Rope) -> Seq<char>;

/// The characters that Ropey (with its default `unicode_lines` feature)
/// treats as line breaks: LF, VT, FF, CR, NEL, LS and PS. CR LF is one break.
pub open spec fn is_line_break_char(c: char) -> bool {
    ||| c == '\n'
    ||| c == '\u{b}'
    ||| c == '\u{c}'
    ||| c == '\r'
    ||| c == '\u{85}'
    ||| c == '\u{2028}'
    ||| c == '\u{2029}'
}

/// A line break ends just before position `p` of `s` (`1 <= p <= s.len()`):
/// the character before `p` is a break character, and it is not the CR of a
/// CR LF pair.
pub open spec fn ends_line_break(s: Seq<char>, p: int) -> bool {
    &&& 1 <= p <= s.len()
    &&& is_line_break_char(s[p - 1])
    &&& !(s[p - 1] == '\r' && p < s.len() && s[p] == '\n')
}

/// How many line breaks end at or before position `p`.
pub open spec fn breaks_up_to(s: Seq<char>, p: int) -> nat
    decreases p,
{
    if p <= 0 {
        0
    } else {
        breaks_up_to(s, p - 1) + if ends_line_break(s, p) {
            1nat
        } else {
            0nat
        }
    }
}

/// The number of lines: one more than the number of line breaks.
pub open spec fn line_count(s: Seq<char>) -> nat {
    breaks_up_to(s, s.len() as int) + 1
}

/// Where line `i` starts: 0 for the first line, just after the `i`-th line
/// break for the others, and the end of the text from `line_count(s)` on.
pub open spec fn line_start(s: Seq<char>, i: int) -> int {
    if i <= 0 {
        0
    } else if i < line_count(s) {
        choose|p: int| ends_line_break(s, p) && breaks_up_to(s, p) == i
    } else {
        s.len() as int
    }
}

/// The characters of line `i`, its line break included.
pub open spec fn line_text(s: Seq<char>, i: int) -> Seq<char> {
    s.subrange(line_start(s, i), line_start(s, i + 1))
}

/// `s` without the characters in `start..end`.
pub open spec fn remove_range(s: Seq<char>, start: int, end: int) -> Seq<char> {
    s.subrange(0, start) + s.subrange(end, s.len() as int)
}

// ---------------------------------------------------------------------
// Lemmas on lines.

pub proof fn lemma_breaks_monotone(s: Seq<char>, p: int, q: int)
    requires
        p <= q,
    ensures
        breaks_up_to(s, p) <= breaks_up_to(s, q),
    decreases q - p,
{
    if p < q {
        lemma_breaks_monotone(s, p, q - 1);
    }
}

proof fn lemma_break_exists(s: Seq<char>, q: int, i: int)
    requires
        0 <= q <= s.len(),
        1 <= i <= breaks_up_to(s, q),
    ensures
        exists|p: int| 1 <= p <= q && ends_line_break(s, p) && breaks_up_to(s, p) == i,
    decreases q,
{
    if q > 0 {
        if i <= breaks_up_to(s, q - 1) {
            lemma_break_exists(s, q - 1, i);
        } else {
            assert(ends_line_break(s, q) && breaks_up_to(s, q) == i);
        }
    }
}

proof fn lemma_break_unique(s: Seq<char>, p1: int, p2: int)
    requires
        ends_line_break(s, p1),
        ends_line_break(s, p2),
        breaks_up_to(s, p1) == breaks_up_to(s, p2),
    ensures
        p1 == p2,
{
    if p1 < p2 {
        lemma_breaks_monotone(s, p1, p2 - 1);
    } else if p2 < p1 {
        lemma_breaks_monotone(s, p2, p1 - 1);
    }
}

/// For a line after the first that exists, its start is just after a line
/// break, and the breaks up to it number `i`.
pub proof fn lemma_line_start_break(s: Seq<char>, i: int)
    requires
        1 <= i < line_count(s),
    ensures
        ends_line_break(s, line_start(s, i)),
        breaks_up_to(s, line_start(s, i)) == i,
        1 <= line_start(s, i) <= s.len(),
{
    lemma_break_exists(s, s.len() as int, i);
}

/// A line break position with `i` breaks up to it is where line `i` starts.
pub proof fn lemma_line_start_is(s: Seq<char>, i: int, p: int)
    requires
        1 <= i,
        ends_line_break(s, p),
        breaks_up_to(s, p) == i,
    ensures
        i < line_count(s),
        line_start(s, i) == p,
{
    lemma_breaks_monotone(s, p, s.len() as int);
    lemma_line_start_break(s, i);
    lemma_break_unique(s, p, line_start(s, i));
}

/// Line starts lie within the text and do not decrease.
pub proof fn lemma_line_start_bounds(s: Seq<char>, i: int, j: int)
    requires
        i <= j,
    ensures
        0 <= line_start(s, i) <= line_start(s, j) <= s.len(),
{
    if 1 <= i < line_count(s) {
        lemma_line_start_break(s, i);
    }
    if 1 <= j < line_count(s) {
        lemma_line_start_break(s, j);
    }
    if 1 <= i < line_count(s) && 1 <= j < line_count(s) && i < j {
        let pi = line_start(s, i);
        let pj = line_start(s, j);
        if pj <= pi {
            lemma_breaks_monotone(s, pj, pi);
        }
    }
}

/// Inserting a character leaves the line breaks that end before it alone.
proof fn lemma_insert_keeps_breaks_before(s: Seq<char>, idx: int, c: char, q: int)
    requires
        0 <= q < idx <= s.len(),
    ensures
        breaks_up_to(s.insert(idx, c), q) == breaks_up_to(s, q),
    decreases q,
{
    let s1 = s.insert(idx, c);
    if q > 0 {
        lemma_insert_keeps_breaks_before(s, idx, c, q - 1);
        assert(s1[q - 1] == s[q - 1]);
        assert(s1[q] == s[q]);
        assert(ends_line_break(s1, q) == ends_line_break(s, q));
    }
}

/// Inserting a character at or after the start of an existing line leaves
/// that line where it starts, unless a line feed lands right after the lone
/// carriage return that ends the line before, where the two join.
pub proof fn lemma_insert_keeps_line_start(s: Seq<char>, row: int, idx: int, c: char)
    requires
        0 <= row < line_count(s),
        line_start(s, row) <= idx <= s.len(),
        !(idx == line_start(s, row) && row > 0 && c == '\n' && s[idx - 1] == '\r'),
    ensures
        line_start(s.insert(idx, c), row) == line_start(s, row),
        row < line_count(s.insert(idx, c)),
{
    let s1 = s.insert(idx, c);
    if row >= 1 {
        lemma_line_start_break(s, row);
        let p = line_start(s, row);
        if p < idx {
            lemma_insert_keeps_breaks_before(s, idx, c, p);
            assert(s1[p - 1] == s[p - 1]);
            assert(s1[p] == s[p]);
            assert(ends_line_break(s1, p));
        } else {
            lemma_insert_keeps_breaks_before(s, idx, c, p - 1);
            assert(s1[p - 1] == s[p - 1]);
            assert(s1[p] == c);
            assert(ends_line_break(s1, p));
        }
        lemma_line_start_is(s1, row, p);
    }
}

/// Removing `a..b` leaves the line breaks that end before `a` alone.
proof fn lemma_remove_keeps_breaks_before(s: Seq<char>, a: int, b: int, q: int)
    requires
        0 <= q < a <= b <= s.len(),
    ensures
        breaks_up_to(remove_range(s, a, b), q) == breaks_up_to(s, q),
    decreases q,
{
    let t = remove_range(s, a, b);
    if q > 0 {
        lemma_remove_keeps_breaks_before(s, a, b, q - 1);
        assert(t[q - 1] == s[q - 1]);
        assert(t[q] == s[q]);
        assert(ends_line_break(t, q) == ends_line_break(s, q));
    }
}

/// After the removed piece `a..b`, the line breaks of the rest are those of
/// the text shifted by `b - a`.
proof fn lemma_remove_shifts_breaks_after(s: Seq<char>, a: int, b: int, p: int)
    requires
        0 <= a <= b <= s.len(),
        a <= p <= s.len() - (b - a),
    ensures
        breaks_up_to(remove_range(s, a, b), p) - breaks_up_to(remove_range(s, a, b), a) == breaks_up_to(
            s,
            p + (b - a),
        ) - breaks_up_to(s, b),
    decreases p - a,
{
    let t = remove_range(s, a, b);
    let d = b - a;
    if p > a {
        lemma_remove_shifts_breaks_after(s, a, b, p - 1);
        assert(t[p - 1] == s[p - 1 + d]);
        if p < t.len() {
            assert(t[p] == s[p + d]);
        }
        assert(ends_line_break(t, p) == ends_line_break(s, p + d));
    }
}

/// Removing a whole line that has a line after it leaves one line less,
/// unless the line before ends with a lone carriage return and the line after
/// starts with a line feed, which then join into one line break.
pub proof fn lemma_remove_line_count(s: Seq<char>, row: int)
    requires
        0 <= row,
        row + 1 < line_count(s),
        !(row > 0 && line_start(s, row + 1) < s.len() && s[line_start(s, row) - 1] == '\r' && s[line_start(
            s,
            row + 1,
        )] == '\n'),
    ensures
        line_start(s, row) < line_start(s, row + 1),
        line_count(remove_range(s, line_start(s, row), line_start(s, row + 1))) + 1 == line_count(s),
{
    let a = line_start(s, row);
    let b = line_start(s, row + 1);
    let t = remove_range(s, a, b);
    lemma_line_start_break(s, row + 1);
    lemma_line_start_bounds(s, row, row + 1);
    if row > 0 {
        lemma_line_start_break(s, row);
        lemma_remove_keeps_breaks_before(s, a, b, a - 1);
        assert(t[a - 1] == s[a - 1]);
        if a < t.len() {
            assert(t[a] == s[b]);
        }
        assert(ends_line_break(t, a));
        assert(breaks_up_to(t, a) == row);
    }
    assert(a != b);
    lemma_remove_shifts_breaks_after(s, a, b, t.len() as int);
    assert(t.len() + (b - a) == s.len());
}

// ---------------------------------------------------------------------
// Ropey's methods, behind contracts.

/// `Rope::from_str`: a rope that holds the characters of `text`.
#[verifier::external_body]
pub(crate) fn rope_from_str(text: &str) -> (r: Rope)
    ensures
        rope_text(r) == text@,
{
    Rope::from_str(text)
}

/// `Rope::len_chars`: the number of characters.
#[verifier::external_body]
pub(crate) fn rope_len_chars(r: &Rope) -> (n: usize)
    ensures
        n == rope_text(*r).len(),
{
    r.len_chars()
}

/// `Rope::len_lines`: one more than the number of line breaks.
#[verifier::external_body]
pub(crate) fn rope_len_lines(r: &Rope) -> (n: usize)
    ensures
        n == line_count(rope_text(*r)),
{
    r.len_lines()
}

/// `Rope::line_to_char`: the char index where line `line` starts (the end
/// of the text for `line == len_lines()`); it panics beyond that.
#[verifier::external_body]
pub(crate) fn rope_line_to_char(r: &Rope, line: usize) -> (idx: usize)
    requires
        line <= line_count(rope_text(*r)),
    ensures
        idx == line_start(rope_text(*r), line as int),
{
    r.line_to_char(line)
}

/// `Rope::insert_char`: inserts `c` at char index `idx`; it panics when
/// `idx` is past the end.
#[verifier::external_body]
pub(crate) fn rope_insert_char(r: &mut Rope, idx: usize, c: char)
    requires
        idx <= rope_text(*old(r)).len(),
    ensures
        rope_text(*final(r)) == rope_text(*old(r)).insert(idx as int, c),
{
    r.insert_char(idx, c)
}

/// `Rope::remove` on `start..end`: removes those characters; it panics when
/// `start > end` or `end` is past the end.
#[verifier::external_body]
pub(crate) fn rope_remove(r: &mut Rope, start: usize, end: usize)
    requires
        start <= end <= rope_text(*old(r)).len(),
    ensures
        rope_text(*final(r)) == remove_range(rope_text(*old(r)), start as int, end as int),
{
    r.remove(start..end)
}

/// `Rope::line` and `to_string`: the characters of line `line`, its line
/// break included; `Rope::line` panics unless `line < len_lines()`.
#[verifier::external_body]
pub(crate) fn rope_line(r: &Rope, line: usize) -> (text: String)
    requires
        line < line_count(rope_text(*r)),
    ensures
        text@ == line_text(rope_text(*r), line as int),
{
    r.line(line).to_string()
}

/// `Rope::clone`: a rope with the same characters.
#[verifier::external_body]
pub(crate) fn rope_clone(r: &Rope) -> (c: Rope)
    ensures
        rope_text(c) == rope_text(*r),
{
    r.clone()
}

/// `String::from(Rope)`: all the characters of the rope.
#[verifier::external_body]
pub(crate) fn rope_to_string(r: &Rope) -> (text: String)
    ensures
        text@ == rope_text(*r),
{
    String::from(r)
}

} // verus!
