//! Remembers the last characters typed in insert mode and finds a
//! structural command that they end with.

use vstd::prelude::*;
use crate::parser::{law_decided_ignores_rest, parse_chars, spec_parse, ParseResult, VimCommand};
use crate::text::{char_is_alphanumeric, char_is_whitespace, is_whitespace_char, string_of, unicode_alphanumeric};

verus! {

/// How many typed characters the debouncer keeps.
pub const CAPACITY: usize = 20;

pub struct Debouncer {
    buffer: Vec<char>,
}

/// A command may start at index `i` of the typed characters when it is the
/// first one or the character before it is whitespace or not alphanumeric.
pub open spec fn is_boundary(b: Seq<char>, i: int) -> bool {
    i == 0 || is_whitespace_char(b[i - 1]) || !unicode_alphanumeric(b[i - 1])
}

/// `s` is exactly one complete command: it parses as complete, and no
/// shorter non-empty part of its front does, so nothing was typed after the
/// command.
pub open spec fn is_exact_command(s: Seq<char>) -> bool {
    &&& spec_parse(s) is Complete
    &&& forall|k: int| 0 < k < s.len() ==> !(#[trigger] spec_parse(s.take(k)) is Complete)
}

/// The suffix of `b` that starts at `i` is exactly a complete command with
/// an operator, and starts at a boundary.
pub open spec fn suffix_matches(b: Seq<char>, i: int) -> bool {
    &&& is_exact_command(b.skip(i))
    &&& spec_parse(b.skip(i))->Complete_0.operator is Some
    &&& is_boundary(b, i)
}

/// `r` is what searching the typed characters `b` for a command gives: the
/// longest suffix that matches, with its parse, or nothing when none does.
pub open spec fn is_match_result(b: Seq<char>, r: Option<(String, VimCommand)>) -> bool {
    match r {
        Some((s, cmd)) => exists|i: int|
            0 <= i < b.len() && suffix_matches(b, i) && (forall|j: int|
                0 <= j < i ==> !#[trigger] suffix_matches(b, j)) && s@ == b.skip(i) && spec_parse(
                b.skip(i),
            ) == ParseResult::Complete(cmd),
        None => forall|i: int| 0 <= i < b.len() ==> !#[trigger] suffix_matches(b, i),
    }
}

/// What typing `c` makes of the remembered characters `b`.
pub open spec fn pushed(b: Seq<char>, c: char) -> Seq<char> {
    if b.len() + 1 > CAPACITY {
        b.push(c).drop_first()
    } else {
        b.push(c)
    }
}

impl View for Debouncer {
    type V = Seq<char>;

    closed spec fn view(&self) -> Seq<char> {
        self.buffer@
    }
}

impl Debouncer {
    pub fn new() -> (d: Self)
        ensures
            d@ == Seq::<char>::empty(),
    {
        Debouncer { buffer: Vec::with_capacity(CAPACITY) }
    }

    /// Records a typed character, forgetting the oldest one beyond the
    /// capacity.
    pub fn push(&mut self, c: char)
        ensures
            final(self)@ == pushed(old(self)@, c),
            old(self)@.len() <= CAPACITY ==> final(self)@.len() <= CAPACITY,
    {
        self.buffer.push(c);
        if self.buffer.len() > CAPACITY {
            self.buffer.remove(0);
        }
        proof {
            if old(self)@.len() + 1 > CAPACITY {
                assert(self.buffer@ =~= old(self)@.push(c).drop_first());
            }
        }
    }

    pub fn clear(&mut self)
        ensures
            final(self)@ == Seq::<char>::empty(),
    {
        self.buffer.clear();
    }

    /// The first suffix of the typed characters, longest first, that is
    /// exactly a complete command with an operator and starts at a boundary,
    /// with its parse. Typing on after a command cancels it.
    pub fn matches_command(&self) -> (r: Option<(String, VimCommand)>)
        ensures
            is_match_result(self@, r),
    {
        let n = self.buffer.len();
        if n == 0 {
            return None;
        }
        // All but the last typed character: the suffixes of it are the
        // suffixes of the buffer without their last character.
        let mut head: Vec<char> = Vec::new();
        let mut h: usize = 0;
        while h + 1 < n
            invariant
                n == self@.len(),
                n > 0,
                h < n,
                head@ == self@.take(h as int),
            decreases n - h,
        {
            head.push(self.buffer[h]);
            h = h + 1;
            assert(head@ =~= self@.take(h as int));
        }
        let mut i: usize = 0;
        while i < n
            invariant
                n == self@.len(),
                n > 0,
                head@ == self@.take(n - 1),
                i <= n,
                forall|j: int| 0 <= j < i ==> !#[trigger] suffix_matches(self@, j),
            decreases n - i,
        {
            match parse_chars(self.buffer.as_slice(), i) {
                ParseResult::Complete(cmd) => {
                    let is_boundary = if i == 0 {
                        true
                    } else {
                        let prev = self.buffer[i - 1];
                        char_is_whitespace(prev) || !char_is_alphanumeric(prev)
                    };
                    let ghost s = self@.skip(i as int);
                    let front_complete = if i + 1 == n {
                        false
                    } else {
                        assert(head@.skip(i as int) =~= s.take(s.len() - 1));
                        match parse_chars(head.as_slice(), i) {
                            ParseResult::Complete(_) => true,
                            _ => false,
                        }
                    };
                    proof {
                        if !front_complete {
                            assert forall|k: int| 0 < k < s.len() implies !(#[trigger] spec_parse(
                                s.take(k),
                            ) is Complete) by {
                                if spec_parse(s.take(k)) is Complete {
                                    let rest = s.subrange(k, s.len() - 1);
                                    law_decided_ignores_rest(s.take(k), rest);
                                    assert(s.take(k) + rest =~= s.take(s.len() - 1));
                                }
                            }
                        }
                        if front_complete {
                            assert(spec_parse(s.take(s.len() - 1)) is Complete);
                        }
                    }
                    if is_boundary && cmd.operator.is_some() && !front_complete {
                        let suffix = string_of(self.buffer.as_slice(), i);
                        assert(suffix_matches(self@, i as int));
                        return Some((suffix, cmd));
                    }
                },
                _ => {},
            }
            i = i + 1;
        }
        None
    }
}

/// Typing anything after a command cancels it: the text is then no longer
/// exactly a command.
pub proof fn law_typing_on_cancels(s: Seq<char>, c: char)
    requires
        is_exact_command(s),
    ensures
        !is_exact_command(s.push(c)),
{
    assert(s.push(c).take(s.len() as int) =~= s);
}

/// What typing the characters of `cs`, one after another, makes of an empty
/// debouncer.
pub open spec fn typed_from_empty(cs: Seq<char>) -> Seq<char>
    decreases cs.len(),
{
    if cs.len() == 0 {
        Seq::empty()
    } else {
        pushed(typed_from_empty(cs.drop_last()), cs.last())
    }
}

/// After any typing, the debouncer holds exactly the last `CAPACITY`
/// characters typed (all of them when fewer were typed).
pub proof fn law_keeps_last_typed(cs: Seq<char>)
    ensures
        typed_from_empty(cs) == cs.skip(if cs.len() > CAPACITY { cs.len() - CAPACITY } else { 0 }),
    decreases cs.len(),
{
    if cs.len() == 0 {
        assert(cs.skip(0) =~= Seq::<char>::empty());
    } else {
        let init = cs.drop_last();
        law_keeps_last_typed(init);
        let k = if init.len() > CAPACITY { init.len() - CAPACITY } else { 0 };
        let t = init.skip(k);
        if t.len() + 1 > CAPACITY {
            assert(t.push(cs.last()).drop_first() =~= cs.skip(cs.len() - CAPACITY));
        } else {
            assert(t.push(cs.last()) =~= cs.skip(0));
        }
    }
}

} // verus!
