//! What the screen shows: highlight classes for syntax node kinds, the
//! buffer cut into lines of highlighted spans, the scroll offset, the
//! cursor's place, and the status and hint lines.

use vstd::prelude::*;
use crate::editor::Mode;
use crate::text::str_eq;
use vstd::string::StringSliceAdditionalSpecFns;
use vstd::utf8::{encode_utf8_valid_utf8, is_char_boundary, length_of_first_codepoint};

verus! {

/// The colour class that a syntax node kind is drawn with.
#[derive(Debug, Clone, Copy, PartialEq, Eq, Structural)]
pub enum HighlightClass {
    Keyword,
    Str,
    Number,
    Comment,
    Function,
    Type,
    Punctuation,
    Plain,
}

pub open spec fn spec_classify(k: Seq<char>) -> HighlightClass {
    if k == "keyword"@ || k == "return"@ || k == "if"@ || k == "else"@ || k == "let"@ || k == "fn"@
        || k == "pub"@ || k == "struct"@ || k == "enum"@ || k == "match"@ {
        HighlightClass::Keyword
    } else if k == "string"@ || k == "string_literal"@ || k == "string_content"@ {
        HighlightClass::Str
    } else if k == "number"@ || k == "integer_literal"@ || k == "float_literal"@ || k
        == "boolean_literal"@ {
        HighlightClass::Number
    } else if k == "comment"@ || k == "line_comment"@ || k == "block_comment"@ {
        HighlightClass::Comment
    } else if k == "function"@ || k == "method"@ || k == "identifier"@ {
        HighlightClass::Function
    } else if k == "type"@ || k == "type_identifier"@ || k == "primitive_type"@ {
        HighlightClass::Type
    } else if k == "punctuation"@ || k == "punctuation.delimiter"@ || k == "punctuation.bracket"@
        || k == "{"@ || k == "}"@ || k == "("@ || k == ")"@ || k == "["@ || k == "]"@ || k == ";"@
        || k == ","@ {
        HighlightClass::Punctuation
    } else {
        HighlightClass::Plain
    }
}

/// The node kinds that have a colour, each with its class.
pub open spec fn coloured_kinds() -> Seq<(Seq<char>, HighlightClass)> {
    seq![
        ("keyword"@, HighlightClass::Keyword),
        ("return"@, HighlightClass::Keyword),
        ("if"@, HighlightClass::Keyword),
        ("else"@, HighlightClass::Keyword),
        ("let"@, HighlightClass::Keyword),
        ("fn"@, HighlightClass::Keyword),
        ("pub"@, HighlightClass::Keyword),
        ("struct"@, HighlightClass::Keyword),
        ("enum"@, HighlightClass::Keyword),
        ("match"@, HighlightClass::Keyword),
        ("string"@, HighlightClass::Str),
        ("string_literal"@, HighlightClass::Str),
        ("string_content"@, HighlightClass::Str),
        ("number"@, HighlightClass::Number),
        ("integer_literal"@, HighlightClass::Number),
        ("float_literal"@, HighlightClass::Number),
        ("boolean_literal"@, HighlightClass::Number),
        ("comment"@, HighlightClass::Comment),
        ("line_comment"@, HighlightClass::Comment),
        ("block_comment"@, HighlightClass::Comment),
        ("function"@, HighlightClass::Function),
        ("method"@, HighlightClass::Function),
        ("identifier"@, HighlightClass::Function),
        ("type"@, HighlightClass::Type),
        ("type_identifier"@, HighlightClass::Type),
        ("primitive_type"@, HighlightClass::Type),
        ("punctuation"@, HighlightClass::Punctuation),
        ("punctuation.delimiter"@, HighlightClass::Punctuation),
        ("punctuation.bracket"@, HighlightClass::Punctuation),
        ("{"@, HighlightClass::Punctuation),
        ("}"@, HighlightClass::Punctuation),
        ("("@, HighlightClass::Punctuation),
        (")"@, HighlightClass::Punctuation),
        ("["@, HighlightClass::Punctuation),
        ("]"@, HighlightClass::Punctuation),
        (";"@, HighlightClass::Punctuation),
        (","@, HighlightClass::Punctuation),
    ]
}

/// Each coloured node kind is drawn in its class (keywords, strings,
/// numbers, comments, functions, types, punctuation), and every other kind
/// is drawn plain.
#[verifier::spinoff_prover]
pub proof fn law_kind_classes(k: Seq<char>)
    ensures
        forall|j: int|
            0 <= j < coloured_kinds().len() ==> spec_classify(#[trigger] coloured_kinds()[j].0)
                == coloured_kinds()[j].1,
        (forall|j: int| 0 <= j < coloured_kinds().len() ==> #[trigger] coloured_kinds()[j].0 != k)
            ==> spec_classify(k) == HighlightClass::Plain,
{
    reveal_strlit("keyword");
    reveal_strlit("return");
    reveal_strlit("if");
    reveal_strlit("else");
    reveal_strlit("let");
    reveal_strlit("fn");
    reveal_strlit("pub");
    reveal_strlit("struct");
    reveal_strlit("enum");
    reveal_strlit("match");
    reveal_strlit("string");
    reveal_strlit("string_literal");
    reveal_strlit("string_content");
    reveal_strlit("number");
    reveal_strlit("integer_literal");
    reveal_strlit("float_literal");
    reveal_strlit("boolean_literal");
    reveal_strlit("comment");
    reveal_strlit("line_comment");
    reveal_strlit("block_comment");
    reveal_strlit("function");
    reveal_strlit("method");
    reveal_strlit("identifier");
    reveal_strlit("type");
    reveal_strlit("type_identifier");
    reveal_strlit("primitive_type");
    reveal_strlit("punctuation");
    reveal_strlit("punctuation.delimiter");
    reveal_strlit("punctuation.bracket");
    reveal_strlit("{");
    reveal_strlit("}");
    reveal_strlit("(");
    reveal_strlit(")");
    reveal_strlit("[");
    reveal_strlit("]");
    reveal_strlit(";");
    reveal_strlit(",");
    assert("keyword"@.len() == 7);
    assert("return"@.len() == 6);
    assert("if"@.len() == 2);
    assert("else"@.len() == 4);
    assert("let"@.len() == 3);
    assert("fn"@.len() == 2);
    assert("pub"@.len() == 3);
    assert("struct"@.len() == 6);
    assert("enum"@.len() == 4);
    assert("match"@.len() == 5);
    assert("string"@.len() == 6);
    assert("string_literal"@.len() == 14);
    assert("string_content"@.len() == 14);
    assert("number"@.len() == 6);
    assert("integer_literal"@.len() == 15);
    assert("float_literal"@.len() == 13);
    assert("boolean_literal"@.len() == 15);
    assert("comment"@.len() == 7);
    assert("line_comment"@.len() == 12);
    assert("block_comment"@.len() == 13);
    assert("function"@.len() == 8);
    assert("method"@.len() == 6);
    assert("identifier"@.len() == 10);
    assert("type"@.len() == 4);
    assert("type_identifier"@.len() == 15);
    assert("primitive_type"@.len() == 14);
    assert("punctuation"@.len() == 11);
    assert("punctuation.delimiter"@.len() == 21);
    assert("punctuation.bracket"@.len() == 19);
    assert("{"@.len() == 1);
    assert("}"@.len() == 1);
    assert("("@.len() == 1);
    assert(")"@.len() == 1);
    assert("["@.len() == 1);
    assert("]"@.len() == 1);
    assert(";"@.len() == 1);
    assert(","@.len() == 1);
    let t = coloured_kinds();
    assert forall|j: int| 0 <= j < t.len() implies spec_classify(#[trigger] t[j].0) == t[j].1 by {
        if j == 0 {
            assert(spec_classify(t[0].0) == t[0].1);
        }
        if j == 1 {
            assert(spec_classify(t[1].0) == t[1].1);
        }
        if j == 2 {
            assert(spec_classify(t[2].0) == t[2].1);
        }
        if j == 3 {
            assert(spec_classify(t[3].0) == t[3].1);
        }
        if j == 4 {
            assert(spec_classify(t[4].0) == t[4].1);
        }
        if j == 5 {
            assert("fn"@[0] == 'f' && "if"@[0] == 'i');
            assert(spec_classify(t[5].0) == t[5].1);
        }
        if j == 6 {
            assert("pub"@[0] == 'p' && "let"@[0] == 'l');
            assert(spec_classify(t[6].0) == t[6].1);
        }
        if j == 7 {
            assert("struct"@[0] == 's' && "return"@[0] == 'r');
            assert(spec_classify(t[7].0) == t[7].1);
        }
        if j == 8 {
            assert("enum"@[1] == 'n' && "else"@[1] == 'l');
            assert(spec_classify(t[8].0) == t[8].1);
        }
        if j == 9 {
            assert(spec_classify(t[9].0) == t[9].1);
        }
        if j == 10 {
            assert("string"@[0] == 's' && "return"@[0] == 'r');
            assert("string"@[3] == 'i' && "struct"@[3] == 'u');
            assert(spec_classify(t[10].0) == t[10].1);
        }
        if j == 11 {
            assert(spec_classify(t[11].0) == t[11].1);
        }
        if j == 12 {
            assert("string_content"@[7] == 'c' && "string_literal"@[7] == 'l');
            assert(spec_classify(t[12].0) == t[12].1);
        }
        if j == 13 {
            assert("number"@[0] == 'n' && "return"@[0] == 'r');
            assert("number"@[0] == 'n' && "struct"@[0] == 's');
            assert("number"@[0] == 'n' && "string"@[0] == 's');
            assert(spec_classify(t[13].0) == t[13].1);
        }
        if j == 14 {
            assert(spec_classify(t[14].0) == t[14].1);
        }
        if j == 15 {
            assert(spec_classify(t[15].0) == t[15].1);
        }
        if j == 16 {
            assert("boolean_literal"@[0] == 'b' && "integer_literal"@[0] == 'i');
            assert(spec_classify(t[16].0) == t[16].1);
        }
        if j == 17 {
            assert("comment"@[0] == 'c' && "keyword"@[0] == 'k');
            assert(spec_classify(t[17].0) == t[17].1);
        }
        if j == 18 {
            assert(spec_classify(t[18].0) == t[18].1);
        }
        if j == 19 {
            assert("block_comment"@[0] == 'b' && "float_literal"@[0] == 'f');
            assert(spec_classify(t[19].0) == t[19].1);
        }
        if j == 20 {
            assert(spec_classify(t[20].0) == t[20].1);
        }
        if j == 21 {
            assert("method"@[0] == 'm' && "return"@[0] == 'r');
            assert("method"@[0] == 'm' && "struct"@[0] == 's');
            assert("method"@[0] == 'm' && "string"@[0] == 's');
            assert("method"@[0] == 'm' && "number"@[0] == 'n');
            assert(spec_classify(t[21].0) == t[21].1);
        }
        if j == 22 {
            assert(spec_classify(t[22].0) == t[22].1);
        }
        if j == 23 {
            assert("type"@[0] == 't' && "else"@[0] == 'e');
            assert("type"@[0] == 't' && "enum"@[0] == 'e');
            assert(spec_classify(t[23].0) == t[23].1);
        }
        if j == 24 {
            assert("type_identifier"@[0] == 't' && "integer_literal"@[0] == 'i');
            assert("type_identifier"@[0] == 't' && "boolean_literal"@[0] == 'b');
            assert(spec_classify(t[24].0) == t[24].1);
        }
        if j == 25 {
            assert("primitive_type"@[0] == 'p' && "string_literal"@[0] == 's');
            assert("primitive_type"@[0] == 'p' && "string_content"@[0] == 's');
            assert(spec_classify(t[25].0) == t[25].1);
        }
        if j == 26 {
            assert(spec_classify(t[26].0) == t[26].1);
        }
        if j == 27 {
            assert(spec_classify(t[27].0) == t[27].1);
        }
        if j == 28 {
            assert(spec_classify(t[28].0) == t[28].1);
        }
        if j == 29 {
            assert(spec_classify(t[29].0) == t[29].1);
        }
        if j == 30 {
            assert("}"@[0] == '}' && "{"@[0] == '{');
            assert(spec_classify(t[30].0) == t[30].1);
        }
        if j == 31 {
            assert("("@[0] == '(' && "{"@[0] == '{');
            assert("("@[0] == '(' && "}"@[0] == '}');
            assert(spec_classify(t[31].0) == t[31].1);
        }
        if j == 32 {
            assert(")"@[0] == ')' && "{"@[0] == '{');
            assert(")"@[0] == ')' && "}"@[0] == '}');
            assert(")"@[0] == ')' && "("@[0] == '(');
            assert(spec_classify(t[32].0) == t[32].1);
        }
        if j == 33 {
            assert("["@[0] == '[' && "{"@[0] == '{');
            assert("["@[0] == '[' && "}"@[0] == '}');
            assert("["@[0] == '[' && "("@[0] == '(');
            assert("["@[0] == '[' && ")"@[0] == ')');
            assert(spec_classify(t[33].0) == t[33].1);
        }
        if j == 34 {
            assert("]"@[0] == ']' && "{"@[0] == '{');
            assert("]"@[0] == ']' && "}"@[0] == '}');
            assert("]"@[0] == ']' && "("@[0] == '(');
            assert("]"@[0] == ']' && ")"@[0] == ')');
            assert("]"@[0] == ']' && "["@[0] == '[');
            assert(spec_classify(t[34].0) == t[34].1);
        }
        if j == 35 {
            assert(";"@[0] == ';' && "{"@[0] == '{');
            assert(";"@[0] == ';' && "}"@[0] == '}');
            assert(";"@[0] == ';' && "("@[0] == '(');
            assert(";"@[0] == ';' && ")"@[0] == ')');
            assert(";"@[0] == ';' && "["@[0] == '[');
            assert(";"@[0] == ';' && "]"@[0] == ']');
            assert(spec_classify(t[35].0) == t[35].1);
        }
        if j == 36 {
            assert(","@[0] == ',' && "{"@[0] == '{');
            assert(","@[0] == ',' && "}"@[0] == '}');
            assert(","@[0] == ',' && "("@[0] == '(');
            assert(","@[0] == ',' && ")"@[0] == ')');
            assert(","@[0] == ',' && "["@[0] == '[');
            assert(","@[0] == ',' && "]"@[0] == ']');
            assert(","@[0] == ',' && ";"@[0] == ';');
            assert(spec_classify(t[36].0) == t[36].1);
        }
    }
    if forall|j: int| 0 <= j < t.len() ==> #[trigger] t[j].0 != k {
        assert(t[0].0 != k);
        assert(t[1].0 != k);
        assert(t[2].0 != k);
        assert(t[3].0 != k);
        assert(t[4].0 != k);
        assert(t[5].0 != k);
        assert(t[6].0 != k);
        assert(t[7].0 != k);
        assert(t[8].0 != k);
        assert(t[9].0 != k);
        assert(t[10].0 != k);
        assert(t[11].0 != k);
        assert(t[12].0 != k);
        assert(t[13].0 != k);
        assert(t[14].0 != k);
        assert(t[15].0 != k);
        assert(t[16].0 != k);
        assert(t[17].0 != k);
        assert(t[18].0 != k);
        assert(t[19].0 != k);
        assert(t[20].0 != k);
        assert(t[21].0 != k);
        assert(t[22].0 != k);
        assert(t[23].0 != k);
        assert(t[24].0 != k);
        assert(t[25].0 != k);
        assert(t[26].0 != k);
        assert(t[27].0 != k);
        assert(t[28].0 != k);
        assert(t[29].0 != k);
        assert(t[30].0 != k);
        assert(t[31].0 != k);
        assert(t[32].0 != k);
        assert(t[33].0 != k);
        assert(t[34].0 != k);
        assert(t[35].0 != k);
        assert(t[36].0 != k);
    }
}

/// The colour class of a syntax node kind.
pub fn classify_kind(kind: &str) -> (c: HighlightClass)
    ensures
        c == spec_classify(kind@),
{
    if str_eq(kind, "keyword") || str_eq(kind, "return") || str_eq(kind, "if") || str_eq(kind, "else")
        || str_eq(kind, "let") || str_eq(kind, "fn") || str_eq(kind, "pub") || str_eq(kind, "struct")
        || str_eq(kind, "enum") || str_eq(kind, "match") {
        HighlightClass::Keyword
    } else if str_eq(kind, "string") || str_eq(kind, "string_literal") || str_eq(kind, "string_content") {
        HighlightClass::Str
    } else if str_eq(kind, "number") || str_eq(kind, "integer_literal") || str_eq(kind, "float_literal")
        || str_eq(kind, "boolean_literal") {
        HighlightClass::Number
    } else if str_eq(kind, "comment") || str_eq(kind, "line_comment") || str_eq(kind, "block_comment") {
        HighlightClass::Comment
    } else if str_eq(kind, "function") || str_eq(kind, "method") || str_eq(kind, "identifier") {
        HighlightClass::Function
    } else if str_eq(kind, "type") || str_eq(kind, "type_identifier") || str_eq(kind, "primitive_type") {
        HighlightClass::Type
    } else if str_eq(kind, "punctuation") || str_eq(kind, "punctuation.delimiter") || str_eq(
        kind,
        "punctuation.bracket",
    ) || str_eq(kind, "{") || str_eq(kind, "}") || str_eq(kind, "(") || str_eq(kind, ")") || str_eq(
        kind,
        "[",
    ) || str_eq(kind, "]") || str_eq(kind, ";") || str_eq(kind, ",") {
        HighlightClass::Punctuation
    } else {
        HighlightClass::Plain
    }
}

/// The colour of a class in the graphical front end, as red, green and
/// blue, for a dark or a light theme; none for plain text, which keeps the
/// theme's text colour.
pub open spec fn spec_gui_color(class: HighlightClass, dark: bool) -> Option<(u8, u8, u8)> {
    match class {
        HighlightClass::Keyword => Some(if dark { (198, 120, 221) } else { (166, 38, 164) }),
        HighlightClass::Str => Some(if dark { (152, 195, 121) } else { (80, 161, 79) }),
        HighlightClass::Number => Some(if dark { (209, 154, 102) } else { (152, 104, 1) }),
        HighlightClass::Comment => Some(if dark { (92, 99, 112) } else { (160, 161, 167) }),
        HighlightClass::Function => Some(if dark { (97, 175, 239) } else { (64, 120, 242) }),
        HighlightClass::Type => Some(if dark { (229, 192, 123) } else { (193, 132, 1) }),
        HighlightClass::Punctuation => Some(if dark { (171, 178, 191) } else { (56, 58, 66) }),
        HighlightClass::Plain => None,
    }
}

pub fn gui_color(class: HighlightClass, dark: bool) -> (c: Option<(u8, u8, u8)>)
    ensures
        c == spec_gui_color(class, dark),
{
    let (d, l) = match class {
        HighlightClass::Keyword => ((198u8, 120u8, 221u8), (166u8, 38u8, 164u8)),
        HighlightClass::Str => ((152, 195, 121), (80, 161, 79)),
        HighlightClass::Number => ((209, 154, 102), (152, 104, 1)),
        HighlightClass::Comment => ((92, 99, 112), (160, 161, 167)),
        HighlightClass::Function => ((97, 175, 239), (64, 120, 242)),
        HighlightClass::Type => ((229, 192, 123), (193, 132, 1)),
        HighlightClass::Punctuation => ((171, 178, 191), (56, 58, 66)),
        HighlightClass::Plain => {
            return None;
        },
    };
    if dark {
        Some(d)
    } else {
        Some(l)
    }
}

// ---------------------------------------------------------------------
// The buffer as lines of highlighted spans.

/// A byte range of the buffer drawn in one class.
#[derive(Debug, Clone, Copy, PartialEq, Eq, Structural)]
pub struct Span {
    pub start: usize,
    pub end: usize,
    pub class: HighlightClass,
}

pub open spec fn min_of(a: int, b: int) -> int {
    if a < b {
        a
    } else {
        b
    }
}

pub open spec fn max_of(a: int, b: int) -> int {
    if a < b {
        b
    } else {
        a
    }
}

pub open spec fn span(start: int, end: int, class: HighlightClass) -> Span {
    Span { start: start as usize, end: end as usize, class }
}

/// The pieces that highlights `i..` cut the text into, from byte `cur` on:
/// before each highlight the unhighlighted gap, then the highlight from where
/// drawing stands (both clamped to the text), after which drawing stands at
/// the highlight's end unless it stood further already; after the last
/// highlight the rest.
pub open spec fn chunks_from(hs: Seq<(usize, usize, String)>, len: int, i: int, cur: int) -> Seq<Span>
    decreases hs.len() - i,
{
    if i < 0 || i >= hs.len() {
        if cur < len {
            seq![span(cur, len, HighlightClass::Plain)]
        } else {
            seq![]
        }
    } else {
        let s = min_of(hs[i].0 as int, len);
        let e = min_of(hs[i].1 as int, len);
        let gap = if s > cur {
            seq![span(cur, s, HighlightClass::Plain)]
        } else {
            seq![]
        };
        let main = if cur < e {
            seq![span(max_of(s, cur), e, spec_classify(hs[i].2@))]
        } else {
            seq![]
        };
        gap + main + chunks_from(hs, len, i + 1, if cur < e { e } else { cur })
    }
}

/// `spans` lay the bytes `from..to` end to end, in order: each span ends
/// no earlier than it starts, and starts where the one before it ends.
pub open spec fn tiles(spans: Seq<Span>, from: int, to: int) -> bool
    decreases spans.len(),
{
    if spans.len() == 0 {
        from == to
    } else {
        &&& spans[0].start == from
        &&& spans[0].start <= spans[0].end
        &&& tiles(spans.drop_first(), spans[0].end as int, to)
    }
}

proof fn lemma_tiles_concat(a: Seq<Span>, b: Seq<Span>, from: int, mid: int, to: int)
    requires
        tiles(a, from, mid),
        tiles(b, mid, to),
    ensures
        tiles(a + b, from, to),
    decreases a.len(),
{
    if a.len() == 0 {
        assert(a + b =~= b);
    } else {
        lemma_tiles_concat(a.drop_first(), b, a[0].end as int, mid, to);
        assert((a + b).drop_first() =~= a.drop_first() + b);
    }
}

proof fn lemma_chunks_tile(hs: Seq<(usize, usize, String)>, len: int, i: int, cur: int)
    requires
        0 <= i <= hs.len(),
        0 <= cur <= len <= usize::MAX,
        forall|j: int| 0 <= j < hs.len() ==> #[trigger] hs[j].0 <= hs[j].1,
    ensures
        tiles(chunks_from(hs, len, i, cur), cur, len),
    decreases hs.len() - i,
{
    reveal_with_fuel(tiles, 2);
    if i >= hs.len() {
        if cur < len {
            let only = seq![span(cur, len, HighlightClass::Plain)];
            assert(only.drop_first() =~= Seq::<Span>::empty());
        }
    } else {
        let s = min_of(hs[i].0 as int, len);
        let e = min_of(hs[i].1 as int, len);
        assert(s <= e);
        let next = if cur < e { e } else { cur };
        lemma_chunks_tile(hs, len, i + 1, next);
        let gap = if s > cur {
            seq![span(cur, s, HighlightClass::Plain)]
        } else {
            seq![]
        };
        let main = if cur < e {
            seq![span(max_of(s, cur), e, spec_classify(hs[i].2@))]
        } else {
            seq![]
        };
        let rest = chunks_from(hs, len, i + 1, next);
        let mid = if s > cur { s } else { cur };
        if s > cur {
            assert(gap.drop_first() =~= Seq::<Span>::empty());
        }
        assert(tiles(gap, cur, mid));
        if cur < e {
            assert(main.drop_first() =~= Seq::<Span>::empty());
        }
        assert(tiles(main, mid, next));
        lemma_tiles_concat(main, rest, mid, next, len);
        lemma_tiles_concat(gap, main + rest, cur, mid, len);
        assert(gap + main + rest =~= gap + (main + rest));
    }
}

/// Where every highlight ends no earlier than it starts, the pieces that the
/// highlights cut the text into lay its bytes end to end, in order: each
/// byte is drawn once, and none is drawn twice.
pub proof fn law_chunks_tile_the_text(hs: Seq<(usize, usize, String)>, len: usize)
    requires
        forall|j: int| 0 <= j < hs.len() ==> #[trigger] hs[j].0 <= hs[j].1,
    ensures
        tiles(chunks_from(hs, len as int, 0, 0), 0, len as int),
{
    lemma_chunks_tile(hs, len as int, 0, 0);
}

/// Lines finished so far, and the spans of the line being built.
pub struct LineState {
    pub lines: Seq<Seq<Span>>,
    pub current: Seq<Span>,
}

pub open spec fn empty_state() -> LineState {
    LineState { lines: seq![], current: seq![] }
}

/// Adds the bytes `a..b` to the current line, when there are any.
pub open spec fn append_part(st: LineState, a: int, b: int, class: HighlightClass) -> LineState {
    if a < b {
        LineState { lines: st.lines, current: st.current.push(span(a, b, class)) }
    } else {
        st
    }
}

pub open spec fn new_line(st: LineState) -> LineState {
    LineState { lines: st.lines.push(st.current), current: seq![] }
}

/// Feeds the bytes `p..b` of a piece whose current part began at `part`:
/// each line feed ends the part and the line.
pub open spec fn feed_range(text: Seq<u8>, st: LineState, p: int, b: int, part: int, class: HighlightClass) -> LineState
    decreases b - p,
{
    if p >= b {
        append_part(st, part, b, class)
    } else if text[p] == 10u8 {
        feed_range(text, new_line(append_part(st, part, p, class)), p + 1, b, p + 1, class)
    } else {
        feed_range(text, st, p + 1, b, part, class)
    }
}

pub open spec fn feed_span(text: Seq<u8>, st: LineState, sp: Span) -> LineState {
    if sp.start >= sp.end {
        st
    } else {
        feed_range(text, st, sp.start as int, sp.end as int, sp.start as int, sp.class)
    }
}

pub open spec fn feed_all(text: Seq<u8>, st: LineState, spans: Seq<Span>) -> LineState
    decreases spans.len(),
{
    if spans.len() == 0 {
        st
    } else {
        feed_all(text, feed_span(text, st, spans[0]), spans.drop_first())
    }
}

/// The lines that the screen shows: the pieces that the highlights cut the
/// text into, split at line feeds, with empty parts left out.
pub open spec fn spec_layout(text: Seq<u8>, hs: Seq<(usize, usize, String)>) -> Seq<Seq<Span>> {
    let st = feed_all(text, empty_state(), chunks_from(hs, text.len() as int, 0, 0));
    st.lines.push(st.current)
}

/// The bytes that a line's spans show, in order.
pub open spec fn spans_text(text: Seq<u8>, spans: Seq<Span>) -> Seq<u8>
    decreases spans.len(),
{
    if spans.len() == 0 {
        seq![]
    } else {
        spans_text(text, spans.drop_last()) + text.subrange(spans.last().start as int, spans.last().end as int)
    }
}

/// The bytes that finished lines show, each followed by a line feed.
pub open spec fn lines_text(text: Seq<u8>, lines: Seq<Seq<Span>>) -> Seq<u8>
    decreases lines.len(),
{
    if lines.len() == 0 {
        seq![]
    } else {
        lines_text(text, lines.drop_last()) + spans_text(text, lines.last()) + seq![10u8]
    }
}

/// The bytes that lines show when joined with line feeds.
pub open spec fn shown_text(text: Seq<u8>, lines: Seq<Seq<Span>>) -> Seq<u8> {
    if lines.len() == 0 {
        seq![]
    } else {
        lines_text(text, lines.drop_last()) + spans_text(text, lines.last())
    }
}

pub open spec fn state_text(text: Seq<u8>, st: LineState) -> Seq<u8> {
    lines_text(text, st.lines) + spans_text(text, st.current)
}

proof fn lemma_append_part(text: Seq<u8>, st: LineState, a: int, b: int, class: HighlightClass)
    requires
        0 <= a <= b <= text.len() <= usize::MAX,
    ensures
        state_text(text, append_part(st, a, b, class)) == state_text(text, st) + text.subrange(a, b),
{
    if a < b {
        let cur = st.current.push(span(a, b, class));
        assert(cur.drop_last() =~= st.current);
        assert(spans_text(text, cur) == spans_text(text, st.current) + text.subrange(a, b));
    } else {
        assert(text.subrange(a, b) =~= Seq::<u8>::empty());
    }
    assert(state_text(text, append_part(st, a, b, class)) =~= state_text(text, st) + text.subrange(a, b));
}

proof fn lemma_new_line(text: Seq<u8>, st: LineState)
    ensures
        state_text(text, new_line(st)) == state_text(text, st) + seq![10u8],
{
    let ls = st.lines.push(st.current);
    assert(ls.drop_last() =~= st.lines);
    assert(spans_text(text, Seq::<Span>::empty()) =~= Seq::<u8>::empty());
    assert(state_text(text, new_line(st)) =~= state_text(text, st) + seq![10u8]);
}

proof fn lemma_feed_range(text: Seq<u8>, st: LineState, p: int, b: int, part: int, class: HighlightClass)
    requires
        0 <= part <= p <= b <= text.len() <= usize::MAX,
    ensures
        state_text(text, feed_range(text, st, p, b, part, class)) == state_text(text, st) + text.subrange(part, b),
    decreases b - p,
{
    if p >= b {
        lemma_append_part(text, st, part, b, class);
    } else if text[p] == 10u8 {
        let st1 = append_part(st, part, p, class);
        lemma_append_part(text, st, part, p, class);
        lemma_new_line(text, st1);
        lemma_feed_range(text, new_line(st1), p + 1, b, p + 1, class);
        assert(text.subrange(part, p) + seq![10u8] + text.subrange(p + 1, b) =~= text.subrange(part, b));
        assert(state_text(text, st) + text.subrange(part, p) + seq![10u8] + text.subrange(p + 1, b)
            =~= state_text(text, st) + text.subrange(part, b));
    } else {
        lemma_feed_range(text, st, p + 1, b, part, class);
    }
}

proof fn lemma_feed_all(text: Seq<u8>, st: LineState, spans: Seq<Span>, from: int, to: int)
    requires
        0 <= from,
        to <= text.len() <= usize::MAX,
        tiles(spans, from, to),
    ensures
        state_text(text, feed_all(text, st, spans)) == state_text(text, st) + text.subrange(from, to),
    decreases spans.len(),
{
    if spans.len() == 0 {
        assert(text.subrange(from, to) =~= Seq::<u8>::empty());
        assert(state_text(text, st) + text.subrange(from, to) =~= state_text(text, st));
    } else {
        let sp = spans[0];
        let mid = sp.end as int;
        lemma_tiles_bounds(spans.drop_first(), mid, to);
        if sp.start < sp.end {
            lemma_feed_range(text, st, sp.start as int, mid, sp.start as int, sp.class);
        } else {
            assert(text.subrange(from, mid) =~= Seq::<u8>::empty());
        }
        let st1 = feed_span(text, st, sp);
        assert(state_text(text, st1) =~= state_text(text, st) + text.subrange(from, mid));
        lemma_feed_all(text, st1, spans.drop_first(), mid, to);
        assert(text.subrange(from, mid) + text.subrange(mid, to) =~= text.subrange(from, to));
        assert(state_text(text, st) + text.subrange(from, mid) + text.subrange(mid, to) =~= state_text(text, st)
            + text.subrange(from, to));
    }
}

proof fn lemma_tiles_bounds(spans: Seq<Span>, from: int, to: int)
    requires
        tiles(spans, from, to),
    ensures
        from <= to,
    decreases spans.len(),
{
    if spans.len() > 0 {
        lemma_tiles_bounds(spans.drop_first(), spans[0].end as int, to);
    }
}

/// Where every highlight ends no earlier than it starts, the lines that the
/// screen shows, joined with line feeds, are the text: each byte is shown
/// once, in order, and each line feed ends a line.
pub proof fn law_layout_shows_the_text(text: Seq<u8>, hs: Seq<(usize, usize, String)>)
    requires
        text.len() <= usize::MAX,
        forall|j: int| 0 <= j < hs.len() ==> #[trigger] hs[j].0 <= hs[j].1,
    ensures
        shown_text(text, spec_layout(text, hs)) == text,
{
    let chunks = chunks_from(hs, text.len() as int, 0, 0);
    law_chunks_tile_the_text(hs, text.len() as usize);
    let st = feed_all(text, empty_state(), chunks);
    lemma_feed_all(text, empty_state(), chunks, 0, text.len() as int);
    assert(state_text(text, empty_state()) =~= Seq::<u8>::empty());
    let ls = st.lines.push(st.current);
    assert(ls.drop_last() =~= st.lines);
    assert(text.subrange(0, text.len() as int) =~= text);
    assert(shown_text(text, ls) =~= state_text(text, st));
}

pub open spec fn lines_view(lines: Seq<Vec<Span>>) -> Seq<Seq<Span>> {
    lines.map_values(|l: Vec<Span>| l@)
}

fn highlight_chunks(len: usize, highlights: &Vec<(usize, usize, String)>) -> (chunks: Vec<Span>)
    ensures
        chunks@ == chunks_from(highlights@, len as int, 0, 0),
        forall|j: int| 0 <= j < chunks@.len() ==> #[trigger] chunks@[j].end <= len,
{
    let mut chunks: Vec<Span> = Vec::new();
    let mut cur: usize = 0;
    let mut i: usize = 0;
    while i < highlights.len()
        invariant
            i <= highlights@.len(),
            cur <= len,
            chunks@ + chunks_from(highlights@, len as int, i as int, cur as int) == chunks_from(
                highlights@,
                len as int,
                0,
                0,
            ),
            forall|j: int| 0 <= j < chunks@.len() ==> #[trigger] chunks@[j].end <= len,
        decreases highlights@.len() - i,
    {
        let ghost before = chunks@;
        let h = &highlights[i];
        let s = if h.0 < len {
            h.0
        } else {
            len
        };
        let e = if h.1 < len {
            h.1
        } else {
            len
        };
        if s > cur {
            chunks.push(Span { start: cur, end: s, class: HighlightClass::Plain });
        }
        let ghost mid = chunks@;
        if cur < e {
            let start = if s > cur {
                s
            } else {
                cur
            };
            chunks.push(Span { start, end: e, class: classify_kind(h.2.as_str()) });
        }
        proof {
            let gap = if s > cur {
                seq![span(cur as int, s as int, HighlightClass::Plain)]
            } else {
                seq![]
            };
            let main = if cur < e {
                seq![span(max_of(s as int, cur as int), e as int, spec_classify(highlights@[i as int].2@))]
            } else {
                seq![]
            };
            assert(mid =~= before + gap);
            assert(chunks@ =~= before + gap + main);
            let rest = chunks_from(highlights@, len as int, i + 1, if cur < e { e as int } else { cur as int });
            assert(chunks_from(highlights@, len as int, i as int, cur as int) == gap + main + rest);
            assert(before + (gap + main + rest) =~= chunks@ + rest);
        }
        if cur < e {
            cur = e;
        }
        i = i + 1;
    }
    if cur < len {
        chunks.push(Span { start: cur, end: len, class: HighlightClass::Plain });
    }
    proof {
        assert(chunks@ =~= chunks_from(highlights@, len as int, 0, 0));
    }
    chunks
}

// ---------------------------------------------------------------------
// The buffer as the graphical front end draws it, with a block cursor.

/// A byte range of the buffer drawn in one class, inverted where it is the
/// cursor. An empty cursor range stands for the blank block drawn after the
/// text when the cursor is past its last character.
#[derive(Debug, Clone, Copy, PartialEq, Eq, Structural)]
pub struct GuiSpan {
    pub start: usize,
    pub end: usize,
    pub class: HighlightClass,
    pub cursor: bool,
}

pub open spec fn gspan(start: int, end: int, class: HighlightClass, cursor: bool) -> GuiSpan {
    GuiSpan { start: start as usize, end: end as usize, class, cursor }
}

/// The length in bytes of the character that starts at byte `i`, read from
/// its leading byte.
pub open spec fn char_len_at(bytes: Seq<u8>, i: int) -> int {
    length_of_first_codepoint(bytes.subrange(i, bytes.len() as int))
}

/// A piece that holds the cursor, cut into the part before it, the cursor's
/// character (cut short at the piece's end), and the part after it.
pub open spec fn split_at_cursor(bytes: Seq<u8>, sp: Span, cursor: int) -> Seq<GuiSpan> {
    let end_c = min_of(cursor + char_len_at(bytes, cursor), sp.end as int);
    (if sp.start < cursor {
        seq![gspan(sp.start as int, cursor, sp.class, false)]
    } else {
        seq![]
    }) + seq![gspan(cursor, end_c, sp.class, true)] + (if end_c < sp.end {
        seq![gspan(end_c, sp.end as int, sp.class, false)]
    } else {
        seq![]
    })
}

/// The pieces `chunks` drawn in order, empty ones left out; the first piece
/// that holds the cursor, while none has shown it, is split around it; when
/// none did, a blank cursor block follows the text.
pub open spec fn gui_from(bytes: Seq<u8>, chunks: Seq<Span>, cursor: int, shown: bool) -> Seq<GuiSpan>
    decreases chunks.len(),
{
    if chunks.len() == 0 {
        if shown {
            seq![]
        } else {
            seq![gspan(bytes.len() as int, bytes.len() as int, HighlightClass::Plain, true)]
        }
    } else {
        let sp = chunks[0];
        if sp.start >= sp.end {
            gui_from(bytes, chunks.drop_first(), cursor, shown)
        } else if !shown && sp.start <= cursor < sp.end {
            split_at_cursor(bytes, sp, cursor) + gui_from(bytes, chunks.drop_first(), cursor, true)
        } else {
            seq![gspan(sp.start as int, sp.end as int, sp.class, false)] + gui_from(
                bytes,
                chunks.drop_first(),
                cursor,
                shown,
            )
        }
    }
}

/// What the graphical front end draws: the pieces that the highlights cut
/// the text into, with the cursor's character inverted.
pub open spec fn spec_gui_layout(bytes: Seq<u8>, hs: Seq<(usize, usize, String)>, cursor: int) -> Seq<GuiSpan> {
    gui_from(bytes, chunks_from(hs, bytes.len() as int, 0, 0), cursor, false)
}

/// Cuts the buffer into highlighted pieces as the graphical front end draws
/// them, with the character at byte `cursor` drawn as the cursor, or a
/// blank cursor block after the text when `cursor` is at its end.
pub fn layout_with_cursor(text: &str, highlights: &Vec<(usize, usize, String)>, cursor: usize) -> (pieces: Vec<
    GuiSpan,
>)
    requires
        is_char_boundary(text.spec_bytes(), cursor as int),
    ensures
        pieces@ == spec_gui_layout(text.spec_bytes(), highlights@, cursor as int),
{
    proof {
        encode_utf8_valid_utf8(text@);
    }
    let bytes = text.as_bytes();
    let len = bytes.len();
    assert(cursor <= len);
    let chunks = highlight_chunks(len, highlights);
    let mut out: Vec<GuiSpan> = Vec::new();
    let mut shown = false;
    let mut k: usize = 0;
    assert(chunks@.skip(0) =~= chunks@);
    while k < chunks.len()
        invariant
            k <= chunks@.len(),
            cursor <= len,
            len == bytes@.len(),
            bytes@ == text.spec_bytes(),
            forall|j: int| 0 <= j < chunks@.len() ==> #[trigger] chunks@[j].end <= len,
            out@ + gui_from(bytes@, chunks@.skip(k as int), cursor as int, shown) == gui_from(
                bytes@,
                chunks@,
                cursor as int,
                false,
            ),
        decreases chunks@.len() - k,
    {
        let sp = chunks[k];
        let ghost before = out@;
        let ghost rest = chunks@.skip(k as int);
        assert(rest[0] == sp);
        assert(rest.drop_first() =~= chunks@.skip(k + 1));
        if sp.start < sp.end {
            if !shown && sp.start <= cursor && cursor < sp.end {
                let lead = bytes[cursor];
                let cl: usize = if lead <= 0x7f {
                    1
                } else if 0xc0 <= lead && lead <= 0xdf {
                    2
                } else if 0xe0 <= lead && lead <= 0xef {
                    3
                } else {
                    4
                };
                assert(bytes@.subrange(cursor as int, len as int)[0] == lead);
                assert(cl == char_len_at(bytes@, cursor as int));
                let end_c = if cl < sp.end - cursor {
                    cursor + cl
                } else {
                    sp.end
                };
                if sp.start < cursor {
                    out.push(GuiSpan { start: sp.start, end: cursor, class: sp.class, cursor: false });
                }
                out.push(GuiSpan { start: cursor, end: end_c, class: sp.class, cursor: true });
                if end_c < sp.end {
                    out.push(GuiSpan { start: end_c, end: sp.end, class: sp.class, cursor: false });
                }
                assert(out@ =~= before + split_at_cursor(bytes@, sp, cursor as int));
                shown = true;
            } else {
                out.push(GuiSpan { start: sp.start, end: sp.end, class: sp.class, cursor: false });
            }
        }
        k = k + 1;
    }
    if !shown {
        out.push(GuiSpan { start: len, end: len, class: HighlightClass::Plain, cursor: true });
    }
    proof {
        assert(chunks@.skip(k as int) =~= Seq::<Span>::empty());
        assert(out@ =~= gui_from(bytes@, chunks@, cursor as int, false));
    }
    out
}

/// Cuts the buffer's bytes into lines of highlighted spans, as the screen
/// draws them. Each span is a byte range of `text`.
pub fn layout_lines(text: &[u8], highlights: &Vec<(usize, usize, String)>) -> (lines: Vec<Vec<Span>>)
    ensures
        lines_view(lines@) == spec_layout(text@, highlights@),
{
    let len = text.len();
    let chunks = highlight_chunks(len, highlights);
    let mut lines: Vec<Vec<Span>> = Vec::new();
    let mut current: Vec<Span> = Vec::new();
    let mut k: usize = 0;
    assert(chunks@.skip(0) =~= chunks@);
    assert(lines_view(lines@) =~= Seq::<Seq<Span>>::empty());
    assert(current@ =~= Seq::<Span>::empty());
    while k < chunks.len()
        invariant
            k <= chunks@.len(),
            len == text@.len(),
            forall|j: int| 0 <= j < chunks@.len() ==> #[trigger] chunks@[j].end <= len,
            feed_all(text@, empty_state(), chunks@) == feed_all(
                text@,
                LineState { lines: lines_view(lines@), current: current@ },
                chunks@.skip(k as int),
            ),
        decreases chunks@.len() - k,
    {
        let sp = chunks[k];
        let ghost st0 = LineState { lines: lines_view(lines@), current: current@ };
        proof {
            assert(chunks@.skip(k as int)[0] == sp);
            assert(chunks@.skip(k as int).drop_first() =~= chunks@.skip(k + 1));
            assert(chunks@[k as int].end <= len);
        }
        if sp.start < sp.end {
            let b = sp.end;
            let mut p = sp.start;
            let mut part = sp.start;
            while p < b
                invariant
                    sp.start <= part <= p <= b,
                    b == sp.end,
                    b <= text@.len(),
                    feed_range(text@, st0, sp.start as int, b as int, sp.start as int, sp.class)
                        == feed_range(
                        text@,
                        LineState { lines: lines_view(lines@), current: current@ },
                        p as int,
                        b as int,
                        part as int,
                        sp.class,
                    ),
                decreases b - p,
            {
                if text[p] == 10u8 {
                    let ghost pre_lines = lines@;
                    if part < p {
                        current.push(Span { start: part, end: p, class: sp.class });
                    }
                    let finished = current;
                    current = Vec::new();
                    lines.push(finished);
                    proof {
                        assert(lines_view(lines@) =~= lines_view(pre_lines).push(finished@));
                    }
                    part = p + 1;
                }
                p = p + 1;
            }
            if part < b {
                current.push(Span { start: part, end: b, class: sp.class });
            }
        }
        k = k + 1;
    }
    let ghost pre_lines = lines@;
    let last = current;
    lines.push(last);
    proof {
        assert(chunks@.skip(chunks@.len() as int) =~= Seq::<Span>::empty());
        assert(lines_view(lines@) =~= lines_view(pre_lines).push(last@));
    }
    lines
}

// ---------------------------------------------------------------------
// Scrolling, the cursor, and the status and hint lines.

pub open spec fn rows_inside(area_height: u16) -> int {
    if area_height >= 2 {
        area_height - 2
    } else {
        0
    }
}

/// How many rows the buffer is scrolled: none while the cursor row (taken as
/// a `u16`) fits inside the bordered area, else enough to bring it in.
pub open spec fn spec_scroll(cursor_row: usize, area_height: u16) -> int {
    let r = cursor_row as u16;
    if r > rows_inside(area_height) {
        r - rows_inside(area_height) + 2
    } else {
        0
    }
}

pub fn scroll_offset(cursor_row: usize, area_height: u16) -> (s: u16)
    requires
        spec_scroll(cursor_row, area_height) <= u16::MAX,
    ensures
        s == spec_scroll(cursor_row, area_height),
{
    let height = area_height.saturating_sub(2);
    let r = cursor_row as u16;
    if r > height {
        r - height + 2
    } else {
        0
    }
}

/// Where the terminal cursor goes, inside the border: one column right of the
/// cursor column and one row below the cursor row less the scroll; nowhere in
/// the assistant prompt.
pub open spec fn spec_cursor_position(mode: Mode, row: usize, col: usize, scroll: u16) -> Option<(int, int)> {
    if mode == Mode::EzMode {
        None
    } else {
        let r = row as u16;
        let y = if r > scroll {
            r - scroll
        } else {
            0
        };
        Some((((col + 1) as u16) as int, y + 1))
    }
}

pub fn cursor_position(mode: Mode, row: usize, col: usize, scroll: u16) -> (p: Option<(u16, u16)>)
    requires
        col < usize::MAX,
        (row as u16) - scroll < u16::MAX,
    ensures
        match (p, spec_cursor_position(mode, row, col, scroll)) {
            (Some((x, y)), Some((sx, sy))) => x == sx && y == sy,
            (None, None) => true,
            _ => false,
        },
{
    match mode {
        Mode::EzMode => None,
        _ => {
            let y = (row as u16).saturating_sub(scroll) + 1;
            Some(((col + 1) as u16, y))
        },
    }
}

/// The look of the hint line.
#[derive(Debug, Clone, Copy, PartialEq, Eq, Structural)]
pub enum HintStyle {
    Pending,
    CommandPending,
    Quiet,
    Assistant,
}

pub open spec fn spec_hint(mode: Mode, has_match: bool) -> (HintStyle, Seq<char>) {
    if mode == Mode::PendingMotion {
        (HintStyle::Pending, " [Pending] Waiting for motion or text object (e.g. w, p, \", {)"@)
    } else if mode == Mode::Insert {
        if has_match {
            (
                HintStyle::CommandPending,
                " [Insert] Auto-switcher paused... (Executing in 1s or type to cancel)"@,
            )
        } else {
            (
                HintStyle::Quiet,
                " [Insert] Type freely. Structural edits (like ciw) will be auto-detected."@,
            )
        }
    } else if mode == Mode::EzMode {
        (HintStyle::Assistant, " [EZ MODE] Type your command in natural language and press Enter."@)
    } else {
        (HintStyle::Quiet, ""@)
    }
}

/// The hint line for a mode; `has_match` tells whether the typed characters
/// end with a structural command that waits to run.
pub fn keyshow_hint(mode: Mode, has_match: bool) -> (h: (HintStyle, &'static str))
    ensures
        h.0 == spec_hint(mode, has_match).0,
        h.1@ == spec_hint(mode, has_match).1,
{
    match mode {
        Mode::PendingMotion => (
            HintStyle::Pending,
            " [Pending] Waiting for motion or text object (e.g. w, p, \", {)",
        ),
        Mode::Insert => if has_match {
            (
                HintStyle::CommandPending,
                " [Insert] Auto-switcher paused... (Executing in 1s or type to cancel)",
            )
        } else {
            (
                HintStyle::Quiet,
                " [Insert] Type freely. Structural edits (like ciw) will be auto-detected.",
            )
        },
        Mode::EzMode => (
            HintStyle::Assistant,
            " [EZ MODE] Type your command in natural language and press Enter.",
        ),
        Mode::Normal => (HintStyle::Quiet, ""),
    }
}

/// The colour of the mode label in the status line.
#[derive(Debug, Clone, Copy, PartialEq, Eq, Structural)]
pub enum ModeColor {
    Blue,
    Green,
    Cyan,
    Magenta,
}

pub open spec fn spec_mode_label(mode: Mode) -> (ModeColor, Seq<char>) {
    match mode {
        Mode::Normal => (ModeColor::Blue, " NORMAL "@),
        Mode::Insert => (ModeColor::Green, " INSERT "@),
        Mode::PendingMotion => (ModeColor::Cyan, " PENDING "@),
        Mode::EzMode => (ModeColor::Magenta, " EZ MODE "@),
    }
}

/// The label of a mode in the status line, with its colour.
pub fn mode_label(mode: Mode) -> (l: (ModeColor, &'static str))
    ensures
        l.0 == spec_mode_label(mode).0,
        l.1@ == spec_mode_label(mode).1,
{
    match mode {
        Mode::Normal => (ModeColor::Blue, " NORMAL "),
        Mode::Insert => (ModeColor::Green, " INSERT "),
        Mode::PendingMotion => (ModeColor::Cyan, " PENDING "),
        Mode::EzMode => (ModeColor::Magenta, " EZ MODE "),
    }
}

/// In either theme every coloured class has a colour of its own, and only
/// plain text keeps the theme's text colour.
pub proof fn law_classes_look_distinct(a: HighlightClass, b: HighlightClass, dark: bool)
    ensures
        a != b ==> spec_gui_color(a, dark) != spec_gui_color(b, dark),
        spec_gui_color(a, dark) is None <==> a == HighlightClass::Plain,
{
}

/// Each mode has a label and a colour of its own in the status line, and
/// the hint line tells of a waiting command exactly in insert mode with a
/// command found.
pub proof fn law_status_tells_the_mode(m1: Mode, m2: Mode, has_match: bool)
    ensures
        m1 != m2 ==> spec_mode_label(m1).0 != spec_mode_label(m2).0,
        m1 != m2 ==> spec_mode_label(m1).1 != spec_mode_label(m2).1,
        (spec_hint(m1, has_match).0 == HintStyle::CommandPending) <==> (m1 == Mode::Insert && has_match),
{
    reveal_strlit(" NORMAL ");
    reveal_strlit(" INSERT ");
    reveal_strlit(" PENDING ");
    reveal_strlit(" EZ MODE ");
    assert(" NORMAL "@[1] == 'N' && " INSERT "@[1] == 'I' && " PENDING "@[1] == 'P' && " EZ MODE "@[1] == 'E');
}

/// With at least two rows inside the border, scrolling keeps the cursor's
/// row among the rows shown, and does not scroll while the row is already
/// shown.
pub proof fn law_scroll_keeps_the_cursor_shown(row: usize, area_height: u16)
    requires
        row <= u16::MAX,
        rows_inside(area_height) >= 2,
    ensures
        0 <= row - spec_scroll(row, area_height) <= rows_inside(area_height),
        row <= rows_inside(area_height) ==> spec_scroll(row, area_height) == 0,
{
    assert(row as u16 == row);
}

} // verus!
