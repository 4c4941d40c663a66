//! Syntax trees from tree-sitter: the leaves that get highlighted, the node
//! at a byte, and the nearest enclosing node bracketed by given characters.

use vstd::prelude::*;
use vstd::string::StringSliceAdditionalSpecFns;
use vstd::utf8::{decode_utf8, encode_utf8_decode_utf8, encode_utf8_valid_utf8, is_char_boundary};
use tree_sitter::{Language, LanguageError, Node, Parser, Tree};

verus! {

#[verifier::external_type_specification]
#[verifier::external_body]
pub struct ExParser(Parser);

#[verifier::external_type_specification]
#[verifier::external_body]
pub struct ExTree(Tree);

#[verifier::external_type_specification]
#[verifier::external_body]
pub struct ExLanguage(Language);

#[verifier::external_type_specification]
#[verifier::external_body]
pub struct ExLanguageError(LanguageError);

#[verifier::external_type_specification]
#[verifier::external_body]
pub struct ExNode<'tree>(Node<'tree>);

/// The nodes of a tree as `TreeCursor::goto_descendant` numbers them
/// (depth first, each node before its children, the root first), each as
/// its start byte, end byte, kind and number of children.
pub uninterp spec fn tree_nodes(t: Tree) -> Seq<(usize, usize, Seq<char>, u32)>;

/// The language that a parser was last given (`Parser::language`), none
/// before the first.
pub uninterp spec fn parser_language(p: Parser) -> Option<Language>;

/// The tree that `Parser::parse` builds for `text` with the language `l`,
/// given the previous tree `old`.
pub uninterp spec fn parsed(l: Option<Language>, text: Seq<char>, old: Option<Tree>) -> Option<Tree>;

/// `Parser::new`: a parser with no language.
#[verifier::external_body]
fn parser_new() -> (p: Parser)
    ensures
        parser_language(p) is None,
{
    Parser::new()
}

/// The ABI version that a language was generated with
/// (`Language::abi_version`).
pub uninterp spec fn language_abi(l: Language) -> usize;

/// Whether a language can be used for parsing (`Language::is_parseable`).
pub uninterp spec fn language_parseable(l: Language) -> bool;

/// The node that `Node::descendant_for_byte_range` finds from the root of
/// `t` for the empty range at `byte`.
pub uninterp spec fn node_at(t: Tree, byte: usize) -> Node<'static>;

/// A node's start byte (`Node::start_byte`).
pub uninterp spec fn node_start(n: Node) -> usize;

/// A node's end byte (`Node::end_byte`).
pub uninterp spec fn node_end(n: Node) -> usize;

/// A node's parent, none for the root (`Node::parent`).
pub uninterp spec fn node_up(n: Node) -> Option<Node>;

/// Whether `Parser::set_language` takes a language: its ABI version lies
/// between the oldest and the newest that this tree-sitter reads (13 and
/// 15), and it can be used for parsing.
pub open spec fn parser_accepts(l: Language) -> bool {
    13 <= language_abi(l) <= 15 && language_parseable(l)
}

/// `Language::abi_version`.
#[verifier::external_body]
fn language_abi_version(l: &Language) -> (v: usize)
    ensures
        v == language_abi(*l),
{
    l.abi_version()
}

/// `Language::is_parseable`.
#[verifier::external_body]
fn language_is_parseable(l: &Language) -> (b: bool)
    ensures
        b == language_parseable(*l),
{
    l.is_parseable()
}

/// `Parser::set_language`: succeeds exactly when the language's ABI version
/// lies between 13 and 15 (`MIN_COMPATIBLE_LANGUAGE_VERSION` and
/// `LANGUAGE_VERSION`) and the language is parseable. On success the parser
/// holds the language; on failure it returns before touching the parser.
#[verifier::external_body]
fn parser_set_language(p: &mut Parser, language: &Language) -> (r: Result<(), LanguageError>)
    ensures
        r is Ok <==> parser_accepts(*language),
        r is Ok ==> parser_language(*final(p)) == Some(*language),
        r is Err ==> parser_language(*final(p)) == parser_language(*old(p)),
{
    p.set_language(language)
}

/// `Parser::parse`: the tree of `text` with the parser's language, reusing
/// `old_tree`; nothing when the parser has no language. The parser keeps its
/// language. (No timeout or cancellation flag is ever set on the parsers of
/// this crate.)
#[verifier::external_body]
fn parser_parse(p: &mut Parser, text: &str, old_tree: &Option<Tree>) -> (r: Option<Tree>)
    ensures
        r == parsed(parser_language(*old(p)), text@, *old_tree),
        parser_language(*old(p)) is None ==> r is None,
        parser_language(*final(p)) == parser_language(*old(p)),
{
    p.parse(text, old_tree.as_ref())
}

/// `Node::descendant_count` of the root: how many nodes the tree has.
#[verifier::external_body]
fn tree_node_count(t: &Tree) -> (n: usize)
    ensures
        n == tree_nodes(*t).len(),
{
    t.root_node().descendant_count()
}

/// `TreeCursor::goto_descendant` and `TreeCursor::node`: node `i` of the
/// tree, with its start byte, end byte, kind and number of children.
#[verifier::external_body]
fn tree_node(t: &Tree, i: usize) -> (info: (usize, usize, String, u32))
    requires
        i < tree_nodes(*t).len(),
    ensures
        info.0 == tree_nodes(*t)[i as int].0,
        info.1 == tree_nodes(*t)[i as int].1,
        info.2@ == tree_nodes(*t)[i as int].2,
        info.3 == tree_nodes(*t)[i as int].3,
{
    let mut cursor = t.walk();
    cursor.goto_descendant(i);
    let node = cursor.node();
    (node.start_byte(), node.end_byte(), node.kind().to_string(), node.child_count())
}

/// `m` has the bounds of one of the nodes of `t`: of the root, or of one
/// that starts at or before `byte` and ends at or after it.
pub open spec fn found_among_nodes(t: Tree, m: Node, byte: usize) -> bool {
    exists|i: int|
        0 <= i < tree_nodes(t).len() && #[trigger] tree_nodes(t)[i].0 == node_start(m) && tree_nodes(t)[i].1
            == node_end(m) && (i == 0 || node_start(m) <= byte <= node_end(m))
}

/// `Node::descendant_for_byte_range` on the root with an empty range at
/// `byte`. For an empty range the search starts from the root and always
/// returns a node: the last visible node that it descended to, which is the
/// root or a node that starts at or before `byte` and ends at or after it.
/// Visible nodes are the ones that `tree_nodes` lists, the root first.
#[verifier::external_body]
fn tree_node_at_byte<'t>(t: &'t Tree, byte: usize) -> (n: Option<Node<'t>>)
    ensures
        n == Some(node_at(*t, byte)),
        match n { Some(m) => found_among_nodes(*t, m, byte), None => false },
{
    t.root_node().descendant_for_byte_range(byte, byte)
}

/// `Node::start_byte`.
#[verifier::external_body]
fn node_start_byte(n: &Node) -> (b: usize)
    ensures
        b == node_start(*n),
{
    n.start_byte()
}

/// `Node::end_byte`.
#[verifier::external_body]
fn node_end_byte(n: &Node) -> (b: usize)
    ensures
        b == node_end(*n),
{
    n.end_byte()
}

/// `Node::parent`.
#[verifier::external_body]
fn node_parent<'t>(n: &Node<'t>) -> (p: Option<Node<'t>>)
    ensures
        p == node_up(*n),
{
    n.parent()
}

/// The leaves among tree nodes, as (start byte, end byte, kind).
pub open spec fn leaf_entries(nodes: Seq<(usize, usize, Seq<char>, u32)>) -> Seq<(usize, usize, Seq<char>)>
    decreases nodes.len(),
{
    if nodes.len() == 0 {
        seq![]
    } else {
        let n = nodes.last();
        leaf_entries(nodes.drop_last()) + if n.3 == 0 {
            seq![(n.0, n.1, n.2)]
        } else {
            seq![]
        }
    }
}

/// The highlights are exactly the leaves (nodes without children), each as
/// its bounds and kind: every entry is a leaf of the tree, every leaf gives
/// an entry, and there are no more entries than nodes.
pub proof fn law_highlights_are_the_leaves(nodes: Seq<(usize, usize, Seq<char>, u32)>)
    ensures
        forall|k: int|
            #![trigger leaf_entries(nodes)[k]]
            0 <= k < leaf_entries(nodes).len() ==> exists|i: int|
                #![trigger nodes[i]]
                0 <= i < nodes.len() && is_leaf_entry(leaf_entries(nodes)[k], nodes[i]),
        forall|i: int|
            #![trigger nodes[i]]
            0 <= i < nodes.len() && nodes[i].3 == 0 ==> exists|k: int|
                #![trigger leaf_entries(nodes)[k]]
                0 <= k < leaf_entries(nodes).len() && is_leaf_entry(leaf_entries(nodes)[k], nodes[i]),
        leaf_entries(nodes).len() <= nodes.len(),
    decreases nodes.len(),
{
    if nodes.len() > 0 {
        let init = nodes.drop_last();
        let n = nodes.last();
        law_highlights_are_the_leaves(init);
        let e = leaf_entries(init);
        let tail = if n.3 == 0 {
            seq![(n.0, n.1, n.2)]
        } else {
            seq![]
        };
        assert(leaf_entries(nodes) =~= e + tail);
        assert forall|k: int| #![trigger leaf_entries(nodes)[k]] 0 <= k < leaf_entries(nodes).len() implies exists|i: int|
            #![trigger nodes[i]]
            0 <= i < nodes.len() && is_leaf_entry(leaf_entries(nodes)[k], nodes[i]) by {
            if k < e.len() {
                assert(leaf_entries(nodes)[k] == e[k]);
                let i = choose|i: int| #![trigger init[i]] 0 <= i < init.len() && is_leaf_entry(e[k], init[i]);
                assert(nodes[i] == init[i]);
            } else {
                assert(tail.len() == 1 && n.3 == 0);
                assert(leaf_entries(nodes)[k] == tail[0]);
                assert(nodes[nodes.len() - 1] == n);
                assert(is_leaf_entry(leaf_entries(nodes)[k], nodes[nodes.len() - 1]));
            }
        }
        assert forall|i: int| #![trigger nodes[i]] 0 <= i < nodes.len() && nodes[i].3 == 0 implies exists|k: int|
            #![trigger leaf_entries(nodes)[k]]
            0 <= k < leaf_entries(nodes).len() && is_leaf_entry(leaf_entries(nodes)[k], nodes[i]) by {
            if i < init.len() {
                assert(nodes[i] == init[i]);
                let k = choose|k: int| #![trigger e[k]] 0 <= k < e.len() && is_leaf_entry(e[k], init[i]);
                assert(leaf_entries(nodes)[k] == e[k]);
            } else {
                assert(leaf_entries(nodes)[e.len() as int] == tail[0]);
                assert(is_leaf_entry(leaf_entries(nodes)[e.len() as int], nodes[i]));
            }
        }
    } else {
        assert(leaf_entries(nodes).len() == 0);
    }
}

/// `entry` is the highlight of `node`: the node is a leaf, and the entry
/// has its bounds and kind.
pub open spec fn is_leaf_entry(entry: (usize, usize, Seq<char>), node: (usize, usize, Seq<char>, u32)) -> bool {
    node.3 == 0 && entry.0 == node.0 && entry.1 == node.1 && entry.2 == node.2
}

pub open spec fn highlights_view(h: Seq<(usize, usize, String)>) -> Seq<(usize, usize, Seq<char>)> {
    h.map_values(|e: (usize, usize, String)| (e.0, e.1, e.2@))
}

/// The first character of the text from byte `start` on, and the last one
/// before byte `end`, are `open` and `close`.
pub open spec fn bracketed(bytes: Seq<u8>, start: int, end: int, open: char, close: char) -> bool {
    &&& 0 <= start < end <= bytes.len()
    &&& decode_utf8(bytes.subrange(start, bytes.len() as int)).len() > 0
    &&& decode_utf8(bytes.subrange(start, bytes.len() as int))[0] == open
    &&& decode_utf8(bytes.subrange(0, end)).len() > 0
    &&& decode_utf8(bytes.subrange(0, end)).last() == close
}

/// Whether the text between bytes `start` and `end` starts with `open` and
/// ends with `close`; bounds that fall inside a character do not match.
pub fn node_is_bracketed(start: usize, end: usize, open: char, close: char, text: &str) -> (r: bool)
    ensures
        r == (is_char_boundary(text.spec_bytes(), start as int) && is_char_boundary(text.spec_bytes(), end as int)
            && bracketed(text.spec_bytes(), start as int, end as int, open, close)),
{
    proof {
        encode_utf8_valid_utf8(text@);
    }
    let len = text.as_bytes().len();
    if start < end && end <= len && text.is_char_boundary(start) && text.is_char_boundary(end) {
        let (_, rest) = text.split_at(start);
        let (head, _) = text.split_at(end);
        proof {
            encode_utf8_decode_utf8(rest@);
            encode_utf8_decode_utf8(head@);
            assert(rest.spec_bytes() =~= text.spec_bytes().subrange(start as int, text.spec_bytes().len() as int));
            assert(head.spec_bytes() =~= text.spec_bytes().subrange(0, end as int));
        }
        let rest_len = rest.unicode_len();
        let head_len = head.unicode_len();
        if rest_len > 0 && head_len > 0 {
            let first = rest.get_char(0);
            let last = head.get_char(head_len - 1);
            first == open && last == close
        } else {
            false
        }
    } else {
        false
    }
}

pub struct SyntaxEngine {
    parser: Parser,
    pub tree: Option<Tree>,
    language: Option<Language>,
}

/// The bounds of `n` and of its ancestors, nearest first, up to the root,
/// taking no more than `steps` nodes.
pub open spec fn chain_spans(n: Node, steps: nat) -> Seq<(usize, usize)>
    decreases steps,
{
    if steps == 0 {
        seq![]
    } else {
        seq![(node_start(n), node_end(n))] + match node_up(n) {
            Some(p) => chain_spans(p, (steps - 1) as nat),
            None => seq![],
        }
    }
}

/// The bounds fall on character boundaries of `bytes`, and the text
/// between them starts with `open` and ends with `close`.
pub open spec fn span_matches(span: (usize, usize), open: char, close: char, bytes: Seq<u8>) -> bool {
    &&& is_char_boundary(bytes, span.0 as int)
    &&& is_char_boundary(bytes, span.1 as int)
    &&& bracketed(bytes, span.0 as int, span.1 as int, open, close)
}

/// The first of `spans` that matches, if any.
pub open spec fn first_match(spans: Seq<(usize, usize)>, open: char, close: char, bytes: Seq<u8>) -> Option<
    (usize, usize),
>
    decreases spans.len(),
{
    if spans.len() == 0 {
        None
    } else if span_matches(spans[0], open, close, bytes) {
        Some(spans[0])
    } else {
        first_match(spans.drop_first(), open, close, bytes)
    }
}

proof fn lemma_first_match_matches(spans: Seq<(usize, usize)>, open: char, close: char, bytes: Seq<u8>)
    ensures
        first_match(spans, open, close, bytes) matches Some(x) ==> span_matches(x, open, close, bytes),
    decreases spans.len(),
{
    if spans.len() > 0 && !span_matches(spans[0], open, close, bytes) {
        lemma_first_match_matches(spans.drop_first(), open, close, bytes);
    }
}

/// Of bounds listed nearest first, the one found is the nearest whose text
/// is bracketed by `open` and `close` (with both bounds on character
/// boundaries): every one before it is not; and none is found only when
/// none is. The result is the index of the one found.
pub proof fn law_nearest_bracketed_wins(spans: Seq<(usize, usize)>, open: char, close: char, bytes: Seq<u8>) -> (k: int)
    ensures
        first_match(spans, open, close, bytes) is Some ==> {
            &&& 0 <= k < spans.len()
            &&& first_match(spans, open, close, bytes) == Some(spans[k])
            &&& is_char_boundary(bytes, spans[k].0 as int) && is_char_boundary(bytes, spans[k].1 as int)
                && bracketed(bytes, spans[k].0 as int, spans[k].1 as int, open, close)
            &&& forall|j: int|
                0 <= j < k ==> !(is_char_boundary(bytes, #[trigger] spans[j].0 as int) && is_char_boundary(
                    bytes,
                    spans[j].1 as int,
                ) && bracketed(bytes, spans[j].0 as int, spans[j].1 as int, open, close))
        },
        first_match(spans, open, close, bytes) is None ==> forall|j: int|
            0 <= j < spans.len() ==> !(is_char_boundary(bytes, #[trigger] spans[j].0 as int) && is_char_boundary(
                bytes,
                spans[j].1 as int,
            ) && bracketed(bytes, spans[j].0 as int, spans[j].1 as int, open, close)),
    decreases spans.len(),
{
    if spans.len() == 0 {
        0
    } else if span_matches(spans[0], open, close, bytes) {
        0
    } else {
        let rest = spans.drop_first();
        let k1 = law_nearest_bracketed_wins(rest, open, close, bytes);
        assert forall|j: int| 0 <= j < spans.len() && (first_match(spans, open, close, bytes) is None || j < k1 + 1)
            implies !(is_char_boundary(bytes, #[trigger] spans[j].0 as int) && is_char_boundary(
            bytes,
            spans[j].1 as int,
        ) && bracketed(bytes, spans[j].0 as int, spans[j].1 as int, open, close)) by {
            if j > 0 {
                assert(spans[j] == rest[j - 1]);
            }
        }
        if first_match(spans, open, close, bytes) is Some {
            assert(spans[k1 + 1] == rest[k1]);
        }
        k1 + 1
    }
}

/// The first of `spans` whose text in `text` starts with `open` and ends
/// with `close`; bounds that fall inside a character do not match.
pub fn first_bracketed(spans: &Vec<(usize, usize)>, open: char, close: char, text: &str) -> (r: Option<
    (usize, usize),
>)
    ensures
        r == first_match(spans@, open, close, text.spec_bytes()),
{
    let mut i: usize = 0;
    assert(spans@.skip(0) =~= spans@);
    while i < spans.len()
        invariant
            i <= spans@.len(),
            first_match(spans@.skip(i as int), open, close, text.spec_bytes()) == first_match(
                spans@,
                open,
                close,
                text.spec_bytes(),
            ),
        decreases spans@.len() - i,
    {
        let (start, end) = spans[i];
        let ghost rest = spans@.skip(i as int);
        assert(rest[0] == (start, end));
        assert(rest.drop_first() =~= spans@.skip(i + 1));
        if node_is_bracketed(start, end, open, close, text) {
            return Some((start, end));
        }
        i = i + 1;
    }
    assert(spans@.skip(i as int) =~= Seq::<(usize, usize)>::empty());
    None
}

impl SyntaxEngine {
    pub fn new() -> (e: Self)
        ensures
            e.current_tree() is None,
            e.current_language() is None,
            e.parser_lang() is None,
    {
        SyntaxEngine { parser: parser_new(), tree: None, language: None }
    }

    /// The language set, if any.
    pub closed spec fn current_language(&self) -> Option<Language> {
        self.language
    }

    /// The tree of the last parse, if any.
    pub closed spec fn current_tree(&self) -> Option<Tree> {
        self.tree
    }

    /// The language that the parser holds, if any.
    pub closed spec fn parser_lang(&self) -> Option<Language> {
        parser_language(self.parser)
    }

    /// Sets the language found for a file extension, or none when there is
    /// none. The parser must take the language.
    pub fn set_language(&mut self, language: Option<Language>)
        requires
            language matches Some(l) ==> parser_accepts(l),
        ensures
            final(self).current_language() == language,
            language is Some ==> final(self).parser_lang() == language,
            language is None ==> final(self).parser_lang() == old(self).parser_lang(),
            final(self).current_tree() == old(self).current_tree(),
    {
        match language {
            Some(l) => {
                let _taken = parser_set_language(&mut self.parser, &l);
                self.language = Some(l);
            },
            None => {
                self.language = None;
            },
        }
    }

    /// Whether the parser takes `language`: its ABI version is one that
    /// this tree-sitter reads, and it can be used for parsing.
    pub fn language_accepted(language: &Language) -> (b: bool)
        ensures
            b == parser_accepts(*language),
    {
        let v = language_abi_version(language);
        13 <= v && v <= 15 && language_is_parseable(language)
    }

    /// Sets `language` when the parser takes it (or when it is none), and
    /// says whether it did; otherwise nothing changes.
    pub fn try_set_language(&mut self, language: Option<Language>) -> (set: bool)
        ensures
            set == (language matches Some(l) ==> parser_accepts(l)),
            set ==> final(self).current_language() == language,
            set && language is Some ==> final(self).parser_lang() == language,
            !set || language is None ==> final(self).parser_lang() == old(self).parser_lang(),
            !set ==> final(self).current_language() == old(self).current_language(),
            final(self).current_tree() == old(self).current_tree(),
    {
        let accepted = match &language {
            Some(l) => Self::language_accepted(l),
            None => true,
        };
        if accepted {
            self.set_language(language);
        }
        accepted
    }

    /// Replaces the tree.
    pub fn set_tree(&mut self, tree: Option<Tree>)
        ensures
            final(self).current_tree() == tree,
            final(self).current_language() == old(self).current_language(),
            final(self).parser_lang() == old(self).parser_lang(),
    {
        self.tree = tree;
    }

    /// Parses `text` with the language set, reusing the previous tree, and
    /// keeps the parser's result as the tree; does nothing without a
    /// language.
    pub fn parse(&mut self, text: &str)
        ensures
            old(self).current_language() is None ==> final(self).current_tree() == old(self).current_tree(),
            old(self).current_language() is Some ==> final(self).current_tree() == parsed(
                old(self).parser_lang(),
                text@,
                old(self).current_tree(),
            ),
            final(self).current_language() == old(self).current_language(),
            final(self).parser_lang() == old(self).parser_lang(),
    {
        if self.language.is_some() {
            let tree = parser_parse(&mut self.parser, text, &self.tree);
            self.set_tree(tree);
        }
    }

    /// The leaves of the tree in document order, as (start byte, end byte,
    /// kind); nothing without a tree.
    pub fn get_highlights(&self) -> (h: Vec<(usize, usize, String)>)
        ensures
            highlights_view(h@) == match self.current_tree() {
                Some(t) => leaf_entries(tree_nodes(t)),
                None => Seq::empty(),
            },
    {
        let mut highlights: Vec<(usize, usize, String)> = Vec::new();
        match &self.tree {
            Some(tree) => {
                let count = tree_node_count(tree);
                let ghost nodes = tree_nodes(*tree);
                let mut i: usize = 0;
                while i < count
                    invariant
                        i <= count,
                        count == nodes.len(),
                        nodes == tree_nodes(*tree),
                        highlights_view(highlights@) == leaf_entries(nodes.take(i as int)),
                    decreases count - i,
                {
                    let info = tree_node(tree, i);
                    let ghost before = highlights@;
                    proof {
                        assert(nodes.take(i + 1).drop_last() =~= nodes.take(i as int));
                        assert(nodes.take(i + 1).last() == nodes[i as int]);
                    }
                    if info.3 == 0 {
                        highlights.push((info.0, info.1, info.2));
                        assert(highlights_view(highlights@) =~= highlights_view(before).push(
                            (info.0, info.1, info.2@),
                        ));
                    } else {
                        assert(highlights_view(highlights@) =~= highlights_view(before));
                    }
                    assert(highlights_view(highlights@) =~= leaf_entries(nodes.take(i + 1)));
                    i = i + 1;
                }
                assert(nodes.take(count as int) =~= nodes);
            },
            None => {
                assert(highlights_view(highlights@) =~= Seq::<(usize, usize, Seq<char>)>::empty());
            },
        }
        highlights
    }

    /// The bounds of the smallest node that spans `byte_idx`, as
    /// `Node::descendant_for_byte_range` finds it from the root; nothing
    /// without a tree. With a tree there always is such a node, and its
    /// bounds are those of one of the tree's nodes.
    pub fn get_node_at_byte(&self, byte_idx: usize) -> (r: Option<(usize, usize)>)
        ensures
            r == match self.current_tree() {
                Some(t) => Some((node_start(node_at(t, byte_idx)), node_end(node_at(t, byte_idx)))),
                None => None,
            },
            self.current_tree() matches Some(t) ==> found_among_nodes(t, node_at(t, byte_idx), byte_idx),
    {
        match &self.tree {
            Some(tree) => match tree_node_at_byte(tree, byte_idx) {
                Some(node) => Some((node_start_byte(&node), node_end_byte(&node))),
                None => None,
            },
            None => None,
        }
    }

    /// The bounds of the smallest node around `byte_idx`, itself or an
    /// ancestor, whose text starts with `start_char` and ends with
    /// `end_char`; nothing without a tree or when no such node is found. A
    /// node whose bounds fall inside a character of `text` does not match.
    /// The walk up takes no more nodes than the tree has, which no chain of
    /// ancestors exceeds.
    pub fn get_enclosing_bounds(&self, byte_idx: usize, start_char: char, end_char: char, text: &str) -> (r: Option<
        (usize, usize),
    >)
        ensures
            r == match self.current_tree() {
                Some(t) => first_match(
                    chain_spans(node_at(t, byte_idx), tree_nodes(t).len()),
                    start_char,
                    end_char,
                    text.spec_bytes(),
                ),
                None => None,
            },
            r matches Some((s, e)) ==> bracketed(text.spec_bytes(), s as int, e as int, start_char, end_char),
    {
        let tree = match &self.tree {
            Some(t) => t,
            None => return None,
        };
        let limit = tree_node_count(tree);
        let mut node = match tree_node_at_byte(tree, byte_idx) {
            Some(n) => n,
            None => return None,
        };
        let ghost full = chain_spans(node, limit as nat);
        let mut spans: Vec<(usize, usize)> = Vec::new();
        let mut steps: usize = 0;
        let mut at_root = false;
        while steps < limit && !at_root
            invariant
                steps <= limit,
                !at_root ==> spans@ + chain_spans(node, (limit - steps) as nat) == full,
                at_root ==> spans@ == full,
            decreases limit - steps,
        {
            let ghost before = spans@;
            let ghost here = chain_spans(node, (limit - steps) as nat);
            let start = node_start_byte(&node);
            let end = node_end_byte(&node);
            spans.push((start, end));
            match node_parent(&node) {
                Some(parent) => {
                    assert(here == seq![(start, end)] + chain_spans(parent, (limit - steps - 1) as nat));
                    node = parent;
                    assert(spans@ + chain_spans(node, (limit - steps - 1) as nat) =~= before + here);
                },
                None => {
                    assert(here =~= seq![(start, end)]);
                    at_root = true;
                    assert(spans@ =~= before + here);
                },
            }
            steps = steps + 1;
        }
        proof {
            if !at_root {
                assert(spans@ + Seq::<(usize, usize)>::empty() =~= spans@);
            }
            lemma_first_match_matches(spans@, start_char, end_char, text.spec_bytes());
        }
        first_bracketed(&spans, start_char, end_char, text)
    }
}

} // verus!
