use vimtelligence::syntax::{first_bracketed, node_is_bracketed, SyntaxEngine};
use vimtelligence::text::{contains_str, str_eq, string_of};

#[test]
fn engine_without_tree_has_no_highlights() {
    let mut e = SyntaxEngine::new();
    e.parse("fn main() {}");
    assert!(e.tree.is_none());
    assert!(e.get_highlights().is_empty());
    assert_eq!(e.get_node_at_byte(0), None);
    assert_eq!(e.get_enclosing_bounds(0, '(', ')', "()"), None);
}

#[test]
fn clearing_the_language_succeeds() {
    let mut e = SyntaxEngine::new();
    e.set_language(None);
    assert!(e.try_set_language(None));
    e.parse("fn main() {}");
    assert!(e.tree.is_none());
}

#[test]
fn replacing_the_tree() {
    let mut e = SyntaxEngine::new();
    e.set_tree(None);
    assert!(e.tree.is_none());
    assert_eq!(e.get_node_at_byte(3), None);
}

#[test]
fn first_bracketed_span_is_chosen() {
    let text = "f(a, [b])";
    // Nearest first: the identifier, the list, the argument list, the call.
    let chain = vec![(6, 7), (5, 8), (1, 9), (0, 9)];
    assert_eq!(first_bracketed(&chain, '[', ']', text), Some((5, 8)));
    assert_eq!(first_bracketed(&chain, '(', ')', text), Some((1, 9)));
    assert_eq!(first_bracketed(&chain, '{', '}', text), None);
    assert_eq!(first_bracketed(&vec![], '(', ')', text), None);
    // Bounds past the text, or empty, do not match.
    assert_eq!(first_bracketed(&vec![(1, 20), (3, 3)], '(', ')', text), None);
}

#[test]
fn text_helpers() {
    assert!(contains_str("hello world", "o w"));
    assert!(contains_str("abc", ""));
    assert!(!contains_str("ab", "abc"));
    assert!(str_eq("héllo", "héllo"));
    assert!(!str_eq("a", "b"));
    assert_eq!(string_of(&['a', 'b', 'c'], 1), "bc");
}

#[test]
fn bracketed_ranges() {
    assert!(node_is_bracketed(0, 2, '(', ')', "()"));
    assert!(node_is_bracketed(1, 4, '(', ')', "f(a)"));
    assert!(node_is_bracketed(0, 4, '\u{e9}', ')', "\u{e9}a)"));
    assert!(!node_is_bracketed(1, 4, '(', ')', "\u{e9}a)"));
    assert!(!node_is_bracketed(2, 2, '(', ')', "f(a)"));
    assert!(!node_is_bracketed(1, 9, '(', ')', "f(a)"));
    assert!(!node_is_bracketed(0, 4, '(', ')', "f(a)"));
}
