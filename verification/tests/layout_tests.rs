use vimtelligence::editor::Mode;
use vimtelligence::layout::{
    classify_kind, cursor_position, gui_color, keyshow_hint, layout_lines, layout_with_cursor, mode_label, scroll_offset,
    GuiSpan, HighlightClass, HintStyle, ModeColor, Span,
};

fn sp(start: usize, end: usize, class: HighlightClass) -> Span {
    Span { start, end, class }
}

#[test]
fn kinds_map_to_classes() {
    assert_eq!(classify_kind("fn"), HighlightClass::Keyword);
    assert_eq!(classify_kind("string_literal"), HighlightClass::Str);
    assert_eq!(classify_kind("integer_literal"), HighlightClass::Number);
    assert_eq!(classify_kind("line_comment"), HighlightClass::Comment);
    assert_eq!(classify_kind("identifier"), HighlightClass::Function);
    assert_eq!(classify_kind("primitive_type"), HighlightClass::Type);
    assert_eq!(classify_kind(";"), HighlightClass::Punctuation);
    assert_eq!(classify_kind("punctuation.bracket"), HighlightClass::Punctuation);
    assert_eq!(classify_kind("ERROR"), HighlightClass::Plain);
}

#[test]
fn plain_text_is_split_into_lines() {
    let lines = layout_lines("ab\ncd".as_bytes(), &vec![]);
    assert_eq!(lines, vec![vec![sp(0, 2, HighlightClass::Plain)], vec![sp(3, 5, HighlightClass::Plain)]]);
}

#[test]
fn empty_text_is_one_empty_line() {
    let lines = layout_lines("".as_bytes(), &vec![]);
    assert_eq!(lines, vec![Vec::<Span>::new()]);
}

#[test]
fn trailing_line_feed_makes_an_empty_last_line() {
    let lines = layout_lines("a\n".as_bytes(), &vec![]);
    assert_eq!(lines, vec![vec![sp(0, 1, HighlightClass::Plain)], vec![]]);
}

#[test]
fn highlights_and_gaps() {
    let text = "fn main() {}";
    let hs = vec![(0, 2, "fn".to_string()), (3, 7, "identifier".to_string()), (7, 8, "(".to_string())];
    let lines = layout_lines(text.as_bytes(), &hs);
    assert_eq!(
        lines,
        vec![vec![
            sp(0, 2, HighlightClass::Keyword),
            sp(2, 3, HighlightClass::Plain),
            sp(3, 7, HighlightClass::Function),
            sp(7, 8, HighlightClass::Punctuation),
            sp(8, 12, HighlightClass::Plain),
        ]]
    );
}

#[test]
fn highlight_across_a_line_feed_is_split() {
    let text = "/*a\nb*/";
    let hs = vec![(0, 7, "block_comment".to_string())];
    let lines = layout_lines(text.as_bytes(), &hs);
    assert_eq!(lines, vec![vec![sp(0, 3, HighlightClass::Comment)], vec![sp(4, 7, HighlightClass::Comment)]]);
}

#[test]
fn highlights_past_the_end_are_clamped() {
    let lines = layout_lines("abc".as_bytes(), &vec![(1, 99, "number".to_string())]);
    assert_eq!(lines, vec![vec![sp(0, 1, HighlightClass::Plain), sp(1, 3, HighlightClass::Number)]]);
}

#[test]
fn scroll_keeps_the_cursor_row_visible() {
    assert_eq!(scroll_offset(3, 10), 0);
    assert_eq!(scroll_offset(8, 10), 0);
    assert_eq!(scroll_offset(9, 10), 3);
    assert_eq!(scroll_offset(5, 1), 7);
}

#[test]
fn cursor_sits_inside_the_border() {
    assert_eq!(cursor_position(Mode::Normal, 2, 4, 0), Some((5, 3)));
    assert_eq!(cursor_position(Mode::Insert, 9, 0, 3), Some((1, 7)));
    assert_eq!(cursor_position(Mode::Normal, 1, 0, 5), Some((1, 1)));
    assert_eq!(cursor_position(Mode::EzMode, 2, 4, 0), None);
}

#[test]
fn hints_and_labels() {
    assert_eq!(keyshow_hint(Mode::Normal, false), (HintStyle::Quiet, ""));
    assert_eq!(keyshow_hint(Mode::Insert, true).0, HintStyle::CommandPending);
    assert!(keyshow_hint(Mode::Insert, false).1.starts_with(" [Insert] Type freely"));
    assert_eq!(keyshow_hint(Mode::EzMode, false).0, HintStyle::Assistant);
    assert_eq!(keyshow_hint(Mode::PendingMotion, false).0, HintStyle::Pending);
    assert_eq!(mode_label(Mode::Normal), (ModeColor::Blue, " NORMAL "));
    assert_eq!(mode_label(Mode::Insert), (ModeColor::Green, " INSERT "));
    assert_eq!(mode_label(Mode::PendingMotion), (ModeColor::Cyan, " PENDING "));
    assert_eq!(mode_label(Mode::EzMode), (ModeColor::Magenta, " EZ MODE "));
}

#[test]
fn gui_colors_by_theme() {
    assert_eq!(gui_color(HighlightClass::Keyword, true), Some((198, 120, 221)));
    assert_eq!(gui_color(HighlightClass::Keyword, false), Some((166, 38, 164)));
    assert_eq!(gui_color(HighlightClass::Type, false), Some((193, 132, 1)));
    assert_eq!(gui_color(HighlightClass::Plain, true), None);
}

#[test]
fn a_highlight_inside_one_already_drawn_draws_nothing_again() {
    let hs = vec![(0, 5, "fn".to_string()), (2, 3, "identifier".to_string())];
    let lines = layout_lines("abcdefgh".as_bytes(), &hs);
    assert_eq!(lines, vec![vec![sp(0, 5, HighlightClass::Keyword), sp(5, 8, HighlightClass::Plain)]]);
    let shown: usize = lines.iter().flatten().map(|s| s.end - s.start).sum();
    assert_eq!(shown, 8);
}

fn gs(start: usize, end: usize, class: HighlightClass, cursor: bool) -> GuiSpan {
    GuiSpan { start, end, class, cursor }
}

#[test]
fn the_cursor_character_is_cut_out_of_its_piece() {
    let p = layout_with_cursor("abc", &vec![], 1);
    assert_eq!(
        p,
        vec![
            gs(0, 1, HighlightClass::Plain, false),
            gs(1, 2, HighlightClass::Plain, true),
            gs(2, 3, HighlightClass::Plain, false),
        ]
    );
}

#[test]
fn the_cursor_past_the_text_is_a_blank_block() {
    let p = layout_with_cursor("abc", &vec![], 3);
    assert_eq!(p, vec![gs(0, 3, HighlightClass::Plain, false), gs(3, 3, HighlightClass::Plain, true)]);
    let p = layout_with_cursor("", &vec![], 0);
    assert_eq!(p, vec![gs(0, 0, HighlightClass::Plain, true)]);
}

#[test]
fn the_cursor_covers_a_whole_multibyte_character() {
    let p = layout_with_cursor("a\u{e9}b", &vec![], 1);
    assert_eq!(
        p,
        vec![
            gs(0, 1, HighlightClass::Plain, false),
            gs(1, 3, HighlightClass::Plain, true),
            gs(3, 4, HighlightClass::Plain, false),
        ]
    );
}

#[test]
fn the_cursor_keeps_the_class_of_its_highlight() {
    let hs = vec![(0, 2, "fn".to_string()), (3, 7, "identifier".to_string())];
    let p = layout_with_cursor("fn main", &hs, 3);
    assert_eq!(
        p,
        vec![
            gs(0, 2, HighlightClass::Keyword, false),
            gs(2, 3, HighlightClass::Plain, false),
            gs(3, 4, HighlightClass::Function, true),
            gs(4, 7, HighlightClass::Function, false),
        ]
    );
}

#[test]
fn joined_lines_give_back_the_text() {
    let text = "fn a() {\n    b;\n}\n";
    let hs = vec![
        (0, 2, "fn".to_string()),
        (3, 4, "identifier".to_string()),
        (1, 3, "identifier".to_string()),
        (7, 12, "{".to_string()),
        (13, 14, "identifier".to_string()),
        (30, 40, "comment".to_string()),
    ];
    let lines = layout_lines(text.as_bytes(), &hs);
    let shown: Vec<String> = lines
        .iter()
        .map(|l| l.iter().map(|s| &text[s.start..s.end]).collect::<String>())
        .collect();
    assert_eq!(shown.join("\n"), text);
}
