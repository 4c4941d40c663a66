use vimtelligence::parser::{parse_command, Action, Motion, Operator, ParseResult, TextObject, VimCommand};

fn complete(count: usize, operator: Option<Operator>, action: Action) -> ParseResult {
    ParseResult::Complete(VimCommand { count, operator, action })
}

#[test]
fn empty_input_is_incomplete() {
    assert_eq!(parse_command(""), ParseResult::Incomplete);
}

#[test]
fn count_alone_is_incomplete() {
    assert_eq!(parse_command("3"), ParseResult::Incomplete);
    assert_eq!(parse_command("12"), ParseResult::Incomplete);
}

#[test]
fn operator_alone_is_incomplete() {
    assert_eq!(parse_command("d"), ParseResult::Incomplete);
    assert_eq!(parse_command("2c"), ParseResult::Incomplete);
}

#[test]
fn doubled_operator_is_a_line_command() {
    assert_eq!(parse_command("dd"), complete(1, Some(Operator::Delete), Action::Line));
    assert_eq!(parse_command("cc"), complete(1, Some(Operator::Change), Action::Line));
    assert_eq!(parse_command("5yy"), complete(5, Some(Operator::Yank), Action::Line));
}

#[test]
fn counted_operator_with_motion() {
    assert_eq!(parse_command("3dw"), complete(3, Some(Operator::Delete), Action::Motion(Motion::WordForward)));
    assert_eq!(parse_command("10j"), complete(10, None, Action::Motion(Motion::Down)));
}

#[test]
fn zero_is_a_motion_not_a_count() {
    assert_eq!(parse_command("0"), complete(1, None, Action::Motion(Motion::StartOfLine)));
    assert_eq!(parse_command("d0"), complete(1, Some(Operator::Delete), Action::Motion(Motion::StartOfLine)));
}

#[test]
fn text_objects_inside_and_around() {
    assert_eq!(parse_command("ciw"), complete(1, Some(Operator::Change), Action::Inside(TextObject::Word)));
    assert_eq!(parse_command("daw"), complete(1, Some(Operator::Delete), Action::Around(TextObject::Word)));
    assert_eq!(parse_command("di)"), complete(1, Some(Operator::Delete), Action::Inside(TextObject::Parentheses)));
    assert_eq!(parse_command("ya{"), complete(1, Some(Operator::Yank), Action::Around(TextObject::Braces)));
    assert_eq!(parse_command("diq"), ParseResult::Invalid);
    assert_eq!(parse_command("di"), ParseResult::Incomplete);
}

#[test]
fn text_object_without_operator_is_invalid() {
    assert_eq!(parse_command("iw"), ParseResult::Invalid);
    assert_eq!(parse_command("a"), ParseResult::Invalid);
}

#[test]
fn gg_and_find_motions() {
    assert_eq!(parse_command("gg"), complete(1, None, Action::Motion(Motion::Top)));
    assert_eq!(parse_command("g"), ParseResult::Incomplete);
    assert_eq!(parse_command("gx"), ParseResult::Invalid);
    assert_eq!(parse_command("fa"), complete(1, None, Action::Motion(Motion::FindChar('a'))));
    assert_eq!(parse_command("Fa"), complete(1, None, Action::Motion(Motion::FindChar('a'))));
    assert_eq!(parse_command("dta"), complete(1, Some(Operator::Delete), Action::Motion(Motion::TillChar('a'))));
    assert_eq!(parse_command("Ta"), complete(1, None, Action::Motion(Motion::TillChar('a'))));
    assert_eq!(parse_command("3cTx"), complete(3, Some(Operator::Change), Action::Motion(Motion::TillChar('x'))));
    assert_eq!(parse_command("t"), ParseResult::Incomplete);
}

#[test]
fn single_letter_commands() {
    assert_eq!(parse_command("v"), complete(1, Some(Operator::Visual), Action::Motion(Motion::Right)));
    assert_eq!(parse_command("V"), complete(1, Some(Operator::VisualLine), Action::Motion(Motion::Right)));
    assert_eq!(parse_command("2D"), complete(2, Some(Operator::Delete), Action::Motion(Motion::EndOfLine)));
    assert_eq!(parse_command("C"), complete(1, Some(Operator::Change), Action::Motion(Motion::EndOfLine)));
    assert_eq!(parse_command("x"), ParseResult::Invalid);
    assert_eq!(parse_command("dz"), ParseResult::Invalid);
}

#[test]
fn all_simple_motions() {
    let cases = [
        ("h", Motion::Left),
        ("l", Motion::Right),
        ("k", Motion::Up),
        ("W", Motion::BigWordForward),
        ("b", Motion::WordBackward),
        ("B", Motion::BigWordBackward),
        ("e", Motion::WordEnd),
        ("E", Motion::BigWordEnd),
        ("$", Motion::EndOfLine),
        ("^", Motion::FirstNonBlank),
        ("G", Motion::Bottom),
    ];
    for (text, motion) in cases {
        assert_eq!(parse_command(text), complete(1, None, Action::Motion(motion)));
    }
}

#[test]
fn count_too_large_falls_back_to_one() {
    assert_eq!(
        parse_command("999999999999999999999999w"),
        complete(1, None, Action::Motion(Motion::WordForward))
    );
    assert_eq!(
        parse_command("18446744073709551615w"),
        complete(18446744073709551615, None, Action::Motion(Motion::WordForward))
    );
}

#[test]
fn trailing_characters_after_a_command_are_ignored() {
    assert_eq!(parse_command("dwxyz"), parse_command("dw"));
    assert_eq!(parse_command("ciwabc"), parse_command("ciw"));
    assert_eq!(parse_command("3ggq"), parse_command("3gg"));
}

#[test]
fn invalid_stays_invalid_whatever_follows() {
    assert_eq!(parse_command("dx"), ParseResult::Invalid);
    assert_eq!(parse_command("dxw"), ParseResult::Invalid);
    assert_eq!(parse_command("iw"), ParseResult::Invalid);
    assert_eq!(parse_command("iwdd"), ParseResult::Invalid);
    assert_eq!(parse_command("gx"), ParseResult::Invalid);
    assert_eq!(parse_command("gx0"), ParseResult::Invalid);
}

#[test]
fn complete_stays_complete_whatever_follows() {
    assert_eq!(parse_command("dd"), parse_command("ddxyz"));
    assert_eq!(parse_command("3w"), parse_command("3w2"));
    assert_eq!(parse_command("ciw"), parse_command("ciw "));
}

#[test]
fn capital_d_and_c_reach_the_end_of_the_line() {
    for p in ["", "2", "17", "0"] {
        assert_eq!(parse_command(&format!("{}D", p)), parse_command(&format!("{}d$", p)));
        assert_eq!(parse_command(&format!("{}C", p)), parse_command(&format!("{}c$", p)));
    }
    assert_eq!(parse_command("2D"), complete(2, Some(Operator::Delete), Action::Motion(Motion::EndOfLine)));
    assert_eq!(parse_command("C"), complete(1, Some(Operator::Change), Action::Motion(Motion::EndOfLine)));
    assert_eq!(parse_command("0D"), complete(1, None, Action::Motion(Motion::StartOfLine)));
}
