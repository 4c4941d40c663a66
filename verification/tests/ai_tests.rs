use vimtelligence::ai::{infer_command, respond, AiRequest, AiResponse};

#[test]
fn delete_word_becomes_daw() {
    assert_eq!(infer_command("Please DELETE this Word"), "daw");
}

#[test]
fn delete_line_becomes_dd() {
    assert_eq!(infer_command("delete the current line"), "dd");
}

#[test]
fn change_word_becomes_ciw() {
    assert_eq!(infer_command("Change that word"), "ciw");
}

#[test]
fn anything_else_moves_right() {
    assert_eq!(infer_command("hello"), "l");
    assert_eq!(infer_command(""), "l");
    assert_eq!(infer_command("delete"), "l");
}

#[test]
fn lowercasing_is_unicode_aware() {
    assert_eq!(infer_command("DELETE WORD\u{130}"), "daw");
}

#[test]
fn respond_always_answers_with_a_command() {
    match respond(AiRequest::ProcessCommand("delete line".to_string())) {
        AiResponse::Command(c) => assert_eq!(c, "dd"),
        AiResponse::Error(_) => panic!("no error expected"),
    }
}
