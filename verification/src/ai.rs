//! The assistant: turns a request in natural language into a structural
//! command.

use vstd::prelude::*;
use crate::text::{contains_str, has_substring, to_lowercase, unicode_lowercase};

verus! {

pub enum AiRequest {
    ProcessCommand(String),
}

pub enum AiResponse {
    Command(String),
    Error(String),
}

/// The command that a lowercased request asks for: deleting a word or a
/// line, or changing a word; moving one character right otherwise.
pub open spec fn spec_command_for(q: Seq<char>) -> Seq<char> {
    if has_substring(q, "delete"@) && has_substring(q, "word"@) {
        "daw"@
    } else if has_substring(q, "delete"@) && has_substring(q, "line"@) {
        "dd"@
    } else if has_substring(q, "change"@) && has_substring(q, "word"@) {
        "ciw"@
    } else {
        "l"@
    }
}

/// The structural command for a request, read without regard to case.
pub fn infer_command(query: &str) -> (cmd: String)
    ensures
        cmd@ == spec_command_for(unicode_lowercase(query@)),
{
    let lower = to_lowercase(query);
    let q = lower.as_str();
    if contains_str(q, "delete") && contains_str(q, "word") {
        String::from_str("daw")
    } else if contains_str(q, "delete") && contains_str(q, "line") {
        String::from_str("dd")
    } else if contains_str(q, "change") && contains_str(q, "word") {
        String::from_str("ciw")
    } else {
        String::from_str("l")
    }
}

/// The assistant's answer to a request: always a command.
pub fn respond(request: AiRequest) -> (response: AiResponse)
    ensures
        match (request, response) {
            (AiRequest::ProcessCommand(q), AiResponse::Command(c)) => c@ == spec_command_for(
                unicode_lowercase(q@),
            ),
            _ => false,
        },
{
    match request {
        AiRequest::ProcessCommand(query) => AiResponse::Command(infer_command(query.as_str())),
    }
}

/// What the assistant answers tells what the request asked for: it deletes
/// only when asked to delete (a line only when a line is named, a word only
/// when a word is), changes a word only when asked to change a word, and
/// otherwise moves right; and it moves right only when no such request is
/// made. Stated over the lowercased request.
pub proof fn law_commands_answer_what_was_asked(q: Seq<char>)
    ensures
        spec_command_for(q) == "dd"@ || spec_command_for(q) == "daw"@ || spec_command_for(q) == "ciw"@
            || spec_command_for(q) == "l"@,
        spec_command_for(q) == "dd"@ ==> has_substring(q, "delete"@) && has_substring(q, "line"@),
        spec_command_for(q) == "daw"@ ==> has_substring(q, "delete"@) && has_substring(q, "word"@),
        spec_command_for(q) == "ciw"@ ==> has_substring(q, "change"@) && has_substring(q, "word"@),
        !has_substring(q, "delete"@) ==> spec_command_for(q) != "dd"@ && spec_command_for(q) != "daw"@,
        spec_command_for(q) == "l"@ <==> !(has_substring(q, "delete"@) && (has_substring(q, "word"@)
            || has_substring(q, "line"@))) && !(has_substring(q, "change"@) && has_substring(q, "word"@)),
{
    reveal_strlit("dd");
    reveal_strlit("daw");
    reveal_strlit("ciw");
    reveal_strlit("l");
    assert("dd"@.len() == 2 && "daw"@.len() == 3 && "ciw"@.len() == 3 && "l"@.len() == 1);
    assert("daw"@[0] != "ciw"@[0]);
}

} // verus!
