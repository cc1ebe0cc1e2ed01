//! Asking questions on a terminal.
//!
//! A keyboard shortcut starts a command with no terminal attached, and a
//! question nobody can see must not be answered by an end of input that reads
//! as "yes". So a question is only asked where someone can see it, and only
//! words that were typed answer it.

use vstd::prelude::*;

use crate::text::{cat2, cat4, lowercase, same, trim_str, trimmed};
use crate::types::opt_str;

verus! {

#[derive(Debug, PartialEq, Eq)]
pub enum PromptError {
    NotATerminal,
    EndOfInput,
    Io(String),
}

pub open spec fn prompt_error_text(e: PromptError) -> Seq<char> {
    match e {
        PromptError::NotATerminal => "this command needs an interactive terminal, but stdin is not one. Run it from a shell rather than from a shortcut."@,
        PromptError::EndOfInput => "input ended before the question was answered"@,
        PromptError::Io(detail) => "could not read from the terminal: "@ + detail@,
    }
}

impl PromptError {
    pub fn to_string(&self) -> (r: String)
        ensures
            r@ == prompt_error_text(*self),
    {
        match self {
            PromptError::NotATerminal => "this command needs an interactive terminal, but stdin is not one. Run it from a shell rather than from a shortcut.".to_owned(),
            PromptError::EndOfInput => "input ended before the question was answered".to_owned(),
            PromptError::Io(detail) => cat2("could not read from the terminal: ", detail.as_str()),
        }
    }
}

/// The words of a line that was read, or that there was none: a read of no
/// bytes at all is the end of the input, not an empty answer.
pub fn line_read(bytes: usize, text: &str) -> (r: Result<String, PromptError>)
    ensures
        match r {
            Ok(line) => bytes > 0 && line@ == trimmed(text@),
            Err(e) => bytes == 0 && e is EndOfInput,
        },
{
    if bytes == 0 {
        Err(PromptError::EndOfInput)
    } else {
        Ok(trim_str(text))
    }
}

/// A question with its suggestion in brackets.
pub fn ask_text(question: &str, default: Option<&str>) -> (r: String)
    ensures
        r@ == match opt_str(default) {
            Some(d) => question@ + " ["@ + d + "]: "@,
            None => question@ + ": "@,
        },
{
    match default {
        Some(d) => cat4(question, " [", d, "]: "),
        None => cat2(question, ": "),
    }
}

pub open spec fn text_of(o: Option<String>) -> Option<Seq<char>> {
    match o {
        Some(s) => Some(s@),
        None => None,
    }
}

/// What a line answers: itself, or the suggestion where it is empty. Nothing
/// where there is neither, and the question is asked again.
pub fn answer_to(line: &str, default: Option<&str>) -> (r: Option<String>)
    ensures
        text_of(r) == if line@.len() > 0 {
            Some(line@)
        } else {
            opt_str(default)
        },
{
    if line.unicode_len() > 0 {
        return Some(line.to_owned());
    }
    match default {
        Some(d) => Some(d.to_owned()),
        None => None,
    }
}

pub fn confirm_text(question: &str) -> (r: String)
    ensures
        r@ == question@ + " (yes/no): "@,
{
    cat2(question, " (yes/no): ")
}

/// What a lower-case line says to a question of yes or no.
pub open spec fn yes_or_no(line: Seq<char>) -> Option<bool> {
    if line == "y"@ || line == "yes"@ {
        Some(true)
    } else if line == "n"@ || line == "no"@ {
        Some(false)
    } else {
        None
    }
}

/// What a lower-case line says to a question of yes or no. There is no
/// default: silence is not consent.
pub fn said_yes_or_no(line: &str) -> (r: Option<bool>)
    ensures
        r == yes_or_no(line@),
{
    if same(line, "y") || same(line, "yes") {
        Some(true)
    } else if same(line, "n") || same(line, "no") {
        Some(false)
    } else {
        None
    }
}

/// What a line says to a question of yes or no, whatever its case. Nothing
/// where it says neither, and the question is asked again.
pub fn consent(line: &str) -> (r: Option<bool>)
    ensures
        r == yes_or_no(lowercase(line@)),
{
    let lower = line.to_lowercase();
    said_yes_or_no(lower.as_str())
}

/// Silence is not consent: only `y` and `yes` count as a yes, and an empty
/// answer is no answer at all.
pub proof fn law_silence_is_not_consent(line: Seq<char>)
    ensures
        yes_or_no(line) == Some(true) <==> line == "y"@ || line == "yes"@,
        line.len() == 0 ==> yes_or_no(line) is None,
{
    reveal_strlit("y");
    reveal_strlit("yes");
    reveal_strlit("n");
    reveal_strlit("no");
    assert("y"@.len() == 1);
    assert("yes"@.len() == 3);
    assert("n"@.len() == 1);
    assert("no"@.len() == 2);
}

/// A question is answered by yes or no, in full or by the first letter, and by
/// nothing else.
pub proof fn law_only_yes_and_no_are_answers(line: Seq<char>)
    ensures
        yes_or_no(line) == Some(true) <==> line == seq!['y'] || line == seq!['y', 'e', 's'],
        yes_or_no(line) == Some(false) <==> line == seq!['n'] || line == seq!['n', 'o'],
{
    reveal_strlit("y");
    reveal_strlit("yes");
    reveal_strlit("n");
    reveal_strlit("no");
    assert("y"@ =~= seq!['y']);
    assert("yes"@ =~= seq!['y', 'e', 's']);
    assert("n"@ =~= seq!['n']);
    assert("no"@ =~= seq!['n', 'o']);
    assert(seq!['y'].len() == 1 && seq!['y', 'e', 's'].len() == 3);
    assert(seq!['n'].len() == 1 && seq!['n', 'o'].len() == 2);
    assert(seq!['y'][0] != seq!['n'][0]);
}

} // verus!
