//! The text that describes a syntax error.

use crate::ascii::{ascii_between, lemma_ascii_prefix};
use crate::engine::SyntaxError;
use crate::grammar::{Failure, Rule};
use pest::error::{Error, ErrorVariant};
use pest::Position;
use vstd::prelude::*;
use vstd::string::StringExecFns;
use vstd::utf8::{encode_utf8, is_char_boundary};

verus! {

/// The text in which `pest` displays a parsing error on `input` at the byte
/// `offset`, with the rules `expected` as what it calls the positives: the
/// line and column, the line itself with a mark under the column, and the
/// names of the rules.
pub uninterp spec fn diagnostic_text(input: Seq<char>, offset: int, expected: Seq<Rule>) -> Seq<char>;

/// Makes a `pest::Position` of `input` and `offset` and a
/// `pest::error::Error` at that position by `Error::new_from_pos`, with
/// `expected` as the positives of an `ErrorVariant::ParsingError` and no
/// negatives, and returns what the error's `Display` writes. The contract
/// claims that the text depends on these three values alone. `Position::new`
/// takes an offset that lies on a character boundary of the input, which the
/// precondition asks for.
#[verifier::external_body]
fn display_parsing_error(input: &str, offset: usize, expected: &Vec<Rule>) -> (text: String)
    requires
        is_char_boundary(encode_utf8(input@), offset as int),
    ensures
        text@ == diagnostic_text(input@, offset as int, expected@),
{
    let variant = ErrorVariant::ParsingError { positives: expected.clone(), negatives: Vec::new() };
    Error::new_from_pos(variant, Position::new(input, offset).unwrap()).to_string()
}

/// What an entry point reports of an input that failed: the input between
/// quotes, a colon, and the diagnostic.
pub open spec fn failure_text(input: Seq<char>, f: Failure) -> Seq<char> {
    quoted(input, diagnostic_text(input, f.position, f.expected))
}

/// The description of a failure on `input`, given the diagnostic: the
/// input between quotes, a colon and a space, and the diagnostic.
pub open spec fn quoted(input: Seq<char>, diagnostic: Seq<char>) -> Seq<char> {
    "'"@ + input + "': "@ + diagnostic
}

/// Writes the input between quotes, a colon and a space, and the diagnostic.
pub fn describe_failure(input: &str, diagnostic: &str) -> (message: String)
    ensures
        message@ == quoted(input@, diagnostic@),
{
    let mut message = String::from_str("'");
    message.append(input);
    message.append("': ");
    message.append(diagnostic);
    message
}

/// Describes the syntax error `e` of a parse of `input`.
pub(crate) fn failure_message(input: &str, e: &SyntaxError) -> (message: String)
    requires
        e.position <= input@.len(),
        ascii_between(input@, 0, e.position as int),
    ensures
        message@ == failure_text(input@, e@),
{
    proof {
        lemma_ascii_prefix(input@, e.position as int);
    }
    let diagnostic = display_parsing_error(input, e.position, &e.expected);
    describe_failure(input, diagnostic.as_str())
}

} // verus!
