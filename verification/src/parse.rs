//! The entry points: one function for each rule that callers parse by.

use crate::diagnostic::{failure_message, failure_text};
use crate::engine::{lemma_trees, CSSParser, Pair};
use crate::error::CSSParseError;
use crate::grammar::{expecting, lemma_parse_outcome, parse_outcome, Failure, Rule};
use crate::language::{
    is_dimension, is_document, is_property, is_selector, lemma_dimension_language,
    lemma_document_language, lemma_property_language, lemma_selector_language,
    starts_with_hex_digit,
};
use crate::render::{document_text, render_blocks};
use vstd::prelude::*;
use vstd::string::StringExecFns;

verus! {

/// The text that a parse of `s` under `rule` hands back: that of the first
/// top-level match. `None` where the parse fails or matches nothing.
pub open spec fn accepted_text(rule: Rule, s: Seq<char>) -> Option<Seq<char>> {
    match parse_outcome(rule, s) {
        Ok(matches) => if matches.len() > 0 {
            Some(matches[0].text)
        } else {
            None
        },
        Err(_) => None,
    }
}

/// The failure of a parse of `s` under `rule`, where it fails.
pub open spec fn syntax_failure(rule: Rule, s: Seq<char>) -> Failure
    recommends
        parse_outcome(rule, s) is Err,
{
    parse_outcome(rule, s)->Err_0
}

/// What is reported where a parse under `property` matches nothing.
pub open spec fn no_property_text(input: Seq<char>) -> Seq<char> {
    "No valid property found in '"@ + input + "'"@
}

/// Parses `input` under a rule other than `css_block` and returns the text
/// of the match, or the description of the failure.
fn parse_text(rule: Rule, input: &str) -> (r: Result<String, String>)
    requires
        rule != Rule::css_block,
    ensures
        match accepted_text(rule, input@) {
            Some(accepted) => r matches Ok(text) && text@ == accepted,
            None => r matches Err(detail) && detail@ == failure_text(
                input@,
                syntax_failure(rule, input@),
            ),
        },
{
    proof {
        lemma_parse_outcome(rule, input@);
    }
    match CSSParser::parse(rule, input) {
        Err(e) => Err(failure_message(input, &e)),
        Ok(pairs) => {
            proof {
                lemma_trees(pairs@);
            }
            Ok(pairs[0].text.clone())
        },
    }
}

/// Accepts a selector: an identifier, or `.` or `#` and an identifier, and
/// nothing before or after it. Returns the input as it is.
pub fn parse_selector(input: &str) -> (r: Result<String, CSSParseError>)
    ensures
        r is Ok <==> is_selector(input@),
        r matches Ok(text) ==> text@ == input@ && accepted_text(Rule::selector, input@) == Some(
            text@,
        ),
        r matches Err(e) ==> e matches CSSParseError::SelectorParse(detail) && detail@
            == failure_text(input@, syntax_failure(Rule::selector, input@)),
{
    proof {
        lemma_selector_language(input@);
        lemma_parse_outcome(Rule::selector, input@);
        assert(input@.subrange(0, input@.len() as int) =~= input@);
    }
    match parse_text(Rule::selector, input) {
        Ok(text) => Ok(text),
        Err(detail) => Err(CSSParseError::SelectorParse(detail)),
    }
}

/// Takes the first of the matches of a parse under `property` and returns
/// its text; any further match is left aside. Where there is no match at
/// all, the error says that no property was found in `input`.
pub fn first_property(input: &str, pairs: &Vec<Pair>) -> (r: Result<String, CSSParseError>)
    ensures
        pairs.len() > 0 ==> (r matches Ok(text) && text@ == pairs[0]@.text),
        pairs.len() == 0 ==> (r matches Err(CSSParseError::PropertyParse(detail)) && detail@
            == no_property_text(input@)),
{
    if pairs.len() > 0 {
        Ok(pairs[0].text.clone())
    } else {
        let mut detail = String::from_str("No valid property found in '");
        detail.append(input);
        detail.append("'");
        Err(CSSParseError::PropertyParse(detail))
    }
}

/// Accepts a property declaration: a name, a colon, a value and a
/// semicolon, with any whitespace between them and nothing before or
/// after. Returns the input as it is.
pub fn parse_property(input: &str) -> (r: Result<String, CSSParseError>)
    ensures
        r is Ok <==> is_property(input@),
        r matches Ok(text) ==> text@ == input@ && accepted_text(Rule::property, input@) == Some(
            text@,
        ),
        r matches Err(e) ==> e matches CSSParseError::PropertyParse(detail) && detail@
            == failure_text(input@, syntax_failure(Rule::property, input@)),
{
    proof {
        lemma_property_language(input@);
        lemma_parse_outcome(Rule::property, input@);
        assert(input@.subrange(0, input@.len() as int) =~= input@);
    }
    match CSSParser::parse(Rule::property, input) {
        Err(e) => Err(CSSParseError::PropertyParse(failure_message(input, &e))),
        Ok(pairs) => {
            proof {
                lemma_trees(pairs@);
            }
            first_property(input, &pairs)
        },
    }
}

/// Accepts a dimension: a number and, right after it, one of the units
/// `px`, `em`, `pt` and `%`, and nothing before or after. Returns the input
/// as it is.
pub fn parse_dimension(input: &str) -> (r: Result<String, CSSParseError>)
    ensures
        r is Ok <==> is_dimension(input@),
        r matches Ok(text) ==> text@ == input@ && accepted_text(Rule::dimension, input@) == Some(
            text@,
        ),
        r matches Err(e) ==> e matches CSSParseError::DimensionParse(detail) && detail@
            == failure_text(input@, syntax_failure(Rule::dimension, input@)),
{
    proof {
        lemma_dimension_language(input@);
        lemma_parse_outcome(Rule::dimension, input@);
        assert(input@.subrange(0, input@.len() as int) =~= input@);
    }
    match parse_text(Rule::dimension, input) {
        Ok(text) => Ok(text),
        Err(detail) => Err(CSSParseError::DimensionParse(detail)),
    }
}

/// Accepts an input that begins with a hexadecimal digit and returns that
/// digit; what follows it is left alone.
pub fn parse_hex_digit(input: &str) -> (r: Result<String, CSSParseError>)
    ensures
        r is Ok <==> starts_with_hex_digit(input@),
        r matches Ok(text) ==> text@ == input@.subrange(0, 1) && accepted_text(
            Rule::hex_digit,
            input@,
        ) == Some(text@),
        input@.len() == 1 ==> (r matches Ok(text) ==> text@ == input@),
        r matches Err(e) ==> e matches CSSParseError::HexDigitParse(detail) && detail@
            == failure_text(input@, expecting(0, Rule::hex_digit)),
{
    proof {
        if input@.len() == 1 {
            assert(input@.subrange(0, 1) =~= input@);
        }
    }
    match parse_text(Rule::hex_digit, input) {
        Ok(text) => Ok(text),
        Err(detail) => Err(CSSParseError::HexDigitParse(detail)),
    }
}

/// Accepts a document: any number of blocks, each a selector and its
/// property declarations between braces, with any whitespace around them.
/// Returns the description of the blocks, first block first. One block
/// that does not conform makes the whole document fail.
pub fn parse_css_file(input: &str) -> (r: Result<String, CSSParseError>)
    ensures
        r is Ok <==> is_document(input@),
        match parse_outcome(Rule::css_block, input@) {
            Ok(blocks) => r matches Ok(text) && text@ == document_text(blocks),
            Err(f) => r matches Err(CSSParseError::CSSBlockParse(detail)) && detail@
                == failure_text(input@, f),
        },
{
    proof {
        lemma_parse_outcome(Rule::css_block, input@);
        lemma_document_language(input@);
    }
    match CSSParser::parse(Rule::css_block, input) {
        Err(e) => Err(CSSParseError::CSSBlockParse(failure_message(input, &e))),
        Ok(pairs) => Ok(render_blocks(&pairs)),
    }
}

/// What a parse under any rule but `css_block` hands back is a piece of the
/// input as it stands there: the characters from its start up to where
/// the match ends.
pub proof fn lemma_accepted_text_is_prefix(rule: Rule, s: Seq<char>)
    requires
        rule != Rule::css_block,
    ensures
        accepted_text(rule, s) matches Some(text) ==> text.len() <= s.len() && text
            == s.subrange(0, text.len() as int),
{
    lemma_parse_outcome(rule, s);
}

/// What an entry point has accepted and handed back, it accepts again, and
/// hands back unchanged: this holds under `selector`, `property`,
/// `dimension` and `hex_digit`.
pub proof fn lemma_accepted_text_is_accepted(rule: Rule, s: Seq<char>, text: Seq<char>)
    requires
        rule == Rule::selector || rule == Rule::property || rule == Rule::dimension || rule
            == Rule::hex_digit,
        accepted_text(rule, s) == Some(text),
    ensures
        accepted_text(rule, text) == Some(text),
{
    lemma_parse_outcome(rule, s);
    if rule == Rule::hex_digit {
        assert(text.subrange(0, 1) =~= text);
    } else {
        assert(s.subrange(0, s.len() as int) =~= s);
    }
}

} // verus!
