//! Hexadecimal color literals, checked against a pattern rather than by the
//! grammar.

use crate::chars::{all_in, CharClass};
use crate::error::CSSParseError;
use regex::Regex;
use vstd::prelude::*;
use vstd::string::StringExecFns;

verus! {

/// The pattern of a color literal: `#` and six hexadecimal digits, from the
/// start of the text to its end.
pub const HEX_COLOR_PATTERN: &'static str = "^#([0-9A-Fa-f]{6})$";

/// Whether `s` is `#` followed by exactly six hexadecimal digits, of either
/// case, and nothing else.
pub open spec fn is_hex_color(s: Seq<char>) -> bool {
    s.len() == 7 && s[0] == '#' && all_in(s, 1, 7, CharClass::HexDigit)
}

/// The declaration that a color literal is rendered as.
pub open spec fn color_declaration(color: Seq<char>) -> Seq<char> {
    "color: "@ + color + "; "@
}

/// Compiles `pattern` with `regex::Regex::new` and asks `Regex::is_match`
/// whether it matches `text`. The contract is stated for the pattern of a
/// color literal alone, and claims what the syntax of `regex` gives for it:
/// `^` and `$` stand for the start and the end of the text, `#` for itself,
/// and `[0-9A-Fa-f]{6}` for six characters, each one of those listed.
#[verifier::external_body]
fn pattern_matches(pattern: &str, text: &str) -> (found: bool)
    requires
        pattern@ == HEX_COLOR_PATTERN@,
    ensures
        found == is_hex_color(text@),
{
    Regex::new(pattern).unwrap().is_match(text)
}

/// Accepts a hexadecimal color literal and renders it as a `color`
/// declaration, with a space at its end; rejects anything else, with the
/// input as the error's detail.
pub fn parse_hex_color(input: &str) -> (r: Result<String, CSSParseError>)
    ensures
        is_hex_color(input@) ==> (r matches Ok(text) && text@ == color_declaration(input@)),
        !is_hex_color(input@) ==> (r matches Err(CSSParseError::InvalidHexColor(detail))
            && detail@ == input@),
{
    if pattern_matches(HEX_COLOR_PATTERN, input) {
        let mut text = String::from_str("color: ");
        text.append(input);
        text.append("; ");
        Ok(text)
    } else {
        Err(CSSParseError::InvalidHexColor(String::from_str(input)))
    }
}

} // verus!
