//! The errors of the entry points.

use vstd::prelude::*;
use vstd::string::StringExecFns;

verus! {

/// Why an entry point rejected its input: one kind for each entry point,
/// with the offending input or a description of the failure on it.
#[derive(Clone, Debug, PartialEq, Eq)]
pub enum CSSParseError {
    SelectorParse(String),
    PropertyParse(String),
    HexDigitParse(String),
    InvalidHexColor(String),
    DimensionParse(String),
    CSSBlockParse(String),
}

impl CSSParseError {
    /// The text that the error carries.
    pub open spec fn detail(self) -> Seq<char> {
        match self {
            CSSParseError::SelectorParse(detail) => detail@,
            CSSParseError::PropertyParse(detail) => detail@,
            CSSParseError::HexDigitParse(detail) => detail@,
            CSSParseError::InvalidHexColor(detail) => detail@,
            CSSParseError::DimensionParse(detail) => detail@,
            CSSParseError::CSSBlockParse(detail) => detail@,
        }
    }

    /// The sentence that describes the error.
    pub open spec fn message_text(self) -> Seq<char> {
        match self {
            CSSParseError::SelectorParse(detail) => "Could not parse this selector: "@ + detail@,
            CSSParseError::PropertyParse(detail) => "Could not parse this property: "@ + detail@,
            CSSParseError::HexDigitParse(detail) => "Wrong hex-digit for color used: '"@ + detail@
                + "'"@,
            CSSParseError::InvalidHexColor(detail) => "Wrong hex-code for color used: '"@ + detail@
                + "'"@,
            CSSParseError::DimensionParse(detail) => "Wrong dimension for property used: '"@
                + detail@ + "'"@,
            CSSParseError::CSSBlockParse(detail) => "Could not parse this CSS-block: "@ + detail@,
        }
    }

    /// Writes the sentence that describes the error.
    pub fn message(&self) -> (text: String)
        ensures
            text@ == self.message_text(),
    {
        match self {
            CSSParseError::SelectorParse(detail) => {
                String::from_str("Could not parse this selector: ").concat(detail.as_str())
            },
            CSSParseError::PropertyParse(detail) => {
                String::from_str("Could not parse this property: ").concat(detail.as_str())
            },
            CSSParseError::HexDigitParse(detail) => {
                String::from_str("Wrong hex-digit for color used: '").concat(
                    detail.as_str(),
                ).concat("'")
            },
            CSSParseError::InvalidHexColor(detail) => {
                String::from_str("Wrong hex-code for color used: '").concat(
                    detail.as_str(),
                ).concat("'")
            },
            CSSParseError::DimensionParse(detail) => {
                String::from_str("Wrong dimension for property used: '").concat(
                    detail.as_str(),
                ).concat("'")
            },
            CSSParseError::CSSBlockParse(detail) => {
                String::from_str("Could not parse this CSS-block: ").concat(detail.as_str())
            },
        }
    }
}

} // verus!
