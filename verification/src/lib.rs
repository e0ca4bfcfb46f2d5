//! A recognizer for a small stylesheet language: selectors, property
//! declarations, dimensions, hexadecimal digits and colors, and blocks of
//! declarations.
//!
//! [`grammar`] defines the language rule by rule, as functions from an
//! input and a position to a match tree or a failure, and [`language`] says
//! of the main rules outright which texts they accept. [`engine`] is the
//! recognizer, proved to give what the grammar defines. The entry points in
//! [`parse`] and [`hex_color`] take a text, run one rule on it and report
//! the matched text, the description of the blocks ([`render`]), or a
//! [`CSSParseError`] with the diagnostic of [`diagnostic`].

pub mod ascii;
pub mod chars;
pub mod diagnostic;
pub mod engine;
pub mod error;
pub mod grammar;
pub mod hex_color;
pub mod language;
pub mod parse;
pub mod render;

pub use engine::{CSSParser, Pair, SyntaxError};
pub use error::CSSParseError;
pub use grammar::Rule;
pub use hex_color::parse_hex_color;
pub use parse::{
    first_property, parse_css_file, parse_dimension, parse_hex_digit, parse_property,
    parse_selector,
};
pub use render::{parse_properties, render_block, render_blocks};
