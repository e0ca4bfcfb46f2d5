//! The grammar, as functions on a sequence of characters.
//!
//! ```text
//! WS             = " " | "\t" | "\n" | "\r"
//! digit          = "0".."9"
//! hex_digit      = "0".."9" | "a".."f" | "A".."F"
//! hex_color      = "#" hex_digit{6}
//! unit           = "px" | "em" | "pt" | "%"
//! dimension      = digit+ ("." digit+)? unit
//! identifier     = (letter | "_") (letter | digit | "_" | "-")*
//! class_selector = "." identifier
//! id_selector    = "#" identifier
//! selector       = class_selector | id_selector | identifier
//! value          = hex_color | dimension | identifier
//! colon          = ":"
//! semicolon      = ";"
//! property       = identifier WS* colon WS* value WS* semicolon
//! properties     = (property WS*)*
//! open_brace     = "{"
//! close_brace    = "}"
//! css_block      = selector WS* open_brace WS* properties close_brace
//! ```
//!
//! Each rule is a function from an input and a position to the match tree
//! that the rule yields there or to the failure that stops it. The
//! alternatives of every choice begin with different characters, so a rule
//! that has begun never has to go back: where it stops is the furthest
//! position that any attempt on the input reaches, and the failure names
//! what could have stood there.

use crate::ascii::ascii_between;
use crate::chars::{at, class_at, lemma_run_end, run_end, unit_len, CharClass};
use vstd::prelude::*;

verus! {

/// The names of the grammar's rules.
#[allow(non_camel_case_types)]
#[derive(Clone, Copy, Debug, PartialEq, Eq, PartialOrd, Ord, Hash, Structural)]
pub enum Rule {
    /// The end of the input.
    EOI,
    digit,
    hex_digit,
    hex_color,
    unit,
    dimension,
    identifier,
    class_selector,
    id_selector,
    selector,
    value,
    colon,
    semicolon,
    property,
    properties,
    open_brace,
    close_brace,
    css_block,
}

/// A match: the rule, the span of characters it took, their text, and the
/// matches of the rules inside it, in the order of the input.
pub struct Tree {
    pub rule: Rule,
    pub start: int,
    pub end: int,
    pub text: Seq<char>,
    pub children: Seq<Tree>,
}

/// A failed match: the position at which the input could not be taken any
/// further, and the rules of which one had to begin there.
pub struct Failure {
    pub position: int,
    pub expected: Seq<Rule>,
}

/// What matching one rule at one position comes to.
pub type Outcome = Result<Tree, Failure>;

/// A match without children.
pub open spec fn leaf(rule: Rule, s: Seq<char>, start: int, end: int) -> Tree {
    Tree { rule, start, end, text: s.subrange(start, end), children: Seq::empty() }
}

/// A match with children.
pub open spec fn node(rule: Rule, s: Seq<char>, start: int, end: int, children: Seq<Tree>) -> Tree {
    Tree { rule, start, end, text: s.subrange(start, end), children }
}

/// The failure of a single rule at `position`.
pub open spec fn expecting(position: int, rule: Rule) -> Failure {
    Failure { position, expected: seq![rule] }
}

/// The match of `inner` again under the name `rule`, with `inner` as its
/// only child.
pub open spec fn wrap(rule: Rule, s: Seq<char>, inner: Outcome) -> Outcome {
    match inner {
        Ok(t) => Ok(node(rule, s, t.start, t.end, seq![t])),
        Err(f) => Err(f),
    }
}

/// `EOI`: the end of the input, which takes no character.
pub open spec fn eoi_at(s: Seq<char>, p: int) -> Outcome {
    if p == s.len() {
        Ok(leaf(Rule::EOI, s, p, p))
    } else {
        Err(expecting(p, Rule::EOI))
    }
}

/// A rule that is the single character `c`.
pub open spec fn token_at(s: Seq<char>, p: int, c: char, rule: Rule) -> Outcome {
    if at(s, p, c) {
        Ok(leaf(rule, s, p, p + 1))
    } else {
        Err(expecting(p, rule))
    }
}

/// A rule that is a single character of `class`.
pub open spec fn class_token_at(s: Seq<char>, p: int, class: CharClass, rule: Rule) -> Outcome {
    if class_at(s, p, class) {
        Ok(leaf(rule, s, p, p + 1))
    } else {
        Err(expecting(p, rule))
    }
}

/// `hex_color = "#" hex_digit{6}`. After six digits the rule is done: a
/// seventh is left to what follows.
pub open spec fn hex_color_at(s: Seq<char>, p: int) -> Outcome {
    if !at(s, p, '#') {
        Err(expecting(p, Rule::hex_color))
    } else {
        let digits_end = run_end(s, p + 1, CharClass::HexDigit);
        if digits_end >= p + 7 {
            Ok(leaf(Rule::hex_color, s, p, p + 7))
        } else {
            Err(expecting(digits_end, Rule::hex_digit))
        }
    }
}

/// `unit = "px" | "em" | "pt" | "%"`.
pub open spec fn unit_at(s: Seq<char>, p: int) -> Outcome {
    if unit_len(s, p) > 0 {
        Ok(leaf(Rule::unit, s, p, p + unit_len(s, p)))
    } else {
        Err(expecting(p, Rule::unit))
    }
}

/// `dimension = digit+ ("." digit+)? unit`. A point after the digits has to
/// be followed by a digit.
pub open spec fn dimension_at(s: Seq<char>, p: int) -> Outcome {
    let whole_end = run_end(s, p, CharClass::Digit);
    let fraction_end = run_end(s, whole_end + 1, CharClass::Digit);
    if whole_end == p {
        Err(expecting(p, Rule::dimension))
    } else if at(s, whole_end, '.') && fraction_end == whole_end + 1 {
        Err(expecting(fraction_end, Rule::digit))
    } else {
        let number_end = if at(s, whole_end, '.') {
            fraction_end
        } else {
            whole_end
        };
        if unit_len(s, number_end) > 0 {
            Ok(leaf(Rule::dimension, s, p, number_end + unit_len(s, number_end)))
        } else {
            Err(expecting(number_end, Rule::unit))
        }
    }
}

/// `identifier = (letter | "_") (letter | digit | "_" | "-")*`, as long as
/// it can be.
pub open spec fn identifier_at(s: Seq<char>, p: int) -> Outcome {
    if class_at(s, p, CharClass::IdentStart) {
        Ok(leaf(Rule::identifier, s, p, run_end(s, p + 1, CharClass::IdentPart)))
    } else {
        Err(expecting(p, Rule::identifier))
    }
}

/// A class selector (`mark` is `.`) or an id selector (`mark` is `#`).
pub open spec fn marked_at(s: Seq<char>, p: int, mark: char, rule: Rule) -> Outcome {
    if !at(s, p, mark) {
        Err(expecting(p, rule))
    } else {
        match identifier_at(s, p + 1) {
            Ok(name) => Ok(leaf(rule, s, p, name.end)),
            Err(f) => Err(f),
        }
    }
}

/// `selector = class_selector | id_selector | identifier`. The first
/// character tells which of the three it is.
pub open spec fn selector_at(s: Seq<char>, p: int) -> Outcome {
    if at(s, p, '.') {
        wrap(Rule::selector, s, marked_at(s, p, '.', Rule::class_selector))
    } else if at(s, p, '#') {
        wrap(Rule::selector, s, marked_at(s, p, '#', Rule::id_selector))
    } else if class_at(s, p, CharClass::IdentStart) {
        wrap(Rule::selector, s, identifier_at(s, p))
    } else {
        Err(expecting(p, Rule::selector))
    }
}

/// `value = hex_color | dimension | identifier`. The first character tells
/// which of the three it is.
pub open spec fn value_at(s: Seq<char>, p: int) -> Outcome {
    if at(s, p, '#') {
        wrap(Rule::value, s, hex_color_at(s, p))
    } else if class_at(s, p, CharClass::Digit) {
        wrap(Rule::value, s, dimension_at(s, p))
    } else if class_at(s, p, CharClass::IdentStart) {
        wrap(Rule::value, s, identifier_at(s, p))
    } else {
        Err(expecting(p, Rule::value))
    }
}

/// `property = identifier WS* colon WS* value WS* semicolon`. Its children
/// are the name and the value.
pub open spec fn property_at(s: Seq<char>, p: int) -> Outcome {
    if !class_at(s, p, CharClass::IdentStart) {
        Err(expecting(p, Rule::property))
    } else {
        let name = leaf(Rule::identifier, s, p, run_end(s, p + 1, CharClass::IdentPart));
        let colon = run_end(s, name.end, CharClass::Whitespace);
        if !at(s, colon, ':') {
            Err(expecting(colon, Rule::colon))
        } else {
            match value_at(s, run_end(s, colon + 1, CharClass::Whitespace)) {
                Err(f) => Err(f),
                Ok(value) => {
                    let semicolon = run_end(s, value.end, CharClass::Whitespace);
                    if !at(s, semicolon, ';') {
                        Err(expecting(semicolon, Rule::semicolon))
                    } else {
                        Ok(node(Rule::property, s, p, semicolon + 1, seq![name, value]))
                    }
                },
            }
        }
    }
}

/// The matches in `first`, then those in `rest`; the failure of `rest` where
/// it has failed.
pub open spec fn then_all(first: Seq<Tree>, rest: Result<Seq<Tree>, Failure>) -> Result<
    Seq<Tree>,
    Failure,
> {
    match rest {
        Ok(more) => Ok(first + more),
        Err(f) => Err(f),
    }
}

/// The property declarations that stand one after the other from `p` on,
/// with any whitespace between them. The list ends before the first
/// character that cannot begin a property; a property that has begun and
/// fails makes the whole list fail.
pub open spec fn property_list_at(s: Seq<char>, p: int) -> Result<Seq<Tree>, Failure>
    decreases s.len() - p,
{
    if !class_at(s, p, CharClass::IdentStart) {
        Ok(Seq::empty())
    } else {
        match property_at(s, p) {
            Err(f) => Err(f),
            Ok(first) => {
                proof {
                    // A property takes at least one character, so the rest
                    // of the list begins further on.
                    lemma_property_at(s, p);
                    lemma_run_end(s, first.end, CharClass::Whitespace);
                }
                then_all(
                    seq![first],
                    property_list_at(s, run_end(s, first.end, CharClass::Whitespace)),
                )
            },
        }
    }
}

/// Where the input goes on after a list of matches that began at `p`: after
/// the last of them and the whitespace that follows it.
pub open spec fn after_list(s: Seq<char>, p: int, list: Seq<Tree>) -> int {
    if list.len() == 0 {
        p
    } else {
        run_end(s, list.last().end, CharClass::Whitespace)
    }
}

/// The `properties` match over a list of property matches that began at `p`.
/// It spans from `p` to the end of the last property, and nothing where the
/// list is empty.
pub open spec fn group(s: Seq<char>, p: int, list: Seq<Tree>) -> Tree {
    node(
        Rule::properties,
        s,
        p,
        if list.len() == 0 {
            p
        } else {
            list.last().end
        },
        list,
    )
}

/// `properties = (property WS*)*`.
pub open spec fn properties_at(s: Seq<char>, p: int) -> Outcome {
    match property_list_at(s, p) {
        Ok(list) => Ok(group(s, p, list)),
        Err(f) => Err(f),
    }
}

/// `css_block = selector WS* open_brace WS* properties close_brace`. Its
/// children are the selector and the `properties` match.
pub open spec fn css_block_at(s: Seq<char>, p: int) -> Outcome {
    match selector_at(s, p) {
        Err(f) => Err(f),
        Ok(selector) => {
            let open = run_end(s, selector.end, CharClass::Whitespace);
            if !at(s, open, '{') {
                Err(expecting(open, Rule::open_brace))
            } else {
                let first = run_end(s, open + 1, CharClass::Whitespace);
                match property_list_at(s, first) {
                    Err(f) => Err(f),
                    Ok(list) => {
                        let close = after_list(s, first, list);
                        if !at(s, close, '}') {
                            Err(
                                Failure {
                                    position: close,
                                    expected: seq![Rule::property, Rule::close_brace],
                                },
                            )
                        } else {
                            Ok(
                                node(
                                    Rule::css_block,
                                    s,
                                    p,
                                    close + 1,
                                    seq![selector, group(s, first, list)],
                                ),
                            )
                        }
                    },
                }
            }
        },
    }
}

/// Whether a selector can begin at `p`.
pub open spec fn selector_starts(s: Seq<char>, p: int) -> bool {
    at(s, p, '.') || at(s, p, '#') || class_at(s, p, CharClass::IdentStart)
}

/// The blocks that stand one after the other from `p` to the end of the
/// input, with any whitespace after each. One block that fails, or anything
/// else than a block, makes the whole list fail.
pub open spec fn block_list_at(s: Seq<char>, p: int) -> Result<Seq<Tree>, Failure>
    decreases s.len() - p,
{
    if p >= s.len() {
        Ok(Seq::empty())
    } else if !selector_starts(s, p) {
        Err(Failure { position: p, expected: seq![Rule::css_block, Rule::EOI] })
    } else {
        match css_block_at(s, p) {
            Err(f) => Err(f),
            Ok(first) => {
                proof {
                    // A block takes at least one character, so the rest of
                    // the list begins further on.
                    lemma_css_block_at(s, p);
                    lemma_run_end(s, first.end, CharClass::Whitespace);
                }
                then_all(
                    seq![first],
                    block_list_at(s, run_end(s, first.end, CharClass::Whitespace)),
                )
            },
        }
    }
}

/// The match of `rule` at position `p` of `s`.
pub open spec fn rule_at(rule: Rule, s: Seq<char>, p: int) -> Outcome {
    match rule {
        Rule::EOI => eoi_at(s, p),
        Rule::digit => class_token_at(s, p, CharClass::Digit, Rule::digit),
        Rule::hex_digit => class_token_at(s, p, CharClass::HexDigit, Rule::hex_digit),
        Rule::hex_color => hex_color_at(s, p),
        Rule::unit => unit_at(s, p),
        Rule::dimension => dimension_at(s, p),
        Rule::identifier => identifier_at(s, p),
        Rule::class_selector => marked_at(s, p, '.', Rule::class_selector),
        Rule::id_selector => marked_at(s, p, '#', Rule::id_selector),
        Rule::selector => selector_at(s, p),
        Rule::value => value_at(s, p),
        Rule::colon => token_at(s, p, ':', Rule::colon),
        Rule::semicolon => token_at(s, p, ';', Rule::semicolon),
        Rule::property => property_at(s, p),
        Rule::properties => properties_at(s, p),
        Rule::open_brace => token_at(s, p, '{', Rule::open_brace),
        Rule::close_brace => token_at(s, p, '}', Rule::close_brace),
        Rule::css_block => css_block_at(s, p),
    }
}

/// Whether a parse under `rule` has to take the whole input.
pub open spec fn anchored(rule: Rule) -> bool {
    rule == Rule::selector || rule == Rule::property || rule == Rule::dimension
}

/// What a parse of the whole input `s` under `rule` comes to: the top-level
/// matches, or the failure.
///
/// Under `css_block` the input is a document: any number of blocks, with
/// whitespace before, between and after them, up to the end of the input.
/// Under `selector`, `property` and `dimension` the rule has to match at the
/// start and to end where the input ends. Under any other rule it has to
/// match at the start, and what follows the match is left alone.
pub open spec fn parse_outcome(rule: Rule, s: Seq<char>) -> Result<Seq<Tree>, Failure> {
    if rule == Rule::css_block {
        block_list_at(s, run_end(s, 0, CharClass::Whitespace))
    } else {
        match rule_at(rule, s, 0) {
            Err(f) => Err(f),
            Ok(t) => if anchored(rule) && t.end != s.len() {
                Err(expecting(t.end, Rule::EOI))
            } else {
                Ok(seq![t])
            },
        }
    }
}

/// Whether `t` is a tree of nested spans over `s`: it lies inside the input
/// and carries the text of its span, and its children lie inside its span,
/// one after the other in the order of the input, each a tree of nested
/// spans itself.
pub open spec fn well_formed(t: Tree, s: Seq<char>) -> bool
    decreases t,
{
    &&& 0 <= t.start <= t.end <= s.len()
    &&& t.text == s.subrange(t.start, t.end)
    &&& forall|i: int|
        0 <= i < t.children.len() ==> {
            &&& t.start <= (#[trigger] t.children[i]).start
            &&& t.children[i].end <= t.end
            &&& well_formed(t.children[i], s)
        }
    &&& forall|i: int, j: int|
        0 <= i < j < t.children.len() ==> (#[trigger] t.children[i]).end <= (
        #[trigger] t.children[j]).start
}

/// What holds of every outcome of a rule at `p`: a match bears the rule's
/// name, begins at `p` and is a tree of nested spans; a failure lies at or
/// after `p` and names a rule; and the input is ASCII up to where the match
/// ends or the failure lies. Every rule but `EOI` and `properties` takes at
/// least one character.
pub open spec fn sound(rule: Rule, s: Seq<char>, p: int, outcome: Outcome) -> bool {
    match outcome {
        Ok(t) => {
            &&& t.rule == rule
            &&& t.start == p
            &&& well_formed(t, s)
            &&& (rule != Rule::EOI && rule != Rule::properties ==> p < t.end)
            &&& ascii_between(s, p, t.end)
        },
        Err(f) => {
            &&& p <= f.position <= s.len()
            &&& f.expected.len() > 0
            &&& ascii_between(s, p, f.position)
        },
    }
}

/// What holds of every outcome of a list of matches of `rule` that begins
/// at `p`: each match is the one that `rule` yields where the match begins,
/// the matches follow one another in the input, at or after `p`, and the
/// input is ASCII from `p` up to where it goes on after the list.
pub open spec fn list_sound(
    rule: Rule,
    s: Seq<char>,
    p: int,
    outcome: Result<Seq<Tree>, Failure>,
) -> bool {
    match outcome {
        Ok(list) => {
            &&& forall|i: int|
                0 <= i < list.len() ==> {
                    &&& p <= (#[trigger] list[i]).start
                    &&& rule_at(rule, s, list[i].start) == Ok::<Tree, Failure>(list[i])
                    &&& sound(rule, s, list[i].start, Ok(list[i]))
                }
            &&& forall|i: int, j: int|
                0 <= i < j < list.len() ==> (#[trigger] list[i]).end <= (#[trigger] list[j]).start
            &&& p <= after_list(s, p, list) <= s.len()
            &&& ascii_between(s, p, after_list(s, p, list))
        },
        Err(f) => {
            &&& p <= f.position <= s.len()
            &&& f.expected.len() > 0
            &&& ascii_between(s, p, f.position)
        },
    }
}

/// A match with two well-formed children that follow one another inside
/// its span is well-formed.
proof fn lemma_node_of_two(rule: Rule, s: Seq<char>, start: int, end: int, a: Tree, b: Tree)
    requires
        0 <= start <= a.start,
        a.end <= b.start,
        b.end <= end <= s.len(),
        well_formed(a, s),
        well_formed(b, s),
    ensures
        well_formed(node(rule, s, start, end, seq![a, b]), s),
{
}

/// A list of one match and then the matches of a sound list that begins
/// after it is sound.
proof fn lemma_list_sound_step(rule: Rule, s: Seq<char>, p: int, first: Tree, more: Seq<Tree>)
    requires
        rule == Rule::property || rule == Rule::css_block,
        0 <= p <= s.len(),
        rule_at(rule, s, p) == Ok::<Tree, Failure>(first),
        sound(rule, s, p, Ok(first)),
        list_sound(rule, s, run_end(s, first.end, CharClass::Whitespace), Ok(more)),
    ensures
        list_sound(rule, s, p, Ok(seq![first] + more)),
{
    let next = run_end(s, first.end, CharClass::Whitespace);
    let list = seq![first] + more;
    lemma_run_end(s, first.end, CharClass::Whitespace);
    assert forall|i: int| 0 <= i < list.len() implies {
        &&& p <= (#[trigger] list[i]).start
        &&& rule_at(rule, s, list[i].start) == Ok::<Tree, Failure>(list[i])
        &&& sound(rule, s, list[i].start, Ok(list[i]))
    } by {
        if i > 0 {
            assert(list[i] == more[i - 1]);
        }
    }
    assert forall|i: int, j: int| 0 <= i < j < list.len() implies (#[trigger] list[i]).end <= (
    #[trigger] list[j]).start by {
        assert(list[j] == more[j - 1]);
        if i > 0 {
            assert(list[i] == more[i - 1]);
        }
    }
    assert(list.last().end == if more.len() == 0 {
        first.end
    } else {
        more.last().end
    });
}

proof fn lemma_dimension_at(s: Seq<char>, p: int)
    requires
        0 <= p <= s.len(),
    ensures
        sound(Rule::dimension, s, p, dimension_at(s, p)),
{
    let whole_end = run_end(s, p, CharClass::Digit);
    lemma_run_end(s, p, CharClass::Digit);
    if whole_end < s.len() {
        lemma_run_end(s, whole_end + 1, CharClass::Digit);
    }
}

proof fn lemma_identifier_at(s: Seq<char>, p: int)
    requires
        0 <= p <= s.len(),
    ensures
        sound(Rule::identifier, s, p, identifier_at(s, p)),
{
    if p < s.len() {
        lemma_run_end(s, p + 1, CharClass::IdentPart);
    }
}

proof fn lemma_marked_at(s: Seq<char>, p: int, mark: char, rule: Rule)
    requires
        0 <= p <= s.len(),
        mark == '.' || mark == '#',
        rule == Rule::class_selector || rule == Rule::id_selector,
    ensures
        sound(rule, s, p, marked_at(s, p, mark, rule)),
{
    if at(s, p, mark) {
        lemma_identifier_at(s, p + 1);
    }
}

proof fn lemma_hex_color_at(s: Seq<char>, p: int)
    requires
        0 <= p <= s.len(),
    ensures
        sound(Rule::hex_color, s, p, hex_color_at(s, p)),
{
    if at(s, p, '#') {
        lemma_run_end(s, p + 1, CharClass::HexDigit);
    }
}

proof fn lemma_selector_at(s: Seq<char>, p: int)
    requires
        0 <= p <= s.len(),
    ensures
        sound(Rule::selector, s, p, selector_at(s, p)),
{
    lemma_marked_at(s, p, '.', Rule::class_selector);
    lemma_marked_at(s, p, '#', Rule::id_selector);
    lemma_identifier_at(s, p);
}

proof fn lemma_value_at(s: Seq<char>, p: int)
    requires
        0 <= p <= s.len(),
    ensures
        sound(Rule::value, s, p, value_at(s, p)),
{
    lemma_hex_color_at(s, p);
    lemma_dimension_at(s, p);
    lemma_identifier_at(s, p);
}

/// The outcome of the `property` rule is sound.
pub proof fn lemma_property_at(s: Seq<char>, p: int)
    requires
        0 <= p <= s.len(),
    ensures
        sound(Rule::property, s, p, property_at(s, p)),
{
    if class_at(s, p, CharClass::IdentStart) {
        lemma_run_end(s, p + 1, CharClass::IdentPart);
        let name_end = run_end(s, p + 1, CharClass::IdentPart);
        lemma_run_end(s, name_end, CharClass::Whitespace);
        let colon = run_end(s, name_end, CharClass::Whitespace);
        if at(s, colon, ':') {
            lemma_run_end(s, colon + 1, CharClass::Whitespace);
            let v = run_end(s, colon + 1, CharClass::Whitespace);
            lemma_value_at(s, v);
            if let Ok(value) = value_at(s, v) {
                lemma_run_end(s, value.end, CharClass::Whitespace);
                let semicolon = run_end(s, value.end, CharClass::Whitespace);
                if at(s, semicolon, ';') {
                    let name = leaf(Rule::identifier, s, p, name_end);
                    lemma_node_of_two(Rule::property, s, p, semicolon + 1, name, value);
                }
            }
        }
    }
}

/// The list of property declarations from `p` on is sound.
pub proof fn lemma_property_list_at(s: Seq<char>, p: int)
    requires
        0 <= p <= s.len(),
    ensures
        list_sound(Rule::property, s, p, property_list_at(s, p)),
    decreases s.len() - p,
{
    if class_at(s, p, CharClass::IdentStart) {
        lemma_property_at(s, p);
        if let Ok(first) = property_at(s, p) {
            let next = run_end(s, first.end, CharClass::Whitespace);
            lemma_run_end(s, first.end, CharClass::Whitespace);
            lemma_property_list_at(s, next);
            if let Ok(more) = property_list_at(s, next) {
                lemma_list_sound_step(Rule::property, s, p, first, more);
            }
        }
    }
}

/// The `properties` match over a sound list of property matches is a tree
/// of nested spans.
proof fn lemma_group(s: Seq<char>, p: int, list: Seq<Tree>)
    requires
        0 <= p <= s.len(),
        list_sound(Rule::property, s, p, Ok(list)),
    ensures
        sound(Rule::properties, s, p, Ok(group(s, p, list))),
        group(s, p, list).end <= after_list(s, p, list),
{
    let g = group(s, p, list);
    if list.len() > 0 {
        let last = list[list.len() - 1];
        lemma_run_end(s, last.end, CharClass::Whitespace);
        assert forall|i: int| 0 <= i < g.children.len() implies {
            &&& g.start <= (#[trigger] g.children[i]).start
            &&& g.children[i].end <= g.end
            &&& well_formed(g.children[i], s)
        } by {
            if i < list.len() - 1 {
                assert(list[i].end <= last.start);
            }
        }
    }
}

/// The outcome of the `css_block` rule is sound.
pub proof fn lemma_css_block_at(s: Seq<char>, p: int)
    requires
        0 <= p <= s.len(),
    ensures
        sound(Rule::css_block, s, p, css_block_at(s, p)),
{
    lemma_selector_at(s, p);
    if let Ok(selector) = selector_at(s, p) {
        lemma_run_end(s, selector.end, CharClass::Whitespace);
        let open = run_end(s, selector.end, CharClass::Whitespace);
        if at(s, open, '{') {
            lemma_run_end(s, open + 1, CharClass::Whitespace);
            let first = run_end(s, open + 1, CharClass::Whitespace);
            lemma_property_list_at(s, first);
            if let Ok(list) = property_list_at(s, first) {
                lemma_group(s, first, list);
                let close = after_list(s, first, list);
                if at(s, close, '}') {
                    lemma_node_of_two(
                        Rule::css_block,
                        s,
                        p,
                        close + 1,
                        selector,
                        group(s, first, list),
                    );
                }
            }
        }
    }
}

/// The list of blocks from `p` on is sound.
pub proof fn lemma_block_list_at(s: Seq<char>, p: int)
    requires
        0 <= p <= s.len(),
    ensures
        list_sound(Rule::css_block, s, p, block_list_at(s, p)),
    decreases s.len() - p,
{
    if p < s.len() && selector_starts(s, p) {
        lemma_css_block_at(s, p);
        if let Ok(first) = css_block_at(s, p) {
            let next = run_end(s, first.end, CharClass::Whitespace);
            lemma_run_end(s, first.end, CharClass::Whitespace);
            lemma_block_list_at(s, next);
            if let Ok(more) = block_list_at(s, next) {
                lemma_list_sound_step(Rule::css_block, s, p, first, more);
            }
        }
    }
}

proof fn lemma_properties_at(s: Seq<char>, p: int)
    requires
        0 <= p <= s.len(),
    ensures
        sound(Rule::properties, s, p, properties_at(s, p)),
{
    lemma_property_list_at(s, p);
    if let Ok(list) = property_list_at(s, p) {
        lemma_group(s, p, list);
    }
}

/// The outcome of every rule at every position is sound.
pub proof fn lemma_rule_at(rule: Rule, s: Seq<char>, p: int)
    requires
        0 <= p <= s.len(),
    ensures
        sound(rule, s, p, rule_at(rule, s, p)),
{
    match rule {
        Rule::hex_color => lemma_hex_color_at(s, p),
        Rule::dimension => lemma_dimension_at(s, p),
        Rule::identifier => lemma_identifier_at(s, p),
        Rule::class_selector => lemma_marked_at(s, p, '.', Rule::class_selector),
        Rule::id_selector => lemma_marked_at(s, p, '#', Rule::id_selector),
        Rule::selector => lemma_selector_at(s, p),
        Rule::value => lemma_value_at(s, p),
        Rule::property => lemma_property_at(s, p),
        Rule::properties => lemma_properties_at(s, p),
        Rule::css_block => lemma_css_block_at(s, p),
        _ => {},
    }
}

/// What holds of every outcome of a parse of a whole input. A failure lies
/// inside the input, names a rule, and the input is ASCII up to it. A
/// success under `css_block` is a list of blocks, one after the other; a
/// success under any other rule is one match of the rule, which begins at
/// the start of the input and, where the rule is anchored, ends at its end.
/// Every match is a tree of nested spans.
pub proof fn lemma_parse_outcome(rule: Rule, s: Seq<char>)
    ensures
        match parse_outcome(rule, s) {
            Ok(matches) => {
                &&& forall|i: int|
                    0 <= i < matches.len() ==> (#[trigger] matches[i]).rule == rule
                        && well_formed(matches[i], s)
                &&& forall|i: int, j: int|
                    0 <= i < j < matches.len() ==> (#[trigger] matches[i]).end <= (
                    #[trigger] matches[j]).start
                &&& rule != Rule::css_block ==> {
                    &&& matches.len() == 1
                    &&& matches[0].start == 0
                    &&& matches[0].text == s.subrange(0, matches[0].end)
                    &&& (anchored(rule) ==> matches[0].end == s.len())
                }
            },
            Err(f) => {
                &&& 0 <= f.position <= s.len()
                &&& f.expected.len() > 0
                &&& ascii_between(s, 0, f.position)
            },
        },
{
    if rule == Rule::css_block {
        lemma_run_end(s, 0, CharClass::Whitespace);
        lemma_block_list_at(s, run_end(s, 0, CharClass::Whitespace));
    } else {
        lemma_rule_at(rule, s, 0);
    }
}

/// Whether `t` has the shape of a block: a `css_block` match of two
/// children, a `selector` and a `properties` match, the latter with
/// `property` matches as its children.
pub open spec fn block_shaped(t: Tree) -> bool {
    &&& t.rule == Rule::css_block
    &&& t.children.len() == 2
    &&& t.children[0].rule == Rule::selector
    &&& t.children[1].rule == Rule::properties
    &&& forall|i: int|
        0 <= i < t.children[1].children.len() ==> (#[trigger] t.children[1].children[i]).rule
            == Rule::property
}

/// Every match of the `css_block` rule has the shape of a block.
pub proof fn lemma_css_block_shape(s: Seq<char>, p: int)
    requires
        0 <= p <= s.len(),
    ensures
        css_block_at(s, p) matches Ok(block) ==> block_shaped(block),
{
    lemma_selector_at(s, p);
    if let Ok(selector) = selector_at(s, p) {
        lemma_run_end(s, selector.end, CharClass::Whitespace);
        let open = run_end(s, selector.end, CharClass::Whitespace);
        if at(s, open, '{') {
            lemma_run_end(s, open + 1, CharClass::Whitespace);
            lemma_property_list_at(s, run_end(s, open + 1, CharClass::Whitespace));
        }
    }
}

/// Every top-level match of a parsed document has the shape of a block.
pub proof fn lemma_document_shape(s: Seq<char>)
    ensures
        parse_outcome(Rule::css_block, s) matches Ok(blocks) ==> forall|i: int|
            0 <= i < blocks.len() ==> block_shaped(#[trigger] blocks[i]),
{
    let first = run_end(s, 0, CharClass::Whitespace);
    lemma_run_end(s, 0, CharClass::Whitespace);
    lemma_block_list_at(s, first);
    if let Ok(blocks) = parse_outcome(Rule::css_block, s) {
        assert forall|i: int| 0 <= i < blocks.len() implies block_shaped(#[trigger] blocks[i]) by {
            lemma_css_block_shape(s, blocks[i].start);
        }
    }
}

} // verus!
