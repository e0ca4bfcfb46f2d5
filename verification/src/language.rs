//! The languages of the grammar's rules, said outright: which stretches of
//! an input are an identifier, a selector, a dimension, a color, a value, a
//! property declaration or a block, and which inputs are a document. Each
//! rule of the grammar is shown to match exactly the stretches of its
//! language.

use crate::chars::{
    all_in, at, class_at, lemma_run_end, lemma_run_end_is, run_end, unit_len, CharClass,
};
use crate::grammar::{
    after_list, block_list_at, css_block_at, dimension_at, hex_color_at, identifier_at,
    lemma_css_block_at, lemma_parse_outcome, lemma_property_at, lemma_property_list_at,
    lemma_rule_at, parse_outcome, property_at, property_list_at, selector_at, selector_starts,
    value_at, Outcome, Rule,
};
use crate::hex_color::is_hex_color;
use vstd::prelude::*;

verus! {

/// Whether the characters of `s` from `p` up to `e` are an identifier: a
/// letter or `_`, then letters, digits, `_` and `-`.
pub open spec fn identifier_in(s: Seq<char>, p: int, e: int) -> bool {
    &&& 0 <= p < e <= s.len()
    &&& CharClass::IdentStart.holds(s[p])
    &&& all_in(s, p + 1, e, CharClass::IdentPart)
}

/// Whether the characters of `s` from `p` up to `e` are a selector: an
/// identifier, or `.` or `#` and an identifier.
pub open spec fn selector_in(s: Seq<char>, p: int, e: int) -> bool {
    ||| identifier_in(s, p, e)
    ||| (at(s, p, '.') || at(s, p, '#')) && identifier_in(s, p + 1, e)
}

/// Whether the characters of `s` from `p` up to `e` are a number: digits,
/// or digits, a point and digits.
pub open spec fn number_in(s: Seq<char>, p: int, e: int) -> bool {
    &&& 0 <= p < e <= s.len()
    &&& {
        ||| all_in(s, p, e, CharClass::Digit)
        ||| exists|dot: int|
            p < dot < e - 1 && at(s, dot, '.') && #[trigger] all_in(s, p, dot, CharClass::Digit)
                && all_in(s, dot + 1, e, CharClass::Digit)
    }
}

/// Whether the characters of `s` from `p` up to `e` are one of the units
/// `px`, `em`, `pt` and `%`.
pub open spec fn unit_in(s: Seq<char>, p: int, e: int) -> bool {
    unit_len(s, p) > 0 && e == p + unit_len(s, p)
}

/// Whether the characters of `s` from `p` up to `e` are a dimension: a
/// number and, right after it, a unit.
pub open spec fn dimension_in(s: Seq<char>, p: int, e: int) -> bool {
    exists|k: int| #[trigger] number_in(s, p, k) && unit_in(s, k, e)
}

/// Whether the characters of `s` from `p` up to `e` are a color: `#` and
/// six hexadecimal digits.
pub open spec fn hex_color_in(s: Seq<char>, p: int, e: int) -> bool {
    &&& 0 <= p
    &&& e == p + 7
    &&& e <= s.len()
    &&& s[p] == '#'
    &&& all_in(s, p + 1, e, CharClass::HexDigit)
}

/// Whether the characters of `s` from `p` up to `e` are a value: a color, a
/// dimension or an identifier.
pub open spec fn value_in(s: Seq<char>, p: int, e: int) -> bool {
    hex_color_in(s, p, e) || dimension_in(s, p, e) || identifier_in(s, p, e)
}

/// Whether `s` holds, from `name_end` on, what stands between the name of a
/// property and the end `e` of its declaration: whitespace up to the colon
/// at `colon`, whitespace up to `value`, a value up to `value_end`, and
/// whitespace up to the semicolon that ends at `e`.
pub open spec fn declares(
    s: Seq<char>,
    name_end: int,
    colon: int,
    value: int,
    value_end: int,
    e: int,
) -> bool {
    &&& name_end <= colon < value <= value_end < e
    &&& all_in(s, name_end, colon, CharClass::Whitespace)
    &&& at(s, colon, ':')
    &&& all_in(s, colon + 1, value, CharClass::Whitespace)
    &&& value_in(s, value, value_end)
    &&& all_in(s, value_end, e - 1, CharClass::Whitespace)
    &&& at(s, e - 1, ';')
}

/// Whether the characters of `s` from `p` up to `e` are a property
/// declaration: an identifier, a colon, a value and a semicolon, with any
/// whitespace between them.
pub open spec fn property_in(s: Seq<char>, p: int, e: int) -> bool {
    exists|name_end: int, colon: int, value: int, value_end: int|
        identifier_in(s, p, name_end) && #[trigger] declares(
            s,
            name_end,
            colon,
            value,
            value_end,
            e,
        )
}

/// Whether property declarations stand in `s` from `p` up to `close`, each
/// followed by any whitespace: none where `p` is `close`.
pub open spec fn declarations_in(s: Seq<char>, p: int, close: int) -> bool
    decreases close - p,
{
    p == close || exists|e: int, next: int|
        p < e <= next <= close && property_in(s, p, e) && #[trigger] all_in(
            s,
            e,
            next,
            CharClass::Whitespace,
        ) && declarations_in(s, next, close)
}

/// Whether `s` holds, from `selector_end` on, what stands between the
/// selector of a block and the end `e` of the block: whitespace up to the
/// opening brace at `open`, whitespace up to `first`, the property
/// declarations, and the closing brace that ends at `e`.
pub open spec fn encloses(s: Seq<char>, selector_end: int, open: int, first: int, e: int) -> bool {
    &&& selector_end <= open < first < e
    &&& all_in(s, selector_end, open, CharClass::Whitespace)
    &&& at(s, open, '{')
    &&& all_in(s, open + 1, first, CharClass::Whitespace)
    &&& declarations_in(s, first, e - 1)
    &&& at(s, e - 1, '}')
}

/// Whether the characters of `s` from `p` up to `e` are a block: a selector
/// and, between braces, property declarations, with any whitespace between
/// them.
pub open spec fn block_in(s: Seq<char>, p: int, e: int) -> bool {
    exists|selector_end: int, open: int, first: int|
        selector_in(s, p, selector_end) && #[trigger] encloses(s, selector_end, open, first, e)
}

/// Whether blocks stand in `s` from `p` up to its end, each followed by any
/// whitespace: none where `p` is the end.
pub open spec fn blocks_in(s: Seq<char>, p: int) -> bool
    decreases s.len() - p,
{
    p >= s.len() || exists|e: int, next: int|
        p < e <= next <= s.len() && block_in(s, p, e) && #[trigger] all_in(
            s,
            e,
            next,
            CharClass::Whitespace,
        ) && blocks_in(s, next)
}

/// Whether the whole of `s` is a document: any whitespace, then any number
/// of blocks, each followed by any whitespace.
pub open spec fn is_document(s: Seq<char>) -> bool {
    exists|p: int|
        0 <= p <= s.len() && #[trigger] all_in(s, 0, p, CharClass::Whitespace) && blocks_in(s, p)
}

/// Whether the whole of `s` is a selector.
pub open spec fn is_selector(s: Seq<char>) -> bool {
    selector_in(s, 0, s.len() as int)
}

/// Whether the whole of `s` is a dimension.
pub open spec fn is_dimension(s: Seq<char>) -> bool {
    dimension_in(s, 0, s.len() as int)
}

/// Whether the whole of `s` is a property declaration.
pub open spec fn is_property(s: Seq<char>) -> bool {
    property_in(s, 0, s.len() as int)
}

/// Whether `s` begins with a hexadecimal digit.
pub open spec fn starts_with_hex_digit(s: Seq<char>) -> bool {
    class_at(s, 0, CharClass::HexDigit)
}

/// Whether `outcome` is a match that ends at `e`.
pub open spec fn ends_at(outcome: Outcome, e: int) -> bool {
    outcome matches Ok(t) && t.end == e
}

/// A run covers every stretch of its class that begins where it begins.
pub proof fn lemma_run_end_covers(s: Seq<char>, p: int, e: int, class: CharClass)
    requires
        0 <= p <= e <= s.len(),
        all_in(s, p, e, class),
    ensures
        e <= run_end(s, p, class),
    decreases e - p,
{
    if p < e {
        assert(class.holds(s[p]));
        lemma_run_end_covers(s, p + 1, e, class);
    } else {
        lemma_run_end(s, p, class);
    }
}

/// The `identifier` rule matches from `p` up to `e` exactly where an
/// identifier stands there that cannot be taken any further.
pub proof fn lemma_identifier_span(s: Seq<char>, p: int, e: int)
    requires
        0 <= p <= s.len(),
    ensures
        ends_at(identifier_at(s, p), e) <==> identifier_in(s, p, e) && !class_at(
            s,
            e,
            CharClass::IdentPart,
        ),
{
    if class_at(s, p, CharClass::IdentStart) {
        lemma_run_end(s, p + 1, CharClass::IdentPart);
        if identifier_in(s, p, e) && !class_at(s, e, CharClass::IdentPart) {
            lemma_run_end_is(s, p + 1, e, CharClass::IdentPart);
        }
    }
}

/// The `selector` rule matches from `p` up to `e` exactly where a selector
/// stands there that cannot be taken any further.
pub proof fn lemma_selector_span(s: Seq<char>, p: int, e: int)
    requires
        0 <= p <= s.len(),
    ensures
        ends_at(selector_at(s, p), e) <==> selector_in(s, p, e) && !class_at(
            s,
            e,
            CharClass::IdentPart,
        ),
{
    lemma_identifier_span(s, p, e);
    if p < s.len() {
        lemma_identifier_span(s, p + 1, e);
    }
}

/// The `hex_color` rule matches from `p` up to `e` exactly where a color
/// stands there.
pub proof fn lemma_hex_color_span(s: Seq<char>, p: int, e: int)
    requires
        0 <= p <= s.len(),
    ensures
        ends_at(hex_color_at(s, p), e) <==> hex_color_in(s, p, e),
{
    if at(s, p, '#') {
        lemma_run_end(s, p + 1, CharClass::HexDigit);
        if hex_color_in(s, p, e) {
            lemma_run_end_covers(s, p + 1, e, CharClass::HexDigit);
        }
    }
}

/// The `dimension` rule matches from `p` up to `e` exactly where a
/// dimension stands there.
pub proof fn lemma_dimension_span(s: Seq<char>, p: int, e: int)
    requires
        0 <= p <= s.len(),
    ensures
        ends_at(dimension_at(s, p), e) <==> dimension_in(s, p, e),
{
    let whole_end = run_end(s, p, CharClass::Digit);
    let fraction_end = run_end(s, whole_end + 1, CharClass::Digit);
    lemma_run_end(s, p, CharClass::Digit);
    if whole_end < s.len() {
        lemma_run_end(s, whole_end + 1, CharClass::Digit);
    }
    if ends_at(dimension_at(s, p), e) {
        let number_end = if at(s, whole_end, '.') {
            fraction_end
        } else {
            whole_end
        };
        if at(s, whole_end, '.') {
            assert(all_in(s, p, whole_end, CharClass::Digit));
        }
        assert(number_in(s, p, number_end));
        assert(unit_in(s, number_end, e));
    }
    if dimension_in(s, p, e) {
        let k = choose|k: int| #[trigger] number_in(s, p, k) && unit_in(s, k, e);
        assert(!class_at(s, k, CharClass::Digit));
        if all_in(s, p, k, CharClass::Digit) {
            lemma_run_end_is(s, p, k, CharClass::Digit);
        } else {
            let dot = choose|dot: int|
                p < dot < k - 1 && at(s, dot, '.') && #[trigger] all_in(
                    s,
                    p,
                    dot,
                    CharClass::Digit,
                ) && all_in(s, dot + 1, k, CharClass::Digit);
            lemma_run_end_is(s, p, dot, CharClass::Digit);
            lemma_run_end_is(s, dot + 1, k, CharClass::Digit);
        }
    }
}

/// The `value` rule matches from `p` up to `e` exactly where a value stands
/// there and, if it is an identifier, cannot be taken any further.
pub proof fn lemma_value_span(s: Seq<char>, p: int, e: int)
    requires
        0 <= p <= s.len(),
    ensures
        ends_at(value_at(s, p), e) <==> value_in(s, p, e) && (identifier_in(s, p, e)
            ==> !class_at(s, e, CharClass::IdentPart)),
{
    lemma_hex_color_span(s, p, e);
    lemma_dimension_span(s, p, e);
    lemma_identifier_span(s, p, e);
    if dimension_in(s, p, e) {
        let k = choose|k: int| #[trigger] number_in(s, p, k) && unit_in(s, k, e);
        if all_in(s, p, k, CharClass::Digit) {
            assert(CharClass::Digit.holds(s[p]));
        } else {
            let dot = choose|dot: int|
                p < dot < k - 1 && at(s, dot, '.') && #[trigger] all_in(
                    s,
                    p,
                    dot,
                    CharClass::Digit,
                ) && all_in(s, dot + 1, k, CharClass::Digit);
            assert(CharClass::Digit.holds(s[p]));
        }
    }
}

/// The `property` rule matches from `p` up to `e` exactly where a property
/// declaration stands there.
pub proof fn lemma_property_span(s: Seq<char>, p: int, e: int)
    requires
        0 <= p <= s.len(),
    ensures
        ends_at(property_at(s, p), e) <==> property_in(s, p, e),
{
    if class_at(s, p, CharClass::IdentStart) {
        let name_end = run_end(s, p + 1, CharClass::IdentPart);
        lemma_run_end(s, p + 1, CharClass::IdentPart);
        let colon = run_end(s, name_end, CharClass::Whitespace);
        lemma_run_end(s, name_end, CharClass::Whitespace);
        if ends_at(property_at(s, p), e) {
            let value = run_end(s, colon + 1, CharClass::Whitespace);
            lemma_run_end(s, colon + 1, CharClass::Whitespace);
            let value_end = value_at(s, value)->Ok_0.end;
            lemma_value_span(s, value, value_end);
            lemma_run_end(s, value_end, CharClass::Whitespace);
            lemma_rule_at(Rule::value, s, value);
            assert(identifier_in(s, p, name_end));
            assert(declares(s, name_end, colon, value, value_end, e));
        }
        if property_in(s, p, e) {
            let (a, b, c, d) = choose|a: int, b: int, c: int, d: int|
                identifier_in(s, p, a) && #[trigger] declares(s, a, b, c, d, e);
            assert(!class_at(s, a, CharClass::IdentPart)) by {
                if a < b {
                    assert(CharClass::Whitespace.holds(s[a]));
                }
            }
            lemma_run_end_is(s, p + 1, a, CharClass::IdentPart);
            lemma_run_end_is(s, a, b, CharClass::Whitespace);
            lemma_value_first(s, c, d);
            lemma_run_end_is(s, b + 1, c, CharClass::Whitespace);
            assert(!class_at(s, d, CharClass::IdentPart)) by {
                if d < e - 1 {
                    assert(CharClass::Whitespace.holds(s[d]));
                }
            }
            lemma_value_span(s, c, d);
            lemma_run_end_is(s, d, e - 1, CharClass::Whitespace);
        }
    }
}

/// A value begins with `#`, a digit, a letter or `_`: with no whitespace.
pub proof fn lemma_value_first(s: Seq<char>, p: int, e: int)
    requires
        value_in(s, p, e),
    ensures
        0 <= p < s.len(),
        !CharClass::Whitespace.holds(s[p]),
{
    if dimension_in(s, p, e) {
        let k = choose|k: int| #[trigger] number_in(s, p, k) && unit_in(s, k, e);
        if all_in(s, p, k, CharClass::Digit) {
            assert(CharClass::Digit.holds(s[p]));
        } else {
            let dot = choose|dot: int|
                p < dot < k - 1 && at(s, dot, '.') && #[trigger] all_in(
                    s,
                    p,
                    dot,
                    CharClass::Digit,
                ) && all_in(s, dot + 1, k, CharClass::Digit);
            assert(CharClass::Digit.holds(s[p]));
        }
    }
}

/// A property declaration begins with a letter or `_`.
pub proof fn lemma_property_first(s: Seq<char>, p: int, e: int)
    requires
        property_in(s, p, e),
    ensures
        class_at(s, p, CharClass::IdentStart),
        p < e <= s.len(),
{
    let (a, b, c, d) = choose|a: int, b: int, c: int, d: int|
        identifier_in(s, p, a) && #[trigger] declares(s, a, b, c, d, e);
}

/// The list of property declarations from `p` on goes up to `close`, where
/// neither a declaration nor whitespace can go on, exactly where
/// declarations stand from `p` up to `close`.
pub proof fn lemma_declarations_span(s: Seq<char>, p: int, close: int)
    requires
        0 <= p <= s.len(),
        close <= s.len(),
        !class_at(s, close, CharClass::IdentStart),
        !class_at(s, close, CharClass::Whitespace),
    ensures
        (property_list_at(s, p) matches Ok(list) && after_list(s, p, list) == close)
            <==> declarations_in(s, p, close),
    decreases s.len() - p,
{
    if class_at(s, p, CharClass::IdentStart) {
        lemma_property_at(s, p);
        if let Ok(first) = property_at(s, p) {
            let next = run_end(s, first.end, CharClass::Whitespace);
            lemma_run_end(s, first.end, CharClass::Whitespace);
            lemma_property_span(s, p, first.end);
            lemma_declarations_span(s, next, close);
            if let Ok(more) = property_list_at(s, next) {
                let list = seq![first] + more;
                assert(list.last().end == if more.len() == 0 {
                    first.end
                } else {
                    more.last().end
                });
                assert(after_list(s, p, list) == after_list(s, next, more));
                if after_list(s, next, more) == close {
                    assert(all_in(s, first.end, next, CharClass::Whitespace));
                    assert(declarations_in(s, p, close));
                }
            }
        }
        if declarations_in(s, p, close) {
            let (e, next) = choose|e: int, next: int|
                p < e <= next <= close && property_in(s, p, e) && #[trigger] all_in(
                    s,
                    e,
                    next,
                    CharClass::Whitespace,
                ) && declarations_in(s, next, close);
            lemma_property_span(s, p, e);
            if next < close {
                let (e2, next2) = choose|e2: int, next2: int|
                    next < e2 <= next2 <= close && property_in(s, next, e2) && #[trigger] all_in(
                        s,
                        e2,
                        next2,
                        CharClass::Whitespace,
                    ) && declarations_in(s, next2, close);
                lemma_property_first(s, next, e2);
            }
            lemma_property_first(s, p, e);
            lemma_run_end_is(s, e, next, CharClass::Whitespace);
            lemma_declarations_span(s, next, close);
        }
    } else {
        if declarations_in(s, p, close) && p != close {
            let (e, next) = choose|e: int, next: int|
                p < e <= next <= close && property_in(s, p, e) && #[trigger] all_in(
                    s,
                    e,
                    next,
                    CharClass::Whitespace,
                ) && declarations_in(s, next, close);
            lemma_property_first(s, p, e);
        }
    }
}

/// The `css_block` rule matches from `p` up to `e` exactly where a block
/// stands there.
pub proof fn lemma_block_span(s: Seq<char>, p: int, e: int)
    requires
        0 <= p <= s.len(),
    ensures
        ends_at(css_block_at(s, p), e) <==> block_in(s, p, e),
{
    lemma_rule_at(Rule::selector, s, p);
    if let Ok(selector) = selector_at(s, p) {
        lemma_selector_span(s, p, selector.end);
        let open = run_end(s, selector.end, CharClass::Whitespace);
        lemma_run_end(s, selector.end, CharClass::Whitespace);
        if at(s, open, '{') {
            let first = run_end(s, open + 1, CharClass::Whitespace);
            lemma_run_end(s, open + 1, CharClass::Whitespace);
            lemma_property_list_at(s, first);
            if ends_at(css_block_at(s, p), e) {
                lemma_declarations_span(s, first, e - 1);
                assert(encloses(s, selector.end, open, first, e));
            }
        }
    }
    if block_in(s, p, e) {
        let (a, b, c) = choose|a: int, b: int, c: int|
            selector_in(s, p, a) && #[trigger] encloses(s, a, b, c, e);
        assert(!class_at(s, a, CharClass::IdentPart)) by {
            if a < b {
                assert(CharClass::Whitespace.holds(s[a]));
            }
        }
        lemma_selector_span(s, p, a);
        lemma_run_end_is(s, a, b, CharClass::Whitespace);
        if c < e - 1 {
            let (e2, next2) = choose|e2: int, next2: int|
                c < e2 <= next2 <= e - 1 && property_in(s, c, e2) && #[trigger] all_in(
                    s,
                    e2,
                    next2,
                    CharClass::Whitespace,
                ) && declarations_in(s, next2, e - 1);
            lemma_property_first(s, c, e2);
        }
        lemma_run_end_is(s, b + 1, c, CharClass::Whitespace);
        lemma_declarations_span(s, c, e - 1);
    }
}

/// A block begins with what a selector begins with.
pub proof fn lemma_block_first(s: Seq<char>, p: int, e: int)
    requires
        block_in(s, p, e),
    ensures
        selector_starts(s, p),
        p < e <= s.len(),
{
    let (a, b, c) = choose|a: int, b: int, c: int|
        selector_in(s, p, a) && #[trigger] encloses(s, a, b, c, e);
}

/// The list of blocks from `p` on goes up to the end of the input exactly
/// where blocks stand from `p` up to the end.
pub proof fn lemma_blocks_span(s: Seq<char>, p: int)
    requires
        0 <= p <= s.len(),
    ensures
        block_list_at(s, p) is Ok <==> blocks_in(s, p),
    decreases s.len() - p,
{
    if p < s.len() {
        if selector_starts(s, p) {
            lemma_css_block_at(s, p);
            if let Ok(first) = css_block_at(s, p) {
                let next = run_end(s, first.end, CharClass::Whitespace);
                lemma_run_end(s, first.end, CharClass::Whitespace);
                lemma_block_span(s, p, first.end);
                lemma_blocks_span(s, next);
                if block_list_at(s, next) is Ok {
                    assert(all_in(s, first.end, next, CharClass::Whitespace));
                    assert(blocks_in(s, p));
                }
            }
        }
        if blocks_in(s, p) {
            let (e, next) = choose|e: int, next: int|
                p < e <= next <= s.len() && block_in(s, p, e) && #[trigger] all_in(
                    s,
                    e,
                    next,
                    CharClass::Whitespace,
                ) && blocks_in(s, next);
            lemma_block_first(s, p, e);
            lemma_block_span(s, p, e);
            if next < s.len() {
                let (e2, next2) = choose|e2: int, next2: int|
                    next < e2 <= next2 <= s.len() && block_in(s, next, e2) && #[trigger] all_in(
                        s,
                        e2,
                        next2,
                        CharClass::Whitespace,
                    ) && blocks_in(s, next2);
                lemma_block_first(s, next, e2);
            }
            lemma_run_end_is(s, e, next, CharClass::Whitespace);
            lemma_blocks_span(s, next);
        }
    }
}

/// A parse of a whole input under `css_block` succeeds exactly on the
/// documents.
pub proof fn lemma_document_language(s: Seq<char>)
    ensures
        parse_outcome(Rule::css_block, s) is Ok <==> is_document(s),
{
    let first = run_end(s, 0, CharClass::Whitespace);
    lemma_run_end(s, 0, CharClass::Whitespace);
    lemma_blocks_span(s, first);
    if blocks_in(s, first) {
        assert(all_in(s, 0, first, CharClass::Whitespace));
    }
    if is_document(s) {
        let p = choose|p: int|
            0 <= p <= s.len() && #[trigger] all_in(s, 0, p, CharClass::Whitespace) && blocks_in(
                s,
                p,
            );
        if p < s.len() {
            let (e, next) = choose|e: int, next: int|
                p < e <= next <= s.len() && block_in(s, p, e) && #[trigger] all_in(
                    s,
                    e,
                    next,
                    CharClass::Whitespace,
                ) && blocks_in(s, next);
            lemma_block_first(s, p, e);
        }
        lemma_run_end_is(s, 0, p, CharClass::Whitespace);
    }
}

/// A parse of a whole input under `selector` succeeds exactly on the
/// selectors.
pub proof fn lemma_selector_language(s: Seq<char>)
    ensures
        parse_outcome(Rule::selector, s) is Ok <==> is_selector(s),
{
    lemma_selector_span(s, 0, s.len() as int);
    lemma_parse_outcome(Rule::selector, s);
}

/// A parse of a whole input under `dimension` succeeds exactly on the
/// dimensions.
pub proof fn lemma_dimension_language(s: Seq<char>)
    ensures
        parse_outcome(Rule::dimension, s) is Ok <==> is_dimension(s),
{
    lemma_dimension_span(s, 0, s.len() as int);
    lemma_parse_outcome(Rule::dimension, s);
}

/// A parse of a whole input under `property` succeeds exactly on the
/// property declarations.
pub proof fn lemma_property_language(s: Seq<char>)
    ensures
        parse_outcome(Rule::property, s) is Ok <==> is_property(s),
{
    lemma_property_span(s, 0, s.len() as int);
    lemma_parse_outcome(Rule::property, s);
}

/// The pattern of a color literal accepts exactly the texts that the
/// `hex_color` rule takes from their start to their end.
pub proof fn lemma_hex_color_language(s: Seq<char>)
    ensures
        is_hex_color(s) <==> ends_at(hex_color_at(s, 0), s.len() as int),
{
    lemma_hex_color_span(s, 0, s.len() as int);
}

/// A parse under `hex_digit` succeeds exactly on the inputs that begin with
/// a hexadecimal digit.
pub proof fn lemma_hex_digit_language(s: Seq<char>)
    ensures
        parse_outcome(Rule::hex_digit, s) is Ok <==> starts_with_hex_digit(s),
{
}

} // verus!
