//! The recognizer: the grammar's rules run over an input, each giving the
//! match tree or the syntax error that the grammar defines.

use crate::ascii::{ascii_between, cut};
use crate::chars::{lemma_run_end, scan_run, scan_unit, CharClass};
use crate::grammar::{
    block_list_at, class_token_at, css_block_at, dimension_at, eoi_at, expecting, group,
    hex_color_at, identifier_at, leaf, lemma_property_list_at, lemma_rule_at, list_sound,
    marked_at, node, parse_outcome, properties_at, property_at, property_list_at, rule_at,
    selector_at, then_all, token_at, unit_at, value_at, wrap, Failure, Outcome, Rule, Tree,
};
use vstd::prelude::*;

verus! {

/// A match of one rule: the span it took, in characters from the start of
/// the input, the text of that span, and the matches inside it.
#[derive(Debug, PartialEq, Eq)]
pub struct Pair {
    pub rule: Rule,
    pub start: usize,
    pub end: usize,
    pub text: String,
    pub children: Vec<Pair>,
}

/// The tree that a match stands for.
pub open spec fn tree_of(pair: Pair) -> Tree
    decreases pair, 1nat,
{
    Tree {
        rule: pair.rule,
        start: pair.start as int,
        end: pair.end as int,
        text: pair.text@,
        children: trees(pair.children@),
    }
}

/// The trees of a sequence of matches, one for one.
pub open spec fn trees(pairs: Seq<Pair>) -> Seq<Tree>
    decreases pairs, 0nat,
{
    if pairs.len() == 0 {
        Seq::empty()
    } else {
        trees(pairs.drop_last()).push(tree_of(pairs.last()))
    }
}

impl View for Pair {
    type V = Tree;

    open spec fn view(&self) -> Tree {
        tree_of(*self)
    }
}

/// `trees` keeps the length and takes each match to its tree.
pub proof fn lemma_trees(pairs: Seq<Pair>)
    ensures
        trees(pairs).len() == pairs.len(),
        forall|i: int| 0 <= i < pairs.len() ==> (#[trigger] trees(pairs)[i]) == pairs[i]@,
    decreases pairs.len(),
{
    if pairs.len() > 0 {
        lemma_trees(pairs.drop_last());
    }
}

/// The trees of a sequence with one more match at its end.
pub proof fn lemma_trees_push(pairs: Seq<Pair>, pair: Pair)
    ensures
        trees(pairs.push(pair)) == trees(pairs).push(pair@),
{
    assert(pairs.push(pair).drop_last() =~= pairs);
}

/// Why an input does not match: how far it could be taken, and the rules of
/// which one had to begin there.
#[derive(Debug, PartialEq, Eq)]
pub struct SyntaxError {
    pub position: usize,
    pub expected: Vec<Rule>,
}

impl View for SyntaxError {
    type V = Failure;

    open spec fn view(&self) -> Failure {
        Failure { position: self.position as int, expected: self.expected@ }
    }
}

/// The outcome that the result of one rule stands for.
pub open spec fn outcome_of(r: Result<Pair, SyntaxError>) -> Outcome {
    match r {
        Ok(pair) => Ok(pair@),
        Err(e) => Err(e@),
    }
}

/// The outcome that the result of a list of matches stands for.
pub open spec fn outcomes_of(r: Result<Vec<Pair>, SyntaxError>) -> Result<Seq<Tree>, Failure> {
    match r {
        Ok(pairs) => Ok(trees(pairs@)),
        Err(e) => Err(e@),
    }
}

/// The characters of `input`, one by one.
pub fn characters(input: &str) -> (chars: Vec<char>)
    ensures
        chars@ == input@,
{
    let mut chars: Vec<char> = Vec::new();
    for c in it: input.chars()
        invariant
            chars@ == it.seq().take(it.index() as int),
            it.seq() == input@,
    {
        chars.push(c);
    }
    chars
}

/// Makes the match of `rule` over the characters from `start` up to `end`,
/// without children.
fn make_leaf(input: &str, rule: Rule, start: usize, end: usize) -> (pair: Pair)
    requires
        start <= end <= input@.len(),
        ascii_between(input@, 0, end as int),
    ensures
        pair@ == leaf(rule, input@, start as int, end as int),
{
    let text = cut(input, start, end).to_owned();
    Pair { rule, start, end, text, children: Vec::new() }
}

/// Makes the match of `rule` over the characters from `start` up to `end`,
/// with `children` inside it.
fn make_node(input: &str, rule: Rule, start: usize, end: usize, children: Vec<Pair>) -> (pair:
    Pair)
    requires
        start <= end <= input@.len(),
        ascii_between(input@, 0, end as int),
    ensures
        pair@ == node(rule, input@, start as int, end as int, trees(children@)),
{
    let text = cut(input, start, end).to_owned();
    Pair { rule, start, end, text, children }
}

/// The syntax error at `position` that expects `rule`.
fn failure(position: usize, rule: Rule) -> (e: SyntaxError)
    ensures
        e@ == expecting(position as int, rule),
{
    let mut expected: Vec<Rule> = Vec::new();
    expected.push(rule);
    let e = SyntaxError { position, expected };
    assert(e@.expected =~= seq![rule]);
    e
}

/// The syntax error at `position` that expects `first` or `second`.
fn failure_of_two(position: usize, first: Rule, second: Rule) -> (e: SyntaxError)
    ensures
        e@ == (Failure { position: position as int, expected: seq![first, second] }),
{
    let mut expected: Vec<Rule> = Vec::new();
    expected.push(first);
    expected.push(second);
    let e = SyntaxError { position, expected };
    assert(e@.expected =~= seq![first, second]);
    e
}

/// Puts the match of `inner` under a match of `rule` over the same span.
fn rewrap(input: &str, rule: Rule, inner: Result<Pair, SyntaxError>) -> (r: Result<
    Pair,
    SyntaxError,
>)
    requires
        inner matches Ok(pair) ==> pair.start <= pair.end <= input@.len() && ascii_between(
            input@,
            0,
            pair.end as int,
        ),
    ensures
        outcome_of(r) == wrap(rule, input@, outcome_of(inner)),
{
    match inner {
        Err(e) => Err(e),
        Ok(pair) => {
            let start: usize = pair.start;
            let end: usize = pair.end;
            let mut children: Vec<Pair> = Vec::new();
            proof {
                lemma_trees_push(children@, pair);
                assert(trees(children@).push(pair@) =~= seq![pair@]);
            }
            children.push(pair);
            Ok(make_node(input, rule, start, end, children))
        },
    }
}

/// Runs the `EOI` rule at `p`.
fn match_eoi(input: &str, chars: &Vec<char>, p: usize) -> (r: Result<Pair, SyntaxError>)
    requires
        chars@ == input@,
        p <= chars.len(),
        ascii_between(input@, 0, p as int),
    ensures
        outcome_of(r) == eoi_at(input@, p as int),
{
    if p == chars.len() {
        Ok(make_leaf(input, Rule::EOI, p, p))
    } else {
        Err(failure(p, Rule::EOI))
    }
}

/// Runs at `p` a rule that is the single character `c`.
fn match_token(input: &str, chars: &Vec<char>, p: usize, c: char, rule: Rule) -> (r: Result<
    Pair,
    SyntaxError,
>)
    requires
        chars@ == input@,
        p <= chars.len(),
        ascii_between(input@, 0, p as int),
        c <= '\u{7f}',
    ensures
        outcome_of(r) == token_at(input@, p as int, c, rule),
{
    if p < chars.len() && chars[p] == c {
        Ok(make_leaf(input, rule, p, p + 1))
    } else {
        Err(failure(p, rule))
    }
}

/// Runs at `p` a rule that is a single character of `class`.
fn match_class_token(
    input: &str,
    chars: &Vec<char>,
    p: usize,
    class: CharClass,
    rule: Rule,
) -> (r: Result<Pair, SyntaxError>)
    requires
        chars@ == input@,
        p <= chars.len(),
        ascii_between(input@, 0, p as int),
    ensures
        outcome_of(r) == class_token_at(input@, p as int, class, rule),
{
    if p < chars.len() && class.contains(chars[p]) {
        Ok(make_leaf(input, rule, p, p + 1))
    } else {
        Err(failure(p, rule))
    }
}

/// Runs the `hex_color` rule at `p`.
fn match_hex_color(input: &str, chars: &Vec<char>, p: usize) -> (r: Result<Pair, SyntaxError>)
    requires
        chars@ == input@,
        p <= chars.len(),
        ascii_between(input@, 0, p as int),
    ensures
        outcome_of(r) == hex_color_at(input@, p as int),
{
    if !(p < chars.len() && chars[p] == '#') {
        return Err(failure(p, Rule::hex_color));
    }
    let digits_end: usize = scan_run(chars, p + 1, CharClass::HexDigit);
    if digits_end - p >= 7 {
        Ok(make_leaf(input, Rule::hex_color, p, p + 7))
    } else {
        Err(failure(digits_end, Rule::hex_digit))
    }
}

/// Runs the `unit` rule at `p`.
fn match_unit(input: &str, chars: &Vec<char>, p: usize) -> (r: Result<Pair, SyntaxError>)
    requires
        chars@ == input@,
        p <= chars.len(),
        ascii_between(input@, 0, p as int),
    ensures
        outcome_of(r) == unit_at(input@, p as int),
{
    let unit: usize = scan_unit(chars, p);
    if unit > 0 {
        Ok(make_leaf(input, Rule::unit, p, p + unit))
    } else {
        Err(failure(p, Rule::unit))
    }
}

/// Runs the `dimension` rule at `p`.
fn match_dimension(input: &str, chars: &Vec<char>, p: usize) -> (r: Result<Pair, SyntaxError>)
    requires
        chars@ == input@,
        p <= chars.len(),
        ascii_between(input@, 0, p as int),
    ensures
        outcome_of(r) == dimension_at(input@, p as int),
{
    let whole_end: usize = scan_run(chars, p, CharClass::Digit);
    if whole_end == p {
        return Err(failure(p, Rule::dimension));
    }
    let mut number_end: usize = whole_end;
    if whole_end < chars.len() && chars[whole_end] == '.' {
        let fraction_end: usize = scan_run(chars, whole_end + 1, CharClass::Digit);
        if fraction_end == whole_end + 1 {
            return Err(failure(fraction_end, Rule::digit));
        }
        number_end = fraction_end;
    }
    let unit: usize = scan_unit(chars, number_end);
    if unit > 0 {
        Ok(make_leaf(input, Rule::dimension, p, number_end + unit))
    } else {
        Err(failure(number_end, Rule::unit))
    }
}

/// Runs the `identifier` rule at `p`.
fn match_identifier(input: &str, chars: &Vec<char>, p: usize) -> (r: Result<Pair, SyntaxError>)
    requires
        chars@ == input@,
        p <= chars.len(),
        ascii_between(input@, 0, p as int),
    ensures
        outcome_of(r) == identifier_at(input@, p as int),
{
    if p < chars.len() && CharClass::IdentStart.contains(chars[p]) {
        let end: usize = scan_run(chars, p + 1, CharClass::IdentPart);
        Ok(make_leaf(input, Rule::identifier, p, end))
    } else {
        Err(failure(p, Rule::identifier))
    }
}

/// Runs the `class_selector` or the `id_selector` rule at `p`.
fn match_marked(input: &str, chars: &Vec<char>, p: usize, mark: char, rule: Rule) -> (r: Result<
    Pair,
    SyntaxError,
>)
    requires
        chars@ == input@,
        p <= chars.len(),
        ascii_between(input@, 0, p as int),
        mark <= '\u{7f}',
    ensures
        outcome_of(r) == marked_at(input@, p as int, mark, rule),
{
    if !(p < chars.len() && chars[p] == mark) {
        return Err(failure(p, rule));
    }
    match match_identifier(input, chars, p + 1) {
        Err(e) => Err(e),
        Ok(name) => {
            proof {
                lemma_rule_at(Rule::identifier, input@, p + 1);
            }
            Ok(make_leaf(input, rule, p, name.end))
        },
    }
}

/// Runs the `selector` rule at `p`.
fn match_selector(input: &str, chars: &Vec<char>, p: usize) -> (r: Result<Pair, SyntaxError>)
    requires
        chars@ == input@,
        p <= chars.len(),
        ascii_between(input@, 0, p as int),
    ensures
        outcome_of(r) == selector_at(input@, p as int),
{
    proof {
        lemma_rule_at(Rule::class_selector, input@, p as int);
        lemma_rule_at(Rule::id_selector, input@, p as int);
        lemma_rule_at(Rule::identifier, input@, p as int);
    }
    if p >= chars.len() {
        Err(failure(p, Rule::selector))
    } else if chars[p] == '.' {
        rewrap(input, Rule::selector, match_marked(input, chars, p, '.', Rule::class_selector))
    } else if chars[p] == '#' {
        rewrap(input, Rule::selector, match_marked(input, chars, p, '#', Rule::id_selector))
    } else if CharClass::IdentStart.contains(chars[p]) {
        rewrap(input, Rule::selector, match_identifier(input, chars, p))
    } else {
        Err(failure(p, Rule::selector))
    }
}

/// Runs the `value` rule at `p`.
fn match_value(input: &str, chars: &Vec<char>, p: usize) -> (r: Result<Pair, SyntaxError>)
    requires
        chars@ == input@,
        p <= chars.len(),
        ascii_between(input@, 0, p as int),
    ensures
        outcome_of(r) == value_at(input@, p as int),
{
    proof {
        lemma_rule_at(Rule::hex_color, input@, p as int);
        lemma_rule_at(Rule::dimension, input@, p as int);
        lemma_rule_at(Rule::identifier, input@, p as int);
    }
    if p >= chars.len() {
        Err(failure(p, Rule::value))
    } else if chars[p] == '#' {
        rewrap(input, Rule::value, match_hex_color(input, chars, p))
    } else if CharClass::Digit.contains(chars[p]) {
        rewrap(input, Rule::value, match_dimension(input, chars, p))
    } else if CharClass::IdentStart.contains(chars[p]) {
        rewrap(input, Rule::value, match_identifier(input, chars, p))
    } else {
        Err(failure(p, Rule::value))
    }
}

/// Runs the `property` rule at `p`.
fn match_property(input: &str, chars: &Vec<char>, p: usize) -> (r: Result<Pair, SyntaxError>)
    requires
        chars@ == input@,
        p <= chars.len(),
        ascii_between(input@, 0, p as int),
    ensures
        outcome_of(r) == property_at(input@, p as int),
{
    if !(p < chars.len() && CharClass::IdentStart.contains(chars[p])) {
        return Err(failure(p, Rule::property));
    }
    let name_end: usize = scan_run(chars, p + 1, CharClass::IdentPart);
    let colon: usize = scan_run(chars, name_end, CharClass::Whitespace);
    if !(colon < chars.len() && chars[colon] == ':') {
        return Err(failure(colon, Rule::colon));
    }
    let value_start: usize = scan_run(chars, colon + 1, CharClass::Whitespace);
    match match_value(input, chars, value_start) {
        Err(e) => Err(e),
        Ok(value) => {
            proof {
                lemma_rule_at(Rule::value, input@, value_start as int);
            }
            let semicolon: usize = scan_run(chars, value.end, CharClass::Whitespace);
            if !(semicolon < chars.len() && chars[semicolon] == ';') {
                return Err(failure(semicolon, Rule::semicolon));
            }
            let name = make_leaf(input, Rule::identifier, p, name_end);
            let mut children: Vec<Pair> = Vec::new();
            proof {
                lemma_trees_push(children@, name);
                lemma_trees_push(children@.push(name), value);
                assert(trees(children@).push(name@).push(value@) =~= seq![name@, value@]);
            }
            children.push(name);
            children.push(value);
            Ok(make_node(input, Rule::property, p, semicolon + 1, children))
        },
    }
}

/// Takes the property declarations that stand from `p` on.
fn match_property_list(input: &str, chars: &Vec<char>, p: usize) -> (r: Result<
    Vec<Pair>,
    SyntaxError,
>)
    requires
        chars@ == input@,
        p <= chars.len(),
        ascii_between(input@, 0, p as int),
    ensures
        outcomes_of(r) == property_list_at(input@, p as int),
{
    let mut list: Vec<Pair> = Vec::new();
    let mut cur: usize = p;
    while cur < chars.len() && CharClass::IdentStart.contains(chars[cur])
        invariant
            chars@ == input@,
            p <= cur <= chars.len(),
            ascii_between(input@, 0, cur as int),
            property_list_at(input@, p as int) == then_all(
                trees(list@),
                property_list_at(input@, cur as int),
            ),
        decreases chars.len() - cur,
    {
        match match_property(input, chars, cur) {
            Err(e) => {
                return Err(e);
            },
            Ok(pair) => {
                proof {
                    lemma_rule_at(Rule::property, input@, cur as int);
                    lemma_run_end(input@, pair.end as int, CharClass::Whitespace);
                }
                let next: usize = scan_run(chars, pair.end, CharClass::Whitespace);
                proof {
                    let done = trees(list@);
                    let rest = property_list_at(input@, next as int);
                    lemma_trees_push(list@, pair);
                    assert(done.push(pair@) =~= done + seq![pair@]);
                    if let Ok(more) = rest {
                        assert(done + (seq![pair@] + more) =~= (done + seq![pair@]) + more);
                    }
                }
                list.push(pair);
                cur = next;
            },
        }
    }
    assert(trees(list@) + Seq::<Tree>::empty() =~= trees(list@));
    Ok(list)
}

/// The ends of the matches in a sound list lie inside the input.
proof fn lemma_list_ends(rule: Rule, s: Seq<char>, p: int, list: Seq<Pair>)
    requires
        list_sound(rule, s, p, Ok(trees(list))),
    ensures
        forall|i: int| 0 <= i < list.len() ==> p <= (#[trigger] list[i]).end <= s.len(),
{
    lemma_trees(list);
    assert forall|i: int| 0 <= i < list.len() implies p <= (#[trigger] list[i]).end <= s.len() by {
        assert(trees(list)[i] == list[i]@);
    }
}

/// The `properties` match over `list`, which began at `p`.
fn make_group(input: &str, p: usize, list: Vec<Pair>) -> (pair: Pair)
    requires
        p <= input@.len(),
        forall|i: int| 0 <= i < list.len() ==> p <= (#[trigger] list[i]).end <= input@.len(),
        list.len() == 0 ==> ascii_between(input@, 0, p as int),
        list.len() > 0 ==> ascii_between(input@, 0, list[list.len() - 1].end as int),
    ensures
        pair@ == group(input@, p as int, trees(list@)),
{
    let end: usize = if list.len() == 0 {
        p
    } else {
        list[list.len() - 1].end
    };
    proof {
        lemma_trees(list@);
    }
    make_node(input, Rule::properties, p, end, list)
}

/// Runs the `properties` rule at `p`.
fn match_properties(input: &str, chars: &Vec<char>, p: usize) -> (r: Result<Pair, SyntaxError>)
    requires
        chars@ == input@,
        p <= chars.len(),
        ascii_between(input@, 0, p as int),
    ensures
        outcome_of(r) == properties_at(input@, p as int),
{
    match match_property_list(input, chars, p) {
        Err(e) => Err(e),
        Ok(list) => {
            proof {
                lemma_property_list_at(input@, p as int);
                lemma_list_ends(Rule::property, input@, p as int, list@);
                lemma_trees(list@);
                if list.len() > 0 {
                    lemma_run_end(
                        input@,
                        list[list.len() - 1].end as int,
                        CharClass::Whitespace,
                    );
                }
            }
            Ok(make_group(input, p, list))
        },
    }
}

/// Runs the `css_block` rule at `p`.
fn match_css_block(input: &str, chars: &Vec<char>, p: usize) -> (r: Result<Pair, SyntaxError>)
    requires
        chars@ == input@,
        p <= chars.len(),
        ascii_between(input@, 0, p as int),
    ensures
        outcome_of(r) == css_block_at(input@, p as int),
{
    match match_selector(input, chars, p) {
        Err(e) => Err(e),
        Ok(selector) => {
            proof {
                lemma_rule_at(Rule::selector, input@, p as int);
            }
            let open: usize = scan_run(chars, selector.end, CharClass::Whitespace);
            if !(open < chars.len() && chars[open] == '{') {
                return Err(failure(open, Rule::open_brace));
            }
            let first: usize = scan_run(chars, open + 1, CharClass::Whitespace);
            match match_property_list(input, chars, first) {
                Err(e) => Err(e),
                Ok(list) => {
                    proof {
                        lemma_property_list_at(input@, first as int);
                        lemma_list_ends(Rule::property, input@, first as int, list@);
                        lemma_trees(list@);
                    }
                    let close: usize = if list.len() == 0 {
                        first
                    } else {
                        scan_run(chars, list[list.len() - 1].end, CharClass::Whitespace)
                    };
                    if !(close < chars.len() && chars[close] == '}') {
                        return Err(failure_of_two(close, Rule::property, Rule::close_brace));
                    }
                    let properties = make_group(input, first, list);
                    let mut children: Vec<Pair> = Vec::new();
                    proof {
                        lemma_trees_push(children@, selector);
                        lemma_trees_push(children@.push(selector), properties);
                        assert(trees(children@).push(selector@).push(properties@) =~= seq![
                            selector@,
                            properties@,
                        ]);
                    }
                    children.push(selector);
                    children.push(properties);
                    Ok(make_node(input, Rule::css_block, p, close + 1, children))
                },
            }
        },
    }
}

/// Takes the blocks that stand from `p` to the end of the input.
fn match_block_list(input: &str, chars: &Vec<char>, p: usize) -> (r: Result<
    Vec<Pair>,
    SyntaxError,
>)
    requires
        chars@ == input@,
        p <= chars.len(),
        ascii_between(input@, 0, p as int),
    ensures
        outcomes_of(r) == block_list_at(input@, p as int),
{
    let mut list: Vec<Pair> = Vec::new();
    let mut cur: usize = p;
    while cur < chars.len()
        invariant
            chars@ == input@,
            p <= cur <= chars.len(),
            ascii_between(input@, 0, cur as int),
            block_list_at(input@, p as int) == then_all(
                trees(list@),
                block_list_at(input@, cur as int),
            ),
        decreases chars.len() - cur,
    {
        let c = chars[cur];
        if !(c == '.' || c == '#' || CharClass::IdentStart.contains(c)) {
            return Err(failure_of_two(cur, Rule::css_block, Rule::EOI));
        }
        match match_css_block(input, chars, cur) {
            Err(e) => {
                return Err(e);
            },
            Ok(pair) => {
                proof {
                    lemma_rule_at(Rule::css_block, input@, cur as int);
                    lemma_run_end(input@, pair.end as int, CharClass::Whitespace);
                }
                let next: usize = scan_run(chars, pair.end, CharClass::Whitespace);
                proof {
                    let done = trees(list@);
                    let rest = block_list_at(input@, next as int);
                    lemma_trees_push(list@, pair);
                    assert(done.push(pair@) =~= done + seq![pair@]);
                    if let Ok(more) = rest {
                        assert(done + (seq![pair@] + more) =~= (done + seq![pair@]) + more);
                    }
                }
                list.push(pair);
                cur = next;
            },
        }
    }
    assert(trees(list@) + Seq::<Tree>::empty() =~= trees(list@));
    Ok(list)
}

/// Runs `rule` at `p`.
fn match_rule(rule: Rule, input: &str, chars: &Vec<char>, p: usize) -> (r: Result<
    Pair,
    SyntaxError,
>)
    requires
        chars@ == input@,
        p <= chars.len(),
        ascii_between(input@, 0, p as int),
    ensures
        outcome_of(r) == rule_at(rule, input@, p as int),
{
    match rule {
        Rule::EOI => match_eoi(input, chars, p),
        Rule::digit => match_class_token(input, chars, p, CharClass::Digit, Rule::digit),
        Rule::hex_digit => match_class_token(input, chars, p, CharClass::HexDigit, Rule::hex_digit),
        Rule::hex_color => match_hex_color(input, chars, p),
        Rule::unit => match_unit(input, chars, p),
        Rule::dimension => match_dimension(input, chars, p),
        Rule::identifier => match_identifier(input, chars, p),
        Rule::class_selector => match_marked(input, chars, p, '.', Rule::class_selector),
        Rule::id_selector => match_marked(input, chars, p, '#', Rule::id_selector),
        Rule::selector => match_selector(input, chars, p),
        Rule::value => match_value(input, chars, p),
        Rule::colon => match_token(input, chars, p, ':', Rule::colon),
        Rule::semicolon => match_token(input, chars, p, ';', Rule::semicolon),
        Rule::property => match_property(input, chars, p),
        Rule::properties => match_properties(input, chars, p),
        Rule::open_brace => match_token(input, chars, p, '{', Rule::open_brace),
        Rule::close_brace => match_token(input, chars, p, '}', Rule::close_brace),
        Rule::css_block => match_css_block(input, chars, p),
    }
}

/// The parser of the stylesheet grammar.
pub struct CSSParser;

impl CSSParser {
    /// Parses `input` under `rule` and returns the top-level matches, or the
    /// syntax error where the input does not conform.
    pub fn parse(rule: Rule, input: &str) -> (r: Result<Vec<Pair>, SyntaxError>)
        ensures
            outcomes_of(r) == parse_outcome(rule, input@),
    {
        let chars = characters(input);
        match rule {
            Rule::css_block => {
                let first: usize = scan_run(&chars, 0, CharClass::Whitespace);
                match_block_list(input, &chars, first)
            },
            _ => {
                match match_rule(rule, input, &chars, 0) {
                    Err(e) => Err(e),
                    Ok(pair) => {
                        proof {
                            lemma_rule_at(rule, input@, 0);
                        }
                        let anchored = match rule {
                            Rule::selector | Rule::property | Rule::dimension => true,
                            _ => false,
                        };
                        if anchored && pair.end != chars.len() {
                            Err(failure(pair.end, Rule::EOI))
                        } else {
                            let mut pairs: Vec<Pair> = Vec::new();
                            proof {
                                lemma_trees_push(pairs@, pair);
                                assert(trees(pairs@).push(pair@) =~= seq![pair@]);
                            }
                            pairs.push(pair);
                            Ok(pairs)
                        }
                    },
                }
            },
        }
    }
}

} // verus!
