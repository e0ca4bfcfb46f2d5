use css_parser_project::chars::{scan_run, scan_unit, CharClass};
use css_parser_project::engine::characters;
use css_parser_project::{
    parse_properties, render_block, render_blocks, CSSParser, Pair, Rule, SyntaxError,
};

fn leaf(rule: Rule, start: usize, text: &str) -> Pair {
    node(rule, start, text, Vec::new())
}

fn node(rule: Rule, start: usize, text: &str, children: Vec<Pair>) -> Pair {
    Pair { rule, start, end: start + text.len(), text: text.to_string(), children }
}

fn failure(position: usize, expected: Vec<Rule>) -> SyntaxError {
    SyntaxError { position, expected }
}

#[test]
fn character_classes() {
    for c in " \t\n\r".chars() {
        assert!(CharClass::Whitespace.contains(c));
    }
    assert!(!CharClass::Whitespace.contains('\u{a0}'));
    assert!(!CharClass::Whitespace.contains('\u{b}'));
    assert!(CharClass::Digit.contains('0') && CharClass::Digit.contains('9'));
    assert!(!CharClass::Digit.contains('/') && !CharClass::Digit.contains(':'));
    assert!(!CharClass::Digit.contains('\u{ff11}'));
    assert!(CharClass::HexDigit.contains('f') && CharClass::HexDigit.contains('F'));
    assert!(!CharClass::HexDigit.contains('g') && !CharClass::HexDigit.contains('G'));
    assert!(!CharClass::HexDigit.contains('`') && !CharClass::HexDigit.contains('@'));
    assert!(CharClass::IdentStart.contains('a') && CharClass::IdentStart.contains('Z'));
    assert!(CharClass::IdentStart.contains('_'));
    assert!(!CharClass::IdentStart.contains('-') && !CharClass::IdentStart.contains('7'));
    assert!(!CharClass::IdentStart.contains('\u{e9}'));
    assert!(CharClass::IdentPart.contains('-') && CharClass::IdentPart.contains('7'));
    assert!(!CharClass::IdentPart.contains('.') && !CharClass::IdentPart.contains(' '));
}

#[test]
fn runs_and_units() {
    let chars = characters("  12ab%px");
    assert_eq!(chars.len(), 9);
    assert_eq!(scan_run(&chars, 0, CharClass::Whitespace), 2);
    assert_eq!(scan_run(&chars, 2, CharClass::Whitespace), 2);
    assert_eq!(scan_run(&chars, 2, CharClass::Digit), 4);
    assert_eq!(scan_run(&chars, 2, CharClass::HexDigit), 6);
    assert_eq!(scan_run(&chars, 4, CharClass::IdentPart), 6);
    assert_eq!(scan_run(&chars, 9, CharClass::Digit), 9);
    assert_eq!(scan_unit(&chars, 6), 1);
    assert_eq!(scan_unit(&chars, 7), 2);
    assert_eq!(scan_unit(&chars, 8), 0);
    assert_eq!(scan_unit(&chars, 9), 0);
    assert_eq!(scan_unit(&characters("em"), 0), 2);
    assert_eq!(scan_unit(&characters("pt"), 0), 2);
    assert_eq!(scan_unit(&characters("pm"), 0), 0);
    assert_eq!(scan_unit(&characters("ex"), 0), 0);
    assert_eq!(scan_unit(&characters("p"), 0), 0);
}

#[test]
fn characters_are_counted_not_bytes() {
    assert_eq!(characters("d\u{e9}j\u{e0}"), vec!['d', '\u{e9}', 'j', '\u{e0}']);
    assert_eq!(characters(""), Vec::<char>::new());
}

#[test]
fn selector_tree() {
    assert_eq!(
        CSSParser::parse(Rule::selector, ".header"),
        Ok(vec![node(Rule::selector, 0, ".header", vec![leaf(Rule::class_selector, 0, ".header")])])
    );
    assert_eq!(
        CSSParser::parse(Rule::selector, "#top"),
        Ok(vec![node(Rule::selector, 0, "#top", vec![leaf(Rule::id_selector, 0, "#top")])])
    );
    assert_eq!(
        CSSParser::parse(Rule::selector, "div"),
        Ok(vec![node(Rule::selector, 0, "div", vec![leaf(Rule::identifier, 0, "div")])])
    );
}

#[test]
fn property_tree() {
    let value = node(Rule::value, 8, "1.5em", vec![leaf(Rule::dimension, 8, "1.5em")]);
    let property = node(
        Rule::property,
        0,
        "margin: 1.5em ;",
        vec![leaf(Rule::identifier, 0, "margin"), value],
    );
    assert_eq!(CSSParser::parse(Rule::property, "margin: 1.5em ;"), Ok(vec![property]));
}

#[test]
fn value_tree() {
    assert_eq!(
        CSSParser::parse(Rule::value, "#ff0000;"),
        Ok(vec![node(Rule::value, 0, "#ff0000", vec![leaf(Rule::hex_color, 0, "#ff0000")])])
    );
    assert_eq!(
        CSSParser::parse(Rule::value, "blue "),
        Ok(vec![node(Rule::value, 0, "blue", vec![leaf(Rule::identifier, 0, "blue")])])
    );
    assert_eq!(CSSParser::parse(Rule::value, "'x'"), Err(failure(0, vec![Rule::value])));
}

#[test]
fn block_tree() {
    let input = "  .a { b: c; d:#123abc; }  e{} ";
    let first = node(
        Rule::css_block,
        2,
        ".a { b: c; d:#123abc; }",
        vec![
            node(Rule::selector, 2, ".a", vec![leaf(Rule::class_selector, 2, ".a")]),
            node(
                Rule::properties,
                7,
                "b: c; d:#123abc;",
                vec![
                    node(
                        Rule::property,
                        7,
                        "b: c;",
                        vec![
                            leaf(Rule::identifier, 7, "b"),
                            node(Rule::value, 10, "c", vec![leaf(Rule::identifier, 10, "c")]),
                        ],
                    ),
                    node(
                        Rule::property,
                        13,
                        "d:#123abc;",
                        vec![
                            leaf(Rule::identifier, 13, "d"),
                            node(
                                Rule::value,
                                15,
                                "#123abc",
                                vec![leaf(Rule::hex_color, 15, "#123abc")],
                            ),
                        ],
                    ),
                ],
            ),
        ],
    );
    let second = node(
        Rule::css_block,
        27,
        "e{}",
        vec![
            node(Rule::selector, 27, "e", vec![leaf(Rule::identifier, 27, "e")]),
            leaf(Rule::properties, 29, ""),
        ],
    );
    assert_eq!(CSSParser::parse(Rule::css_block, input), Ok(vec![first, second]));
}

#[test]
fn other_rules_match_at_the_start_and_leave_the_rest() {
    assert_eq!(CSSParser::parse(Rule::hex_color, "#a1B2c3d4"), Ok(vec![leaf(Rule::hex_color, 0, "#a1B2c3")]));
    assert_eq!(CSSParser::parse(Rule::hex_color, "#a1B2c"), Err(failure(6, vec![Rule::hex_digit])));
    assert_eq!(CSSParser::parse(Rule::hex_color, "a1B2c3"), Err(failure(0, vec![Rule::hex_color])));
    assert_eq!(CSSParser::parse(Rule::identifier, "ab-1 c"), Ok(vec![leaf(Rule::identifier, 0, "ab-1")]));
    assert_eq!(CSSParser::parse(Rule::identifier, "1ab"), Err(failure(0, vec![Rule::identifier])));
    assert_eq!(CSSParser::parse(Rule::class_selector, ".a b"), Ok(vec![leaf(Rule::class_selector, 0, ".a")]));
    assert_eq!(CSSParser::parse(Rule::class_selector, "#a"), Err(failure(0, vec![Rule::class_selector])));
    assert_eq!(CSSParser::parse(Rule::id_selector, "#a.b"), Ok(vec![leaf(Rule::id_selector, 0, "#a")]));
    assert_eq!(CSSParser::parse(Rule::id_selector, "#"), Err(failure(1, vec![Rule::identifier])));
    assert_eq!(CSSParser::parse(Rule::digit, "42"), Ok(vec![leaf(Rule::digit, 0, "4")]));
    assert_eq!(CSSParser::parse(Rule::digit, "x"), Err(failure(0, vec![Rule::digit])));
    assert_eq!(CSSParser::parse(Rule::hex_digit, "C4"), Ok(vec![leaf(Rule::hex_digit, 0, "C")]));
    assert_eq!(CSSParser::parse(Rule::unit, "pty"), Ok(vec![leaf(Rule::unit, 0, "pt")]));
    assert_eq!(CSSParser::parse(Rule::unit, "%"), Ok(vec![leaf(Rule::unit, 0, "%")]));
    assert_eq!(CSSParser::parse(Rule::unit, "cm"), Err(failure(0, vec![Rule::unit])));
    assert_eq!(CSSParser::parse(Rule::colon, ":"), Ok(vec![leaf(Rule::colon, 0, ":")]));
    assert_eq!(CSSParser::parse(Rule::semicolon, ";;"), Ok(vec![leaf(Rule::semicolon, 0, ";")]));
    assert_eq!(CSSParser::parse(Rule::open_brace, "{"), Ok(vec![leaf(Rule::open_brace, 0, "{")]));
    assert_eq!(CSSParser::parse(Rule::close_brace, "}"), Ok(vec![leaf(Rule::close_brace, 0, "}")]));
    assert_eq!(CSSParser::parse(Rule::close_brace, "{"), Err(failure(0, vec![Rule::close_brace])));
    assert_eq!(CSSParser::parse(Rule::EOI, ""), Ok(vec![leaf(Rule::EOI, 0, "")]));
    assert_eq!(CSSParser::parse(Rule::EOI, "x"), Err(failure(0, vec![Rule::EOI])));
}

#[test]
fn properties_rule_takes_what_declarations_there_are() {
    assert_eq!(CSSParser::parse(Rule::properties, "}"), Ok(vec![leaf(Rule::properties, 0, "")]));
    let got = CSSParser::parse(Rule::properties, "a:b;  c:d;  }").unwrap();
    assert_eq!(got.len(), 1);
    assert_eq!((got[0].rule, got[0].start, got[0].end), (Rule::properties, 0, 10));
    assert_eq!(got[0].text, "a:b;  c:d;");
    assert_eq!(got[0].children.len(), 2);
    assert_eq!(got[0].children[1].text, "c:d;");
    assert_eq!(
        CSSParser::parse(Rule::properties, "a:b; c d;"),
        Err(failure(7, vec![Rule::colon]))
    );
}

#[test]
fn failures_lie_where_the_input_stops_conforming() {
    assert_eq!(CSSParser::parse(Rule::selector, "54dd"), Err(failure(0, vec![Rule::selector])));
    assert_eq!(CSSParser::parse(Rule::selector, ".5"), Err(failure(1, vec![Rule::identifier])));
    assert_eq!(CSSParser::parse(Rule::selector, "a.b"), Err(failure(1, vec![Rule::EOI])));
    assert_eq!(CSSParser::parse(Rule::dimension, "12.5"), Err(failure(4, vec![Rule::unit])));
    assert_eq!(
        CSSParser::parse(Rule::css_block, "a { b: 1px; c: 2; }"),
        Err(failure(16, vec![Rule::unit]))
    );
    assert_eq!(
        CSSParser::parse(Rule::css_block, "a { b: 1px; ; }"),
        Err(failure(12, vec![Rule::property, Rule::close_brace]))
    );
    assert_eq!(
        CSSParser::parse(Rule::css_block, "a { } }"),
        Err(failure(6, vec![Rule::css_block, Rule::EOI]))
    );
    assert_eq!(
        CSSParser::parse(Rule::css_block, "a { b: \u{e9}; }"),
        Err(failure(7, vec![Rule::value]))
    );
}

#[test]
fn properties_are_listed_one_on_each_line() {
    let group = node(
        Rule::properties,
        0,
        "a:b; c:d;",
        vec![leaf(Rule::property, 0, "a:b;"), leaf(Rule::property, 5, "c:d;")],
    );
    assert_eq!(parse_properties(&group), "  a:b;\n  c:d;");
    assert_eq!(parse_properties(&leaf(Rule::properties, 0, "")), "");
    let one = node(Rule::properties, 0, "a:b;", vec![leaf(Rule::property, 0, "a:b;")]);
    assert_eq!(parse_properties(&one), "  a:b;");
}

#[test]
fn only_property_matches_are_listed() {
    let group = node(
        Rule::properties,
        0,
        "x a:b; y c:d; z",
        vec![
            leaf(Rule::identifier, 0, "x"),
            leaf(Rule::property, 2, "a:b;"),
            leaf(Rule::value, 7, "y"),
            leaf(Rule::property, 9, "c:d;"),
            leaf(Rule::selector, 14, "z"),
        ],
    );
    assert_eq!(parse_properties(&group), "  a:b;\n  c:d;");
    let none = node(Rule::properties, 0, "x", vec![leaf(Rule::identifier, 0, "x")]);
    assert_eq!(parse_properties(&none), "");
}

#[test]
fn a_block_is_described_by_its_first_two_children() {
    let selector = leaf(Rule::selector, 0, "div");
    let group = node(Rule::properties, 6, "a:b;", vec![leaf(Rule::property, 6, "a:b;")]);
    let extra = leaf(Rule::selector, 12, "p");
    let block = node(Rule::css_block, 0, "div { a:b; }", vec![selector, group, extra]);
    assert_eq!(render_block(&block), "Selector:\n  div\nProperties:\n  a:b;\n");
    let only_selector = node(Rule::css_block, 0, "div", vec![leaf(Rule::selector, 0, "div")]);
    assert_eq!(render_block(&only_selector), "Selector:\n  div\n");
    assert_eq!(render_block(&leaf(Rule::css_block, 0, "")), "");
}

#[test]
fn matches_that_are_no_blocks_are_passed_over() {
    let block = |start: usize, name: &str| {
        node(
            Rule::css_block,
            start,
            name,
            vec![leaf(Rule::selector, start, name), leaf(Rule::properties, start, "")],
        )
    };
    let pairs = vec![block(0, "a"), leaf(Rule::selector, 2, "b"), block(4, "c")];
    assert_eq!(
        render_blocks(&pairs),
        "Selector:\n  a\nProperties:\n\nSelector:\n  c\nProperties:\n\n"
    );
    assert_eq!(render_blocks(&Vec::new()), "");
}
