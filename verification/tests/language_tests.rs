use css_parser_project::{
    parse_css_file, parse_dimension, parse_hex_color, parse_hex_digit, parse_property,
    parse_selector, CSSParser, Rule,
};
use regex::Regex;

const WS: &str = r"[ \t\n\r]*";
const IDENTIFIER: &str = r"[A-Za-z_][A-Za-z0-9_-]*";
const DIMENSION: &str = r"[0-9]+(\.[0-9]+)?(px|em|pt|%)";
const HEX_COLOR: &str = r"#[0-9a-fA-F]{6}";

fn selector() -> String {
    format!("[.#]?{}", IDENTIFIER)
}

fn property() -> String {
    format!("{}{}:{}({}|{}|{}){};", IDENTIFIER, WS, WS, HEX_COLOR, DIMENSION, IDENTIFIER, WS)
}

fn whole(pattern: &str) -> Regex {
    Regex::new(&format!(r"\A(?:{})\z", pattern)).unwrap()
}

/// Every text over `alphabet` of at most `longest` characters.
fn texts(alphabet: &[char], longest: usize) -> Vec<String> {
    let mut all = vec![String::new()];
    let mut last = vec![String::new()];
    for _ in 0..longest {
        let mut next = Vec::with_capacity(last.len() * alphabet.len());
        for text in &last {
            for c in alphabet {
                let mut longer = text.clone();
                longer.push(*c);
                next.push(longer);
            }
        }
        all.extend(next.iter().cloned());
        last = next;
    }
    all
}

#[test]
fn selectors_are_what_the_pattern_of_a_selector_accepts() {
    let pattern = whole(&selector());
    for text in texts(&['a', 'Z', '7', '.', '#', '-', '_', ' ', '{'], 5) {
        let expected = if pattern.is_match(&text) { Some(text.clone()) } else { None };
        assert_eq!(parse_selector(&text).ok(), expected, "{:?}", text);
    }
}

#[test]
fn dimensions_are_what_the_pattern_of_a_dimension_accepts() {
    let pattern = whole(DIMENSION);
    for text in texts(&['1', '0', '.', 'p', 'x', 't', 'e', 'm', '%', ' '], 5) {
        let expected = if pattern.is_match(&text) { Some(text.clone()) } else { None };
        assert_eq!(parse_dimension(&text).ok(), expected, "{:?}", text);
    }
}

#[test]
fn properties_are_what_the_pattern_of_a_property_accepts() {
    let pattern = whole(&property());
    for text in texts(&['a', '1', ' ', ':', ';', '%', '.', '\n'], 6) {
        let expected = if pattern.is_match(&text) { Some(text.clone()) } else { None };
        assert_eq!(parse_property(&text).ok(), expected, "{:?}", text);
    }
    for value in ["#a1B2c3", "#a1B2c", "#a1B2c3d", "1.5em", "1.em", "x-1", "'x'", "1px 2px", "#fff"] {
        let text = format!("k: {} ;", value);
        assert_eq!(parse_property(&text).is_ok(), pattern.is_match(&text), "{:?}", text);
    }
}

#[test]
fn documents_are_what_the_pattern_of_a_document_accepts() {
    let block = format!(r"{}{}\{{{}(?:{}{})*\}}", selector(), WS, WS, property(), WS);
    let pattern = whole(&format!("{}(?:{}{})*", WS, block, WS));
    for text in texts(&['a', ' ', '{', '}', ':', ';'], 7) {
        assert_eq!(parse_css_file(&text).is_ok(), pattern.is_match(&text), "{:?}", text);
    }
    for text in [
        ".header { color: blue; }\n#headerBlock { font-size: 16px; }",
        "div { margin: 10px; } .fa-icons { font-family: 'FontAwesome'; }",
        "a{b:c;d:1%;e:#000000;}",
        "a{b:c;;}",
        "a{b:c}",
        "a{}b{}",
        "a{} b{}\n",
        "a b{}",
        "a{}}",
    ] {
        assert_eq!(parse_css_file(text).is_ok(), pattern.is_match(text), "{:?}", text);
    }
}

#[test]
fn colors_are_what_the_rule_of_a_color_takes_whole() {
    let mut all = texts(&['#', 'a'], 8);
    for at in 0..7 {
        for c in ['#', 'F', '9', 'g', 'G', ' ', '\n'] {
            let mut chars: Vec<char> = "#a0B1c2".chars().collect();
            chars[at] = c;
            all.push(chars.iter().collect());
        }
    }
    for text in all {
        let by_pattern = parse_hex_color(&text).is_ok();
        let by_rule = match CSSParser::parse(Rule::hex_color, &text) {
            Ok(pairs) => pairs.len() == 1 && pairs[0].end == text.chars().count(),
            Err(_) => false,
        };
        assert_eq!(by_pattern, by_rule, "{:?}", text);
    }
}

#[test]
fn hex_digits_are_what_begins_with_one() {
    let pattern = Regex::new(r"\A[0-9a-fA-F]").unwrap();
    for text in texts(&['0', '9', 'a', 'f', 'A', 'F', 'g', 'G', ' ', '#'], 3) {
        let expected = if pattern.is_match(&text) { Some(text[..1].to_string()) } else { None };
        assert_eq!(parse_hex_digit(&text).ok(), expected, "{:?}", text);
    }
}

#[test]
fn matches_are_nested_spans_with_their_text() {
    fn check(input: &[char], pair: &css_parser_project::Pair) {
        assert!(pair.start <= pair.end && pair.end <= input.len());
        let text: String = input[pair.start..pair.end].iter().collect();
        assert_eq!(pair.text, text);
        let mut from = pair.start;
        for child in &pair.children {
            assert!(from <= child.start && child.end <= pair.end);
            check(input, child);
            from = child.end;
        }
    }
    let input = " a { b : c ; d:1.5em; }\n.x{}\t#y { z : #A0b1C2 ; } ";
    let chars: Vec<char> = input.chars().collect();
    let pairs = CSSParser::parse(Rule::css_block, input).unwrap();
    assert_eq!(pairs.len(), 3);
    let mut from = 0;
    for pair in &pairs {
        assert_eq!(pair.rule, Rule::css_block);
        assert!(from <= pair.start);
        check(&chars, pair);
        from = pair.end;
    }
}
