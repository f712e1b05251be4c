use json_outline::blocks::calculate_collapse_counts;
use json_outline::color::{color_for_token, Tone};
use json_outline::numeric::float_literal_chars;
use json_outline::text::split_lines;

fn chars(s: &str) -> Vec<char> {
    s.chars().collect()
}

#[test]
fn color_precedence_table() {
    // String contents win, then punctuation by character, then the numeric
    // test, then the default.
    assert_eq!(color_for_token(&chars("id"), true, true), Tone::SecondaryBaseText);
    assert_eq!(color_for_token(&chars("id"), false, true), Tone::PrimaryStrongColor);
    assert_eq!(color_for_token(&chars("{"), false, false), Tone::BackgroundWeakColor);
    assert_eq!(color_for_token(&chars("}"), false, false), Tone::BackgroundWeakColor);
    assert_eq!(color_for_token(&chars("["), false, false), Tone::BackgroundWeakColor);
    assert_eq!(color_for_token(&chars("]"), false, false), Tone::BackgroundWeakColor);
    assert_eq!(color_for_token(&chars(":"), false, false), Tone::SecondaryBaseColor);
    assert_eq!(color_for_token(&chars(","), false, false), Tone::BackgroundStrongColor);
    assert_eq!(color_for_token(&chars("42"), false, false), Tone::SuccessWeakColor);
    assert_eq!(color_for_token(&chars("-1.5e3"), false, false), Tone::SuccessWeakColor);
    assert_eq!(color_for_token(&chars("true"), false, false), Tone::PrimaryWeakColor);
    assert_eq!(color_for_token(&chars("null"), false, false), Tone::PrimaryWeakColor);
    // Inside a string the text does not matter, only the flags.
    assert_eq!(color_for_token(&chars("42"), false, true), Tone::PrimaryStrongColor);
    // A key flag outside a string does not matter.
    assert_eq!(color_for_token(&chars("42"), true, false), Tone::SuccessWeakColor);
}

#[test]
fn numeric_literals() {
    for ok in ["1", "-1", "+1", "1.", ".5", "-.5", "1.5", "1e3", "1E3", "1.5e-3",
        "1.e+10", "inf", "INF", "-infinity", "NaN", "nan", "007"] {
        assert!(float_literal_chars(&chars(ok)), "{ok} should parse");
    }
    for bad in ["", ".", "+", "-", "1.2.3", "1e", "1e+", "e3", "--1", "0x10",
        "in", "infini", "true", "null", "1 2"] {
        assert!(!float_literal_chars(&chars(bad)), "{bad} should not parse");
    }
}

#[test]
fn collapse_counts_of_nested_blocks() {
    let lines: Vec<String> = ["{", "  \"a\": [", "    1,", "    2", "  ],",
        "  \"b\": {", "    \"c\": {", "      \"d\": 3", "    }", "  }", "}"]
        .iter()
        .map(|s| s.to_string())
        .collect();
    let counts = calculate_collapse_counts(&lines);
    assert_eq!(counts.len(), 3);
    assert_eq!(counts.get(&1), Some(&2));
    assert_eq!(counts.get(&5), Some(&3));
    assert_eq!(counts.get(&6), Some(&1));
    // Line 0 opens the document and is never collapsible.
    assert_eq!(counts.get(&0), None);
}

#[test]
fn unmatched_opens_produce_no_entry() {
    let lines: Vec<String> = ["{", "  \"a\": [", "    1"].iter().map(|s| s.to_string()).collect();
    let counts = calculate_collapse_counts(&lines);
    assert!(counts.is_empty());
}

#[test]
fn split_lines_matches_str_lines() {
    for doc in ["", "\n", "abc", "abc\n", "a\r\nb", "a\n\nb", "{\n  \"x\": 1\n}\n", "tail\r"] {
        let got = split_lines(doc);
        let want: Vec<String> = doc.lines().map(|l| l.to_owned()).collect();
        assert_eq!(got, want, "splitting {doc:?}");
    }
}
