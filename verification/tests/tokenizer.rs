use json_outline::token::{tokenize_line, TokenRole};

fn chars(s: &str) -> Vec<char> {
    s.chars().collect()
}

#[test]
fn escape_fidelity() {
    // The line `"a\"b": 1` tokenizes to a single string token `a"b` tagged as
    // key, a structural `:`, and the literal `1`.
    let toks = tokenize_line("\"a\\\"b\": 1");
    assert_eq!(toks.len(), 3);
    assert_eq!(toks[0].text, chars("a\"b"));
    assert_eq!(toks[0].role, TokenRole::Key);
    assert_eq!(toks[1].text, chars(":"));
    assert_eq!(toks[1].role, TokenRole::Punctuation);
    assert_eq!(toks[2].text, chars("1"));
    assert_eq!(toks[2].role, TokenRole::Literal);
}

#[test]
fn key_and_value_strings() {
    let toks = tokenize_line("  \"name\": \"value\",");
    assert_eq!(toks.len(), 4);
    assert_eq!(toks[0].text, chars("name"));
    assert_eq!(toks[0].role, TokenRole::Key);
    assert_eq!(toks[1].role, TokenRole::Punctuation);
    assert_eq!(toks[2].text, chars("value"));
    assert_eq!(toks[2].role, TokenRole::StringValue);
    assert_eq!(toks[3].text, chars(","));
    assert_eq!(toks[3].role, TokenRole::Punctuation);
}

#[test]
fn whitespace_outside_strings_dropped() {
    let toks = tokenize_line("\"a\": [1, 2]");
    let joined: String = toks.iter().flat_map(|t| t.text.iter()).collect();
    assert_eq!(joined, "a:[1,2]");
}

#[test]
fn whitespace_inside_strings_kept() {
    let toks = tokenize_line("\"a b\": \"c  d\"");
    assert_eq!(toks[0].text, chars("a b"));
    assert_eq!(toks[2].text, chars("c  d"));
}

#[test]
fn empty_line_has_no_tokens() {
    assert_eq!(tokenize_line("").len(), 0);
    assert_eq!(tokenize_line("   ").len(), 0);
}

#[test]
fn bare_literals_buffer() {
    let toks = tokenize_line("true");
    assert_eq!(toks.len(), 1);
    assert_eq!(toks[0].text, chars("true"));
    assert_eq!(toks[0].role, TokenRole::Literal);

    let toks = tokenize_line("[null, -1.5e3]");
    let texts: Vec<String> = toks.iter().map(|t| t.text.iter().collect()).collect();
    assert_eq!(texts, vec!["[", "null", ",", "-1.5e3", "]"]);
}

#[test]
fn structural_characters_stand_alone() {
    let toks = tokenize_line("{");
    assert_eq!(toks.len(), 1);
    assert_eq!(toks[0].text, chars("{"));
    assert_eq!(toks[0].role, TokenRole::Punctuation);
}

#[test]
fn unterminated_string_becomes_literal() {
    // A string the line never closes is flushed as a bare token.
    let toks = tokenize_line("\"abc");
    assert_eq!(toks.len(), 1);
    assert_eq!(toks[0].text, chars("abc"));
    assert_eq!(toks[0].role, TokenRole::Literal);
}
