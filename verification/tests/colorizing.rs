use rusthttp::{colorize_json, pretty_print_json, status_indicator, tokenize_json, TokenClass};

/// Removes terminal escape sequences: an escape character starts a sequence
/// that runs up to the next `m`.
fn strip(s: &str) -> String {
    let mut out = String::new();
    let mut in_esc = false;
    for c in s.chars() {
        if in_esc {
            if c == 'm' {
                in_esc = false;
            }
        } else if c == '\u{1b}' {
            in_esc = true;
        } else {
            out.push(c);
        }
    }
    out
}

#[test]
fn colorizing_preserves_the_visible_characters() {
    let inputs = [
        "{\"a\":1,\"b\":true}",
        "{\n  \"name\": \"cat\",\n  \"count\": -1.5e3,\n  \"tags\": [null, false]\n}",
        "[1, 2, 3]",
        "plain words",
        "",
    ];
    for input in inputs {
        assert_eq!(strip(&colorize_json(input)), input);
    }
}

#[test]
fn colorizing_handles_escaped_quotes_inside_strings() {
    let input = "{\"a\": \"say \\\"hi\\\"\"}";
    assert_eq!(strip(&colorize_json(input)), input);
}

#[test]
fn pretty_printing_keeps_the_document_text() {
    let pretty = pretty_print_json("{\"a\":1,\"b\":true}").expect("document should parse");
    let visible = strip(&pretty);
    let round: serde_json::Value = serde_json::from_str(&visible).expect("still JSON");
    let original: serde_json::Value = serde_json::from_str("{\"a\":1,\"b\":true}").unwrap();
    assert_eq!(round, original);
}

#[test]
fn status_indicators_show_the_code() {
    assert_eq!(strip(&status_indicator(200)), "200");
    assert_eq!(strip(&status_indicator(301)), "301");
    assert_eq!(strip(&status_indicator(404)), "404");
    assert_eq!(strip(&status_indicator(503)), "503");
    assert_eq!(strip(&status_indicator(100)), "100");
}

#[test]
fn tokens_carry_their_lexical_class() {
    let toks = tokenize_json("{\"a\": 1, \"b\": true, \"c\": null}");
    let text: String = toks.iter().map(|t| t.1.as_str()).collect::<Vec<_>>().join("");
    assert_eq!(text, "{\"a\": 1, \"b\": true, \"c\": null}");
    assert_eq!(toks[0], (TokenClass::Delimiter, "{".to_string()));
    assert_eq!(toks[1], (TokenClass::StringPart, "\"".to_string()));
    assert_eq!(toks[2], (TokenClass::StringPart, "a".to_string()));
    assert_eq!(toks[3], (TokenClass::StringPart, "\"".to_string()));
    assert_eq!(toks[4], (TokenClass::Colon, ":".to_string()));
    assert_eq!(toks[5], (TokenClass::Plain, " ".to_string()));
    assert_eq!(toks[6], (TokenClass::Number, "1".to_string()));
    assert_eq!(toks[7], (TokenClass::Comma, ",".to_string()));
    let word_classes: Vec<TokenClass> = toks.iter().map(|t| t.0).collect();
    assert!(word_classes.contains(&TokenClass::BoolWord));
    assert!(word_classes.contains(&TokenClass::NullWord));
    assert_eq!(*toks.last().unwrap(), (TokenClass::Delimiter, "}".to_string()));
}

#[test]
fn a_word_that_is_no_keyword_stays_plain() {
    let toks = tokenize_json("nullx truthy");
    assert_eq!(toks[0], (TokenClass::Plain, "nullx".to_string()));
    assert_eq!(toks[2], (TokenClass::Plain, "truthy".to_string()));
}
