use rusthttp::{parse_headers_string, HeaderError, HeaderMap};

#[test]
fn parses_a_block_and_trims_names_and_values() {
    let parsed = parse_headers_string("Content-Type: application/json\nX-Test:  1 \n")
        .expect("block should parse");
    assert_eq!(parsed.len(), 2);
    assert_eq!(parsed.get("Content-Type"), Some(&"application/json".to_string()));
    assert_eq!(parsed.get("X-Test"), Some(&"1".to_string()));
}

#[test]
fn blank_lines_are_skipped() {
    let parsed = parse_headers_string("\n  \nAccept: text/html\n\n").expect("block should parse");
    assert_eq!(parsed.len(), 1);
    assert_eq!(parsed.get("Accept"), Some(&"text/html".to_string()));
}

#[test]
fn carriage_returns_are_trimmed_away() {
    let parsed = parse_headers_string("Host: example.test\r\nAccept: */*\r\n")
        .expect("block should parse");
    assert_eq!(parsed.get("Host"), Some(&"example.test".to_string()));
    assert_eq!(parsed.get("Accept"), Some(&"*/*".to_string()));
}

#[test]
fn a_line_without_a_colon_is_malformed() {
    let err = parse_headers_string("Content-Type: application/json\nnot a header\n")
        .expect_err("block should be rejected");
    assert_eq!(err, HeaderError::MalformedHeaderLine("not a header".to_string()));
}

#[test]
fn an_empty_block_parses_to_nothing() {
    let parsed = parse_headers_string("").expect("block should parse");
    assert_eq!(parsed.len(), 0);
    assert!(parsed.is_empty());
}

#[test]
fn later_bindings_replace_earlier_ones() {
    let mut map = HeaderMap::new();
    map.insert("Accept", "text/html");
    map.insert("Accept", "application/json");
    map.insert("Host", "example.test");
    assert_eq!(map.len(), 2);
    assert_eq!(map.get("Accept"), Some(&"application/json".to_string()));
    assert!(map.contains_key("Host"));
    assert!(!map.contains_key("accept"));
}

#[test]
fn the_first_offending_line_is_the_one_named() {
    let err = parse_headers_string("Accept: */*\nfirst bad\nsecond bad\n")
        .expect_err("block should be rejected");
    assert_eq!(err, HeaderError::MalformedHeaderLine("first bad".to_string()));
}
