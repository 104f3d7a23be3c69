use rusthttp::{is_valid_json, json_path_extract, pretty_print_json, JsonError, PathError};

#[test]
fn valid_and_invalid_json_are_told_apart() {
    assert!(is_valid_json("{}"));
    assert!(is_valid_json("{\"a\": [1, 2, 3]}"));
    assert!(is_valid_json("null"));
    assert!(!is_valid_json("{not json"));
    assert!(!is_valid_json(""));
}

#[test]
fn a_dotted_path_reaches_into_arrays_and_objects() {
    let doc = "{\"a\":{\"b\":[10,20,30]}}";
    let value = json_path_extract(doc, "a.b.1").expect("path should resolve");
    let expected: serde_json::Value = serde_json::from_str("20").unwrap();
    assert_eq!(value, expected);
}

#[test]
fn a_missing_key_names_the_segment() {
    let doc = "{\"a\":{\"b\":[10,20,30]}}";
    let err = json_path_extract(doc, "a.c").expect_err("path should fail");
    assert_eq!(err, PathError::PathNotFound("c".to_string()));
}

#[test]
fn a_missing_index_names_the_segment() {
    let doc = "{\"a\":{\"b\":[10,20,30]}}";
    let err = json_path_extract(doc, "a.b.9").expect_err("path should fail");
    assert_eq!(err, PathError::PathNotFound("9".to_string()));
}

#[test]
fn empty_segments_are_ignored() {
    let doc = "{\"a\":{\"b\":[10,20,30]}}";
    let value = json_path_extract(doc, ".a..b.0.").expect("path should resolve");
    let expected: serde_json::Value = serde_json::from_str("10").unwrap();
    assert_eq!(value, expected);
}

#[test]
fn an_empty_path_yields_the_whole_document() {
    let doc = "{\"a\": 1}";
    let value = json_path_extract(doc, "").expect("path should resolve");
    let expected: serde_json::Value = serde_json::from_str(doc).unwrap();
    assert_eq!(value, expected);
}

#[test]
fn a_bad_document_fails_path_extraction() {
    let err = json_path_extract("{not json", "a").expect_err("document should be rejected");
    assert_eq!(err, PathError::InvalidJson);
}

#[test]
fn pretty_printing_rejects_bad_documents() {
    let err = pretty_print_json("{not json").expect_err("document should be rejected");
    assert_eq!(err, JsonError::InvalidJson);
}

#[test]
fn pretty_printing_accepts_good_documents() {
    assert!(pretty_print_json("{\"a\": 1}").is_ok());
}

#[test]
fn a_segment_too_large_for_an_index_is_taken_as_a_key() {
    let doc = "{\"18446744073709551616\": \"big\"}";
    let value = json_path_extract(doc, "18446744073709551616").expect("key lookup");
    let expected: serde_json::Value = serde_json::from_str("\"big\"").unwrap();
    assert_eq!(value, expected);
}

#[test]
fn a_plus_prefixed_segment_counts_as_an_index() {
    let doc = "{\"a\":[10,20,30]}";
    let value = json_path_extract(doc, "a.+1").expect("index lookup");
    let expected: serde_json::Value = serde_json::from_str("20").unwrap();
    assert_eq!(value, expected);
}
