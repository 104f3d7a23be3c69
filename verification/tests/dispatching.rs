use rusthttp::{
    normalize_response, prepare_request, validate_url, ClientError, HttpMethod, RequestConfig,
};

#[test]
fn a_post_with_a_bad_body_fails_before_any_transport() {
    let config = RequestConfig::new();
    let r = prepare_request(HttpMethod::Post, "https://example.test/posts", Some("{not json"), &config);
    assert!(matches!(r, Err(ClientError::InvalidPayload)));
}

#[test]
fn a_post_without_a_body_fails_the_same_way() {
    let config = RequestConfig::new();
    let r = prepare_request(HttpMethod::Post, "https://example.test/posts", None, &config);
    assert!(matches!(r, Err(ClientError::InvalidPayload)));
}

#[test]
fn a_get_needs_no_body_and_carries_the_headers() {
    let config = RequestConfig::new().add_header("Accept", "application/json");
    let p = prepare_request(HttpMethod::Get, "https://example.test/posts", None, &config)
        .expect("request should be accepted");
    assert_eq!(p.method, HttpMethod::Get);
    assert_eq!(p.url, "https://example.test/posts");
    assert_eq!(p.body, None);
    assert_eq!(p.headers.get("Accept"), Some(&"application/json".to_string()));
}

#[test]
fn a_put_with_a_good_body_keeps_it() {
    let config = RequestConfig::new();
    let p = prepare_request(HttpMethod::Put, "https://example.test/users/1", Some("{\"id\": 1}"), &config)
        .expect("request should be accepted");
    assert_eq!(p.body, Some("{\"id\": 1}".to_string()));
}

#[test]
fn urls_are_checked_by_the_url_grammar() {
    assert!(validate_url("https://example.test/posts/1").is_ok());
    assert!(matches!(validate_url("not a url"), Err(ClientError::InvalidUrl)));
}

#[test]
fn responses_are_normalized_with_their_headers() {
    let raw = vec![
        ("content-type".to_string(), Some("application/json; charset=utf-8".to_string())),
        ("x-request-id".to_string(), Some("abc".to_string())),
    ];
    let r = normalize_response(200, Some("OK"), &raw, "{\"ok\":true}".to_string(), 42);
    assert_eq!(r.status, 200);
    assert_eq!(r.status_text, "OK");
    assert_eq!(r.content_type, "application/json; charset=utf-8");
    assert_eq!(r.body, "{\"ok\":true}");
    assert_eq!(r.response_time_ms, 42);
    assert_eq!(r.headers.len(), 2);
    assert!(r.is_success());
    assert!(r.is_json());
    assert!(r.as_json_value().is_ok());
}

#[test]
fn textless_header_values_are_dropped() {
    let raw = vec![
        ("x-binary".to_string(), None),
        ("x-text".to_string(), Some("yes".to_string())),
    ];
    let r = normalize_response(204, Some("No Content"), &raw, String::new(), 1);
    assert_eq!(r.headers.len(), 1);
    assert_eq!(r.headers.get("x-binary"), None);
    assert_eq!(r.headers.get("x-text"), Some(&"yes".to_string()));
}

#[test]
fn the_content_type_defaults_to_plain_text() {
    let raw = vec![("x-text".to_string(), Some("yes".to_string()))];
    let r = normalize_response(500, None, &raw, "oops".to_string(), 3);
    assert_eq!(r.content_type, "text/plain");
    assert_eq!(r.status_text, "Unknown");
    assert!(!r.is_success());
    assert!(!r.is_json());
    assert!(r.as_json_value().is_err());
}

#[test]
fn builders_keep_their_flags_independent() {
    let config = RequestConfig::new();
    assert!(!config.pretty_print);
    assert!(config.follow_redirects);
    assert!(config.verify_ssl);
    let config = config.with_pretty_print(true).with_redirects(false).with_ssl_verification(false);
    assert!(config.pretty_print);
    assert!(!config.follow_redirects);
    assert!(!config.verify_ssl);
    assert_eq!(config.headers.len(), 0);
}

#[test]
fn with_headers_swaps_the_whole_map() {
    let mut map = rusthttp::HeaderMap::new();
    map.insert("User-Agent", "demo");
    let config = RequestConfig::new().add_header("Accept", "*/*").with_headers(map);
    assert_eq!(config.headers.get("Accept"), None);
    assert_eq!(config.headers.get("User-Agent"), Some(&"demo".to_string()));
}

#[test]
fn methods_name_themselves() {
    assert_eq!(HttpMethod::Get.name(), "GET");
    assert_eq!(HttpMethod::Post.name(), "POST");
    assert_eq!(HttpMethod::Put.name(), "PUT");
    assert_eq!(HttpMethod::Delete.name(), "DELETE");
    assert_eq!(HttpMethod::Patch.name(), "PATCH");
    assert_eq!(HttpMethod::Head.name(), "HEAD");
    assert_eq!(HttpMethod::Options.name(), "OPTIONS");
}

#[test]
fn errors_describe_themselves() {
    assert_eq!(ClientError::InvalidPayload.describe(), "Invalid JSON data provided");
    assert_eq!(
        ClientError::TransportFailure("https://example.test".to_string()).describe(),
        "Failed to send request to https://example.test"
    );
    assert_eq!(ClientError::BodyReadFailure.describe(), "Failed to read response body");
}
