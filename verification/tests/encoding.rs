use rusthttp::base64_encode;
use rusthttp::RequestConfig;

/// A plain reference decoder for standard base64 with `=` padding.
fn reference_decode(s: &str) -> Vec<u8> {
    let val = |c: char| -> u32 {
        match c {
            'A'..='Z' => c as u32 - 'A' as u32,
            'a'..='z' => c as u32 - 'a' as u32 + 26,
            '0'..='9' => c as u32 - '0' as u32 + 52,
            '+' => 62,
            '/' => 63,
            _ => panic!("foreign character"),
        }
    };
    let chars: Vec<char> = s.chars().collect();
    let mut out = Vec::new();
    for group in chars.chunks(4) {
        assert_eq!(group.len(), 4);
        let pads = group.iter().filter(|&&c| c == '=').count();
        let n = (val(group[0]) << 18)
            | (val(group[1]) << 12)
            | (if group[2] == '=' { 0 } else { val(group[2]) } << 6)
            | (if group[3] == '=' { 0 } else { val(group[3]) });
        out.push((n >> 16) as u8);
        if pads < 2 {
            out.push((n >> 8) as u8);
        }
        if pads < 1 {
            out.push(n as u8);
        }
    }
    out
}

#[test]
fn encodes_classic_vectors() {
    assert_eq!(base64_encode(""), "");
    assert_eq!(base64_encode("f"), "Zg==");
    assert_eq!(base64_encode("fo"), "Zm8=");
    assert_eq!(base64_encode("foo"), "Zm9v");
    assert_eq!(base64_encode("foob"), "Zm9vYg==");
    assert_eq!(base64_encode("fooba"), "Zm9vYmE=");
    assert_eq!(base64_encode("foobar"), "Zm9vYmFy");
}

#[test]
fn round_trips_against_reference_decoder() {
    let bodies = [
        "{\"title\": \"a post\", \"userId\": 1}",
        "[1, 2, 3, null, true]",
        "\"just a string\"",
        "{}",
    ];
    for body in bodies {
        let encoded = base64_encode(body);
        assert_eq!(reference_decode(&encoded), body.as_bytes());
    }
}

#[test]
fn output_length_and_padding_follow_the_formulas() {
    let mut input = String::new();
    for n in 0..30usize {
        let encoded = base64_encode(&input);
        assert_eq!(encoded.len(), 4 * ((n + 2) / 3));
        let pad = encoded.chars().rev().take_while(|&c| c == '=').count();
        assert_eq!(pad, (3 - n % 3) % 3);
        input.push('x');
    }
}

#[test]
fn basic_auth_header_carries_the_encoded_credentials() {
    let config = RequestConfig::new().with_basic_auth("user", "pass");
    let value = config.headers.get("Authorization").expect("header missing");
    assert_eq!(value, "Basic dXNlcjpwYXNz");
}

#[test]
fn bearer_token_header_is_prefixed() {
    let config = RequestConfig::new().with_bearer_token("test-token-12345");
    let value = config.headers.get("Authorization").expect("header missing");
    assert_eq!(value, "Bearer test-token-12345");
}
