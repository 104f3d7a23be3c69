//! The value objects callers see: the normalized response, the request
//! configuration with its builder methods, the error envelope and the
//! bookkeeping record.

use vstd::prelude::*;
use vstd::string::StringExecFns;
use vstd::utf8::encode_utf8;
use crate::headers::HeaderMap;
use crate::base64::{spec_b64, base64_encode};
use crate::text::{str_contains, spec_contains};
use crate::json::{json_accepts, json_model, model_of, parse_json_value, JsonError};

verus! {

/// A completed HTTP exchange, normalized to plain values.
pub struct ApiResponse {
    pub status: u16,
    pub status_text: String,
    pub headers: HeaderMap,
    pub body: String,
    pub content_type: String,
    pub response_time_ms: u64,
}

impl ApiResponse {
    /// The data-model invariant: the status is a valid three-digit HTTP
    /// status code.
    pub open spec fn well_formed(&self) -> bool {
        100 <= self.status <= 599
    }

    /// Whether the status is in the success class.
    pub fn is_success(&self) -> (r: bool)
        ensures
            r == (200 <= self.status < 300),
    {
        200 <= self.status && self.status < 300
    }

    /// Whether the content type announces JSON.
    pub fn is_json(&self) -> (r: bool)
        ensures
            r == spec_contains(self.content_type@, "application/json"@),
    {
        str_contains(self.content_type.as_str(), "application/json")
    }

    /// The body parsed as JSON, exactly when it is JSON; the value holds
    /// the body's document.
    pub fn as_json_value(&self) -> (r: Result<serde_json::Value, JsonError>)
        ensures
            r is Ok <==> json_accepts(self.body@),
            r matches Ok(v) ==> model_of(v) == json_model(self.body@),
            r matches Err(e) ==> e == JsonError::InvalidJson,
    {
        match parse_json_value(self.body.as_str()) {
            Ok(v) => Ok(v),
            Err(_) => Err(JsonError::InvalidJson),
        }
    }
}

/// The `Authorization` value a bearer token turns into.
pub open spec fn bearer_value(token: Seq<char>) -> Seq<char> {
    "Bearer "@ + token
}

/// The `Authorization` value a username and password turn into: the base64
/// of `user:password` after `Basic `.
pub open spec fn basic_auth_value(user: Seq<char>, pass: Seq<char>) -> Seq<char> {
    "Basic "@ + spec_b64(encode_utf8(user + ":"@ + pass))
}

/// How a request is to be made: extra headers and transport toggles.
pub struct RequestConfig {
    pub headers: HeaderMap,
    pub pretty_print: bool,
    pub follow_redirects: bool,
    pub verify_ssl: bool,
}

impl RequestConfig {
    /// The default configuration: no headers, no pretty-printing, redirects
    /// followed, certificates checked.
    pub fn new() -> (c: RequestConfig)
        ensures
            c.headers@ == Map::<Seq<char>, Seq<char>>::empty(),
            !c.pretty_print,
            c.follow_redirects,
            c.verify_ssl,
    {
        RequestConfig {
            headers: HeaderMap::new(),
            pretty_print: false,
            follow_redirects: true,
            verify_ssl: true,
        }
    }

    /// This configuration with the given header map instead.
    pub fn with_headers(self, headers: HeaderMap) -> (c: RequestConfig)
        ensures
            c.headers@ == headers@,
            c.pretty_print == self.pretty_print,
            c.follow_redirects == self.follow_redirects,
            c.verify_ssl == self.verify_ssl,
    {
        RequestConfig { headers, ..self }
    }

    /// This configuration with pretty-printing set.
    pub fn with_pretty_print(self, pretty: bool) -> (c: RequestConfig)
        ensures
            c.headers@ == self.headers@,
            c.pretty_print == pretty,
            c.follow_redirects == self.follow_redirects,
            c.verify_ssl == self.verify_ssl,
    {
        RequestConfig { pretty_print: pretty, ..self }
    }

    /// This configuration with redirect-following set.
    pub fn with_redirects(self, follow: bool) -> (c: RequestConfig)
        ensures
            c.headers@ == self.headers@,
            c.pretty_print == self.pretty_print,
            c.follow_redirects == follow,
            c.verify_ssl == self.verify_ssl,
    {
        RequestConfig { follow_redirects: follow, ..self }
    }

    /// This configuration with certificate checking set.
    pub fn with_ssl_verification(self, verify: bool) -> (c: RequestConfig)
        ensures
            c.headers@ == self.headers@,
            c.pretty_print == self.pretty_print,
            c.follow_redirects == self.follow_redirects,
            c.verify_ssl == verify,
    {
        RequestConfig { verify_ssl: verify, ..self }
    }

    /// This configuration with one more header.
    pub fn add_header(self, key: &str, value: &str) -> (c: RequestConfig)
        ensures
            c.headers@ == self.headers@.insert(key@, value@),
            c.pretty_print == self.pretty_print,
            c.follow_redirects == self.follow_redirects,
            c.verify_ssl == self.verify_ssl,
    {
        let mut headers = self.headers;
        headers.insert(key, value);
        RequestConfig { headers, ..self }
    }

    /// This configuration with a bearer `Authorization` header.
    pub fn with_bearer_token(self, token: &str) -> (c: RequestConfig)
        ensures
            c.headers@ == self.headers@.insert("Authorization"@, bearer_value(token@)),
            c.pretty_print == self.pretty_print,
            c.follow_redirects == self.follow_redirects,
            c.verify_ssl == self.verify_ssl,
    {
        let mut value = "Bearer ".to_owned();
        value.append(token);
        self.add_header("Authorization", value.as_str())
    }

    /// This configuration with a basic `Authorization` header for the
    /// username and password.
    pub fn with_basic_auth(self, username: &str, password: &str) -> (c: RequestConfig)
        ensures
            c.headers@ == self.headers@.insert(
                "Authorization"@,
                basic_auth_value(username@, password@),
            ),
            c.pretty_print == self.pretty_print,
            c.follow_redirects == self.follow_redirects,
            c.verify_ssl == self.verify_ssl,
    {
        let mut credentials = username.to_owned();
        credentials.append(":");
        credentials.append(password);
        let encoded = base64_encode(credentials.as_str());
        let mut value = "Basic ".to_owned();
        value.append(encoded.as_str());
        self.add_header("Authorization", value.as_str())
    }
}

/// A generic error envelope for API payloads; any structured detail is kept
/// as raw JSON text.
pub struct ApiError {
    pub code: Option<String>,
    pub message: String,
    pub details: Option<String>,
}

/// The verb of a request.
#[derive(Clone, Copy, PartialEq, Eq, Structural, Debug)]
pub enum HttpMethod {
    Get,
    Post,
    Put,
    Delete,
    Patch,
    Head,
    Options,
}

impl HttpMethod {
    /// Whether requests of this method carry a JSON body here.
    pub open spec fn takes_body(self) -> bool {
        self == HttpMethod::Post || self == HttpMethod::Put
    }

    /// Whether requests of this method carry a JSON body here.
    pub fn has_body(&self) -> (r: bool)
        ensures
            r == self.takes_body(),
    {
        match self {
            HttpMethod::Post => true,
            HttpMethod::Put => true,
            _ => false,
        }
    }

    /// The verb's name on the wire.
    pub open spec fn spec_name(self) -> Seq<char> {
        match self {
            HttpMethod::Get => "GET"@,
            HttpMethod::Post => "POST"@,
            HttpMethod::Put => "PUT"@,
            HttpMethod::Delete => "DELETE"@,
            HttpMethod::Patch => "PATCH"@,
            HttpMethod::Head => "HEAD"@,
            HttpMethod::Options => "OPTIONS"@,
        }
    }

    /// The verb's name on the wire.
    pub fn name(&self) -> (s: String)
        ensures
            s@ == self.spec_name(),
    {
        match self {
            HttpMethod::Get => "GET".to_owned(),
            HttpMethod::Post => "POST".to_owned(),
            HttpMethod::Put => "PUT".to_owned(),
            HttpMethod::Delete => "DELETE".to_owned(),
            HttpMethod::Patch => "PATCH".to_owned(),
            HttpMethod::Head => "HEAD".to_owned(),
            HttpMethod::Options => "OPTIONS".to_owned(),
        }
    }
}

/// Bookkeeping about one exchange; the timestamp counts milliseconds since
/// the Unix epoch.
pub struct RequestStats {
    pub method: HttpMethod,
    pub url: String,
    pub status_code: u16,
    pub response_time_ms: u64,
    pub response_size_bytes: usize,
    pub timestamp_ms: u64,
}

} // verus!
