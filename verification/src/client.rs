//! The request and response halves of the client that can be checked: a
//! request is validated and assembled here before any transport touches it,
//! and the transport's raw answer is normalized here afterwards. The
//! transport itself (the network) lives outside this crate.

use vstd::prelude::*;
use crate::headers::HeaderMap;
use crate::models::{RequestConfig, HttpMethod, ApiResponse};
use crate::json::{json_accepts, is_valid_json};
use crate::text::str_eq;
use vstd::string::StringExecFns;

verus! {

#[verifier::external_type_specification]
#[verifier::external_body]
pub struct ExUrl(url::Url);

#[verifier::external_type_specification]
#[verifier::external_body]
pub struct ExUrlParseError(url::ParseError);

/// Whether the URL grammar accepts the text: a fixed function of the text.
pub uninterp spec fn url_accepts(s: Seq<char>) -> bool;

/// Relies on `url::Url::parse`: it succeeds exactly on the texts the URL
/// grammar accepts, a function of the text alone.
#[verifier::external_body]
fn parse_url(s: &str) -> (r: Result<url::Url, url::ParseError>)
    ensures
        r is Ok <==> url_accepts(s@),
{
    url::Url::parse(s)
}

/// Why a request could not be made or completed.
#[derive(Debug, PartialEq, Eq)]
pub enum ClientError {
    /// The body handed to a POST or PUT does not parse as JSON.
    InvalidPayload,
    /// The URL does not parse.
    InvalidUrl,
    /// The transport failed; the target URL is carried along.
    TransportFailure(String),
    /// The response body could not be read as text.
    BodyReadFailure,
}

impl ClientError {
    /// The words for this failure.
    pub open spec fn spec_describe(self) -> Seq<char> {
        match self {
            ClientError::InvalidPayload => "Invalid JSON data provided"@,
            ClientError::InvalidUrl => "Invalid URL format"@,
            ClientError::TransportFailure(u) => "Failed to send request to "@ + u@,
            ClientError::BodyReadFailure => "Failed to read response body"@,
        }
    }

    /// The words for this failure.
    pub fn describe(&self) -> (s: String)
        ensures
            s@ == self.spec_describe(),
    {
        match self {
            ClientError::InvalidPayload => "Invalid JSON data provided".to_owned(),
            ClientError::InvalidUrl => "Invalid URL format".to_owned(),
            ClientError::TransportFailure(u) => {
                let mut s = "Failed to send request to ".to_owned();
                s.append(u.as_str());
                s
            },
            ClientError::BodyReadFailure => "Failed to read response body".to_owned(),
        }
    }
}

/// A checked request, ready for a transport to carry out.
pub struct PreparedRequest {
    pub method: HttpMethod,
    pub url: String,
    pub headers: HeaderMap,
    pub body: Option<String>,
}

/// Assembles the request for a transport: the configured headers are taken
/// over, and a POST or PUT body must parse as JSON — anything else fails
/// with `InvalidPayload` here, before any transport work.
pub fn prepare_request(
    method: HttpMethod,
    url: &str,
    body: Option<&str>,
    config: &RequestConfig,
) -> (r: Result<PreparedRequest, ClientError>)
    ensures
        r is Ok <==> (!method.takes_body() || (body is Some && json_accepts(body->0@))),
        r matches Err(e) ==> e == ClientError::InvalidPayload,
        r matches Ok(p) ==> p.method == method && p.url@ == url@ && p.headers@ == config.headers@
            && (if method.takes_body() {
            p.body matches Some(b) && b@ == body->0@
        } else {
            p.body is None
        }),
{
    if method.has_body() {
        match body {
            Some(text) => {
                if !is_valid_json(text) {
                    return Err(ClientError::InvalidPayload);
                }
                Ok(
                    PreparedRequest {
                        method,
                        url: url.to_owned(),
                        headers: config.headers.duplicate(),
                        body: Some(text.to_owned()),
                    },
                )
            },
            None => Err(ClientError::InvalidPayload),
        }
    } else {
        Ok(
            PreparedRequest {
                method,
                url: url.to_owned(),
                headers: config.headers.duplicate(),
                body: None,
            },
        )
    }
}

/// Checks that the URL parses.
pub fn validate_url(url_str: &str) -> (r: Result<(), ClientError>)
    ensures
        r is Ok <==> url_accepts(url_str@),
        r matches Err(e) ==> e == ClientError::InvalidUrl,
{
    match parse_url(url_str) {
        Ok(_) => Ok(()),
        Err(_) => Err(ClientError::InvalidUrl),
    }
}

/// The header map a raw header list describes: values that carried no text
/// are dropped, later values override earlier ones.
pub open spec fn headers_of(raw: Seq<(String, Option<String>)>) -> Map<Seq<char>, Seq<char>>
    decreases raw.len(),
{
    if raw.len() == 0 {
        Map::<Seq<char>, Seq<char>>::empty()
    } else {
        let m = headers_of(raw.drop_last());
        if raw.last().1 is Some {
            m.insert(raw.last().0@, raw.last().1->0@)
        } else {
            m
        }
    }
}

/// The announced content type: the first `content-type` value that carried
/// text, or `text/plain`.
pub open spec fn content_type_of(raw: Seq<(String, Option<String>)>) -> Seq<char>
    decreases raw.len(),
{
    if raw.len() == 0 {
        "text/plain"@
    } else if raw[0].0@ == "content-type"@ {
        if raw[0].1 is Some {
            raw[0].1->0@
        } else {
            "text/plain"@
        }
    } else {
        content_type_of(raw.drop_first())
    }
}

/// The status text: the transport's reason phrase, or a placeholder.
pub open spec fn status_text_of(reason: Option<&str>) -> Seq<char> {
    match reason {
        Some(t) => t@,
        None => "Unknown"@,
    }
}

fn content_type_from(raw: &Vec<(String, Option<String>)>) -> (r: String)
    ensures
        r@ == content_type_of(raw@),
{
    let n = raw.len();
    let mut j: usize = 0;
    proof {
        assert(raw@.skip(0) =~= raw@);
    }
    while j < n
        invariant
            j <= n,
            n == raw@.len(),
            content_type_of(raw@) == content_type_of(raw@.skip(j as int)),
        decreases n - j,
    {
        let pair = &raw[j];
        proof {
            assert(raw@.skip(j as int)[0] == raw@[j as int]);
            assert(raw@.skip(j as int).drop_first() =~= raw@.skip(j + 1));
        }
        if str_eq(pair.0.as_str(), "content-type") {
            match &pair.1 {
                Some(v) => {
                    return v.clone();
                },
                None => {
                    return "text/plain".to_owned();
                },
            }
        }
        j += 1;
    }
    proof {
        assert(raw@.skip(n as int) =~= Seq::<(String, Option<String>)>::empty());
    }
    "text/plain".to_owned()
}

/// Turns a transport's answer into the response value: the status and its
/// phrase, the textual headers, the announced content type, the body and
/// the elapsed time.
pub fn normalize_response(
    status: u16,
    reason: Option<&str>,
    raw_headers: &Vec<(String, Option<String>)>,
    body: String,
    elapsed_ms: u64,
) -> (r: ApiResponse)
    requires
        100 <= status <= 599,
    ensures
        r.well_formed(),
        r.status == status,
        r.status_text@ == status_text_of(reason),
        r.headers@ == headers_of(raw_headers@),
        r.content_type@ == content_type_of(raw_headers@),
        r.body@ == body@,
        r.response_time_ms == elapsed_ms,
{
    let n = raw_headers.len();
    let mut headers = HeaderMap::new();
    let mut i: usize = 0;
    while i < n
        invariant
            n == raw_headers@.len(),
            i <= n,
            headers@ == headers_of(raw_headers@.take(i as int)),
        decreases n - i,
    {
        let pair = &raw_headers[i];
        proof {
            assert(raw_headers@.take(i + 1).drop_last() =~= raw_headers@.take(i as int));
            assert(raw_headers@.take(i + 1).last() == raw_headers@[i as int]);
        }
        match &pair.1 {
            Some(v) => {
                headers.insert(pair.0.as_str(), v.as_str());
            },
            None => {},
        }
        i += 1;
    }
    proof {
        assert(raw_headers@.take(n as int) =~= raw_headers@);
    }
    let content_type = content_type_from(raw_headers);
    let status_text = match reason {
        Some(t) => t.to_owned(),
        None => "Unknown".to_owned(),
    };
    ApiResponse { status, status_text, headers, body, content_type, response_time_ms: elapsed_ms }
}

} // verus!
