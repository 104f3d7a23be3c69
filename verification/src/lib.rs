pub mod base64;
pub mod client;
pub mod format;
pub mod headers;
pub mod json;
pub mod models;
pub mod style;
pub mod text;

pub use base64::base64_encode;
pub use client::{ClientError, PreparedRequest, prepare_request, validate_url, normalize_response};
pub use format::{format_duration, format_size, status_message};
pub use headers::{HeaderMap, HeaderError, parse_headers_string};
pub use json::{JsonError, PathError, is_valid_json, json_path_extract, pretty_print_json};
pub use models::{ApiError, ApiResponse, HttpMethod, RequestConfig, RequestStats};
pub use style::{colorize_json, status_indicator, tokenize_json, TokenClass};
