//! The HTTP surface's plain parts: the error body, the status codes, and the
//! check of a request's API key.

use crate::text::str_eq;
use headers::HeaderMap;
use headers::HeaderValue;
use vstd::prelude::*;
use vstd::string::StringExecFns;

verus! {

/// The error of a request.
#[derive(Debug)]
pub struct ApiError {
    pub code: &'static str,
    pub message: String,
}

/// The body of a failed request: `{"error": {"code": .., "message": ..}}`.
#[derive(Debug)]
pub struct ApiErrorResponse {
    pub error: ApiError,
}

/// A failed request: its status and its body.
#[derive(Debug)]
pub struct ApiFailure {
    pub status: u16,
    pub body: ApiErrorResponse,
}

pub const OK: u16 = 200;

pub const CREATED: u16 = 201;

pub const NO_CONTENT: u16 = 204;

pub const BAD_REQUEST: u16 = 400;

pub const UNAUTHORIZED: u16 = 401;

pub const NOT_FOUND: u16 = 404;

pub const CONFLICT: u16 = 409;

pub const INTERNAL_SERVER_ERROR: u16 = 500;

/// A failed request as plain values.
pub struct FailureView {
    pub status: u16,
    pub code: Seq<char>,
    pub message: Seq<char>,
}

impl View for ApiFailure {
    type V = FailureView;

    open spec fn view(&self) -> FailureView {
        FailureView {
            status: self.status,
            code: self.body.error.code@,
            message: self.body.error.message@,
        }
    }
}

/// An error body.
pub fn api_error(code: &'static str, message: &str) -> (r: ApiErrorResponse)
    ensures
        r.error.code@ == code@,
        r.error.message@ == message@,
{
    ApiErrorResponse { error: ApiError { code, message: String::from_str(message) } }
}

/// A failed request.
pub fn failure(status: u16, code: &'static str, message: &str) -> (r: ApiFailure)
    ensures
        r@ == (FailureView { status, code: code@, message: message@ }),
{
    ApiFailure { status, body: api_error(code, message) }
}

/// The failure of a request for an instance that does not exist.
pub open spec fn not_found() -> FailureView {
    FailureView { status: NOT_FOUND, code: "not_found"@, message: "instance not found"@ }
}

/// The failure of a request for an instance that does not exist.
pub fn not_found_failure() -> (r: ApiFailure)
    ensures
        r@ == not_found(),
{
    failure(NOT_FOUND, "not_found", "instance not found")
}

#[verifier::external_type_specification]
#[verifier::external_body]
#[verifier::reject_recursive_types(T)]
pub struct ExHeaderMap<T>(HeaderMap<T>);

#[verifier::external_type_specification]
#[verifier::external_body]
pub struct ExHeaderValue(HeaderValue);

/// The first value under each name of a header map. The names are in lower
/// case.
pub uninterp spec fn first_values(headers: HeaderMap<HeaderValue>) -> Map<Seq<char>, Seq<u8>>;

/// The bytes of a header value.
pub uninterp spec fn value_bytes(value: HeaderValue) -> Seq<u8>;

/// A visible ASCII character, a space or a tab.
pub open spec fn is_visible_ascii(b: u8) -> bool {
    32 <= b < 127 || b == 9
}

/// The text of a header value that is made of visible ASCII characters.
pub open spec fn ascii_text(bytes: Seq<u8>) -> Option<Seq<char>> {
    if forall|i: int| 0 <= i < bytes.len() ==> is_visible_ascii(#[trigger] bytes[i]) {
        Some(Seq::new(bytes.len(), |i: int| bytes[i] as char))
    } else {
        None
    }
}

/// `HeaderMap::get` with the name `x-api-key`: the first value under that
/// name, if there is one.
#[verifier::external_body]
fn api_key_header(headers: &HeaderMap<HeaderValue>) -> (r: Option<&HeaderValue>)
    ensures
        match r {
            Some(v) => first_values(*headers).contains_key("x-api-key"@) && value_bytes(*v)
                == first_values(*headers)["x-api-key"@],
            None => !first_values(*headers).contains_key("x-api-key"@),
        },
{
    headers.get("x-api-key")
}

/// `HeaderValue::to_str`: the value as text where each of its bytes is a
/// visible ASCII character, a space or a tab; nothing otherwise.
#[verifier::external_body]
fn header_text(value: &HeaderValue) -> (r: Option<&str>)
    ensures
        match r {
            Some(s) => ascii_text(value_bytes(*value)) == Some(s@),
            None => ascii_text(value_bytes(*value)) is None,
        },
{
    value.to_str().ok()
}

/// Whether a request with these headers may pass: no key is expected, or
/// the first `X-API-Key` header is the expected key.
pub open spec fn authorized(expected: Option<Seq<char>>, headers: Map<Seq<char>, Seq<u8>>) -> bool {
    match expected {
        None => true,
        Some(key) => headers.contains_key("x-api-key"@) && ascii_text(headers["x-api-key"@])
            == Some(key),
    }
}

/// Whether a request with these headers may pass.
pub fn is_request_authorized(expected_key: Option<&str>, headers: &HeaderMap<HeaderValue>) -> (r:
    bool)
    ensures
        r == authorized(
            match expected_key {
                Some(k) => Some(k@),
                None => None,
            },
            first_values(*headers),
        ),
{
    let expected: &str = match expected_key {
        Some(k) => k,
        None => {
            return true;
        },
    };
    let value = match api_key_header(headers) {
        Some(v) => v,
        None => {
            return false;
        },
    };
    let provided: &str = match header_text(value) {
        Some(s) => s,
        None => {
            return false;
        },
    };
    str_eq(provided, expected)
}

/// The failure of a request that may not pass.
pub open spec fn unauthorized() -> FailureView {
    FailureView {
        status: UNAUTHORIZED,
        code: "unauthorized"@,
        message: "missing or invalid X-API-Key"@,
    }
}

/// Lets a request pass, or turns it down as unauthorized.
pub fn check_request(expected_key: Option<&str>, headers: &HeaderMap<HeaderValue>) -> (r: Result<
    (),
    ApiFailure,
>)
    ensures
        match r {
            Ok(_) => authorized(
                match expected_key {
                    Some(k) => Some(k@),
                    None => None,
                },
                first_values(*headers),
            ),
            Err(e) => e@ == unauthorized() && !authorized(
                match expected_key {
                    Some(k) => Some(k@),
                    None => None,
                },
                first_values(*headers),
            ),
        },
{
    if is_request_authorized(expected_key, headers) {
        Ok(())
    } else {
        Err(unauthorized_failure())
    }
}

/// The failure of a request that may not pass.
pub fn unauthorized_failure() -> (r: ApiFailure)
    ensures
        r@ == unauthorized(),
{
    failure(UNAUTHORIZED, "unauthorized", "missing or invalid X-API-Key")
}

} // verus!
