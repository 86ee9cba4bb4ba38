use headers::HeaderMap;
use headers::HeaderValue;
use realm::api::api_error;
use realm::api::check_request;
use realm::api::is_request_authorized;
use realm::api::not_found_failure;
use realm::api::unauthorized_failure;

#[test]
fn auth_check_works() {
    let mut headers = HeaderMap::new();
    assert!(is_request_authorized(None, &headers));
    assert!(!is_request_authorized(Some("k"), &headers));

    headers.insert("X-API-Key", "k".parse().unwrap());
    assert!(is_request_authorized(Some("k"), &headers));
    assert!(!is_request_authorized(Some("k2"), &headers));
}

#[test]
fn auth_rejects_invalid_header_value() {
    let mut headers = HeaderMap::new();
    headers.insert("x-api-key", HeaderValue::from_bytes(b"\xff").unwrap());
    assert!(!is_request_authorized(Some("k"), &headers));
}

#[test]
fn auth_takes_the_first_value_of_the_header() {
    let mut headers = HeaderMap::new();
    headers.append("x-api-key", "first".parse().unwrap());
    headers.append("x-api-key", "second".parse().unwrap());
    assert!(is_request_authorized(Some("first"), &headers));
    assert!(!is_request_authorized(Some("second"), &headers));
    // another header does not count
    let mut other = HeaderMap::new();
    other.insert("x-other", "first".parse().unwrap());
    assert!(!is_request_authorized(Some("first"), &other));
    // a key with a space or a tab in it is still text
    let mut spaced = HeaderMap::new();
    spaced.insert("x-api-key", HeaderValue::from_bytes(b"a b\tc").unwrap());
    assert!(is_request_authorized(Some("a b\tc"), &spaced));
    // an empty key is a key
    let mut empty = HeaderMap::new();
    empty.insert("x-api-key", HeaderValue::from_static(""));
    assert!(is_request_authorized(Some(""), &empty));
    assert!(!is_request_authorized(Some("k"), &empty));
}

#[test]
fn failures_carry_status_code_and_message() {
    let f = unauthorized_failure();
    assert_eq!(f.status, 401);
    assert_eq!(f.body.error.code, "unauthorized");
    assert_eq!(f.body.error.message, "missing or invalid X-API-Key");
    let f = not_found_failure();
    assert_eq!(f.status, 404);
    assert_eq!(f.body.error.code, "not_found");
    assert_eq!(f.body.error.message, "instance not found");
    let e = api_error("conflict", "instance already running");
    assert_eq!(e.error.code, "conflict");
    assert_eq!(e.error.message, "instance already running");
}

#[test]
fn http_auth_is_enforced_when_api_key_set() {
    let mut headers = HeaderMap::new();
    let err = check_request(Some("k"), &headers).unwrap_err();
    assert_eq!(err.status, 401);
    assert_eq!(err.body.error.code, "unauthorized");

    headers.insert("X-API-Key", "bad".parse().unwrap());
    assert_eq!(check_request(Some("k"), &headers).unwrap_err().status, 401);

    headers.insert("X-API-Key", "k".parse().unwrap());
    assert!(check_request(Some("k"), &headers).is_ok());
    // no key is asked for where none is set
    assert!(check_request(None, &HeaderMap::new()).is_ok());
}
