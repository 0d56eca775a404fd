use docker_proxy::upgrade::{header_has_token, is_upgrade_request};
use hyper::header::{HeaderMap, HeaderValue};

#[test]
fn test_detects_upgrade_request() {
    let mut h = HeaderMap::new();
    h.insert("connection", HeaderValue::from_static("upgrade"));
    h.insert("upgrade", HeaderValue::from_static("tcp"));
    assert!(is_upgrade_request(&h));
}

#[test]
fn test_no_upgrade_without_connection_token() {
    let mut h = HeaderMap::new();
    h.insert("upgrade", HeaderValue::from_static("tcp"));
    assert!(!is_upgrade_request(&h));
}

#[test]
fn test_connection_with_multiple_tokens() {
    let mut h = HeaderMap::new();
    h.insert("connection", HeaderValue::from_static("keep-alive, Upgrade"));
    h.insert("upgrade", HeaderValue::from_static("websocket"));
    assert!(is_upgrade_request(&h));
}

#[test]
fn test_header_token_case_insensitive() {
    let v = HeaderValue::from_static("Keep-Alive, UPGRADE");
    assert!(header_has_token(&v, "upgrade"));
    assert!(header_has_token(&v, "keep-alive"));
    assert!(!header_has_token(&v, "close"));
}

#[test]
fn integration_upgrade_detection() {
    let mut h = HeaderMap::new();
    h.insert("connection", HeaderValue::from_static("Upgrade"));
    h.insert("upgrade", HeaderValue::from_static("tcp"));
    assert!(is_upgrade_request(&h));

    let mut h2 = HeaderMap::new();
    h2.insert("connection", HeaderValue::from_static("close"));
    h2.insert("upgrade", HeaderValue::from_static("tcp"));
    assert!(!is_upgrade_request(&h2));
}

#[test]
fn any_connection_header_may_ask() {
    let mut h = HeaderMap::new();
    h.append("connection", HeaderValue::from_bytes(b"\xff upgrade").unwrap());
    h.append("connection", HeaderValue::from_static("close"));
    h.insert("upgrade", HeaderValue::from_static("tcp"));
    assert!(!is_upgrade_request(&h));
    h.append("connection", HeaderValue::from_static("\tupgrade "));
    assert!(is_upgrade_request(&h));
    h.remove("upgrade");
    assert!(!is_upgrade_request(&h));
}
