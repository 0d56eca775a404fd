use docker_proxy::headers::{first_header_string, read_headers, string_of_value};
use hyper::header::{HeaderMap, HeaderName, HeaderValue};

#[test]
fn headers_are_taken_from_a_map() {
    let mut map = HeaderMap::new();
    map.insert(HeaderName::from_static("accept"), HeaderValue::from_static("*/*"));
    map.append(HeaderName::from_bytes(b"X-List").unwrap(), HeaderValue::from_static("a"));
    map.append(HeaderName::from_static("x-list"), HeaderValue::from_bytes(b"b\xff").unwrap());
    let entries = read_headers(&map);
    let list: Vec<Vec<u8>> =
        entries.iter().filter(|e| e.name == "x-list").map(|e| e.value.clone()).collect();
    assert_eq!(list, vec![b"a".to_vec(), b"b\xff".to_vec()]);
    assert_eq!(entries.len(), 3);
    assert_eq!(first_header_string(&entries, "accept").as_deref(), Some("*/*"));
    assert_eq!(first_header_string(&entries, "x-list").as_deref(), Some("a"));
    assert_eq!(first_header_string(&entries, "missing"), None);
}

#[test]
fn only_visible_ascii_is_text() {
    assert_eq!(string_of_value(b"a b\t~").as_deref(), Some("a b\t~"));
    assert_eq!(string_of_value(b""), Some(String::new()));
    assert_eq!(string_of_value(b"\x7f"), None);
    assert_eq!(string_of_value(b"\xe9"), None);
}
