use docker_proxy::paths::{
    accept_query, canonicalize_path, percent_decode, strip_api_version_prefix,
};

#[test]
fn percent_sequences_are_decoded() {
    assert_eq!(percent_decode("/a%2Fb%20c"), Some(b"/a/b c".to_vec()));
    assert_eq!(percent_decode("%41%6a"), Some(b"Aj".to_vec()));
    assert_eq!(percent_decode("%4"), None);
    assert_eq!(percent_decode("%"), None);
    assert_eq!(percent_decode("%zz"), None);
    assert_eq!(percent_decode(""), Some(vec![]));
    assert_eq!(percent_decode("é"), Some("é".as_bytes().to_vec()));
}

#[test]
fn version_prefixes_are_stripped() {
    assert_eq!(strip_api_version_prefix("/v1.41/containers/json"), "/containers/json");
    assert_eq!(strip_api_version_prefix("/v1/x"), "/x");
    assert_eq!(strip_api_version_prefix("/version"), "/version");
    assert_eq!(strip_api_version_prefix("/v./x"), "/v./x");
    assert_eq!(strip_api_version_prefix("/v/x"), "/v/x");
    assert_eq!(strip_api_version_prefix("/v1.x/y"), "/v1.x/y");
    assert_eq!(strip_api_version_prefix("/v1"), "/v1");
    assert_eq!(strip_api_version_prefix("/volumes/a"), "/volumes/a");
}

#[test]
fn paths_are_canonical() {
    let canonical = |s: &str| canonicalize_path(s);
    assert_eq!(canonical("/containers/../secrets").as_deref(), Some("/secrets"));
    assert_eq!(canonical("/containers/").as_deref(), Some("/containers/"));
    assert_eq!(canonical("/a//b/./c").as_deref(), Some("/a/b/c"));
    assert_eq!(canonical("/../..").as_deref(), Some("/"));
    assert_eq!(canonical("/").as_deref(), Some("/"));
    assert_eq!(canonical("/v1.41/containers/json").as_deref(), Some("/containers/json"));
    assert_eq!(canonical("/%2e%2e/secrets").as_deref(), Some("/secrets"));
    assert_eq!(canonical("/containers%2Fcreate").as_deref(), Some("/containers/create"));
    assert_eq!(canonical("/v1.41/a/..").as_deref(), Some("/"));
    assert_eq!(canonical(""), None);
    assert_eq!(canonical("a"), None);
    assert_eq!(canonical("/%00"), None);
    assert_eq!(canonical("/a%0ab"), None);
    assert_eq!(canonical("/%7f"), None);
    assert_eq!(canonical("/%ff"), None);
    assert_eq!(canonical("/%c3%a9").as_deref(), Some("/é"));
    assert_eq!(canonical(&format!("/{}", "a".repeat(8191))).map(|s| s.len()), Some(8192));
    assert_eq!(canonical(&format!("/{}", "a".repeat(8192))), None);
}

#[test]
fn queries_are_bounded_and_clean() {
    assert!(accept_query(""));
    assert!(accept_query("all=1&x=%00"));
    assert!(!accept_query("a\tb"));
    assert!(!accept_query("\u{7f}"));
    assert!(accept_query(&"q".repeat(8192)));
    assert!(!accept_query(&"q".repeat(8193)));
}

#[test]
fn encoding_changes_nothing() {
    let plain = canonicalize_path("/v1.41/containers/json");
    assert_eq!(canonicalize_path("/%76%31%2e%34%31/%63ontainers%2fjson"), plain);
    assert_eq!(canonicalize_path("/%76%31%2E%34%31/%63ontainers%2Fjson"), plain);
    assert_eq!(canonicalize_path("/a%252fb").as_deref(), Some("/a%2fb"));
}

#[test]
fn canonical_paths_are_their_own_canonical_form() {
    for raw in ["/v1.41//a/./b/../c/", "/%c3%a9/x", "/", "/..", "/a%2f%2fb"] {
        let p = canonicalize_path(raw).unwrap();
        assert_eq!(canonicalize_path(&p), Some(p.clone()));
    }
    assert_eq!(canonicalize_path("/a%2541").as_deref(), Some("/a%41"));
    assert_eq!(canonicalize_path("/x/../v1/a").as_deref(), Some("/v1/a"));
}
