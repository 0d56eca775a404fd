use docker_proxy::addresses::IpAddress;
use docker_proxy::auth::{
    authenticate, constant_time_eq, extract_bearer_token, is_auth_strictly_configured,
    resolve_token_role, AuthOutcome,
};
use docker_proxy::config::{
    AuthConfig, CertRoleMapping, MtlsConfig, ProxyConfig, SecretToken, TokenEntry,
};
use docker_proxy::headers::HeaderEntry;
use docker_proxy::limits::AuthLimiter;
use docker_proxy::metrics::Metrics;
use docker_proxy::tls::CertIdentity;
use hyper::header::{HeaderMap, HeaderValue};

const SEC: u64 = 1_000_000_000;

fn bearer(secret: Option<&str>, tokens: &[(&str, Option<&str>)]) -> ProxyConfig {
    ProxyConfig {
        auth: Some(AuthConfig {
            auth_type: Some("bearer".into()),
            secret: secret.map(|s| SecretToken::new(s.to_string())),
            tokens: Some(
                tokens
                    .iter()
                    .map(|(t, r)| TokenEntry {
                        token: SecretToken::new(t.to_string()),
                        role: r.map(|s| s.to_string()),
                    })
                    .collect(),
            ),
            mtls: None,
        }),
        ..Default::default()
    }
}

fn scheme(name: &str, mtls: Option<MtlsConfig>) -> ProxyConfig {
    ProxyConfig {
        auth: Some(AuthConfig {
            auth_type: Some(name.into()),
            secret: None,
            tokens: None,
            mtls,
        }),
        ..Default::default()
    }
}

fn header(name: &str, value: &str) -> HeaderEntry {
    HeaderEntry { name: name.into(), value: value.as_bytes().to_vec() }
}

fn outcome(
    config: &ProxyConfig,
    headers: Vec<HeaderEntry>,
    cert: Option<&CertIdentity>,
) -> (String, u64) {
    let mut limiter = AuthLimiter::new();
    let mut metrics = Metrics::new();
    let r = authenticate(
        config,
        "",
        &headers,
        IpAddress::V4(1),
        cert,
        &mut limiter,
        &mut metrics,
        0,
    );
    let text = match r {
        AuthOutcome::Allowed { role, identity } => format!(
            "{}/{}",
            role.unwrap_or("-".to_string()),
            identity.unwrap_or("-".to_string())
        ),
        AuthOutcome::Denied { status, message } => format!("{status} {message}"),
    };
    (text, metrics.auth_failures_total.load())
}

#[test]
fn bytes_are_equal_or_not() {
    assert!(constant_time_eq(b"", b""));
    assert!(constant_time_eq(b"abc", b"abc"));
    assert!(!constant_time_eq(b"abc", b"abd"));
    assert!(!constant_time_eq(b"abc", b"ab"));
    assert!(!constant_time_eq(b"ab\0", b"ab"));
    assert!(!constant_time_eq(b"", b"\0"));
}

#[test]
fn tokens_are_extracted() {
    let get = |values: &[&[u8]]| {
        let mut h = HeaderMap::new();
        for v in values {
            h.append("authorization", HeaderValue::from_bytes(v).unwrap());
        }
        extract_bearer_token(&h)
    };
    assert_eq!(get(&[]), Ok(None));
    assert_eq!(get(&[b"Bearer abc"]), Ok(Some("abc".to_string())));
    assert_eq!(get(&[b"Bearer abc", b"Bearer abc"]), Err(()));
    assert_eq!(get(&[b"Bearer "]), Err(()));
    assert_eq!(get(&[b"bearer abc"]), Err(()));
    assert_eq!(get(&[b"Basic abc"]), Err(()));
    assert_eq!(get(&[b"Bearer \xff"]), Err(()));
    let long = format!("Bearer {}", "x".repeat(4096));
    assert_eq!(get(&[long.as_bytes()]), Ok(Some("x".repeat(4096))));
    let longer = format!("Bearer {}", "x".repeat(4097));
    assert_eq!(get(&[longer.as_bytes()]), Err(()));
}

#[test]
fn roles_of_tokens() {
    let config = bearer(Some("s"), &[("a", Some("ops")), ("b", None), ("a", Some("late")), ("s", Some("listed"))]);
    assert_eq!(resolve_token_role(&config, "", "a").as_deref(), Some("ops"));
    assert_eq!(resolve_token_role(&config, "", "b").as_deref(), Some("user"));
    assert_eq!(resolve_token_role(&config, "", "s").as_deref(), Some("listed"));
    assert_eq!(resolve_token_role(&config, "", "x"), None);
    assert_eq!(resolve_token_role(&config, "x", "x"), None);
    let secret = bearer(Some("s"), &[]);
    assert_eq!(resolve_token_role(&secret, "", "s").as_deref(), Some("admin"));
    let none = ProxyConfig::default();
    assert_eq!(resolve_token_role(&none, "e", "e").as_deref(), Some("admin"));
    assert_eq!(resolve_token_role(&none, "", ""), None);
}

#[test]
fn strict_configuration() {
    assert!(!is_auth_strictly_configured(&ProxyConfig::default(), ""));
    assert!(is_auth_strictly_configured(&ProxyConfig::default(), "s"));
    assert!(!is_auth_strictly_configured(&bearer(None, &[]), "s"));
    assert!(!is_auth_strictly_configured(&bearer(Some(""), &[("", None)]), ""));
    assert!(is_auth_strictly_configured(&bearer(None, &[("", None), ("t", None)]), ""));
    assert!(is_auth_strictly_configured(&bearer(Some("s"), &[]), ""));
    assert!(is_auth_strictly_configured(&scheme("none", None), ""));
    assert!(is_auth_strictly_configured(&scheme("mtls", None), ""));
}

#[test]
fn outcomes_of_tokens() {
    let config = bearer(None, &[("t", Some("ops"))]);
    let auth = |v: &str| vec![header("authorization", v)];
    assert_eq!(outcome(&config, auth("Bearer t"), None), ("ops/-".to_string(), 0));
    assert_eq!(outcome(&config, auth("Bearer u"), None), ("401 Invalid token".to_string(), 1));
    assert_eq!(outcome(&config, vec![], None), ("401 Missing authorization".to_string(), 1));
    assert_eq!(
        outcome(&config, auth("Basic t"), None),
        ("401 Malformed authorization".to_string(), 1)
    );
    assert_eq!(
        outcome(&ProxyConfig::default(), auth("Bearer t"), None),
        ("401 Authentication is not configured".to_string(), 0)
    );
    assert_eq!(outcome(&scheme("none", None), vec![], None), ("-/-".to_string(), 0));
}

#[test]
fn outcomes_of_certificates() {
    let config = scheme(
        "mtls",
        Some(MtlsConfig {
            cert_role_map: Some(vec![CertRoleMapping { cn: "*.ops".into(), role: "admin".into() }]),
            default_role: None,
        }),
    );
    let known = CertIdentity { common_name: None, sans: vec!["a.ops".into()] };
    let unknown = CertIdentity { common_name: Some("b".into()), sans: vec![] };
    assert_eq!(outcome(&config, vec![], Some(&known)), ("admin/a.ops".to_string(), 0));
    assert_eq!(
        outcome(&config, vec![], Some(&unknown)),
        ("401 Client certificate not authorized".to_string(), 1)
    );
    assert_eq!(
        outcome(&config, vec![], None),
        ("401 mTLS required but no client certificate presented".to_string(), 0)
    );
}

#[test]
fn tenth_failure_locks_out() {
    let config = bearer(None, &[("t", None)]);
    let mut limiter = AuthLimiter::new();
    let mut metrics = Metrics::new();
    let good = vec![header("authorization", "Bearer t")];
    let bad = vec![header("authorization", "Bearer x")];
    let mut attempt = |h: &Vec<HeaderEntry>, peer: u32, now: u64| -> u16 {
        match authenticate(
            &config,
            "",
            h,
            IpAddress::V4(peer),
            None,
            &mut limiter,
            &mut metrics,
            now,
        ) {
            AuthOutcome::Allowed { .. } => 200,
            AuthOutcome::Denied { status, .. } => status,
        }
    };
    for i in 0..9 {
        assert_eq!(attempt(&bad, 1, i * SEC), 401);
    }
    assert_eq!(attempt(&good, 1, 9 * SEC), 200);
    for i in 0..10 {
        assert_eq!(attempt(&bad, 1, (10 + i) * SEC), 401);
    }
    assert_eq!(attempt(&good, 1, 20 * SEC), 429);
    assert_eq!(attempt(&good, 2, 20 * SEC), 200);
    assert_eq!(attempt(&good, 1, (19 + 300) * SEC - 1), 429);
    assert_eq!(attempt(&good, 1, (19 + 300) * SEC), 200);
    assert_eq!(metrics.auth_failures_total.load(), 19);
    assert_eq!(metrics.auth_lockouts_total.load(), 1);
}

fn attempts(config: &ProxyConfig, calls: &[(&str, u64)]) -> Vec<u16> {
    let mut limiter = AuthLimiter::new();
    let mut metrics = Metrics::new();
    calls
        .iter()
        .map(|(token, now)| {
            match authenticate(
                config,
                "",
                &vec![header("authorization", &format!("Bearer {token}"))],
                IpAddress::V4(1),
                None,
                &mut limiter,
                &mut metrics,
                *now,
            ) {
                AuthOutcome::Allowed { .. } => 200,
                AuthOutcome::Denied { status, .. } => status,
            }
        })
        .collect()
}

#[test]
fn expired_failures_count_no_more() {
    let config = bearer(None, &[("t", None)]);
    let mut calls: Vec<(&str, u64)> = (0..9).map(|i| ("x", i * SEC)).collect();
    calls.extend((0..10).map(|i| ("x", (69 + i) * SEC)));
    calls.push(("t", 79 * SEC));
    calls.push(("t", (78 + 300) * SEC));
    let answers = attempts(&config, &calls);
    assert_eq!(answers[..19], [401; 19]);
    assert_eq!(answers[19..], [429, 200]);
}

#[test]
fn success_starts_over() {
    let config = bearer(None, &[("t", None)]);
    let mut calls = vec![("x", 0); 9];
    calls.push(("t", SEC));
    calls.extend(vec![("x", 2 * SEC); 9]);
    calls.push(("t", 3 * SEC));
    let answers = attempts(&config, &calls);
    assert_eq!(answers[..9], [401; 9]);
    assert_eq!(answers[9], 200);
    assert_eq!(answers[10..19], [401; 9]);
    assert_eq!(answers[19], 200);
}
