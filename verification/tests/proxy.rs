use docker_proxy::addresses::IpAddress;
use docker_proxy::config::{
    AuthConfig, Condition, ConditionNode, GlobalConfig, ProxyConfig, RateLimitConfig,
    ResponseFilterEntry, Rule, SecretToken, TokenEntry,
};
use docker_proxy::forwarding::{passing_headers, Passage};
use docker_proxy::headers::HeaderEntry;
use docker_proxy::json::{JsonMember, JsonValue};
use docker_proxy::limits::{AuthLimiter, RateLimiter};
use docker_proxy::metrics::Metrics;
use docker_proxy::proxy::{
    accept_upgrade, accept_value, begin, finish_response, judge, judge_value, read_body_value,
    refuse_upgrade, upgrade_accepted,
    request_target, requires_json_body, upstream_failed, BodyRead, Message, Pending, RequestHead,
    Step, UpstreamFailure, Verdict,
};
use docker_proxy::yaml::YamlValue;

struct World {
    config: ProxyConfig,
    limiter: RateLimiter,
    auth: AuthLimiter,
    metrics: Metrics,
}

fn entry(name: &str, value: &str) -> HeaderEntry {
    HeaderEntry { name: name.into(), value: value.as_bytes().to_vec() }
}

fn text_of(h: &HeaderEntry) -> String {
    format!("{}: {}", h.name, String::from_utf8(h.value.clone()).unwrap())
}

fn rule(name: &str, action: &str, path: &str) -> Rule {
    Rule {
        name: name.into(),
        action: action.into(),
        conditions: vec![ConditionNode::Leaf(Condition {
            field: "path".into(),
            operator: "equals".into(),
            value: Some(YamlValue::String(path.into())),
            compiled_regex: None,
        })],
        ..Default::default()
    }
}

fn world(rules: Vec<Rule>) -> World {
    World {
        config: ProxyConfig {
            global: Some(GlobalConfig {
                trusted_proxies: Some(vec!["10.0.0.0/8".into()]),
                ..Default::default()
            }),
            auth: Some(AuthConfig {
                auth_type: Some("bearer".into()),
                secret: None,
                tokens: Some(vec![TokenEntry {
                    token: SecretToken::new("t".into()),
                    role: Some("ops".into()),
                }]),
                mtls: None,
            }),
            rules: Some(rules),
        },
        limiter: RateLimiter::new(),
        auth: AuthLimiter::new(),
        metrics: Metrics::new(),
    }
}

fn head(path: &str, extra: Vec<HeaderEntry>) -> RequestHead {
    let mut headers = vec![
        entry("authorization", "Bearer t"),
        entry("user-agent", "curl/8"),
        entry("x-forwarded-for", "1.2.3.4"),
        entry("accept", "*/*"),
    ];
    headers.extend(extra);
    RequestHead {
        method: "GET".into(),
        raw_path: path.into(),
        raw_query: None,
        headers,
        peer: IpAddress::V4(0x0a000001),
        cert: None,
    }
}

fn start(w: &mut World, h: &RequestHead) -> Step {
    begin(
        h,
        &w.config,
        "",
        &Some("/metrics".to_string()),
        &mut w.limiter,
        &mut w.auth,
        &mut w.metrics,
        0,
        "now",
    )
}

fn pending(w: &mut World, h: &RequestHead) -> Pending {
    match start(w, h) {
        Step::ReadBody { pending } => pending,
        _ => panic!("expected to read the body"),
    }
}

#[test]
fn targets_hold_the_query() {
    assert_eq!(
        request_target("/v1.41/a/../b", &Some("x=1".to_string())),
        Ok(("/b".to_string(), "/b?x=1".to_string()))
    );
    assert_eq!(request_target("/b", &None), Ok(("/b".to_string(), "/b".to_string())));
    assert_eq!(request_target("b", &None), Err("Malformed request path"));
    assert_eq!(request_target("/b", &Some("\u{1}".to_string())), Err("Malformed query string"));
}

#[test]
fn malformed_requests_are_answered() {
    let mut w = world(vec![]);
    match start(&mut w, &head("/%00", vec![])) {
        Step::Answer { reply, path, event } => {
            assert_eq!(reply.status, 400);
            assert_eq!(reply.body, "Malformed request path");
            assert_eq!(path, "/%00");
            assert!(event.is_none());
        }
        _ => panic!("expected an answer"),
    }
    let mut h = head("/v1/x", vec![]);
    h.raw_query = Some("\u{7f}".into());
    match start(&mut w, &h) {
        Step::Answer { reply, path, .. } => {
            assert_eq!(reply.body, "Malformed query string");
            assert_eq!(path, "/x");
        }
        _ => panic!("expected an answer"),
    }
    assert_eq!(w.metrics.requests_total.load(), 2);
    assert_eq!(w.metrics.bad_request_total.load(), 2);
}

#[test]
fn unauthenticated_requests_are_refused_and_recorded() {
    let mut w = world(vec![]);
    let mut h = head("/metrics", vec![]);
    h.headers.remove(0);
    match start(&mut w, &h) {
        Step::Answer { reply, path, event } => {
            assert_eq!(reply.status, 401);
            assert_eq!(reply.body, "Missing authorization");
            assert_eq!(path, "/metrics");
            let e = event.unwrap();
            assert_eq!(e.event, "auth_denied");
            assert_eq!(e.status, 401);
            assert_eq!(e.timestamp, "now");
            assert_eq!(e.peer_ip, "10.0.0.1");
            assert_eq!(e.user_agent, "curl/8");
            assert_eq!(e.message.as_deref(), Some("Missing authorization"));
        }
        _ => panic!("expected an answer"),
    }
    assert_eq!(w.metrics.requests_denied.load(), 1);
    assert_eq!(w.metrics.auth_failures_total.load(), 1);
}

#[test]
fn metrics_are_shown_to_the_authenticated() {
    let mut w = world(vec![]);
    match start(&mut w, &head("/metrics", vec![])) {
        Step::ShowMetrics { body } => assert!(body.contains("docker_proxy_requests_total 1\n")),
        _ => panic!("expected the metrics"),
    }
    let mut post = head("/metrics", vec![]);
    post.method = "POST".into();
    assert!(matches!(start(&mut w, &post), Step::ReadBody { .. }));
}

#[test]
fn plain_requests_are_forwarded() {
    let mut w = world(vec![]);
    let mut h = head("/containers/json", vec![entry("connection", "close"), entry("host", "h")]);
    h.raw_query = Some("all=1".into());
    let p = pending(&mut w, &h);
    assert_eq!(p.target, "/containers/json?all=1");
    assert_eq!(p.client_ip, "1.2.3.4");
    assert_eq!(p.caller.role.as_deref(), Some("ops"));
    let forward: Vec<String> = p.forward.iter().map(text_of).collect();
    assert_eq!(
        forward,
        vec!["host: docker.proxy", "connection: close", "user-agent: curl/8", "accept: */*"]
    );
    match judge(
        p,
        &w.config,
        BodyRead::Complete { bytes: b"abc".to_vec() },
        &mut w.limiter,
        &mut w.metrics,
        0,
        "now",
    ) {
        Verdict::Forward { body, filters, event, .. } => {
            assert_eq!(body, b"abc");
            assert!(filters.is_empty());
            assert!(event.is_none());
        }
        _ => panic!("expected to forward"),
    }
}

#[test]
fn denied_requests_are_recorded() {
    let mut denying = rule("d", "deny", "/x");
    denying.status = Some(1000);
    denying.message = Some("no".into());
    let mut w = world(vec![denying]);
    let p = pending(&mut w, &head("/x", vec![]));
    match judge(
        p,
        &w.config,
        BodyRead::Complete { bytes: vec![] },
        &mut w.limiter,
        &mut w.metrics,
        0,
        "then",
    ) {
        Verdict::Answer { reply, path, event } => {
            assert_eq!(reply.status, 403);
            assert_eq!(reply.body, "no");
            assert_eq!(path, "/x");
            let e = event.unwrap();
            assert_eq!(e.event, "deny");
            assert_eq!(e.rule_name.as_deref(), Some("d"));
            assert_eq!(e.rule_action.as_deref(), Some("deny"));
            assert_eq!(e.user_role.as_deref(), Some("ops"));
            assert_eq!(e.status, 403);
            assert_eq!(e.timestamp, "then");
        }
        _ => panic!("expected an answer"),
    }
    assert_eq!(w.metrics.requests_denied.load(), 1);
    assert!(w.metrics.render_prometheus().contains("rule=\"d\",mode=\"enforced\"} 1"));
}

#[test]
fn watched_requests_pass_and_are_recorded() {
    let mut watching = rule("w", "deny", "/x");
    watching.dry_run = Some(true);
    let mut w = world(vec![watching]);
    let p = pending(&mut w, &head("/x", vec![]));
    match judge(
        p,
        &w.config,
        BodyRead::Complete { bytes: vec![] },
        &mut w.limiter,
        &mut w.metrics,
        0,
        "now",
    ) {
        Verdict::Forward { event, .. } => {
            let e = event.unwrap();
            assert_eq!(e.event, "dry_run");
            assert!(e.dry_run);
            assert_eq!(e.status, 0);
        }
        _ => panic!("expected to forward"),
    }
    assert_eq!(w.metrics.requests_dry_run.load(), 1);
    assert!(w.metrics.render_prometheus().contains("rule=\"w\",mode=\"dry_run\"} 1"));
}

#[test]
fn upgrades_are_judged_without_a_body() {
    let mut limit = rule("l", "rate_limit", "/exec/1/start");
    limit.rate_limit = Some(RateLimitConfig { requests: 1, period: 60, penalty: 60 });
    let mut w = world(vec![limit]);
    let h = head(
        "/exec/1/start",
        vec![entry("connection", "Upgrade"), entry("upgrade", "tcp"), entry("te", "x")],
    );
    match start(&mut w, &h) {
        Step::Upgrade { pending, event } => {
            assert!(event.is_none());
            let forward: Vec<String> = pending.forward.iter().map(text_of).collect();
            assert_eq!(
                forward,
                vec![
                    "host: docker.proxy",
                    "connection: upgrade",
                    "upgrade: tcp",
                    "user-agent: curl/8",
                    "accept: */*"
                ]
            );
        }
        _ => panic!("expected an upgrade"),
    }
    match start(&mut w, &h) {
        Step::Answer { reply, event, .. } => {
            assert_eq!(reply.status, 429);
            assert_eq!(event.unwrap().rule_action.as_deref(), Some("rate_limit"));
        }
        _ => panic!("expected an answer"),
    }
    assert_eq!(w.metrics.requests_allowed.load(), 1);
    assert_eq!(w.metrics.rate_limited_total.load(), 1);
    assert_eq!(w.metrics.upgrade_total.load(), 0);
}

#[test]
fn bodies_that_cannot_be_read() {
    let mut w = world(vec![]);
    let mut read = |path: &str, body: BodyRead| -> String {
        let p = pending(&mut w, &head(path, vec![]));
        match judge(p, &w.config, body, &mut w.limiter, &mut w.metrics, 0, "now") {
            Verdict::Answer { reply, .. } => format!("{} {}", reply.status, reply.body),
            Verdict::Forward { .. } => "forward".to_string(),
        }
    };
    assert_eq!(read("/x", BodyRead::TooLarge), "413 Request body too large");
    assert_eq!(read("/x", BodyRead::Failed), "400 Request body invalid");
    assert_eq!(read("/x", BodyRead::TimedOut), "408 Request body read timeout");
    assert_eq!(read("/x", BodyRead::Complete { bytes: b"{".to_vec() }), "forward");
    assert!(read("/containers/create", BodyRead::Complete { bytes: b"{".to_vec() })
        .starts_with("400 Request body must be valid JSON for this endpoint: EOF"));
    assert_eq!(read("/containers/create", BodyRead::Complete { bytes: vec![] }), "forward");
    assert_eq!(w.metrics.body_too_large_total.load(), 1);
    assert_eq!(w.metrics.bad_request_total.load(), 2);
    assert_eq!(w.metrics.request_timeouts_total.load(), 1);
}

#[test]
fn endpoints_that_require_json() {
    assert!(requires_json_body("/containers/create"));
    assert!(requires_json_body("/containers/abc/update"));
    assert!(!requires_json_body("/containers//update"));
    assert!(!requires_json_body("/containers/a/b/update"));
    assert!(!requires_json_body("/containers/update"));
    assert!(!requires_json_body("/containers/abc/update/"));
    assert!(!requires_json_body("/x/containers/abc/update"));
    assert!(matches!(read_body_value("/x", b"{}"), Ok(Some(_))));
    assert!(matches!(read_body_value("/x", b"{"), Ok(None)));
    assert!(read_body_value("/containers/abc/update", b"{").is_err());
}

#[test]
fn failures_of_docker_are_answered() {
    let mut m = Metrics::new();
    let mut answer = |f: UpstreamFailure| {
        let r = upstream_failed(f, &mut m);
        format!("{} {}", r.status, r.body)
    };
    assert_eq!(answer(UpstreamFailure::ConnectFailed), "502 docker socket unavailable");
    assert_eq!(answer(UpstreamFailure::ConnectTimedOut), "504 docker socket connect timeout");
    assert_eq!(answer(UpstreamFailure::HandshakeFailed), "502 docker handshake failed");
    assert_eq!(answer(UpstreamFailure::RequestInvalid), "502 failed to build upstream request");
    assert_eq!(answer(UpstreamFailure::RequestFailed), "502 docker request failed");
    assert_eq!(answer(UpstreamFailure::RequestTimedOut), "504 docker upstream timeout");
    assert_eq!(answer(UpstreamFailure::ResponseFailed), "502 failed to read docker response");
    assert_eq!(answer(UpstreamFailure::ResponseTimedOut), "504 docker response timeout");
    assert_eq!(answer(UpstreamFailure::ResponseInvalid), "502 failed to build response");
    assert_eq!(answer(UpstreamFailure::UpgradeRefusalInvalid), "502 upgrade rejected");
    assert_eq!(answer(UpstreamFailure::UpgradeResponseInvalid), "502 upgrade response build failed");
    assert_eq!(m.upstream_errors_total.load(), 4);
    assert_eq!(m.upstream_timeouts_total.load(), 3);
}

#[test]
fn answers_are_filtered_and_counted() {
    let mut m = Metrics::new();
    let filters = vec![ResponseFilterEntry {
        field: "Env".into(),
        action: "redact".into(),
        replacement: None,
    }];
    let docker = |kind: Option<&str>| Message {
        status: 200,
        headers: match kind {
            Some(k) => vec![entry("content-type", k), entry("content-length", "9"), entry("x-a", "1")],
            None => vec![entry("transfer-encoding", "chunked")],
        },
        body: br#"{"Env":1}"#.to_vec(),
    };
    let r = finish_response(docker(Some("application/json; charset=utf-8")), &filters, 12, &mut m);
    assert_eq!(r.body, br#"{"Env":"***REDACTED***"}"#);
    let names: Vec<String> = r.headers.iter().map(text_of).collect();
    assert_eq!(names, vec!["content-type: application/json; charset=utf-8", "x-a: 1"]);
    let r = finish_response(docker(Some("text/plain")), &filters, 12, &mut m);
    assert_eq!(r.body, br#"{"Env":1}"#);
    let r = finish_response(docker(None), &filters, 12, &mut m);
    assert_eq!(r.body, br#"{"Env":1}"#);
    let names: Vec<String> = r.headers.iter().map(text_of).collect();
    assert_eq!(names, vec!["content-type: application/octet-stream"]);
    assert_eq!(m.requests_allowed.load(), 3);
    assert_eq!(m.latency.count(), 3);
}

#[test]
fn upgrades_are_accepted_or_refused() {
    assert!(upgrade_accepted(101));
    assert!(!upgrade_accepted(100) && !upgrade_accepted(200) && !upgrade_accepted(409));
    let mut m = Metrics::new();
    let headers = vec![
        entry("connection", "Upgrade"),
        entry("upgrade", "tcp"),
        entry("content-length", "0"),
        entry("te", "x"),
    ];
    let passed: Vec<String> = accept_upgrade(&headers, &mut m).iter().map(text_of).collect();
    assert_eq!(passed, vec!["connection: Upgrade", "upgrade: tcp"]);
    assert_eq!(m.upgrade_total.load(), 1);
    let r = refuse_upgrade(Message { status: 409, headers, body: b"x".to_vec() });
    assert_eq!(r.status, 409);
    assert_eq!(r.body, b"x");
    let passed: Vec<String> = r.headers.iter().map(text_of).collect();
    assert_eq!(passed, vec!["upgrade: tcp"]);
}

#[test]
fn headers_of_one_connection_are_stripped() {
    let all = [
        "authorization", "host", "x-forwarded-for", "x-forwarded-host", "x-forwarded-proto",
        "x-forwarded-port", "x-real-ip", "forwarded", "via", "connection", "keep-alive",
        "proxy-authenticate", "proxy-authorization", "te", "trailer", "transfer-encoding",
        "content-length", "upgrade", "x-other",
    ];
    let h: Vec<HeaderEntry> = all.iter().map(|n| entry(n, "v")).collect();
    let to_docker: Vec<String> =
        passing_headers(Passage::ToDocker, &h).into_iter().map(|e| e.name).collect();
    assert_eq!(to_docker, vec!["x-other"]);
    let to_client: Vec<String> =
        passing_headers(Passage::ToClient, &h).into_iter().map(|e| e.name).collect();
    assert_eq!(to_client.len(), 11);
}

#[test]
fn values_that_were_not_read() {
    let failed = || Err("eof".to_string());
    assert_eq!(
        accept_value("/containers/create", failed()).err().unwrap(),
        "Request body must be valid JSON for this endpoint: eof"
    );
    assert!(matches!(accept_value("/images/create", failed()), Ok(None)));
    assert!(matches!(
        accept_value("/containers/create", Ok(JsonValue::Bool(true))),
        Ok(Some(JsonValue::Bool(true)))
    ));
}

#[test]
fn rules_judge_the_value_of_a_body() {
    let privileged = Rule {
        name: "no privileged".into(),
        action: "deny".into(),
        conditions: vec![ConditionNode::Leaf(Condition {
            field: "body.HostConfig.Privileged".into(),
            operator: "equals".into(),
            value: Some(YamlValue::Bool(true)),
            compiled_regex: None,
        })],
        ..Default::default()
    };
    let hidden = Rule {
        response_filter: Some(vec![ResponseFilterEntry {
            field: "Env".into(),
            action: "remove".into(),
            replacement: None,
        }]),
        ..rule("hide", "response_filter", "/containers/create")
    };
    let mut w = world(vec![privileged, hidden]);
    let mut judged = |privileged: bool| {
        let p = pending(&mut w, &head("/containers/create", vec![]));
        let value = JsonValue::Object(vec![JsonMember {
            name: "HostConfig".into(),
            value: JsonValue::Object(vec![JsonMember {
                name: "Privileged".into(),
                value: JsonValue::Bool(privileged),
            }]),
        }]);
        let body = b"body".to_vec();
        judge_value(p, &w.config, body, Some(value), &mut w.limiter, &mut w.metrics, 0, "now")
    };
    match judged(true) {
        Verdict::Answer { reply, path, event } => {
            assert_eq!(reply.status, 403);
            assert_eq!(path, "/containers/create");
            assert_eq!(event.unwrap().rule_name.as_deref(), Some("no privileged"));
        }
        Verdict::Forward { .. } => panic!("expected an answer"),
    }
    match judged(false) {
        Verdict::Forward { body, filters, event, .. } => {
            assert_eq!(body, b"body");
            assert_eq!(filters.len(), 1);
            assert_eq!(filters[0].field, "Env");
            assert!(event.is_none());
        }
        Verdict::Answer { .. } => panic!("expected to forward"),
    }
    assert_eq!(w.metrics.requests_denied.load(), 1);
}
