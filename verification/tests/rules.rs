use docker_proxy::addresses::{Cidr, IpAddress};
use docker_proxy::conditions::{evaluate_given, ClientAddress, Findings};
use docker_proxy::config::{
    Condition, ConditionNode, ProxyConfig, RateLimitConfig, ResponseFilterEntry, Rule,
};
use docker_proxy::json::{parse_json, JsonValue};
use docker_proxy::rules::{
    apply_response_filters, collect_response_filters, evaluate_condition, evaluate_node,
    evaluate_request, evaluate_request_detailed, filter_json, EvaluationContext, RateLimiter,
    RequestHeader, RuleResult,
};
use docker_proxy::yaml::{yaml_value_to_string, YamlNumber, YamlValue};
use regex::Regex;

fn make_condition(field: &str, operator: &str, value: Option<YamlValue>) -> Condition {
    let mut condition = Condition {
        compiled_regex: None,
        field: field.to_string(),
        operator: operator.to_string(),
        value,
    };
    if matches!(condition.operator.as_str(), "matches" | "not_matches") {
        if let Some(ref v) = condition.value {
            if let Some(s) = yaml_value_to_string(v) {
                condition.compiled_regex = Regex::new(&s).ok();
            }
        }
    }
    condition
}

fn make_ctx(path: &str, method: &str, ip: &str) -> EvaluationContext {
    EvaluationContext {
        path: path.to_string(),
        method: method.to_string(),
        headers: Vec::new(),
        client_ip: ip.to_string(),
        body_json: None,
        user_role: None,
    }
}

fn text(s: &str) -> Option<YamlValue> {
    Some(YamlValue::String(s.to_string()))
}

fn list(items: &[&str]) -> Option<YamlValue> {
    Some(YamlValue::Sequence(
        items.iter().map(|s| YamlValue::String(s.to_string())).collect(),
    ))
}

fn leaf(field: &str, operator: &str, value: Option<YamlValue>) -> ConditionNode {
    ConditionNode::Leaf(make_condition(field, operator, value))
}

fn holds(field: &str, operator: &str, value: Option<YamlValue>, ctx: &EvaluationContext) -> bool {
    evaluate_condition(&make_condition(field, operator, value), ctx)
}

fn with_body(body: &str) -> EvaluationContext {
    let mut ctx = make_ctx("/containers/create", "POST", "10.0.0.1");
    ctx.body_json = parse_json(body.as_bytes()).ok();
    ctx
}

#[test]
fn integration_deny_secrets_allow_containers() {
    let rules = vec![Rule {
        name: "block-secrets".into(),
        action: "deny".into(),
        conditions: vec![ConditionNode::Leaf(make_condition(
            "path",
            "starts_with",
            Some(YamlValue::String("/secrets".into())),
        ))],
        message: Some("secrets blocked".into()),
        status: Some(403),
        ..Default::default()
    }];

    let mut rl = RateLimiter::new();

    let result = evaluate_request(&rules, &make_ctx("/secrets", "GET", "10.0.0.1"), &mut rl, 0);
    assert!(matches!(result, RuleResult::Deny { status: 403, .. }));

    let result = evaluate_request(
        &rules,
        &make_ctx("/containers/json", "GET", "10.0.0.1"),
        &mut rl,
        0,
    );
    assert!(matches!(result, RuleResult::Allow));
}

#[test]
fn integration_role_admin_overrides_readonly() {
    let rules = vec![Rule {
        name: "admin-only".into(),
        action: "require_role".into(),
        conditions: vec![ConditionNode::Leaf(make_condition(
            "method",
            "equals",
            Some(YamlValue::String("DELETE".into())),
        ))],
        role: Some("admin".into()),
        message: Some("admin required".into()),
        ..Default::default()
    }];

    let mut rl = RateLimiter::new();

    let mut ctx = make_ctx("/containers/test", "DELETE", "10.0.0.1");
    ctx.user_role = Some("admin".into());
    assert!(matches!(
        evaluate_request(&rules, &ctx, &mut rl, 0),
        RuleResult::Allow
    ));

    ctx.user_role = Some("readonly".into());
    assert!(matches!(
        evaluate_request(&rules, &ctx, &mut rl, 0),
        RuleResult::Deny { .. }
    ));

    ctx.user_role = None;
    assert!(matches!(
        evaluate_request(&rules, &ctx, &mut rl, 0),
        RuleResult::Deny { .. }
    ));
}

#[test]
fn integration_rate_limit_per_ip_isolation() {
    let rules = vec![Rule {
        name: "rl".into(),
        action: "rate_limit".into(),
        conditions: vec![ConditionNode::Leaf(make_condition(
            "path",
            "matches",
            Some(YamlValue::String("^/".into())),
        ))],
        rate_limit: Some(RateLimitConfig {
            requests: 3,
            period: 60,
            penalty: 60,
        }),
        status: Some(429),
        ..Default::default()
    }];

    let mut rl = RateLimiter::new();

    for _ in 0..3 {
        assert!(matches!(
            evaluate_request(&rules, &make_ctx("/test", "GET", "10.0.0.1"), &mut rl, 0),
            RuleResult::Allow
        ));
    }
    assert!(matches!(
        evaluate_request(&rules, &make_ctx("/test", "GET", "10.0.0.1"), &mut rl, 0),
        RuleResult::Deny { status: 429, .. }
    ));

    assert!(matches!(
        evaluate_request(&rules, &make_ctx("/test", "GET", "10.0.0.2"), &mut rl, 0),
        RuleResult::Allow
    ));
}

#[test]
fn integration_priority_promotes_high_value_rule() {
    let rule = |name: &str, priority: u32, action: &str| Rule {
        name: name.into(),
        priority: Some(priority),
        action: action.into(),
        conditions: vec![leaf("path", "equals", text("/x"))],
        ..Default::default()
    };
    let mut cfg = ProxyConfig {
        rules: Some(vec![rule("low", 1, "deny"), rule("high", 100, "allow")]),
        ..Default::default()
    };
    cfg.sort_rules_by_priority();
    let rules = cfg.rules.as_ref().unwrap();
    assert_eq!(rules[0].name, "high");
    let mut rl = RateLimiter::new();
    let ctx = make_ctx("/x", "GET", "1.1.1.1");
    let result = evaluate_request(rules, &ctx, &mut rl, 0);
    assert!(matches!(result, RuleResult::Allow));
}

#[test]
fn integration_dry_run_audit_flow() {
    let rules = vec![Rule {
        name: "would-deny".into(),
        action: "deny".into(),
        conditions: vec![ConditionNode::Leaf(make_condition(
            "path",
            "equals",
            Some(YamlValue::String("/danger".into())),
        ))],
        dry_run: Some(true),
        ..Default::default()
    }];
    let mut rl = RateLimiter::new();
    let decision =
        evaluate_request_detailed(&rules, &make_ctx("/danger", "POST", "5.5.5.5"), &mut rl, 0);
    assert!(matches!(decision.result, RuleResult::Allow));
    assert!(decision.dry_run);
    assert_eq!(decision.rule_name.as_deref(), Some("would-deny"));
}

#[test]
fn path_operators() {
    let ctx = make_ctx("/containers/abc/json", "GET", "10.0.0.1");
    assert!(holds("path", "equals", text("/containers/abc/json"), &ctx));
    assert!(!holds("path", "equals", text("/containers"), &ctx));
    assert!(!holds("path", "equals", None, &ctx));
    assert!(holds("path", "not_equals", None, &ctx));
    assert!(holds("path", "contains", text("/abc/"), &ctx));
    assert!(!holds("path", "not_contains", text("/abc/"), &ctx));
    assert!(holds("path", "starts_with", text("/containers"), &ctx));
    assert!(holds("path", "ends_with", text("/json"), &ctx));
    assert!(holds("path", "matches", text("^/containers/[^/]+/json$"), &ctx));
    assert!(!holds("path", "not_matches", text("^/containers/[^/]+/json$"), &ctx));
    assert!(!holds("path", "matches", text("("), &ctx));
    assert!(holds("path", "not_matches", text("("), &ctx));
    assert!(holds("path", "in", list(&["/x", "/containers/abc/json"]), &ctx));
    assert!(!holds("path", "in", text("/containers/abc/json"), &ctx));
    assert!(holds("path", "not_in", list(&["/x"]), &ctx));
    assert!(!holds("path", "exists", None, &ctx));
    assert!(!holds("nowhere", "equals", text("x"), &ctx));
}

#[test]
fn method_is_compared_in_any_case() {
    let ctx = make_ctx("/", "delete", "10.0.0.1");
    assert!(holds("method", "equals", text("DELETE"), &ctx));
    assert!(!holds("method", "not_equals", text("Delete"), &ctx));
    assert!(holds("method", "in", list(&["GET", "DELETE"]), &ctx));
    assert!(!holds("method", "not_in", list(&["GET", "DELETE"]), &ctx));
    assert!(!holds("method", "contains", text("DEL"), &ctx));
}

#[test]
fn header_operators() {
    let mut ctx = make_ctx("/", "GET", "10.0.0.1");
    ctx.headers = vec![
        RequestHeader { name: "x-team".into(), value: "ops-eu".into() },
        RequestHeader { name: "x-team".into(), value: "second".into() },
    ];
    assert!(holds("header.X-Team", "equals", text("ops-eu"), &ctx));
    assert!(holds("header.x-team", "contains", text("ops"), &ctx));
    assert!(holds("header.x-team", "starts_with", text("ops"), &ctx));
    assert!(holds("header.x-team", "ends_with", text("-eu"), &ctx));
    assert!(holds("header.x-team", "matches", text("^ops-..$"), &ctx));
    assert!(!holds("header.x-team", "not_matches", text("^ops-..$"), &ctx));
    assert!(holds("header.x-team", "exists", None, &ctx));
    assert!(holds("header.x-team", "in", list(&["ops-eu"]), &ctx));
    assert!(!holds("header.x-other", "exists", None, &ctx));
    assert!(holds("header.x-other", "not_exists", None, &ctx));
    assert!(holds("header.x-other", "not_equals", text("ops-eu"), &ctx));
    assert!(holds("header.x-other", "not_contains", text("ops"), &ctx));
    assert!(holds("header.x-other", "not_matches", text("ops"), &ctx));
    assert!(holds("header.x-other", "not_in", list(&["ops-eu"]), &ctx));
    assert!(!holds("header.x-other", "equals", text("ops-eu"), &ctx));
}

#[test]
fn client_ip_operators() {
    let ctx = make_ctx("/", "GET", "10.1.2.3");
    assert!(holds("client_ip", "equals", text("10.1.2.3"), &ctx));
    assert!(holds("client_ip", "not_equals", text("10.1.2.4"), &ctx));
    assert!(holds("client_ip", "in", list(&["10.0.0.0/8", "192.168.0.0/16"]), &ctx));
    assert!(!holds("client_ip", "not_in", list(&["10.0.0.0/8"]), &ctx));
    assert!(!holds("client_ip", "in", list(&["11.0.0.0/8"]), &ctx));
    assert!(holds("client_ip", "in", list(&["10.1.2.3", "10.1.2.4"]), &ctx));
    assert!(holds("client_ip", "in", text("10.1.0.0/16"), &ctx));
    assert!(!holds("client_ip", "in", list(&["10.1.2.3", "172.16.0.0/12"]), &ctx));

    let v6 = make_ctx("/", "GET", "2001:DB8:0:0:0:0:0:1");
    assert!(holds("client_ip", "equals", text("2001:db8::1"), &v6));
    assert!(holds("client_ip", "in", list(&["2001:db8::/32"]), &v6));
    assert!(!holds("client_ip", "in", list(&["10.0.0.0/8"]), &v6));

    let unknown = make_ctx("/", "GET", "unknown");
    assert!(!holds("client_ip", "in", list(&["0.0.0.0/0"]), &unknown));
    assert!(holds("client_ip", "not_in", list(&["0.0.0.0/0"]), &unknown));
}

#[test]
fn body_operators() {
    let ctx = with_body(
        r#"{"HostConfig":{"Privileged":true,"Memory":1024,"Ratio":1.5},"Env":["A=1","B=2"],"Tty":null,"Big":18446744073709551615}"#,
    );
    assert!(holds("body.HostConfig.Privileged", "equals", Some(YamlValue::Bool(true)), &ctx));
    assert!(!holds("body.HostConfig.Privileged", "equals", text("true"), &ctx));
    assert!(holds("body.Env.0", "equals", text("A=1"), &ctx));
    assert!(holds("body.Env.+1", "equals", text("B=2"), &ctx));
    assert!(!holds("body.Env.2", "exists", None, &ctx));
    assert!(holds("body.Env", "contains", text("\"B=2\""), &ctx));
    assert!(holds("body.Env.0", "starts_with", text("A="), &ctx));
    assert!(holds("body.Env.0", "matches", text("^A=\\d$"), &ctx));
    assert!(!holds("body.Env.0", "ends_with", text("1"), &ctx));
    assert!(holds("body.Tty", "exists", None, &ctx));
    assert!(holds("body.Tty", "equals", Some(YamlValue::Null), &ctx));
    assert!(holds("body.Missing", "not_exists", None, &ctx));
    assert!(holds("body.Missing", "not_equals", text("x"), &ctx));
    assert!(holds("body.Missing", "not_contains", text("x"), &ctx));
    assert!(holds("body.Missing", "not_in", list(&["x"]), &ctx));
    assert!(!holds("body.Missing", "equals", text("x"), &ctx));
    assert!(!holds("body.HostConfig..Privileged", "exists", None, &ctx));
    let int = |n: i64| {
        Some(YamlValue::Number(YamlNumber {
            int: Some(n),
            uint: Some(n as u64),
            float_bits: Some((n as f64).to_bits()),
            text: n.to_string(),
        }))
    };
    assert!(holds("body.HostConfig.Memory", "equals", int(1024), &ctx));
    assert!(!holds("body.HostConfig.Memory", "equals", int(1025), &ctx));
    assert!(holds("body.HostConfig.Memory", "contains", text("02"), &ctx));
    let float = |f: f64| {
        Some(YamlValue::Number(YamlNumber {
            int: None,
            uint: None,
            float_bits: Some(f.to_bits()),
            text: f.to_string(),
        }))
    };
    assert!(holds("body.HostConfig.Ratio", "equals", float(1.5), &ctx));
    assert!(!holds("body.HostConfig.Ratio", "equals", float(f64::NAN), &ctx));
    let big = Some(YamlValue::Number(YamlNumber {
        int: None,
        uint: Some(u64::MAX),
        float_bits: None,
        text: "18446744073709551615".into(),
    }));
    assert!(holds("body.Big", "equals", big, &ctx));
    assert!(holds(
        "body.HostConfig.Privileged",
        "in",
        Some(YamlValue::Sequence(vec![YamlValue::Null, YamlValue::Bool(true)])),
        &ctx
    ));
}

#[test]
fn zeros_of_either_sign_are_equal() {
    let ctx = with_body(r#"{"n":-0.0}"#);
    let zero = YamlValue::Number(YamlNumber {
        int: None,
        uint: None,
        float_bits: Some(0.0f64.to_bits()),
        text: "0.0".into(),
    });
    assert!(holds("body.n", "equals", Some(zero), &ctx));
}

#[test]
fn groups_nest() {
    let ctx = make_ctx("/volumes/x", "POST", "10.0.0.1");
    let node = ConditionNode::And {
        and: vec![
            ConditionNode::Or {
                or: vec![
                    leaf("path", "starts_with", text("/networks")),
                    leaf("path", "starts_with", text("/volumes")),
                ],
            },
            leaf("method", "not_equals", text("GET")),
        ],
    };
    assert!(evaluate_node(&node, &ctx));
    assert!(!evaluate_node(&ConditionNode::Or { or: vec![] }, &ctx));
    assert!(evaluate_node(&ConditionNode::And { and: vec![] }, &ctx));
}

#[test]
fn defaults_of_denials() {
    let mut rl = RateLimiter::new();
    let always = || vec![leaf("path", "starts_with", text("/"))];
    let ctx = make_ctx("/x", "GET", "1.1.1.1");

    let deny = vec![Rule {
        name: "d".into(),
        action: "deny".into(),
        conditions: always(),
        ..Default::default()
    }];
    match evaluate_request(&deny, &ctx, &mut rl, 0) {
        RuleResult::Deny { status, message } => {
            assert_eq!(status, 403);
            assert_eq!(message, "Forbidden by rule");
        }
        RuleResult::Allow => panic!("expected a denial"),
    }

    let role = vec![Rule {
        name: "r".into(),
        action: "require_role".into(),
        role: Some("ops".into()),
        conditions: always(),
        ..Default::default()
    }];
    match evaluate_request(&role, &ctx, &mut rl, 0) {
        RuleResult::Deny { status, message } => {
            assert_eq!(status, 403);
            assert_eq!(message, "Role 'ops' required");
        }
        RuleResult::Allow => panic!("expected a denial"),
    }

    let limit = vec![Rule {
        name: "l".into(),
        action: "rate_limit".into(),
        rate_limit: Some(RateLimitConfig { requests: 0, period: 30, penalty: 30 }),
        conditions: always(),
        ..Default::default()
    }];
    let decision = evaluate_request_detailed(&limit, &ctx, &mut rl, 0);
    match decision.result {
        RuleResult::Deny { status, message } => {
            assert_eq!(status, 429);
            assert_eq!(message, "Rate limit exceeded");
        }
        RuleResult::Allow => panic!("expected a denial"),
    }
    assert_eq!(decision.action.as_deref(), Some("rate_limit"));
    assert_eq!(decision.rule_name.as_deref(), Some("l"));
}

#[test]
fn first_terminating_rule_wins() {
    let mut rl = RateLimiter::new();
    let rule = |name: &str, action: &str| Rule {
        name: name.into(),
        action: action.into(),
        role: Some("user".into()),
        conditions: vec![leaf("path", "equals", text("/x"))],
        ..Default::default()
    };
    let mut ctx = make_ctx("/x", "GET", "1.1.1.1");
    ctx.user_role = Some("user".into());

    let rules = vec![rule("role", "require_role"), rule("deny", "deny")];
    let decision = evaluate_request_detailed(&rules, &ctx, &mut rl, 0);
    assert!(matches!(decision.result, RuleResult::Allow));
    assert_eq!(decision.rule_name.as_deref(), Some("role"));

    let rules = vec![rule("filter", "response_filter"), rule("other", "audit"), rule("deny", "deny")];
    let decision = evaluate_request_detailed(&rules, &ctx, &mut rl, 0);
    assert!(matches!(decision.result, RuleResult::Deny { .. }));
    assert_eq!(decision.rule_name.as_deref(), Some("deny"));

    let none: Vec<Rule> = vec![Rule {
        name: "empty".into(),
        action: "deny".into(),
        ..Default::default()
    }];
    let decision = evaluate_request_detailed(&none, &ctx, &mut rl, 0);
    assert!(matches!(decision.result, RuleResult::Allow));
    assert_eq!(decision.rule_name, None);
}

fn filter(field: &str, action: &str, replacement: Option<&str>) -> ResponseFilterEntry {
    ResponseFilterEntry {
        field: field.into(),
        action: action.into(),
        replacement: replacement.map(|s| s.to_string()),
    }
}

#[test]
fn filters_change_their_fields_only() {
    let body = br#"{"Config":{"Cmd":["sh"],"Env":["A=1"],"Image":"i"},"Labels":{"k":"v"},"Items":[{"Name":"n"},{"Name":"m"}]}"#;
    let filters = vec![
        filter("Config.Env", "redact", None),
        filter("Labels", "remove", None),
        filter("Items.1.Name", "replace", Some("x")),
        filter("Config.Missing", "redact", None),
        filter("Items.0", "remove", None),
        filter("Config.Cmd", "unknown", None),
    ];
    let out = apply_response_filters(&filters, body);
    assert_eq!(
        String::from_utf8(out).unwrap(),
        r#"{"Config":{"Cmd":["sh"],"Env":"***REDACTED***","Image":"i"},"Items":[{"Name":"x"}]}"#
    );
}

#[test]
fn filters_leave_other_bodies() {
    let filters = vec![filter("a", "redact", None)];
    assert_eq!(apply_response_filters(&filters, b"not json"), b"not json".to_vec());
    assert_eq!(
        apply_response_filters(&Vec::new(), b"{ \"a\": 1 }"),
        b"{ \"a\": 1 }".to_vec()
    );
}

#[test]
fn replacement_defaults_to_nothing() {
    let v = parse_json(br#"{"a":{"b":1}}"#).unwrap();
    let out = filter_json(v, &vec![filter("a.b", "replace", None), filter("a.c", "remove", None)]);
    match out {
        JsonValue::Object(m) => match &m[0].value {
            JsonValue::Object(inner) => {
                assert_eq!(inner.len(), 1);
                assert!(matches!(&inner[0].value, JsonValue::String(s) if s.is_empty()));
            }
            _ => panic!("expected an object"),
        },
        _ => panic!("expected an object"),
    }
}

#[test]
fn filters_come_from_filter_rules_that_apply() {
    let rule = |name: &str, action: &str, path: &str, field: &str| Rule {
        name: name.into(),
        action: action.into(),
        conditions: vec![leaf("path", "equals", text(path))],
        response_filter: Some(vec![filter(field, "redact", None)]),
        ..Default::default()
    };
    let rules = vec![
        rule("a", "response_filter", "/x", "A"),
        rule("b", "response_filter", "/y", "B"),
        rule("c", "deny", "/x", "C"),
        rule("d", "response_filter", "/x", "D"),
    ];
    let found = collect_response_filters(&rules, &make_ctx("/x", "GET", "1.1.1.1"));
    let fields: Vec<&str> = found.iter().map(|f| f.field.as_str()).collect();
    assert_eq!(fields, vec!["A", "D"]);
}

#[test]
fn filters_of_several_rules_add_up() {
    let body = br#"{"A":1,"B":2,"C":3}"#;
    let first = vec![filter("A", "remove", None)];
    let second = vec![filter("B", "redact", None)];
    let both = vec![filter("A", "remove", None), filter("B", "redact", None)];
    let step = apply_response_filters(&second, &apply_response_filters(&first, body));
    assert_eq!(step, br#"{"B":"***REDACTED***","C":3}"#.to_vec());
    assert_eq!(apply_response_filters(&both, body), step);
}

#[test]
fn rules_that_do_not_decide_are_passed_over() {
    let rule = |name: &str, action: &str, path: &str| Rule {
        name: name.into(),
        action: action.into(),
        conditions: vec![leaf("path", "equals", text(path))],
        ..Default::default()
    };
    let mut rl = RateLimiter::new();
    let ctx = make_ctx("/x", "GET", "1.1.1.1");
    let rules = vec![
        rule("elsewhere", "deny", "/y"),
        rule("filter", "response_filter", "/x"),
        rule("allow", "allow", "/x"),
        rule("late", "deny", "/x"),
    ];
    let decision = evaluate_request_detailed(&rules, &ctx, &mut rl, 0);
    assert!(matches!(decision.result, RuleResult::Allow));
    assert_eq!(decision.rule_name.as_deref(), Some("allow"));
}

#[test]
fn findings_decide() {
    let ctx = make_ctx("/x", "GET", "ignored");
    let found = |matched: bool, client: Option<u32>| Findings {
        matched,
        client: client.map(|n| ClientAddress { ip: IpAddress::V4(n), written: format!("n{}", n) }),
        networks: vec![Cidr::V4 { addr: 0x0a000000, prefix: 8 }],
    };
    let given = |field: &str, operator: &str, value: Option<YamlValue>, f: Findings| {
        evaluate_given(&make_condition(field, operator, value), &ctx, &f)
    };
    assert!(given("path", "matches", text("^/y$"), found(true, None)));
    assert!(!given("path", "matches", text("^/x$"), found(false, None)));
    assert!(given("path", "not_matches", text("^/x$"), found(false, None)));
    assert!(given("client_ip", "in", list(&["?"]), found(false, Some(0x0a000001))));
    assert!(!given("client_ip", "in", list(&["?"]), found(false, Some(0x0b000001))));
    assert!(!given("client_ip", "in", list(&["?"]), found(false, None)));
    assert!(given("client_ip", "equals", text("n7"), found(false, Some(7))));
}

#[test]
fn removed_items_let_later_ones_move_up() {
    let removed = |field: &str, body: &[u8]| {
        let out = apply_response_filters(&vec![filter(field, "remove", None)], body);
        String::from_utf8(out).unwrap()
    };
    assert_eq!(removed("Env.0", br#"{"Env":["a","b"]}"#), r#"{"Env":["b"]}"#);
    assert_eq!(removed("Env.1", br#"{"Env":["a","b","c"]}"#), r#"{"Env":["a","c"]}"#);
    assert_eq!(removed("Env.2", br#"{"Env":["a","b"]}"#), r#"{"Env":["a","b"]}"#);
    assert_eq!(removed("Env.x", br#"{"Env":["a","b"]}"#), r#"{"Env":["a","b"]}"#);
    assert_eq!(removed("0", br#"[{"a":1},2]"#), "[2]");
    assert_eq!(removed("0.a", br#"[{"a":1},2]"#), "[{},2]");
}
