use docker_proxy::config::{ConditionNode, ProxyConfig, RateLimitConfig, Rule, SecretToken, TokenEntry};
use docker_proxy::environment::Environment;
use docker_proxy::setup::{
    add_template, build_custom_rule, build_readonly, build_simple_deny, chosen_operator,
    chosen_role, custom_condition, custom_filter, operator_takes_value, setup_auth, setup_config,
    setup_global, CustomAction, TEMPLATES,
};
use docker_proxy::yaml::{yaml_value_to_string, YamlValue};

fn only_leaf(rule: &Rule, i: usize) -> (String, String, Option<String>) {
    match &rule.conditions[i] {
        ConditionNode::Leaf(c) => (
            c.field.clone(),
            c.operator.clone(),
            c.value.as_ref().and_then(yaml_value_to_string),
        ),
        _ => panic!("expected a leaf"),
    }
}

#[test]
fn templates_load() {
    let mut rules = Vec::new();
    for i in 0..TEMPLATES {
        add_template(&mut rules, i);
    }
    add_template(&mut rules, TEMPLATES);
    let names: Vec<&str> = rules.iter().map(|r| r.name.as_str()).collect();
    assert_eq!(
        names,
        vec![
            "block-exec-operations",
            "block-docker-build",
            "readonly-volumes",
            "readonly-networks",
            "readonly-images",
            "block-secrets",
            "block-configs",
            "block-privileged-containers",
            "block-bind-mounts",
            "block-host-network",
            "admin-only-container-lifecycle",
            "admin-only-create",
            "admin-only-delete",
            "internal-network-only",
            "redact-container-environment",
            "rate-limit-all",
        ]
    );
    let config = ProxyConfig { rules: Some(rules), ..Default::default() };
    assert!(config.finish(&Environment { vars: vec![] }, false).is_ok());
}

#[test]
fn readonly_rules_name_their_resource() {
    let r = build_readonly("readonly-volumes", "/volumes");
    assert_eq!(r.description.as_deref(), Some("Only GET is allowed on volumes"));
    assert_eq!(r.message.as_deref(), Some("volumes mutations are forbidden"));
    assert_eq!(
        only_leaf(&r, 0),
        ("path".to_string(), "starts_with".to_string(), Some("/volumes".to_string()))
    );
    assert_eq!(
        only_leaf(&r, 1),
        ("method".to_string(), "not_equals".to_string(), Some("GET".to_string()))
    );
    let d = build_simple_deny("n", "d", "path", "equals", "/x", "m");
    assert_eq!(d.status, Some(403));
    assert_eq!(d.action, "deny");
}

#[test]
fn answers_make_up_settings() {
    let g = setup_global(1, "".into());
    assert_eq!(g.port, Some(1));
    assert_eq!(g.socket, None);
    assert_eq!(setup_global(1, "/s".into()).socket.as_deref(), Some("/s"));

    let none = setup_auth(0, "x".into(), vec![]).unwrap();
    assert_eq!(none.auth_type.as_deref(), Some("none"));
    let secret = setup_auth(1, "x".into(), vec![]).unwrap();
    assert_eq!(secret.secret.unwrap().expose_secret(), "x");
    let token = TokenEntry { token: SecretToken::new("t".into()), role: Some(chosen_role(1)) };
    let tokens = setup_auth(2, "".into(), vec![token]).unwrap();
    assert!(tokens.secret.is_none());
    assert_eq!(tokens.tokens.unwrap()[0].role.as_deref(), Some("readonly"));
    assert!(setup_auth(3, "".into(), vec![]).is_none());

    let config = setup_config(g, None, vec![]);
    assert!(config.rules.is_none());
    assert!(config.global.is_some());
}

#[test]
fn answers_make_up_rules() {
    let condition = custom_condition(3, "x-team", 0, "ops");
    let exists = custom_condition(4, "HostConfig.Binds", 10, "ignored");
    let rule = build_custom_rule(
        "r".into(),
        "m".into(),
        vec![condition, exists],
        CustomAction::RateLimit { limit: RateLimitConfig { requests: 1, period: 2, penalty: 3 } },
    );
    assert_eq!(rule.action, "rate_limit");
    assert_eq!(rule.status, Some(429));
    assert_eq!(rule.rate_limit.unwrap().penalty, 3);
    assert_eq!(
        only_leaf(&rule, 0),
        ("header.x-team".to_string(), "equals".to_string(), Some("ops".to_string()))
    );
    assert_eq!(
        only_leaf(&rule, 1),
        ("body.HostConfig.Binds".to_string(), "exists".to_string(), None)
    );
    let role = build_custom_rule(
        "r".into(),
        "m".into(),
        vec![custom_condition(0, "", 11, "")],
        CustomAction::RequireRole { role: chosen_role(0) },
    );
    assert_eq!(role.role.as_deref(), Some("admin"));
    assert_eq!(role.status, Some(403));
    let filter = build_custom_rule(
        "r".into(),
        "m".into(),
        vec![custom_condition(1, "", 1, "GET")],
        CustomAction::ResponseFilter {
            filters: vec![custom_filter("A", 2, "x"), custom_filter("B", 1, "x"), custom_filter("C", 0, "x")],
        },
    );
    let filters = filter.response_filter.unwrap();
    assert_eq!(filters[0].replacement.as_deref(), Some("x"));
    assert_eq!(filters[1].action, "remove");
    assert_eq!(filters[2].action, "redact");
    let allow = build_custom_rule("r".into(), "m".into(), vec![], CustomAction::Allow { status: 200 });
    assert_eq!(allow.action, "allow");
    assert_eq!(allow.status, Some(200));
    let deny = build_custom_rule("r".into(), "m".into(), vec![], CustomAction::Deny { status: 404 });
    assert_eq!(deny.status, Some(404));
    assert_eq!(chosen_operator(6), "matches");
}

#[test]
fn internal_networks_are_listed() {
    let mut rules = Vec::new();
    add_template(&mut rules, 11);
    match &rules[0].conditions[0] {
        ConditionNode::Leaf(c) => match &c.value {
            Some(YamlValue::Sequence(v)) => {
                let texts: Vec<String> = v.iter().filter_map(yaml_value_to_string).collect();
                assert_eq!(
                    texts,
                    vec!["10.0.0.0/8", "172.16.0.0/12", "192.168.0.0/16", "127.0.0.0/8"]
                );
            }
            _ => panic!("expected a sequence"),
        },
        _ => panic!("expected a leaf"),
    }
}

#[test]
fn operators_that_ask_for_existence_take_no_value() {
    let without: Vec<&str> =
        (0..12).filter(|i| !operator_takes_value(*i)).map(chosen_operator).collect();
    assert_eq!(without, vec!["exists", "not_exists"]);
}
