use docker_proxy::config::{
    default_rate_penalty, default_rate_period, default_rate_requests, AuthConfig, Condition,
    ConditionNode, GlobalConfig, MetricsConfig, MtlsConfig, CertRoleMapping, ProxyConfig,
    RateLimitConfig, ResponseFilterEntry, Rule, SecretToken, TlsConfig, TokenEntry,
};
use docker_proxy::environment::{expand_env, EnvVar, Environment};
use docker_proxy::loading::complain_of_regex;
use docker_proxy::yaml::{yaml_value_to_string, YamlNumber, YamlValue};

fn environment(vars: &[(&str, &str)]) -> Environment {
    Environment {
        vars: vars
            .iter()
            .map(|(n, v)| EnvVar { name: n.to_string(), value: v.to_string() })
            .collect(),
    }
}

fn path_is(value: &str) -> Vec<ConditionNode> {
    vec![ConditionNode::Leaf(Condition {
        field: "path".into(),
        operator: "equals".into(),
        value: Some(YamlValue::String(value.into())),
        compiled_regex: None,
    })]
}

fn config_of(rules: Vec<Rule>) -> ProxyConfig {
    ProxyConfig { rules: Some(rules), ..Default::default() }
}

#[test]
fn test_rate_limit_defaults() {
    let rl = RateLimitConfig::from_options(None, None, None);
    assert_eq!(rl.requests, 50);
    assert_eq!(rl.period, 30);
    assert_eq!(rl.penalty, 30);
    assert_eq!(default_rate_requests(), 50);
    assert_eq!(default_rate_period(), 30);
    assert_eq!(default_rate_penalty(), 30);
}

#[test]
fn test_rate_limit_custom() {
    let rl = RateLimitConfig::from_options(Some(100), Some(10), Some(60));
    assert_eq!(rl.requests, 100);
    assert_eq!(rl.period, 10);
    assert_eq!(rl.penalty, 60);
}

#[test]
fn test_env_expansion() {
    let env = environment(&[("TEST_VAR", "expanded_value")]);
    let result = expand_env("prefix_${TEST_VAR}_suffix", &env, false).unwrap();
    assert_eq!(result, "prefix_expanded_value_suffix");
}

#[test]
fn test_env_expansion_unset_not_required() {
    let result = expand_env("${NONEXISTENT_VAR_12345}", &environment(&[]), false).unwrap();
    assert_eq!(result, "");
}

#[test]
fn test_env_expansion_unset_required_errors() {
    let result = expand_env("${NONEXISTENT_VAR_12345}", &environment(&[]), true);
    assert!(result.is_err());
}

#[test]
fn expansion_leaves_what_is_no_reference() {
    let env = environment(&[("A", "1"), ("É", "2")]);
    for s in ["$A", "${}", "${A", "${A-B}", "$", "${", "a}b"] {
        assert_eq!(expand_env(s, &env, true).unwrap(), s);
    }
    assert_eq!(expand_env("$${A}", &env, true).unwrap(), "$1");
    assert_eq!(expand_env("${${A}}", &env, true).unwrap(), "${1}");
    assert_eq!(expand_env("${A}${A}", &env, true).unwrap(), "11");
    assert_eq!(expand_env("${É}", &env, true).unwrap(), "2");
    assert_eq!(expand_env("${A€}", &env, true).unwrap(), "${A€}");
    assert_eq!(
        expand_env("${X}-${A}-${Y}", &env, true).unwrap_err(),
        "required environment variables missing: X, Y"
    );
}

#[test]
fn test_is_auth_configured_tokens() {
    let cfg = ProxyConfig {
        auth: Some(AuthConfig {
            auth_type: Some("bearer".into()),
            secret: None,
            tokens: Some(vec![TokenEntry {
                token: SecretToken::new("t".into()),
                role: Some("admin".into()),
            }]),
            mtls: None,
        }),
        ..Default::default()
    };
    assert!(cfg.is_auth_configured());
}

#[test]
fn test_is_auth_configured_secret() {
    let cfg = ProxyConfig {
        auth: Some(AuthConfig {
            auth_type: Some("bearer".into()),
            secret: Some(SecretToken::new("s".into())),
            tokens: None,
            mtls: None,
        }),
        ..Default::default()
    };
    assert!(cfg.is_auth_configured());
}

#[test]
fn test_is_auth_configured_none_type() {
    let cfg = ProxyConfig {
        auth: Some(AuthConfig {
            auth_type: Some("none".into()),
            secret: None,
            tokens: None,
            mtls: None,
        }),
        ..Default::default()
    };
    assert!(cfg.is_auth_configured());
}

#[test]
fn test_is_auth_not_configured() {
    let cfg = ProxyConfig::default();
    assert!(!cfg.is_auth_configured());
}

#[test]
fn test_priority_sort_stable() {
    let rule = |name: &str, priority: Option<u32>| Rule {
        name: name.into(),
        action: "deny".into(),
        priority,
        conditions: path_is(&format!("/{name}")),
        ..Default::default()
    };
    let mut cfg = config_of(vec![
        rule("a", None),
        rule("b", Some(100)),
        rule("c", Some(100)),
        rule("d", Some(50)),
    ]);
    cfg.sort_rules_by_priority();
    let names: Vec<&str> = cfg
        .rules
        .as_ref()
        .unwrap()
        .iter()
        .map(|r| r.name.as_str())
        .collect();
    assert_eq!(names, vec!["b", "c", "d", "a"]);
}

#[test]
fn test_validation_rejects_empty_action() {
    let cfg = config_of(vec![Rule {
        name: "r".into(),
        conditions: path_is("/x"),
        ..Default::default()
    }]);
    assert!(cfg.validate().is_err());
    assert_eq!(cfg.validate().unwrap_err(), "rule 'r' has no action");
}

#[test]
fn test_validation_rejects_missing_require_role() {
    let cfg = config_of(vec![Rule {
        name: "r".into(),
        action: "require_role".into(),
        conditions: path_is("/x"),
        ..Default::default()
    }]);
    assert!(cfg.validate().is_err());
    assert_eq!(
        cfg.validate().unwrap_err(),
        "rule 'r' uses require_role but has no role specified"
    );
}

#[test]
fn test_validation_accepts_valid_require_role() {
    let cfg = config_of(vec![Rule {
        name: "r".into(),
        action: "require_role".into(),
        role: Some("admin".into()),
        conditions: path_is("/x"),
        ..Default::default()
    }]);
    assert!(cfg.validate().is_ok());
}

#[test]
fn validation_names_what_is_wrong() {
    let problem = |rule: Rule| config_of(vec![rule]).validate().unwrap_err();
    assert_eq!(problem(Rule::default()), "rule name cannot be empty");
    assert_eq!(
        problem(Rule { name: "r".into(), action: "deny".into(), ..Default::default() }),
        "rule 'r' has no conditions"
    );
    assert_eq!(
        problem(Rule {
            name: "r".into(),
            action: "rate_limit".into(),
            conditions: path_is("/x"),
            ..Default::default()
        }),
        "rule 'r' uses rate_limit but has no rate_limit config"
    );
    assert_eq!(
        problem(Rule {
            name: "r".into(),
            action: "response_filter".into(),
            conditions: path_is("/x"),
            ..Default::default()
        }),
        "rule 'r' uses response_filter but has no response_filter entries"
    );
    let auth = |t: &str| ProxyConfig {
        auth: Some(AuthConfig {
            auth_type: Some(t.into()),
            secret: None,
            tokens: None,
            mtls: None,
        }),
        ..Default::default()
    };
    assert_eq!(auth("basic").validate().unwrap_err(), "invalid auth.type: basic");
    assert!(auth("mtls").validate().is_ok());
    let metrics = |enabled: bool, path: Option<&str>| ProxyConfig {
        global: Some(GlobalConfig {
            metrics: Some(MetricsConfig {
                enabled: Some(enabled),
                path: path.map(|s| s.to_string()),
            }),
            ..Default::default()
        }),
        ..Default::default()
    };
    assert!(metrics(true, None).validate().is_ok());
    assert_eq!(metrics(true, None).metrics_path().as_deref(), Some("/metrics"));
    assert_eq!(
        metrics(true, Some("/")).validate().unwrap_err(),
        "metrics path cannot be '/' or empty"
    );
    assert_eq!(
        metrics(true, Some("")).validate().unwrap_err(),
        "metrics path cannot be '/' or empty"
    );
    assert_eq!(
        metrics(true, Some("/v1/m")).validate().unwrap_err(),
        "metrics path '/v1/m' looks like a Docker API versioned path"
    );
    assert!(metrics(false, Some("/")).validate().is_ok());
}

#[test]
fn references_are_expanded_everywhere() {
    let env = environment(&[("X", "x")]);
    let leaf = ConditionNode::Leaf(Condition {
        field: "header.${X}".into(),
        operator: "in".into(),
        value: Some(YamlValue::Sequence(vec![
            YamlValue::String("${X}1".into()),
            YamlValue::Bool(true),
        ])),
        compiled_regex: None,
    });
    let cfg = ProxyConfig {
        global: Some(GlobalConfig {
            port: Some(1),
            socket: Some("/${X}.sock".into()),
            bind: Some("${X}".into()),
            tls: Some(TlsConfig {
                cert: "${X}.crt".into(),
                key: "${X}.key".into(),
                client_ca: Some("${X}.ca".into()),
                require_client_cert: Some(true),
            }),
            trusted_proxies: Some(vec!["${X}/8".into(), "b".into()]),
            ..Default::default()
        }),
        auth: Some(AuthConfig {
            auth_type: Some("bearer".into()),
            secret: Some(SecretToken::new("s-${X}".into())),
            tokens: Some(vec![TokenEntry {
                token: SecretToken::new("t-${X}".into()),
                role: Some("${X}".into()),
            }]),
            mtls: Some(MtlsConfig {
                cert_role_map: Some(vec![CertRoleMapping {
                    cn: "${X}.com".into(),
                    role: "${X}".into(),
                }]),
                default_role: Some("${UNSET}".into()),
            }),
        }),
        rules: Some(vec![Rule {
            name: "r-${X}".into(),
            action: "deny".into(),
            message: Some("m-${X}-${UNSET}".into()),
            methods: Some(vec!["${X}".into()]),
            response_filter: Some(vec![ResponseFilterEntry {
                field: "${X}".into(),
                action: "replace".into(),
                replacement: Some("${X}".into()),
            }]),
            conditions: vec![ConditionNode::Or { or: vec![ConditionNode::And { and: vec![leaf] }] }],
            ..Default::default()
        }]),
    };
    let out = cfg.resolve_env_vars(&env).unwrap();
    let g = out.global.unwrap();
    assert_eq!(g.socket.as_deref(), Some("/x.sock"));
    assert_eq!(g.bind.as_deref(), Some("x"));
    let tls = g.tls.unwrap();
    assert_eq!(tls.cert, "x.crt");
    assert_eq!(tls.client_ca.as_deref(), Some("x.ca"));
    assert_eq!(g.trusted_proxies.unwrap(), vec!["x/8".to_string(), "b".to_string()]);
    let a = out.auth.unwrap();
    assert_eq!(a.secret.unwrap().expose_secret(), "s-x");
    let t = a.tokens.unwrap();
    assert_eq!(t[0].token.expose_secret(), "t-x");
    assert_eq!(t[0].role.as_deref(), Some("x"));
    let m = a.mtls.unwrap();
    assert_eq!(m.cert_role_map.unwrap()[0].cn, "x.com");
    assert_eq!(m.default_role.as_deref(), Some(""));
    let rules = out.rules.unwrap();
    assert_eq!(rules[0].name, "r-x");
    assert_eq!(rules[0].message.as_deref(), Some("m-x-"));
    assert_eq!(rules[0].methods.as_ref().unwrap()[0], "x");
    assert_eq!(rules[0].response_filter.as_ref().unwrap()[0].replacement.as_deref(), Some("x"));
    match &rules[0].conditions[0] {
        ConditionNode::Or { or } => match &or[0] {
            ConditionNode::And { and } => match &and[0] {
                ConditionNode::Leaf(c) => {
                    assert_eq!(c.field, "header.x");
                    match &c.value {
                        Some(YamlValue::Sequence(v)) => {
                            assert_eq!(yaml_value_to_string(&v[0]).as_deref(), Some("x1"));
                            assert_eq!(yaml_value_to_string(&v[1]).as_deref(), Some("true"));
                        }
                        _ => panic!("expected a sequence"),
                    }
                }
                _ => panic!("expected a leaf"),
            },
            _ => panic!("expected an and group"),
        },
        _ => panic!("expected an or group"),
    }
}

#[test]
fn secrets_need_their_variables() {
    let with = |secret: Option<&str>, token: &str| ProxyConfig {
        auth: Some(AuthConfig {
            auth_type: None,
            secret: secret.map(|s| SecretToken::new(s.to_string())),
            tokens: Some(vec![TokenEntry { token: SecretToken::new(token.into()), role: None }]),
            mtls: None,
        }),
        ..Default::default()
    };
    let env = environment(&[]);
    assert_eq!(
        with(Some("${S}"), "${T}").resolve_env_vars(&env).unwrap_err(),
        "required environment variables missing: S"
    );
    assert_eq!(
        with(None, "${T}").resolve_env_vars(&env).unwrap_err(),
        "required environment variables missing: T"
    );
    assert!(with(Some("s"), "t").resolve_env_vars(&env).is_ok());
}

#[test]
fn environment_overrides_the_file() {
    let env = environment(&[
        ("DOCKER_PROXY_PORT", "4000"),
        ("DOCKER_SOCKET", "/env.sock"),
        ("DOCKER_PROXY_SECRET", "env-secret"),
    ]);
    let out = ProxyConfig::default().apply_env_overrides(&env, true);
    let g = out.global.as_ref().unwrap();
    assert_eq!(g.port, Some(4000));
    assert_eq!(g.socket.as_deref(), Some("/env.sock"));
    let a = out.auth.as_ref().unwrap();
    assert_eq!(a.auth_type.as_deref(), Some("bearer"));
    assert_eq!(a.secret.as_ref().unwrap().expose_secret(), "env-secret");

    let none = ProxyConfig {
        auth: Some(AuthConfig {
            auth_type: Some("none".into()),
            secret: None,
            tokens: None,
            mtls: None,
        }),
        ..Default::default()
    };
    let out = none.apply_env_overrides(&env, false);
    assert!(out.auth.as_ref().unwrap().secret.is_none());
    assert_eq!(out.global.as_ref().unwrap().socket, None);

    for port in ["65536", "-1", "", "80a"] {
        let env = environment(&[("DOCKER_PROXY_PORT", port), ("DOCKER_PROXY_SECRET", "")]);
        let out = ProxyConfig::default().apply_env_overrides(&env, true);
        assert!(out.global.is_none());
        assert!(out.auth.is_none());
    }
}

#[test]
fn expressions_are_compiled() {
    let rule = |operator: &str, value: &str| {
        config_of(vec![Rule {
            name: "r".into(),
            action: "deny".into(),
            conditions: vec![ConditionNode::And {
                and: vec![ConditionNode::Leaf(Condition {
                    field: "path".into(),
                    operator: operator.into(),
                    value: Some(YamlValue::String(value.into())),
                    compiled_regex: None,
                })],
            }],
            ..Default::default()
        }])
    };
    let compiled = |cfg: ProxyConfig| match &cfg.rules.unwrap()[0].conditions[0] {
        ConditionNode::And { and } => match &and[0] {
            ConditionNode::Leaf(c) => c.compiled_regex.as_ref().map(|re| re.as_str().to_string()),
            _ => panic!("expected a leaf"),
        },
        _ => panic!("expected an and group"),
    };
    let found = compiled(rule("matches", "^/x$").compile_regexes().unwrap());
    assert_eq!(found.as_deref(), Some("^/x$"));
    assert_eq!(compiled(rule("equals", "(").compile_regexes().unwrap()), None);
    let error = rule("not_matches", "(").compile_regexes().unwrap_err();
    assert!(error.starts_with("invalid regex for field 'path': "));
    assert!(error.len() > "invalid regex for field 'path': ".len());
}

#[test]
fn finishing_runs_every_step() {
    let rule = |name: &str, priority: Option<u32>| Rule {
        name: name.into(),
        action: "deny".into(),
        priority,
        message: Some("${M}".into()),
        conditions: vec![ConditionNode::Leaf(Condition {
            field: "path".into(),
            operator: "matches".into(),
            value: Some(YamlValue::String("^/${M}".into())),
            compiled_regex: None,
        })],
        ..Default::default()
    };
    let env = environment(&[("M", "m"), ("DOCKER_PROXY_SECRET", "s")]);
    let out = config_of(vec![rule("low", None), rule("high", Some(1))])
        .finish(&env, false)
        .unwrap();
    let rules = out.rules.as_ref().unwrap();
    assert_eq!(rules[0].name, "high");
    assert_eq!(rules[1].message.as_deref(), Some("m"));
    assert!(matches!(&rules[0].conditions[0], ConditionNode::Leaf(c) if c.compiled_regex.is_some()));
    assert!(out.is_auth_configured());

    let bad = config_of(vec![Rule::default()]).finish(&env, false);
    assert_eq!(bad.unwrap_err(), "rule name cannot be empty");
}

#[test]
fn scalars_have_a_text() {
    assert_eq!(yaml_value_to_string(&YamlValue::Bool(false)).as_deref(), Some("false"));
    assert_eq!(yaml_value_to_string(&YamlValue::Null), None);
    assert_eq!(yaml_value_to_string(&YamlValue::Other), None);
    let n = YamlValue::Number(YamlNumber {
        int: Some(5),
        uint: Some(5),
        float_bits: None,
        text: "5".into(),
    });
    assert_eq!(yaml_value_to_string(&n.clone()).as_deref(), Some("5"));
}

#[test]
fn secrets_are_not_printed() {
    let s = SecretToken::new("top-secret".into());
    assert!(!format!("{:?}", s).contains("top-secret"));
    assert_eq!(s.clone().expose_secret(), "top-secret");
}

#[test]
fn expressions_are_complained_of_by_field() {
    assert_eq!(
        complain_of_regex("header.x", "unclosed group"),
        "invalid regex for field 'header.x': unclosed group"
    );
}
