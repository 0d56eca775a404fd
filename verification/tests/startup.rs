use docker_proxy::config::{
    AuthConfig, Condition, ConditionNode, GlobalConfig, MetricsConfig, ProxyConfig, Rule,
    SecretToken, TlsConfig, TokenEntry,
};
use docker_proxy::environment::{EnvVar, Environment};
use docker_proxy::logging::{log_line, sanitize_for_log};
use docker_proxy::startup::{
    choose_config_file, choose_log_filter, choose_reload_file, configured_log_filter, first_existing, list_socket_places, listening_message, parse_arguments,
    plan_listener, render_effective_rules, secret_is_ignored, Command,
};

fn environment(vars: &[(&str, &str)]) -> Environment {
    Environment {
        vars: vars
            .iter()
            .map(|(n, v)| EnvVar { name: n.to_string(), value: v.to_string() })
            .collect(),
    }
}

fn command(args: &[&str]) -> String {
    let v: Vec<String> = args.iter().map(|s| s.to_string()).collect();
    match parse_arguments(&v) {
        Command::Run { config, check_config } => {
            format!("run {} {}", config.unwrap_or("-".to_string()), check_config)
        }
        Command::Help => "help".to_string(),
        Command::Invalid { message } => message,
    }
}

#[test]
fn arguments_are_read_in_order() {
    assert_eq!(command(&[]), "run - false");
    assert_eq!(command(&["--config", "a", "--check-config", "--config", "b"]), "run b true");
    assert_eq!(command(&["--config"]), "--config requires a path argument");
    assert_eq!(command(&["--config", "--help"]), "run --help false");
    assert_eq!(command(&["--help", "--what"]), "help");
    assert_eq!(command(&["-h"]), "help");
    assert_eq!(command(&["--what", "--help"]), "unknown argument: --what");
}

#[test]
fn config_file_is_chosen() {
    let env = environment(&[("DOCKER_PROXY_CONFIG", "/e.yaml")]);
    let none = environment(&[]);
    let explicit = Some("/x.yaml".to_string());
    assert_eq!(choose_config_file(&explicit, &env, true).as_deref(), Some("/x.yaml"));
    assert_eq!(choose_config_file(&None, &env, true).as_deref(), Some("/e.yaml"));
    assert_eq!(choose_config_file(&None, &none, true).as_deref(), Some("config.yaml"));
    assert_eq!(choose_config_file(&None, &none, false), None);
}

#[test]
fn sockets_are_looked_for_in_order() {
    let env = environment(&[("DOCKER_SOCKET", "/e.sock"), ("HOME", "/home/u")]);
    let cfg = ProxyConfig {
        global: Some(GlobalConfig { socket: Some("/c.sock".into()), ..Default::default() }),
        ..Default::default()
    };
    assert_eq!(
        list_socket_places(&cfg, &env, false),
        vec!["/c.sock", "/e.sock", "/var/run/docker.sock", "/run/docker.sock"]
    );
    assert_eq!(
        list_socket_places(&ProxyConfig::default(), &environment(&[("HOME", "/h")]), true),
        vec!["/h/.docker/run/docker.sock", "/var/run/docker.sock", "/h/.docker/desktop/docker.sock"]
    );
    assert_eq!(
        list_socket_places(&ProxyConfig::default(), &environment(&[]), true)[0],
        "/tmp/.docker/run/docker.sock"
    );
    assert_eq!(first_existing(&vec![false, true, true]), Some(1));
    assert_eq!(first_existing(&vec![false]), None);
}

#[test]
fn listener_is_planned() {
    let env = environment(&[("DOCKER_PROXY_PORT", "4000")]);
    let plan = plan_listener(&ProxyConfig::default(), &environment(&[]));
    assert_eq!(plan.address, "127.0.0.1:2376");
    assert!(!plan.exposed);
    assert_eq!(plan_listener(&ProxyConfig::default(), &env).address, "127.0.0.1:4000");
    let open = |tls: bool, bind: &str| ProxyConfig {
        global: Some(GlobalConfig {
            port: Some(1),
            bind: Some(bind.into()),
            tls: if tls {
                Some(TlsConfig {
                    cert: "c".into(),
                    key: "k".into(),
                    client_ca: None,
                    require_client_cert: None,
                })
            } else {
                None
            },
            ..Default::default()
        }),
        ..Default::default()
    };
    let plan = plan_listener(&open(false, "0.0.0.0"), &env);
    assert_eq!(plan.address, "0.0.0.0:1");
    assert_eq!(plan.host, "0.0.0.0");
    assert!(plan.exposed);
    assert!(!plan_listener(&open(true, "0.0.0.0"), &env).exposed);
    assert!(!plan_listener(&open(false, "localhost"), &env).exposed);
}

#[test]
fn secret_is_ignored_without_authentication() {
    let none = ProxyConfig {
        auth: Some(AuthConfig {
            auth_type: Some("none".into()),
            secret: None,
            tokens: None,
            mtls: None,
        }),
        ..Default::default()
    };
    assert!(secret_is_ignored(&none, "s"));
    assert!(!secret_is_ignored(&none, ""));
    assert!(!secret_is_ignored(&ProxyConfig::default(), "s"));
}

#[test]
fn configuration_is_reported() {
    assert_eq!(
        render_effective_rules(&ProxyConfig::default()),
        "# Effective configuration\n\n\nrules (after priority sort):\n  (no rules configured)\n"
    );
    let rule = |name: &str, priority: Option<u32>, dry_run: Option<bool>| Rule {
        name: name.into(),
        action: "deny".into(),
        priority,
        dry_run,
        conditions: vec![ConditionNode::Leaf(Condition::default())],
        ..Default::default()
    };
    let cfg = ProxyConfig {
        global: Some(GlobalConfig {
            socket: Some("/s".into()),
            log_format: Some("json".into()),
            tls: Some(TlsConfig {
                cert: "c".into(),
                key: "k".into(),
                client_ca: None,
                require_client_cert: None,
            }),
            metrics: Some(MetricsConfig { enabled: Some(true), path: None }),
            ..Default::default()
        }),
        auth: Some(AuthConfig {
            auth_type: None,
            secret: None,
            tokens: Some(vec![TokenEntry { token: SecretToken::new("t".into()), role: None }]),
            mtls: None,
        }),
        rules: Some(vec![rule("a", Some(7), Some(true)), rule("b", None, Some(false))]),
    };
    assert_eq!(
        render_effective_rules(&cfg),
        "# Effective configuration\n\nport: 2376\nsocket: /s\nlog_format: json\ntls: cert=c, key=k, client_ca=(none)\nmetrics: enabled=true, path=/metrics\nauth.type: (unset)\nauth.tokens: 1 configured\n\nrules (after priority sort):\n  1. a [priority=7, action=deny, dry_run]\n  2. b [priority=0, action=deny]\n"
    );
}

#[test]
fn listening_is_announced() {
    assert_eq!(
        listening_message("127.0.0.1:2376", true, 1, "text"),
        "docker-proxy listening on 127.0.0.1:2376 (TLS, 1 rule, log_format=text)"
    );
    assert_eq!(
        listening_message("h:1", false, 0, "json"),
        "docker-proxy listening on h:1 (0 rules, log_format=json)"
    );
}

#[test]
fn logged_texts_are_sanitized() {
    assert_eq!(sanitize_for_log("a\n\"b\\\u{85}é"), "a??b??é");
    assert_eq!(sanitize_for_log(&"é".repeat(300)).chars().count(), 256);
    assert_eq!(
        log_line("05/12/2026 19:09:18", "10.0.0.5", "GET", "/a\tb", "curl \"8\"", 403),
        "[05/12/2026 19:09:18] 10.0.0.5 GET /a?b - 403 - \"curl ?8?\""
    );
}

#[test]
fn only_named_files_are_reloaded() {
    let env = environment(&[("DOCKER_PROXY_CONFIG", "/e.yaml")]);
    let explicit = Some("/x.yaml".to_string());
    assert_eq!(choose_reload_file(&explicit, &env).as_deref(), Some("/x.yaml"));
    assert_eq!(choose_reload_file(&None, &env).as_deref(), Some("/e.yaml"));
    assert_eq!(choose_reload_file(&None, &environment(&[])), None);
}

#[test]
fn log_level_comes_from_the_environment_first() {
    let cfg = ProxyConfig {
        global: Some(GlobalConfig { log_level: Some("warn".into()), ..Default::default() }),
        ..Default::default()
    };
    let none = environment(&[]);
    assert_eq!(choose_log_filter(&cfg, &environment(&[("RUST_LOG", "trace")])), "trace");
    assert_eq!(choose_log_filter(&cfg, &environment(&[("RUST_LOG", "")])), "docker_proxy=warn");
    assert_eq!(choose_log_filter(&cfg, &none), "docker_proxy=warn");
    assert_eq!(configured_log_filter(&cfg), "docker_proxy=warn");
    assert_eq!(choose_log_filter(&ProxyConfig::default(), &none), "docker_proxy=info");
}
