use docker_proxy::metrics::{escape_label, Metrics};

#[test]
fn test_escape_label_quotes_and_backslashes() {
    let s = escape_label("hello \"world\"\\foo");
    assert_eq!(s, "hello \\\"world\\\"\\\\foo");
}

#[test]
fn escape_label_line_ends() {
    assert_eq!(escape_label("a\nb"), "a\\nb");
}

#[test]
fn test_metrics_renders_prometheus_format() {
    let mut m = Metrics::new();
    m.requests_total.fetch_add(3);
    m.requests_denied.fetch_add(1);
    m.record_rule_deny("block-secrets", false);
    m.record_rule_deny("watch-rule", true);
    m.observe_upstream_latency_ms(15);
    m.observe_upstream_latency_ms(700);
    let out = m.render_prometheus();
    assert!(out.contains("docker_proxy_requests_total 3"));
    assert!(out.contains("docker_proxy_requests_denied_total 1"));
    assert!(out.contains("rule=\"block-secrets\""));
    assert!(out.contains("mode=\"dry_run\""));
    assert!(out.contains("docker_proxy_upstream_latency_ms_count 2"));
}

#[test]
fn integration_metrics_render_includes_all_counters() {
    let mut m = Metrics::new();
    m.requests_total.fetch_add(5);
    m.requests_denied.fetch_add(2);
    m.requests_allowed.fetch_add(3);
    m.auth_failures_total.fetch_add(1);
    m.upgrade_total.fetch_add(1);
    m.request_timeouts_total.fetch_add(1);
    m.observe_upstream_latency_ms(40);
    m.record_rule_deny("block-secrets", false);

    let out = m.render_prometheus();
    for key in [
        "docker_proxy_requests_total",
        "docker_proxy_requests_denied_total",
        "docker_proxy_requests_allowed_total",
        "docker_proxy_auth_failures_total",
        "docker_proxy_upgrade_total",
        "docker_proxy_request_timeouts_total",
        "docker_proxy_upstream_latency_ms_count",
        "rule=\"block-secrets\"",
    ] {
        assert!(out.contains(key), "metrics output missing {key}: {out}");
    }
}

#[test]
fn histogram_is_cumulative() {
    let mut m = Metrics::new();
    for ms in [0, 5, 6, 10, 11, 10000, 10001] {
        m.observe_upstream_latency_ms(ms);
    }
    let out = m.render_prometheus();
    for line in [
        "docker_proxy_upstream_latency_ms_bucket{le=\"5\"} 2\n",
        "docker_proxy_upstream_latency_ms_bucket{le=\"10\"} 4\n",
        "docker_proxy_upstream_latency_ms_bucket{le=\"25\"} 5\n",
        "docker_proxy_upstream_latency_ms_bucket{le=\"50\"} 5\n",
        "docker_proxy_upstream_latency_ms_bucket{le=\"1000\"} 5\n",
        "docker_proxy_upstream_latency_ms_bucket{le=\"5000\"} 5\n",
        "docker_proxy_upstream_latency_ms_bucket{le=\"10000\"} 6\n",
        "docker_proxy_upstream_latency_ms_bucket{le=\"+Inf\"} 7\n",
        "docker_proxy_upstream_latency_ms_sum 20033\n",
        "docker_proxy_upstream_latency_ms_count 7\n",
    ] {
        assert!(out.contains(line), "missing {line}: {out}");
    }
}

#[test]
fn counters_have_their_lines() {
    let mut m = Metrics::new();
    m.bad_request_total.increment();
    m.record_rule_deny("a\"b", false);
    m.record_rule_deny("a\"b", false);
    m.record_rule_deny("a\"b", true);
    let out = m.render_prometheus();
    assert!(out.starts_with(
        "# HELP docker_proxy_requests_total Total HTTP requests received\n# TYPE docker_proxy_requests_total counter\ndocker_proxy_requests_total 0\n"
    ));
    assert!(out.contains(
        "# HELP docker_proxy_requests_allowed_total Requests with outcome 'allowed'\n# TYPE docker_proxy_requests_allowed_total counter\ndocker_proxy_requests_allowed_total 0\n"
    ));
    assert!(out.contains("docker_proxy_bad_request_total 1\n"));
    assert!(out.contains(
        "docker_proxy_rule_decisions_total{rule=\"a\\\"b\",mode=\"enforced\"} 2\ndocker_proxy_rule_decisions_total{rule=\"a\\\"b\",mode=\"dry_run\"} 1\n"
    ));
}

#[test]
fn counters_wrap() {
    let mut m = Metrics::new();
    assert_eq!(m.requests_total.fetch_add(u64::MAX), 0);
    assert_eq!(m.requests_total.fetch_add(2), u64::MAX);
    assert_eq!(m.requests_total.load(), 1);
}
