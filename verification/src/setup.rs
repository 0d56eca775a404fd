//! The configuration that the answers to the setup questions make up.
use crate::conditions;
use crate::conditions::ContextView;
use crate::config;
use crate::config::{
    AuthConfig, AuthView, Condition, ConditionNode, ConditionView, FilterView, GlobalConfig,
    GlobalView, NodeView, ProxyConfig, ProxyConfigView, RateLimitConfig, ResponseFilterEntry, Rule,
    RuleView, SecretToken, TokenEntry, TokenView,
};
use crate::json;
use crate::json::JsonView;
use crate::limits;
use crate::limits::Bucket;
use crate::loading;
use crate::pattern;
use crate::rules;
use crate::rules::ResultView;
use crate::text;
use crate::yaml;
use crate::yaml::{YamlValue, YamlView};
use vstd::prelude::*;
use vstd::slice::slice_subrange;

verus! {

/// A rule of which nothing is set.
pub open spec fn blank_rule() -> RuleView {
    RuleView {
        name: Seq::empty(),
        description: None,
        action: Seq::empty(),
        priority: None,
        conditions: Seq::empty(),
        message: None,
        role: None,
        response_filter: None,
        status: None,
        methods: None,
        rate_limit: None,
        dry_run: None,
    }
}

/// A single condition.
pub open spec fn leaf(field: Seq<char>, operator: Seq<char>, value: Option<YamlView>) -> NodeView {
    NodeView::Leaf(ConditionView { field, operator, value, compiled: None })
}

fn condition(field: &str, operator: &str, value: Option<YamlValue>) -> (r: ConditionNode)
    ensures
        r@ == leaf(field@, operator@, yaml::opt_yaml(value)),
{
    ConditionNode::Leaf(
        Condition {
            field: field.to_string(),
            operator: operator.to_string(),
            value,
            compiled_regex: None,
        },
    )
}

fn one(a: ConditionNode) -> (r: Vec<ConditionNode>)
    ensures
        config::node_list(r@) == seq![a@],
{
    let mut out: Vec<ConditionNode> = Vec::new();
    out.push(a);
    assert(config::node_list(out@) =~= seq![a@]);
    out
}

fn both(a: ConditionNode, b: ConditionNode) -> (r: Vec<ConditionNode>)
    ensures
        config::node_list(r@) == seq![a@, b@],
{
    let mut out: Vec<ConditionNode> = Vec::new();
    out.push(a);
    out.push(b);
    assert(config::node_list(out@) =~= seq![a@, b@]);
    out
}

fn any_of(a: ConditionNode, b: ConditionNode) -> (r: ConditionNode)
    ensures
        r@ == NodeView::Or(seq![a@, b@]),
{
    let r = ConditionNode::Or { or: both(a, b) };
    proof {
        config::lemma_node_view(r);
    }
    r
}

fn text_list(v: Vec<&str>) -> (r: YamlValue)
    ensures
        r@ == YamlView::Sequence(Seq::new(v@.len(), |i: int| YamlView::String(v@[i]@))),
{
    let mut out: Vec<YamlValue> = Vec::new();
    let mut i: usize = 0;
    while i < v.len()
        invariant
            i <= v@.len(),
            yaml::yaml_list(out@) == Seq::new(i as nat, |j: int| YamlView::String(v@[j]@)),
        decreases v@.len() - i,
    {
        let ghost before = out@;
        out.push(YamlValue::String(v[i].to_string()));
        assert(yaml::yaml_list(out@) =~= yaml::yaml_list(before).push(
            YamlView::String(v@[i as int]@),
        ));
        assert(Seq::new((i + 1) as nat, |j: int| YamlView::String(v@[j]@)) =~= Seq::new(
            i as nat,
            |j: int| YamlView::String(v@[j]@),
        ).push(YamlView::String(v@[i as int]@)));
        i += 1;
    }
    let r = YamlValue::Sequence(out);
    proof {
        yaml::lemma_yaml_list(r);
    }
    r
}

fn internal_networks() -> (r: YamlValue)
    ensures
        r@ == YamlView::Sequence(
            seq![
                YamlView::String("10.0.0.0/8"@),
                YamlView::String("172.16.0.0/12"@),
                YamlView::String("192.168.0.0/16"@),
                YamlView::String("127.0.0.0/8"@),
            ],
        ),
{
    let r = text_list(vec!["10.0.0.0/8", "172.16.0.0/12", "192.168.0.0/16", "127.0.0.0/8"]);
    assert(r@->Sequence_0 =~= seq![
        YamlView::String("10.0.0.0/8"@),
        YamlView::String("172.16.0.0/12"@),
        YamlView::String("192.168.0.0/16"@),
        YamlView::String("127.0.0.0/8"@),
    ]);
    r
}

fn redact_both(a: &str, b: &str) -> (r: Vec<ResponseFilterEntry>)
    ensures
        config::filter_list(r@) == seq![
            FilterView { field: a@, action: "redact"@, replacement: None },
            FilterView { field: b@, action: "redact"@, replacement: None },
        ],
{
    let mut out: Vec<ResponseFilterEntry> = Vec::new();
    out.push(
        ResponseFilterEntry {
            field: a.to_string(),
            action: "redact".to_string(),
            replacement: None,
        },
    );
    out.push(
        ResponseFilterEntry {
            field: b.to_string(),
            action: "redact".to_string(),
            replacement: None,
        },
    );
    assert(config::filter_list(out@) =~= seq![
        FilterView { field: a@, action: "redact"@, replacement: None },
        FilterView { field: b@, action: "redact"@, replacement: None },
    ]);
    out
}

/// A rule that denies what one condition describes.
pub open spec fn simple_deny(
    name: Seq<char>,
    description: Seq<char>,
    field: Seq<char>,
    operator: Seq<char>,
    value: Seq<char>,
    message: Seq<char>,
) -> RuleView {
    RuleView {
        name,
        description: Some(description),
        action: "deny"@,
        conditions: seq![leaf(field, operator, Some(YamlView::String(value)))],
        message: Some(message),
        status: Some(403),
        ..blank_rule()
    }
}

/// A rule that denies what one condition describes.
pub fn build_simple_deny(
    name: &str,
    description: &str,
    field: &str,
    operator: &str,
    value: &str,
    message: &str,
) -> (r: Rule)
    ensures
        r@ == simple_deny(name@, description@, field@, operator@, value@, message@),
{
    Rule {
        name: name.to_string(),
        description: Some(description.to_string()),
        action: "deny".to_string(),
        conditions: one(condition(field, operator, Some(YamlValue::String(value.to_string())))),
        message: Some(message.to_string()),
        status: Some(403),
        ..Rule::default()
    }
}

/// A path without the slashes that it begins with.
pub open spec fn resource_name(path: Seq<char>) -> Seq<char>
    decreases path.len(),
{
    if path.len() > 0 && path[0] == '/' {
        resource_name(path.skip(1))
    } else {
        path
    }
}

fn resource_of(path: &str) -> (r: String)
    ensures
        r@ == resource_name(path@),
{
    let c = text::chars_of(path);
    let mut i: usize = 0;
    assert(c@.skip(0) =~= c@);
    while i < c.len() && c[i] == '/'
        invariant
            i <= c@.len(),
            resource_name(c@.skip(i as int)) == resource_name(c@),
        decreases c@.len() - i,
    {
        assert(c@.skip(i as int).skip(1) =~= c@.skip(i + 1));
        i += 1;
    }
    let rest = slice_subrange(c.as_slice(), i, c.len());
    assert(rest@ =~= c@.skip(i as int));
    text::string_of(rest)
}

/// A rule that allows nothing but reading below a path.
pub open spec fn readonly(name: Seq<char>, prefix: Seq<char>) -> RuleView {
    RuleView {
        name,
        description: Some("Only GET is allowed on "@ + resource_name(prefix)),
        action: "deny"@,
        conditions: seq![
            leaf("path"@, "starts_with"@, Some(YamlView::String(prefix))),
            leaf("method"@, "not_equals"@, Some(YamlView::String("GET"@))),
        ],
        message: Some(resource_name(prefix) + " mutations are forbidden"@),
        status: Some(403),
        ..blank_rule()
    }
}

/// A rule that allows nothing but reading below a path.
pub fn build_readonly(name: &str, prefix: &str) -> (r: Rule)
    ensures
        r@ == readonly(name@, prefix@),
{
    let resource = resource_of(prefix);
    let mut description = "Only GET is allowed on ".to_string();
    description.append(resource.as_str());
    let mut message = resource.clone();
    message.append(" mutations are forbidden");
    Rule {
        name: name.to_string(),
        description: Some(description),
        action: "deny".to_string(),
        conditions: both(
            condition("path", "starts_with", Some(YamlValue::String(prefix.to_string()))),
            condition("method", "not_equals", Some(YamlValue::String("GET".to_string()))),
        ),
        message: Some(message),
        status: Some(403),
        ..Rule::default()
    }
}

/// Block dangerous operations: exec and build.
pub open spec fn exec_rules() -> Seq<RuleView> {
    seq![
        RuleView {
            name: "block-exec-operations"@,
            description: Some("Prevent creating or starting exec sessions"@),
            action: "deny"@,
            conditions: seq![
                NodeView::Or(
                    seq![
                        leaf(
                            "path"@,
                            "matches"@,
                            Some(YamlView::String("^/containers/[^/]+/exec$"@)),
                        ),
                        leaf("path"@, "matches"@, Some(YamlView::String("^/exec/[^/]+/start$"@))),
                    ],
                ),
            ],
            message: Some("Exec operations are not permitted"@),
            status: Some(403),
            ..blank_rule()
        },
        simple_deny(
            "block-docker-build"@,
            "Prevent image builds via the API"@,
            "path"@,
            "starts_with"@,
            "/build"@,
            "Image building is not permitted via this proxy"@,
        ),
    ]
}

/// Read-only volumes.
pub open spec fn volumes_rules() -> Seq<RuleView> {
    seq![readonly("readonly-volumes"@, "/volumes"@)]
}

/// Read-only networks.
pub open spec fn networks_rules() -> Seq<RuleView> {
    seq![readonly("readonly-networks"@, "/networks"@)]
}

/// Read-only images.
pub open spec fn images_rules() -> Seq<RuleView> {
    seq![readonly("readonly-images"@, "/images"@)]
}

/// Block secrets and configs.
pub open spec fn secrets_rules() -> Seq<RuleView> {
    seq![
        simple_deny(
            "block-secrets"@,
            "Block access to secrets"@,
            "path"@,
            "starts_with"@,
            "/secrets"@,
            "Secrets are not accessible"@,
        ),
        simple_deny(
            "block-configs"@,
            "Block access to configs"@,
            "path"@,
            "starts_with"@,
            "/configs"@,
            "Configs are not accessible"@,
        ),
    ]
}

/// Block privileged containers.
pub open spec fn privileged_rules() -> Seq<RuleView> {
    seq![
        RuleView {
            name: "block-privileged-containers"@,
            description: Some("Prevent creating containers with --privileged"@),
            action: "deny"@,
            conditions: seq![
                leaf("path"@, "equals"@, Some(YamlView::String("/containers/create"@))),
                leaf("body.HostConfig.Privileged"@, "equals"@, Some(YamlView::Bool(true))),
            ],
            message: Some("Privileged containers are not allowed"@),
            status: Some(403),
            ..blank_rule()
        },
    ]
}

/// Block bind mounts.
pub open spec fn bind_mount_rules() -> Seq<RuleView> {
    seq![
        RuleView {
            name: "block-bind-mounts"@,
            description: Some("Prevent containers from bind mounting"@),
            action: "deny"@,
            conditions: seq![
                leaf("path"@, "equals"@, Some(YamlView::String("/containers/create"@))),
                leaf("body.HostConfig.Binds"@, "exists"@, None),
            ],
            message: Some("Bind mounts are not allowed"@),
            status: Some(403),
            ..blank_rule()
        },
    ]
}

/// Block host network mode.
pub open spec fn host_network_rules() -> Seq<RuleView> {
    seq![
        RuleView {
            name: "block-host-network"@,
            description: Some("Prevent containers from using host networking"@),
            action: "deny"@,
            conditions: seq![
                leaf("path"@, "equals"@, Some(YamlView::String("/containers/create"@))),
                leaf("body.HostConfig.NetworkMode"@, "equals"@, Some(YamlView::String("host"@))),
            ],
            message: Some("Host network mode is not allowed"@),
            status: Some(403),
            ..blank_rule()
        },
    ]
}

/// Container lifecycle for admins only.
pub open spec fn lifecycle_rules() -> Seq<RuleView> {
    seq![
        RuleView {
            name: "admin-only-container-lifecycle"@,
            description: Some("Only admins can start/stop/restart/kill containers"@),
            action: "require_role"@,
            conditions: seq![
                leaf(
                    "path"@,
                    "matches"@,
                    Some(
                        YamlView::String(
                            "^/containers/[^/]+/(start|stop|restart|kill|pause|unpause|rename|update)$"@,
                        ),
                    ),
                ),
            ],
            message: Some("Admin role required for container lifecycle operations"@),
            status: Some(403),
            role: Some("admin"@),
            ..blank_rule()
        },
    ]
}

/// Creating containers for admins only.
pub open spec fn create_rules() -> Seq<RuleView> {
    seq![
        RuleView {
            name: "admin-only-create"@,
            description: Some("Only admins can create containers"@),
            action: "require_role"@,
            conditions: seq![
                leaf("path"@, "equals"@, Some(YamlView::String("/containers/create"@))),
            ],
            message: Some("Admin role required to create containers"@),
            status: Some(403),
            role: Some("admin"@),
            ..blank_rule()
        },
    ]
}

/// Deleting for admins only.
pub open spec fn delete_rules() -> Seq<RuleView> {
    seq![
        RuleView {
            name: "admin-only-delete"@,
            description: Some("Only admins can delete resources"@),
            action: "require_role"@,
            conditions: seq![leaf("method"@, "equals"@, Some(YamlView::String("DELETE"@)))],
            message: Some("Admin role required for delete operations"@),
            status: Some(403),
            role: Some("admin"@),
            ..blank_rule()
        },
    ]
}

/// Internal networks only.
pub open spec fn internal_network_rules() -> Seq<RuleView> {
    seq![
        RuleView {
            name: "internal-network-only"@,
            description: Some("Restrict access to private network ranges and localhost"@),
            action: "deny"@,
            conditions: seq![
                leaf(
                    "client_ip"@,
                    "not_in"@,
                    Some(
                        YamlView::Sequence(
                            seq![
                                YamlView::String("10.0.0.0/8"@),
                                YamlView::String("172.16.0.0/12"@),
                                YamlView::String("192.168.0.0/16"@),
                                YamlView::String("127.0.0.0/8"@),
                            ],
                        ),
                    ),
                ),
            ],
            message: Some("Access restricted to internal network"@),
            status: Some(403),
            ..blank_rule()
        },
    ]
}

/// Redact container environment variables.
pub open spec fn environment_rules() -> Seq<RuleView> {
    seq![
        RuleView {
            name: "redact-container-environment"@,
            description: Some("Redact environment variables and commands from container inspect"@),
            action: "response_filter"@,
            conditions: seq![
                leaf("path"@, "matches"@, Some(YamlView::String("^/containers/[^/]+/json$"@))),
            ],
            message: None,
            status: None,
            response_filter: Some(
                seq![
                    FilterView { field: "Config.Env"@, action: "redact"@, replacement: None },
                    FilterView { field: "Config.Cmd"@, action: "redact"@, replacement: None },
                ],
            ),
            ..blank_rule()
        },
    ]
}

/// Limit the rate of all requests.
pub open spec fn rate_limit_rules() -> Seq<RuleView> {
    seq![
        RuleView {
            name: "rate-limit-all"@,
            description: Some("Limit requests to 50 per 30 seconds, 30s penalty on exceed"@),
            action: "rate_limit"@,
            conditions: seq![leaf("path"@, "matches"@, Some(YamlView::String("^/"@)))],
            message: Some("Rate limit exceeded. You are blocked for 30 seconds."@),
            status: Some(429),
            rate_limit: Some(RateLimitConfig { requests: 50, period: 30, penalty: 30 }),
            ..blank_rule()
        },
    ]
}

/// The number of rule templates.
pub const TEMPLATES: usize = 14;

/// The rules of a template.
pub open spec fn template_rules(template: int) -> Seq<RuleView> {
    if template == 0 {
        exec_rules()
    } else if template == 1 {
        volumes_rules()
    } else if template == 2 {
        networks_rules()
    } else if template == 3 {
        images_rules()
    } else if template == 4 {
        secrets_rules()
    } else if template == 5 {
        privileged_rules()
    } else if template == 6 {
        bind_mount_rules()
    } else if template == 7 {
        host_network_rules()
    } else if template == 8 {
        lifecycle_rules()
    } else if template == 9 {
        create_rules()
    } else if template == 10 {
        delete_rules()
    } else if template == 11 {
        internal_network_rules()
    } else if template == 12 {
        environment_rules()
    } else if template == 13 {
        rate_limit_rules()
    } else {
        Seq::empty()
    }
}

fn add_exec_rules(out: &mut Vec<Rule>)
    ensures
        config::rule_list(final(out)@) == config::rule_list(old(out)@) + exec_rules(),
{
    let ghost before = config::rule_list(out@);
    let r0 = Rule {
        name: "block-exec-operations".to_string(),
        description: Some("Prevent creating or starting exec sessions".to_string()),
        action: "deny".to_string(),
        conditions: one(
            any_of(
                condition(
                    "path",
                    "matches",
                    Some(YamlValue::String("^/containers/[^/]+/exec$".to_string())),
                ),
                condition(
                    "path",
                    "matches",
                    Some(YamlValue::String("^/exec/[^/]+/start$".to_string())),
                ),
            ),
        ),
        message: Some("Exec operations are not permitted".to_string()),
        status: Some(403),
        ..Rule::default()
    };
    let r1 = build_simple_deny(
        "block-docker-build",
        "Prevent image builds via the API",
        "path",
        "starts_with",
        "/build",
        "Image building is not permitted via this proxy",
    );
    out.push(r0);
    out.push(r1);
    assert(config::rule_list(out@) =~= before + exec_rules());
}

fn add_volumes_rules(out: &mut Vec<Rule>)
    ensures
        config::rule_list(final(out)@) == config::rule_list(old(out)@) + volumes_rules(),
{
    let ghost before = config::rule_list(out@);
    let r0 = build_readonly("readonly-volumes", "/volumes");
    out.push(r0);
    assert(config::rule_list(out@) =~= before + volumes_rules());
}

fn add_networks_rules(out: &mut Vec<Rule>)
    ensures
        config::rule_list(final(out)@) == config::rule_list(old(out)@) + networks_rules(),
{
    let ghost before = config::rule_list(out@);
    let r0 = build_readonly("readonly-networks", "/networks");
    out.push(r0);
    assert(config::rule_list(out@) =~= before + networks_rules());
}

fn add_images_rules(out: &mut Vec<Rule>)
    ensures
        config::rule_list(final(out)@) == config::rule_list(old(out)@) + images_rules(),
{
    let ghost before = config::rule_list(out@);
    let r0 = build_readonly("readonly-images", "/images");
    out.push(r0);
    assert(config::rule_list(out@) =~= before + images_rules());
}

fn add_secrets_rules(out: &mut Vec<Rule>)
    ensures
        config::rule_list(final(out)@) == config::rule_list(old(out)@) + secrets_rules(),
{
    let ghost before = config::rule_list(out@);
    let r0 = build_simple_deny(
        "block-secrets",
        "Block access to secrets",
        "path",
        "starts_with",
        "/secrets",
        "Secrets are not accessible",
    );
    let r1 = build_simple_deny(
        "block-configs",
        "Block access to configs",
        "path",
        "starts_with",
        "/configs",
        "Configs are not accessible",
    );
    out.push(r0);
    out.push(r1);
    assert(config::rule_list(out@) =~= before + secrets_rules());
}

fn add_privileged_rules(out: &mut Vec<Rule>)
    ensures
        config::rule_list(final(out)@) == config::rule_list(old(out)@) + privileged_rules(),
{
    let ghost before = config::rule_list(out@);
    let r0 = Rule {
        name: "block-privileged-containers".to_string(),
        description: Some("Prevent creating containers with --privileged".to_string()),
        action: "deny".to_string(),
        conditions: both(
            condition("path", "equals", Some(YamlValue::String("/containers/create".to_string()))),
            condition("body.HostConfig.Privileged", "equals", Some(YamlValue::Bool(true))),
        ),
        message: Some("Privileged containers are not allowed".to_string()),
        status: Some(403),
        ..Rule::default()
    };
    out.push(r0);
    assert(config::rule_list(out@) =~= before + privileged_rules());
}

fn add_bind_mount_rules(out: &mut Vec<Rule>)
    ensures
        config::rule_list(final(out)@) == config::rule_list(old(out)@) + bind_mount_rules(),
{
    let ghost before = config::rule_list(out@);
    let r0 = Rule {
        name: "block-bind-mounts".to_string(),
        description: Some("Prevent containers from bind mounting".to_string()),
        action: "deny".to_string(),
        conditions: both(
            condition("path", "equals", Some(YamlValue::String("/containers/create".to_string()))),
            condition("body.HostConfig.Binds", "exists", None),
        ),
        message: Some("Bind mounts are not allowed".to_string()),
        status: Some(403),
        ..Rule::default()
    };
    out.push(r0);
    assert(config::rule_list(out@) =~= before + bind_mount_rules());
}

fn add_host_network_rules(out: &mut Vec<Rule>)
    ensures
        config::rule_list(final(out)@) == config::rule_list(old(out)@) + host_network_rules(),
{
    let ghost before = config::rule_list(out@);
    let r0 = Rule {
        name: "block-host-network".to_string(),
        description: Some("Prevent containers from using host networking".to_string()),
        action: "deny".to_string(),
        conditions: both(
            condition("path", "equals", Some(YamlValue::String("/containers/create".to_string()))),
            condition(
                "body.HostConfig.NetworkMode",
                "equals",
                Some(YamlValue::String("host".to_string())),
            ),
        ),
        message: Some("Host network mode is not allowed".to_string()),
        status: Some(403),
        ..Rule::default()
    };
    out.push(r0);
    assert(config::rule_list(out@) =~= before + host_network_rules());
}

fn add_lifecycle_rules(out: &mut Vec<Rule>)
    ensures
        config::rule_list(final(out)@) == config::rule_list(old(out)@) + lifecycle_rules(),
{
    let ghost before = config::rule_list(out@);
    let r0 = Rule {
        name: "admin-only-container-lifecycle".to_string(),
        description: Some("Only admins can start/stop/restart/kill containers".to_string()),
        action: "require_role".to_string(),
        conditions: one(
            condition(
                "path",
                "matches",
                Some(
                    YamlValue::String(
                        "^/containers/[^/]+/(start|stop|restart|kill|pause|unpause|rename|update)$".to_string(),
                    ),
                ),
            ),
        ),
        message: Some("Admin role required for container lifecycle operations".to_string()),
        status: Some(403),
        role: Some("admin".to_string()),
        ..Rule::default()
    };
    out.push(r0);
    assert(config::rule_list(out@) =~= before + lifecycle_rules());
}

fn add_create_rules(out: &mut Vec<Rule>)
    ensures
        config::rule_list(final(out)@) == config::rule_list(old(out)@) + create_rules(),
{
    let ghost before = config::rule_list(out@);
    let r0 = Rule {
        name: "admin-only-create".to_string(),
        description: Some("Only admins can create containers".to_string()),
        action: "require_role".to_string(),
        conditions: one(
            condition("path", "equals", Some(YamlValue::String("/containers/create".to_string()))),
        ),
        message: Some("Admin role required to create containers".to_string()),
        status: Some(403),
        role: Some("admin".to_string()),
        ..Rule::default()
    };
    out.push(r0);
    assert(config::rule_list(out@) =~= before + create_rules());
}

fn add_delete_rules(out: &mut Vec<Rule>)
    ensures
        config::rule_list(final(out)@) == config::rule_list(old(out)@) + delete_rules(),
{
    let ghost before = config::rule_list(out@);
    let r0 = Rule {
        name: "admin-only-delete".to_string(),
        description: Some("Only admins can delete resources".to_string()),
        action: "require_role".to_string(),
        conditions: one(
            condition("method", "equals", Some(YamlValue::String("DELETE".to_string()))),
        ),
        message: Some("Admin role required for delete operations".to_string()),
        status: Some(403),
        role: Some("admin".to_string()),
        ..Rule::default()
    };
    out.push(r0);
    assert(config::rule_list(out@) =~= before + delete_rules());
}

fn add_internal_network_rules(out: &mut Vec<Rule>)
    ensures
        config::rule_list(final(out)@) == config::rule_list(old(out)@) + internal_network_rules(),
{
    let ghost before = config::rule_list(out@);
    let r0 = Rule {
        name: "internal-network-only".to_string(),
        description: Some("Restrict access to private network ranges and localhost".to_string()),
        action: "deny".to_string(),
        conditions: one(condition("client_ip", "not_in", Some(internal_networks()))),
        message: Some("Access restricted to internal network".to_string()),
        status: Some(403),
        ..Rule::default()
    };
    out.push(r0);
    assert(config::rule_list(out@) =~= before + internal_network_rules());
}

fn add_environment_rules(out: &mut Vec<Rule>)
    ensures
        config::rule_list(final(out)@) == config::rule_list(old(out)@) + environment_rules(),
{
    let ghost before = config::rule_list(out@);
    let r0 = Rule {
        name: "redact-container-environment".to_string(),
        description: Some(
            "Redact environment variables and commands from container inspect".to_string(),
        ),
        action: "response_filter".to_string(),
        conditions: one(
            condition(
                "path",
                "matches",
                Some(YamlValue::String("^/containers/[^/]+/json$".to_string())),
            ),
        ),
        message: None,
        status: None,
        response_filter: Some(redact_both("Config.Env", "Config.Cmd")),
        ..Rule::default()
    };
    out.push(r0);
    assert(config::rule_list(out@) =~= before + environment_rules());
}

fn add_rate_limit_rules(out: &mut Vec<Rule>)
    ensures
        config::rule_list(final(out)@) == config::rule_list(old(out)@) + rate_limit_rules(),
{
    let ghost before = config::rule_list(out@);
    let r0 = Rule {
        name: "rate-limit-all".to_string(),
        description: Some("Limit requests to 50 per 30 seconds, 30s penalty on exceed".to_string()),
        action: "rate_limit".to_string(),
        conditions: one(condition("path", "matches", Some(YamlValue::String("^/".to_string())))),
        message: Some("Rate limit exceeded. You are blocked for 30 seconds.".to_string()),
        status: Some(429),
        rate_limit: Some(RateLimitConfig { requests: 50, period: 30, penalty: 30 }),
        ..Rule::default()
    };
    out.push(r0);
    assert(config::rule_list(out@) =~= before + rate_limit_rules());
}

/// Adds the rules of a template.
pub fn add_template(out: &mut Vec<Rule>, template: usize)
    ensures
        config::rule_list(final(out)@) == config::rule_list(old(out)@) + template_rules(
            template as int,
        ),
{
    match template {
        0 => add_exec_rules(out),
        1 => add_volumes_rules(out),
        2 => add_networks_rules(out),
        3 => add_images_rules(out),
        4 => add_secrets_rules(out),
        5 => add_privileged_rules(out),
        6 => add_bind_mount_rules(out),
        7 => add_host_network_rules(out),
        8 => add_lifecycle_rules(out),
        9 => add_create_rules(out),
        10 => add_delete_rules(out),
        11 => add_internal_network_rules(out),
        12 => add_environment_rules(out),
        13 => add_rate_limit_rules(out),
        _ => {
            assert(config::rule_list(out@) + template_rules(template as int) =~= config::rule_list(
                out@,
            ));
        },
    }
}

/// The global settings that the answers make up; an empty socket path leaves it to be found.
pub fn setup_global(port: u16, socket_path: String) -> (r: GlobalConfig)
    ensures
        r@ == (GlobalView {
            port: Some(port),
            socket: if socket_path@.len() == 0 {
                None
            } else {
                Some(socket_path@)
            },
            ..config::default_global()
        }),
{
    let socket = if socket_path.as_str().is_empty() {
        None
    } else {
        Some(socket_path)
    };
    let mut g = GlobalConfig::default();
    g.port = Some(port);
    g.socket = socket;
    g
}

/// The authentication settings that the answers make up: 0 switches authentication off, 1 takes a
/// shared secret, 2 takes tokens and, unless it is empty, a secret beside them.
pub open spec fn chosen_auth(
    choice: int,
    secret: Seq<char>,
    tokens: Seq<TokenView>,
) -> Option<AuthView> {
    if choice == 0 {
        Some(AuthView { auth_type: Some("none"@), secret: None, tokens: None, mtls: None })
    } else if choice == 1 {
        Some(
            AuthView { auth_type: Some("bearer"@), secret: Some(secret), tokens: None, mtls: None },
        )
    } else if choice == 2 {
        Some(
            AuthView {
                auth_type: Some("bearer"@),
                secret: if secret.len() == 0 {
                    None
                } else {
                    Some(secret)
                },
                tokens: if tokens.len() == 0 {
                    None
                } else {
                    Some(tokens)
                },
                mtls: None,
            },
        )
    } else {
        None
    }
}

/// The authentication settings that the answers make up.
pub fn setup_auth(choice: usize, secret: String, tokens: Vec<TokenEntry>) -> (r: Option<AuthConfig>)
    ensures
        (match r {
            Some(a) => Some(a@),
            None => None,
        }) == chosen_auth(choice as int, secret@, config::token_list(tokens@)),
{
    let empty = secret.as_str().is_empty();
    match choice {
        0 => Some(
            AuthConfig {
                auth_type: Some("none".to_string()),
                secret: None,
                tokens: None,
                mtls: None,
            },
        ),
        1 => Some(
            AuthConfig {
                auth_type: Some("bearer".to_string()),
                secret: Some(SecretToken::new(secret)),
                tokens: None,
                mtls: None,
            },
        ),
        2 => {
            let kept = if empty {
                None
            } else {
                Some(SecretToken::new(secret))
            };
            let listed = if tokens.len() == 0 {
                None
            } else {
                Some(tokens)
            };
            Some(
                AuthConfig {
                    auth_type: Some("bearer".to_string()),
                    secret: kept,
                    tokens: listed,
                    mtls: None,
                },
            )
        },
        _ => None,
    }
}

/// The role that a choice stands for.
pub open spec fn role_choice(choice: int) -> Seq<char> {
    if choice == 0 {
        "admin"@
    } else if choice == 1 {
        "readonly"@
    } else {
        "user"@
    }
}

/// The role that a choice stands for.
pub fn chosen_role(choice: usize) -> (r: String)
    ensures
        r@ == role_choice(choice as int),
{
    match choice {
        0 => "admin".to_string(),
        1 => "readonly".to_string(),
        _ => "user".to_string(),
    }
}

/// The field that a choice stands for, with the name of the header or the path in the body.
pub open spec fn field_choice(choice: int, detail: Seq<char>) -> Seq<char> {
    if choice == 0 {
        "path"@
    } else if choice == 1 {
        "method"@
    } else if choice == 2 {
        "client_ip"@
    } else if choice == 3 {
        "header."@ + detail
    } else {
        "body."@ + detail
    }
}

/// The operator that a choice stands for.
pub open spec fn operator_choice(choice: int) -> Seq<char> {
    if choice == 0 {
        "equals"@
    } else if choice == 1 {
        "not_equals"@
    } else if choice == 2 {
        "contains"@
    } else if choice == 3 {
        "not_contains"@
    } else if choice == 4 {
        "starts_with"@
    } else if choice == 5 {
        "ends_with"@
    } else if choice == 6 {
        "matches"@
    } else if choice == 7 {
        "not_matches"@
    } else if choice == 8 {
        "in"@
    } else if choice == 9 {
        "not_in"@
    } else if choice == 10 {
        "exists"@
    } else {
        "not_exists"@
    }
}

/// The operator that a choice stands for.
pub fn chosen_operator(choice: usize) -> (r: &'static str)
    ensures
        r@ == operator_choice(choice as int),
{
    match choice {
        0 => "equals",
        1 => "not_equals",
        2 => "contains",
        3 => "not_contains",
        4 => "starts_with",
        5 => "ends_with",
        6 => "matches",
        7 => "not_matches",
        8 => "in",
        9 => "not_in",
        10 => "exists",
        _ => "not_exists",
    }
}

/// Whether an operator compares with a value: all do but those that ask whether something exists.
pub open spec fn takes_value(operator: Seq<char>) -> bool {
    operator != "exists"@ && operator != "not_exists"@
}

/// Whether the operator that a choice stands for compares with a value.
pub fn operator_takes_value(choice: usize) -> (r: bool)
    ensures
        r == takes_value(operator_choice(choice as int)),
{
    let operator = chosen_operator(choice);
    !text::same(operator, "exists") && !text::same(operator, "not_exists")
}

/// The condition that the answers make up. An empty value is none, and an operator that asks
/// whether something exists takes none.
pub fn custom_condition(field: usize, detail: &str, operator: usize, value: &str) -> (r:
    ConditionNode)
    ensures
        r@ == leaf(
            field_choice(field as int, detail@),
            operator_choice(operator as int),
            if takes_value(operator_choice(operator as int)) && value@.len() > 0 {
                Some(YamlView::String(value@))
            } else {
                None
            },
        ),
{
    let name = match field {
        0 => "path".to_string(),
        1 => "method".to_string(),
        2 => "client_ip".to_string(),
        3 => {
            let mut s = "header.".to_string();
            s.append(detail);
            s
        },
        _ => {
            let mut s = "body.".to_string();
            s.append(detail);
            s
        },
    };
    let v = if operator_takes_value(operator) && !value.is_empty() {
        Some(YamlValue::String(value.to_string()))
    } else {
        None
    };
    condition(name.as_str(), chosen_operator(operator), v)
}

/// The response filter that the answers make up.
pub fn custom_filter(field: &str, action: usize, replacement: &str) -> (r: ResponseFilterEntry)
    ensures
        r@ == (FilterView {
            field: field@,
            action: if action == 1 {
                "remove"@
            } else if action == 2 {
                "replace"@
            } else {
                "redact"@
            },
            replacement: if action == 2 {
                Some(replacement@)
            } else {
                None
            },
        }),
{
    match action {
        1 => ResponseFilterEntry {
            field: field.to_string(),
            action: "remove".to_string(),
            replacement: None,
        },
        2 => ResponseFilterEntry {
            field: field.to_string(),
            action: "replace".to_string(),
            replacement: Some(replacement.to_string()),
        },
        _ => ResponseFilterEntry {
            field: field.to_string(),
            action: "redact".to_string(),
            replacement: None,
        },
    }
}

/// What a custom rule does: deny or allow with a status, require a role, filter the response, or
/// limit the rate.
pub enum CustomAction {
    Deny { status: u16 },
    Allow { status: u16 },
    RequireRole { role: String },
    ResponseFilter { filters: Vec<ResponseFilterEntry> },
    RateLimit { limit: RateLimitConfig },
}

/// The rule that the answers make up.
pub open spec fn custom_view(
    name: Seq<char>,
    message: Seq<char>,
    conditions: Seq<NodeView>,
    action: CustomAction,
) -> RuleView {
    let base = RuleView { name, message: Some(message), conditions, ..blank_rule() };
    match action {
        CustomAction::Deny { status } => RuleView {
            action: "deny"@,
            status: Some(status),
            ..base
        },
        CustomAction::Allow { status } => RuleView {
            action: "allow"@,
            status: Some(status),
            ..base
        },
        CustomAction::RequireRole { role } => RuleView {
            action: "require_role"@,
            status: Some(403),
            role: Some(role@),
            ..base
        },
        CustomAction::ResponseFilter { filters } => RuleView {
            action: "response_filter"@,
            status: Some(403),
            response_filter: Some(config::filter_list(filters@)),
            ..base
        },
        CustomAction::RateLimit { limit } => RuleView {
            action: "rate_limit"@,
            status: Some(429),
            rate_limit: Some(limit),
            ..base
        },
    }
}

/// The rule that the answers make up.
pub fn build_custom_rule(
    name: String,
    message: String,
    conditions: Vec<ConditionNode>,
    action: CustomAction,
) -> (r: Rule)
    ensures
        r@ == custom_view(name@, message@, config::node_list(conditions@), action),
{
    let mut rule = Rule::default();
    rule.name = name;
    rule.message = Some(message);
    rule.conditions = conditions;
    match action {
        CustomAction::Deny { status } => {
            rule.action = "deny".to_string();
            rule.status = Some(status);
        },
        CustomAction::Allow { status } => {
            rule.action = "allow".to_string();
            rule.status = Some(status);
        },
        CustomAction::RequireRole { role } => {
            rule.action = "require_role".to_string();
            rule.status = Some(403);
            rule.role = Some(role);
        },
        CustomAction::ResponseFilter { filters } => {
            rule.action = "response_filter".to_string();
            rule.status = Some(403);
            rule.response_filter = Some(filters);
        },
        CustomAction::RateLimit { limit } => {
            rule.action = "rate_limit".to_string();
            rule.status = Some(429);
            rule.rate_limit = Some(limit);
        },
    }
    rule
}

/// The configuration that the answers make up.
pub fn setup_config(global: GlobalConfig, auth: Option<AuthConfig>, rules: Vec<Rule>) -> (r:
    ProxyConfig)
    ensures
        r@ == (ProxyConfigView {
            global: Some(global@),
            auth: match auth {
                Some(a) => Some(a@),
                None => None,
            },
            rules: if rules@.len() == 0 {
                None
            } else {
                Some(config::rule_list(rules@))
            },
        }),
{
    let kept = if rules.len() == 0 {
        None
    } else {
        Some(rules)
    };
    ProxyConfig { global: Some(global), auth, rules: kept }
}

/// Every rule of a template is a valid one.
pub proof fn law_templates_are_valid(template: int, i: int)
    requires
        0 <= i < template_rules(template).len(),
    ensures
        loading::rule_problem(template_rules(template)[i]) is None,
{
    reveal_strlit("deny");
    reveal_strlit("require_role");
    reveal_strlit("response_filter");
    reveal_strlit("rate_limit");
    reveal_strlit("block-exec-operations");
    reveal_strlit("block-docker-build");
    reveal_strlit("readonly-volumes");
    reveal_strlit("readonly-networks");
    reveal_strlit("readonly-images");
    reveal_strlit("block-secrets");
    reveal_strlit("block-configs");
    reveal_strlit("block-privileged-containers");
    reveal_strlit("block-bind-mounts");
    reveal_strlit("block-host-network");
    reveal_strlit("admin-only-container-lifecycle");
    reveal_strlit("admin-only-create");
    reveal_strlit("admin-only-delete");
    reveal_strlit("internal-network-only");
    reveal_strlit("redact-container-environment");
    reveal_strlit("rate-limit-all");
    assert("deny"@.len() == 4 && "require_role"@.len() == 12 && "rate_limit"@.len() == 10
        && "response_filter"@.len() == 15);
}

/// A custom rule with a name and conditions is a valid one.
pub proof fn law_custom_rules_are_valid(
    name: Seq<char>,
    message: Seq<char>,
    conditions: Seq<NodeView>,
    action: CustomAction,
)
    requires
        name.len() > 0,
        conditions.len() > 0,
    ensures
        loading::rule_problem(custom_view(name, message, conditions, action)) is None,
{
    reveal_strlit("deny");
    reveal_strlit("allow");
    reveal_strlit("require_role");
    reveal_strlit("response_filter");
    reveal_strlit("rate_limit");
    assert("deny"@.len() == 4 && "allow"@.len() == 5 && "require_role"@.len() == 12
        && "rate_limit"@.len() == 10 && "response_filter"@.len() == 15);
}

proof fn lemma_leaf(
    field: Seq<char>,
    operator: Seq<char>,
    value: Option<YamlView>,
    ctx: ContextView,
)
    ensures
        conditions::node_holds(leaf(field, operator, value), ctx) == conditions::condition_holds(
            ConditionView { field, operator, value, compiled: None },
            ctx,
        ),
{
}

proof fn lemma_one_condition(r: RuleView, n: NodeView, ctx: ContextView)
    requires
        r.conditions == seq![n],
    ensures
        rules::rule_applies(r, ctx) == conditions::node_holds(n, ctx),
{
    assert(r.conditions[0] == n);
}

proof fn lemma_two_conditions(r: RuleView, n: NodeView, k: NodeView, ctx: ContextView)
    requires
        r.conditions == seq![n, k],
    ensures
        rules::rule_applies(r, ctx) == (conditions::node_holds(n, ctx) && conditions::node_holds(
            k,
            ctx,
        )),
{
    assert(r.conditions[0] == n);
    assert(r.conditions[1] == k);
}

/// What a single rule that denies with a status and a message of its own decides.
proof fn lemma_single_denial(
    r: RuleView,
    ctx: ContextView,
    m: Map<Seq<char>, Bucket>,
    now: u64,
    status: u16,
    message: Seq<char>,
)
    requires
        r.action == "deny"@,
        r.dry_run is None,
        r.status == Some(status),
        r.message == Some(message),
    ensures
        ({
            let (d, buckets) = rules::rules_decision(seq![r], ctx, m, now);
            &&& buckets == m
            &&& rules::rule_applies(r, ctx) ==> d.result == (ResultView::Deny { status, message })
            &&& !rules::rule_applies(r, ctx) ==> d.result is Allow
        }),
{
    let none = Seq::<RuleView>::empty();
    assert(seq![r] =~= none + seq![r] + none);
    if rules::rule_applies(r, ctx) {
        rules::law_denying_and_allowing_rules(none, r, none, ctx, m, now);
    } else {
        rules::law_request_without_rules_is_allowed(seq![r], ctx, m, now);
    }
}

proof fn lemma_readonly(
    name: Seq<char>,
    prefix: Seq<char>,
    ctx: ContextView,
    m: Map<Seq<char>, Bucket>,
    now: u64,
)
    ensures
        ({
            let (d, buckets) = rules::rules_decision(seq![readonly(name, prefix)], ctx, m, now);
            let refused = text::begins_with(ctx.path, prefix) && !text::same_ignoring_case(
                ctx.method,
                "GET"@,
            );
            &&& buckets == m
            &&& refused ==> d.result == (ResultView::Deny {
                status: 403,
                message: resource_name(prefix) + " mutations are forbidden"@,
            })
            &&& !refused ==> d.result is Allow
        }),
{
    let r = readonly(name, prefix);
    let p = YamlView::String(prefix);
    let g = YamlView::String("GET"@);
    lemma_leaf("path"@, "starts_with"@, Some(p), ctx);
    lemma_leaf("method"@, "not_equals"@, Some(g), ctx);
    let starts = ConditionView {
        field: "path"@,
        operator: "starts_with"@,
        value: Some(p),
        compiled: None,
    };
    conditions::law_path_starts_with(starts, ctx, p, prefix);
    text::law_beginning(ctx.path, prefix);
    let equals = conditions::condition_with("method"@, "equals"@, Some(g));
    conditions::law_negated_operators("method"@, Some(g), ctx);
    conditions::law_method_conditions(equals, ctx, g, "GET"@, Seq::empty());
    lemma_two_conditions(
        r,
        leaf("path"@, "starts_with"@, Some(p)),
        leaf("method"@, "not_equals"@, Some(g)),
        ctx,
    );
    lemma_single_denial(r, ctx, m, now, 403, resource_name(prefix) + " mutations are forbidden"@);
}

/// The templates that make volumes, networks and images read-only deny every request but a `GET`
/// whose path begins with the resource's, and no other request.
pub proof fn law_readonly_templates(ctx: ContextView, m: Map<Seq<char>, Bucket>, now: u64)
    ensures
        ({
            let reads = text::same_ignoring_case(ctx.method, "GET"@);
            let volumes = rules::rules_decision(template_rules(1), ctx, m, now).0.result;
            let networks = rules::rules_decision(template_rules(2), ctx, m, now).0.result;
            let images = rules::rules_decision(template_rules(3), ctx, m, now).0.result;
            &&& volumes is Deny <==> text::begins_with(ctx.path, "/volumes"@) && !reads
            &&& volumes is Deny ==> volumes->status == 403 && volumes->message
                == "volumes mutations are forbidden"@
            &&& networks is Deny <==> text::begins_with(ctx.path, "/networks"@) && !reads
            &&& networks is Deny ==> networks->status == 403 && networks->message
                == "networks mutations are forbidden"@
            &&& images is Deny <==> text::begins_with(ctx.path, "/images"@) && !reads
            &&& images is Deny ==> images->status == 403 && images->message
                == "images mutations are forbidden"@
        }),
{
    lemma_readonly("readonly-volumes"@, "/volumes"@, ctx, m, now);
    lemma_readonly("readonly-networks"@, "/networks"@, ctx, m, now);
    lemma_readonly("readonly-images"@, "/images"@, ctx, m, now);
    reveal_strlit("/volumes");
    reveal_strlit("/networks");
    reveal_strlit("/images");
    reveal_strlit(" mutations are forbidden");
    reveal_strlit("volumes mutations are forbidden");
    reveal_strlit("networks mutations are forbidden");
    reveal_strlit("images mutations are forbidden");
    lemma_resource_name("/volumes"@);
    lemma_resource_name("/networks"@);
    lemma_resource_name("/images"@);
    assert(resource_name("/volumes"@) + " mutations are forbidden"@
        =~= "volumes mutations are forbidden"@);
    assert(resource_name("/networks"@) + " mutations are forbidden"@
        =~= "networks mutations are forbidden"@);
    assert(resource_name("/images"@) + " mutations are forbidden"@
        =~= "images mutations are forbidden"@);
}

proof fn lemma_resource_name(p: Seq<char>)
    requires
        p.len() > 1,
        p[0] == '/',
        p[1] != '/',
    ensures
        resource_name(p) == p.skip(1),
{
    assert(p.skip(1)[0] == p[1]);
    assert(resource_name(p.skip(1)) == p.skip(1));
}

/// The name of a resource is its path without the slashes at its start.
pub proof fn law_name_of_a_resource(path: Seq<char>)
    ensures
        path.len() > 0 && path[0] == '/' ==> resource_name(path) == resource_name(path.skip(1)),
        path.len() == 0 || path[0] != '/' ==> resource_name(path) == path,
{
}

proof fn lemma_path_leaf(operator: Seq<char>, value: Seq<char>, ctx: ContextView)
    ensures
        operator == "starts_with"@ ==> conditions::node_holds(
            leaf("path"@, operator, Some(YamlView::String(value))),
            ctx,
        ) == text::begins_with(ctx.path, value),
        operator == "equals"@ ==> conditions::node_holds(
            leaf("path"@, operator, Some(YamlView::String(value))),
            ctx,
        ) == (ctx.path == value),
        operator == "matches"@ ==> conditions::node_holds(
            leaf("path"@, operator, Some(YamlView::String(value))),
            ctx,
        ) == pattern::found(value, ctx.path),
{
    let v = YamlView::String(value);
    let c = ConditionView { field: "path"@, operator, value: Some(v), compiled: None };
    lemma_leaf("path"@, operator, Some(v), ctx);
    text::law_beginning(ctx.path, value);
    conditions::law_path_and_a_text(c, ctx, v, value);
    if operator == "starts_with"@ {
        conditions::law_path_starts_with(c, ctx, v, value);
    }
}

proof fn lemma_two_denials(
    a: RuleView,
    b: RuleView,
    ctx: ContextView,
    m: Map<Seq<char>, Bucket>,
    now: u64,
)
    requires
        a.action == "deny"@ && b.action == "deny"@,
        a.dry_run is None && b.dry_run is None,
        a.status is Some && b.status is Some,
        a.message is Some && b.message is Some,
    ensures
        ({
            let d = rules::rules_decision(seq![a, b], ctx, m, now).0;
            &&& rules::rule_applies(a, ctx) ==> d.result == (ResultView::Deny {
                status: a.status->0,
                message: a.message->0,
            })
            &&& !rules::rule_applies(a, ctx) && rules::rule_applies(b, ctx) ==> d.result == (
            ResultView::Deny { status: b.status->0, message: b.message->0 })
            &&& !rules::rule_applies(a, ctx) && !rules::rule_applies(b, ctx) ==> d.result is Allow
        }),
{
    let none = Seq::<RuleView>::empty();
    let all = seq![a, b];
    if rules::rule_applies(a, ctx) {
        assert(all =~= none + seq![a] + seq![b]);
        rules::law_denying_and_allowing_rules(none, a, seq![b], ctx, m, now);
    } else if rules::rule_applies(b, ctx) {
        assert(all =~= seq![a] + seq![b] + none);
        rules::law_denying_and_allowing_rules(seq![a], b, none, ctx, m, now);
    } else {
        rules::law_request_without_rules_is_allowed(all, ctx, m, now);
    }
}

/// The template against exec and builds denies exactly the requests that create or start an exec
/// session and those whose path begins with that of a build; the one on secrets exactly those whose
/// path begins with that of secrets or of configs.
pub proof fn law_exec_and_secrets_templates(ctx: ContextView, m: Map<Seq<char>, Bucket>, now: u64)
    ensures
        ({
            let sessions = pattern::found("^/containers/[^/]+/exec$"@, ctx.path)
                || pattern::found("^/exec/[^/]+/start$"@, ctx.path);
            let exec = rules::rules_decision(template_rules(0), ctx, m, now).0.result;
            let secrets = rules::rules_decision(template_rules(4), ctx, m, now).0.result;
            &&& exec is Deny <==> sessions || text::begins_with(ctx.path, "/build"@)
            &&& exec is Deny ==> exec->status == 403
            &&& sessions ==> exec->message == "Exec operations are not permitted"@
            &&& !sessions && exec is Deny ==> exec->message
                == "Image building is not permitted via this proxy"@
            &&& secrets is Deny <==> text::begins_with(ctx.path, "/secrets"@) || text::begins_with(
                ctx.path,
                "/configs"@,
            )
            &&& secrets is Deny ==> secrets->status == 403
        }),
{
    let first = "^/containers/[^/]+/exec$"@;
    let second = "^/exec/[^/]+/start$"@;
    lemma_path_leaf("matches"@, first, ctx);
    lemma_path_leaf("matches"@, second, ctx);
    lemma_path_leaf("starts_with"@, "/build"@, ctx);
    lemma_path_leaf("starts_with"@, "/secrets"@, ctx);
    lemma_path_leaf("starts_with"@, "/configs"@, ctx);
    let x = leaf("path"@, "matches"@, Some(YamlView::String(first)));
    let y = leaf("path"@, "matches"@, Some(YamlView::String(second)));
    let either = NodeView::Or(seq![x, y]);
    assert(seq![x, y] =~= seq![x] + seq![y]);
    let c = ConditionView { field: first, operator: first, value: None, compiled: None };
    conditions::law_groups_of_conditions(c, x, seq![x], seq![y], ctx);
    conditions::law_groups_of_conditions(c, y, seq![x], seq![y], ctx);
    let e = exec_rules();
    lemma_one_condition(e[0], either, ctx);
    lemma_one_condition(
        e[1],
        leaf("path"@, "starts_with"@, Some(YamlView::String("/build"@))),
        ctx,
    );
    assert(e =~= seq![e[0], e[1]]);
    lemma_two_denials(e[0], e[1], ctx, m, now);
    let s = secrets_rules();
    lemma_one_condition(
        s[0],
        leaf("path"@, "starts_with"@, Some(YamlView::String("/secrets"@))),
        ctx,
    );
    lemma_one_condition(
        s[1],
        leaf("path"@, "starts_with"@, Some(YamlView::String("/configs"@))),
        ctx,
    );
    assert(s =~= seq![s[0], s[1]]);
    lemma_two_denials(s[0], s[1], ctx, m, now);
}

proof fn lemma_creation(
    r: RuleView,
    field: Seq<char>,
    operator: Seq<char>,
    value: Option<YamlView>,
    message: Seq<char>,
    ctx: ContextView,
    m: Map<Seq<char>, Bucket>,
    now: u64,
)
    requires
        r.action == "deny"@,
        r.dry_run is None,
        r.status == Some(403u16),
        r.message == Some(message),
        r.conditions == seq![
            leaf("path"@, "equals"@, Some(YamlView::String("/containers/create"@))),
            leaf(field, operator, value),
        ],
    ensures
        ({
            let d = rules::rules_decision(seq![r], ctx, m, now).0.result;
            let refused = ctx.path == "/containers/create"@ && conditions::condition_holds(
                ConditionView { field, operator, value, compiled: None },
                ctx,
            );
            &&& refused ==> d == (ResultView::Deny { status: 403, message })
            &&& !refused ==> d is Allow
        }),
{
    lemma_path_leaf("equals"@, "/containers/create"@, ctx);
    lemma_leaf(field, operator, value, ctx);
    lemma_two_conditions(
        r,
        leaf("path"@, "equals"@, Some(YamlView::String("/containers/create"@))),
        leaf(field, operator, value),
        ctx,
    );
    lemma_single_denial(r, ctx, m, now, 403, message);
}

/// The templates on new containers deny exactly the creation of one whose body asks for what they
/// forbid: privileges, bind mounts, or the network of the host.
pub proof fn law_container_templates(
    ctx: ContextView,
    m: Map<Seq<char>, Bucket>,
    now: u64,
    b: JsonView,
)
    requires
        ctx.body_json == Some(b),
    ensures
        ({
            let creates = ctx.path == "/containers/create"@;
            let privileged = rules::rules_decision(template_rules(5), ctx, m, now).0.result;
            let mounts = rules::rules_decision(template_rules(6), ctx, m, now).0.result;
            let network = rules::rules_decision(template_rules(7), ctx, m, now).0.result;
            &&& privileged is Deny <==> creates && json::lookup(
                b,
                text::split("HostConfig.Privileged"@, '.'),
            ) == Some(JsonView::Bool(true))
            &&& privileged is Deny ==> privileged == (ResultView::Deny {
                status: 403,
                message: "Privileged containers are not allowed"@,
            })
            &&& mounts is Deny <==> creates && json::lookup(
                b,
                text::split("HostConfig.Binds"@, '.'),
            ) is Some
            &&& mounts is Deny ==> mounts == (ResultView::Deny {
                status: 403,
                message: "Bind mounts are not allowed"@,
            })
            &&& network is Deny <==> creates && json::lookup(
                b,
                text::split("HostConfig.NetworkMode"@, '.'),
            ) == Some(JsonView::String("host"@))
            &&& network is Deny ==> network == (ResultView::Deny {
                status: 403,
                message: "Host network mode is not allowed"@,
            })
        }),
{
    reveal_strlit("body.");
    reveal_strlit("HostConfig.Privileged");
    reveal_strlit("HostConfig.Binds");
    reveal_strlit("HostConfig.NetworkMode");
    reveal_strlit("body.HostConfig.Privileged");
    reveal_strlit("body.HostConfig.Binds");
    reveal_strlit("body.HostConfig.NetworkMode");
    assert("body.HostConfig.Privileged"@ =~= "body."@ + "HostConfig.Privileged"@);
    assert("body.HostConfig.Binds"@ =~= "body."@ + "HostConfig.Binds"@);
    assert("body.HostConfig.NetworkMode"@ =~= "body."@ + "HostConfig.NetworkMode"@);
    let yes = Some(YamlView::Bool(true));
    let host = Some(YamlView::String("host"@));
    lemma_creation(
        privileged_rules()[0],
        "body.HostConfig.Privileged"@,
        "equals"@,
        yes,
        "Privileged containers are not allowed"@,
        ctx,
        m,
        now,
    );
    lemma_creation(
        bind_mount_rules()[0],
        "body.HostConfig.Binds"@,
        "exists"@,
        None,
        "Bind mounts are not allowed"@,
        ctx,
        m,
        now,
    );
    lemma_creation(
        host_network_rules()[0],
        "body.HostConfig.NetworkMode"@,
        "equals"@,
        host,
        "Host network mode is not allowed"@,
        ctx,
        m,
        now,
    );
    let p = ConditionView {
        field: "body.HostConfig.Privileged"@,
        operator: "equals"@,
        value: yes,
        compiled: None,
    };
    let q = ConditionView {
        field: "body.HostConfig.Binds"@,
        operator: "exists"@,
        value: None,
        compiled: None,
    };
    let n = ConditionView {
        field: "body.HostConfig.NetworkMode"@,
        operator: "equals"@,
        value: host,
        compiled: None,
    };
    conditions::law_missing_and_present_body_fields(p, ctx, "HostConfig.Privileged"@, b);
    conditions::law_missing_and_present_body_fields(q, ctx, "HostConfig.Binds"@, b);
    conditions::law_missing_and_present_body_fields(n, ctx, "HostConfig.NetworkMode"@, b);
    let j = json::lookup(b, text::split("HostConfig.Privileged"@, '.'));
    if j is Some {
        conditions::law_body_field_equals_a_value(
            p,
            ctx,
            "HostConfig.Privileged"@,
            b,
            j->0,
            "host"@,
            true,
        );
    }
    let k = json::lookup(b, text::split("HostConfig.NetworkMode"@, '.'));
    if k is Some {
        conditions::law_body_field_equals_a_value(
            n,
            ctx,
            "HostConfig.NetworkMode"@,
            b,
            k->0,
            "host"@,
            true,
        );
    }
}

proof fn lemma_admin_only(
    r: RuleView,
    n: NodeView,
    ctx: ContextView,
    m: Map<Seq<char>, Bucket>,
    now: u64,
)
    requires
        r.action == "require_role"@,
        r.dry_run is None,
        r.role == Some("admin"@),
        r.status == Some(403u16),
        r.message is Some,
        r.conditions == seq![n],
    ensures
        ({
            let d = rules::rules_decision(seq![r], ctx, m, now).0.result;
            let refused = conditions::node_holds(n, ctx) && ctx.user_role != Some("admin"@);
            &&& refused ==> d == (ResultView::Deny { status: 403, message: r.message->0 })
            &&& !refused ==> d is Allow
        }),
{
    let none = Seq::<RuleView>::empty();
    assert(seq![r] =~= none + seq![r] + none);
    lemma_one_condition(r, n, ctx);
    reveal_strlit("admin");
    if rules::rule_applies(r, ctx) {
        let role = if ctx.user_role is Some {
            ctx.user_role->0
        } else {
            Seq::empty()
        };
        rules::law_required_role_decides(none, r, none, ctx, m, now, "admin"@, role);
    } else {
        rules::law_request_without_rules_is_allowed(seq![r], ctx, m, now);
    }
}

/// The templates for admins deny everybody else, and only them, what they reserve: the lifecycle
/// of containers, their creation, and what is deleted.
pub proof fn law_admin_templates(ctx: ContextView, m: Map<Seq<char>, Bucket>, now: u64)
    ensures
        ({
            let admin = ctx.user_role == Some("admin"@);
            let lifecycle = rules::rules_decision(template_rules(8), ctx, m, now).0.result;
            let creation = rules::rules_decision(template_rules(9), ctx, m, now).0.result;
            let deletion = rules::rules_decision(template_rules(10), ctx, m, now).0.result;
            &&& lifecycle is Deny <==> !admin && pattern::found(
                "^/containers/[^/]+/(start|stop|restart|kill|pause|unpause|rename|update)$"@,
                ctx.path,
            )
            &&& lifecycle is Deny ==> lifecycle == (ResultView::Deny {
                status: 403,
                message: "Admin role required for container lifecycle operations"@,
            })
            &&& creation is Deny <==> !admin && ctx.path == "/containers/create"@
            &&& creation is Deny ==> creation == (ResultView::Deny {
                status: 403,
                message: "Admin role required to create containers"@,
            })
            &&& deletion is Deny <==> !admin && text::same_ignoring_case(ctx.method, "DELETE"@)
            &&& deletion is Deny ==> deletion == (ResultView::Deny {
                status: 403,
                message: "Admin role required for delete operations"@,
            })
        }),
{
    let expression =
        "^/containers/[^/]+/(start|stop|restart|kill|pause|unpause|rename|update)$"@;
    lemma_path_leaf("matches"@, expression, ctx);
    lemma_path_leaf("equals"@, "/containers/create"@, ctx);
    let gone = YamlView::String("DELETE"@);
    lemma_leaf("method"@, "equals"@, Some(gone), ctx);
    let c = ConditionView {
        field: "method"@,
        operator: "equals"@,
        value: Some(gone),
        compiled: None,
    };
    conditions::law_method_conditions(c, ctx, gone, "DELETE"@, Seq::empty());
    lemma_admin_only(
        lifecycle_rules()[0],
        leaf("path"@, "matches"@, Some(YamlView::String(expression))),
        ctx,
        m,
        now,
    );
    lemma_admin_only(
        create_rules()[0],
        leaf("path"@, "equals"@, Some(YamlView::String("/containers/create"@))),
        ctx,
        m,
        now,
    );
    lemma_admin_only(
        delete_rules()[0],
        leaf("method"@, "equals"@, Some(gone)),
        ctx,
        m,
        now,
    );
}

/// The template for internal networks denies exactly the clients that a condition on their address
/// does not find in the private ranges and those of the machine itself.
pub proof fn law_internal_network_template(
    ctx: ContextView,
    m: Map<Seq<char>, Bucket>,
    now: u64,
    list: Seq<YamlView>,
)
    requires
        list == seq![
            YamlView::String("10.0.0.0/8"@),
            YamlView::String("172.16.0.0/12"@),
            YamlView::String("192.168.0.0/16"@),
            YamlView::String("127.0.0.0/8"@),
        ],
    ensures
        ({
            let d = rules::rules_decision(template_rules(11), ctx, m, now).0.result;
            &&& d is Deny <==> !conditions::condition_holds(
                conditions::condition_with(
                    "client_ip"@,
                    "in"@,
                    Some(YamlView::Sequence(list)),
                ),
                ctx,
            )
            &&& d is Deny ==> d == (ResultView::Deny {
                status: 403,
                message: "Access restricted to internal network"@,
            })
        }),
{
    let v = Some(YamlView::Sequence(list));
    lemma_leaf("client_ip"@, "not_in"@, v, ctx);
    conditions::law_negated_operators("client_ip"@, v, ctx);
    let r = internal_network_rules()[0];
    lemma_one_condition(r, leaf("client_ip"@, "not_in"@, v), ctx);
    lemma_single_denial(r, ctx, m, now, 403, "Access restricted to internal network"@);
}

/// The template on the environment of containers denies nothing; to what it applies, it redacts
/// their variables and their command.
pub proof fn law_environment_template(ctx: ContextView, m: Map<Seq<char>, Bucket>, now: u64)
    ensures
        rules::rules_decision(template_rules(12), ctx, m, now).0.result is Allow,
        pattern::found("^/containers/[^/]+/json$"@, ctx.path) ==> rules::filters_for(
            template_rules(12),
            ctx,
        ) == seq![
            FilterView { field: "Config.Env"@, action: "redact"@, replacement: None },
            FilterView { field: "Config.Cmd"@, action: "redact"@, replacement: None },
        ],
        !pattern::found("^/containers/[^/]+/json$"@, ctx.path) ==> rules::filters_for(
            template_rules(12),
            ctx,
        ) == Seq::<FilterView>::empty(),
{
    let r = environment_rules()[0];
    let none = Seq::<RuleView>::empty();
    lemma_path_leaf("matches"@, "^/containers/[^/]+/json$"@, ctx);
    lemma_one_condition(
        r,
        leaf("path"@, "matches"@, Some(YamlView::String("^/containers/[^/]+/json$"@))),
        ctx,
    );
    rules::law_filters_of_a_rule(r, ctx);
    assert(seq![r] =~= seq![r] + none);
    if rules::rule_applies(r, ctx) {
        rules::law_rules_that_do_not_decide_pass_on(r, none, ctx, m, now);
        rules::law_without_rules_nothing_is_named(ctx, m, now);
    } else {
        rules::law_request_without_rules_is_allowed(seq![r], ctx, m, now);
    }
}

/// The template that limits the rate grants a client 50 requests in 30 seconds and shuts it out
/// for 30 more, on every path that the expression for all paths is found in.
pub proof fn law_rate_limit_template(ctx: ContextView, m: Map<Seq<char>, Bucket>, now: u64)
    ensures
        ({
            let d = rules::rules_decision(template_rules(13), ctx, m, now).0.result;
            let granted = limits::limited_request(
                m,
                "rate-limit-all"@ + ":"@ + ctx.client_ip,
                50,
                30,
                30,
                now,
            ).0;
            &&& d is Deny <==> pattern::found("^/"@, ctx.path) && !granted
            &&& d is Deny ==> d == (ResultView::Deny {
                status: 429,
                message: "Rate limit exceeded. You are blocked for 30 seconds."@,
            })
        }),
{
    let r = rate_limit_rules()[0];
    let none = Seq::<RuleView>::empty();
    lemma_path_leaf("matches"@, "^/"@, ctx);
    lemma_one_condition(r, leaf("path"@, "matches"@, Some(YamlView::String("^/"@))), ctx);
    assert(seq![r] =~= seq![r] + none);
    if rules::rule_applies(r, ctx) {
        rules::law_rate_limiting_rules(r, none, ctx, m, now);
        let next = limits::limited_request(
            m,
            "rate-limit-all"@ + ":"@ + ctx.client_ip,
            50,
            30,
            30,
            now,
        ).1;
        rules::law_without_rules_nothing_is_named(ctx, next, now);
    } else {
        rules::law_request_without_rules_is_allowed(seq![r], ctx, m, now);
    }
}

/// What the choices of the setup amount to: authentication that is off, by a secret, or by tokens
/// and a secret where there are any; the roles; the fields; and the operators.
pub proof fn law_choices_of_the_setup(secret: Seq<char>, tokens: Seq<TokenView>, detail: Seq<char>)
    ensures
        chosen_auth(0, secret, tokens) == Some(
            AuthView { auth_type: Some("none"@), secret: None, tokens: None, mtls: None },
        ),
        chosen_auth(1, secret, tokens) == Some(
            AuthView { auth_type: Some("bearer"@), secret: Some(secret), tokens: None, mtls: None },
        ),
        chosen_auth(2, secret, tokens) is Some,
        chosen_auth(2, secret, tokens)->0.auth_type == Some("bearer"@),
        chosen_auth(2, secret, tokens)->0.mtls is None,
        secret.len() == 0 ==> chosen_auth(2, secret, tokens)->0.secret is None,
        secret.len() > 0 ==> chosen_auth(2, secret, tokens)->0.secret == Some(secret),
        tokens.len() == 0 ==> chosen_auth(2, secret, tokens)->0.tokens is None,
        tokens.len() > 0 ==> chosen_auth(2, secret, tokens)->0.tokens == Some(tokens),
        chosen_auth(3, secret, tokens) is None,
        seq![role_choice(0), role_choice(1), role_choice(2)] == seq![
            "admin"@,
            "readonly"@,
            "user"@,
        ],
        seq![
            field_choice(0, detail),
            field_choice(1, detail),
            field_choice(2, detail),
            field_choice(3, detail),
            field_choice(4, detail),
        ] == seq!["path"@, "method"@, "client_ip"@, "header."@ + detail, "body."@ + detail],
        seq![
            operator_choice(0),
            operator_choice(1),
            operator_choice(2),
            operator_choice(3),
            operator_choice(4),
            operator_choice(5),
            operator_choice(6),
            operator_choice(7),
            operator_choice(8),
            operator_choice(9),
            operator_choice(10),
            operator_choice(11),
        ] == seq![
            "equals"@,
            "not_equals"@,
            "contains"@,
            "not_contains"@,
            "starts_with"@,
            "ends_with"@,
            "matches"@,
            "not_matches"@,
            "in"@,
            "not_in"@,
            "exists"@,
            "not_exists"@,
        ],
        forall|o: Seq<char>| #[trigger] takes_value(o) <==> o != "exists"@ && o != "not_exists"@,
{
}

/// A rule of one's own has its name, its message and its conditions; its action is the one chosen,
/// with what that takes, and with a status: the one given to a denial or an allowance, 429 for a
/// limit and 403 for the others. Nothing else of it is set.
pub proof fn law_custom_rules(
    name: Seq<char>,
    message: Seq<char>,
    conditions: Seq<NodeView>,
    action: CustomAction,
)
    ensures
        ({
            let r = custom_view(name, message, conditions, action);
            &&& r.name == name && r.message == Some(message) && r.conditions == conditions
            &&& r.description is None && r.priority is None && r.methods is None && r.dry_run
                is None
            &&& match action {
                CustomAction::Deny { status } => r.action == "deny"@ && r.status == Some(status),
                CustomAction::Allow { status } => r.action == "allow"@ && r.status == Some(status),
                CustomAction::RequireRole { role } => r.action == "require_role"@ && r.role
                    == Some(role@) && r.status == Some(403u16),
                CustomAction::ResponseFilter { filters } => r.action == "response_filter"@
                    && r.response_filter == Some(config::filter_list(filters@)) && r.status
                    == Some(403u16),
                CustomAction::RateLimit { limit } => r.action == "rate_limit"@ && r.rate_limit
                    == Some(limit) && r.status == Some(429u16),
            }
            &&& r.role is Some ==> action is RequireRole
            &&& r.response_filter is Some ==> action is ResponseFilter
            &&& r.rate_limit is Some ==> action is RateLimit
        }),
{
}

/// The rules of the templates, by their names, in their order. None of them sets a priority, a
/// switch or a list of methods.
pub proof fn law_templates_by_name(template: int, i: int)
    ensures
        template_rules(0).len() == 2 && template_rules(4).len() == 2,
        0 < template < 14 && template != 4 ==> template_rules(template).len() == 1,
        template < 0 || template > 13 ==> template_rules(template).len() == 0,
        template_rules(0)[0].name == "block-exec-operations"@,
        template_rules(0)[1].name == "block-docker-build"@,
        template_rules(1)[0].name == "readonly-volumes"@,
        template_rules(2)[0].name == "readonly-networks"@,
        template_rules(3)[0].name == "readonly-images"@,
        template_rules(4)[0].name == "block-secrets"@,
        template_rules(4)[1].name == "block-configs"@,
        template_rules(5)[0].name == "block-privileged-containers"@,
        template_rules(6)[0].name == "block-bind-mounts"@,
        template_rules(7)[0].name == "block-host-network"@,
        template_rules(8)[0].name == "admin-only-container-lifecycle"@,
        template_rules(9)[0].name == "admin-only-create"@,
        template_rules(10)[0].name == "admin-only-delete"@,
        template_rules(11)[0].name == "internal-network-only"@,
        template_rules(12)[0].name == "redact-container-environment"@,
        template_rules(13)[0].name == "rate-limit-all"@,
        0 <= i < template_rules(template).len() ==> {
            let r = template_rules(template)[i];
            &&& r.description is Some && r.priority is None && r.methods is None && r.dry_run
                is None
        },
{
}

/// A simple denial has one condition, that of its field, operator and text, and denies with 403
/// and its message exactly the requests of which that holds.
pub proof fn law_simple_denials(
    name: Seq<char>,
    description: Seq<char>,
    field: Seq<char>,
    operator: Seq<char>,
    value: Seq<char>,
    message: Seq<char>,
    ctx: ContextView,
    m: Map<Seq<char>, Bucket>,
    now: u64,
)
    ensures
        ({
            let r = simple_deny(name, description, field, operator, value, message);
            let c = ConditionView {
                field,
                operator,
                value: Some(YamlView::String(value)),
                compiled: None,
            };
            let d = rules::rules_decision(seq![r], ctx, m, now).0.result;
            &&& r.name == name && r.description == Some(description)
            &&& conditions::condition_holds(c, ctx) ==> d == (ResultView::Deny {
                status: 403,
                message,
            })
            &&& !conditions::condition_holds(c, ctx) ==> d is Allow
        }),
{
    let r = simple_deny(name, description, field, operator, value, message);
    let v = Some(YamlView::String(value));
    lemma_leaf(field, operator, v, ctx);
    lemma_one_condition(r, leaf(field, operator, v), ctx);
    lemma_single_denial(r, ctx, m, now, 403, message);
}

} // verus!
