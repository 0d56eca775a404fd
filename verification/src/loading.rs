//! The steps that make the values of a configuration file ready for use.
use crate::conditions;
use crate::conditions::ContextView;
use crate::config;
use crate::config::{
    AuthConfig, AuthView, Condition, ConditionNode, ConditionView, GlobalConfig, GlobalView,
    NodeView, ProxyConfig, ProxyConfigView, Rule, RuleView, SecretToken,
};
use crate::environment;
use crate::environment::Environment;
use crate::expansion;
use crate::pattern;
use crate::text;
use crate::yaml;
use vstd::prelude::*;

verus! {

/// Whether an operator takes a regular expression.
pub open spec fn takes_pattern(operator: Seq<char>) -> bool {
    operator == "matches"@ || operator == "not_matches"@
}

/// The regular expression that a condition holds.
pub open spec fn condition_pattern(c: ConditionView) -> Option<Seq<char>> {
    if takes_pattern(c.operator) {
        yaml::opt_yaml_text(c.value)
    } else {
        None
    }
}

/// What is said of a regular expression that does not compile.
pub open spec fn regex_complaint(field: Seq<char>, e: Seq<char>) -> Seq<char> {
    "invalid regex for field '"@ + field + "': "@ + e
}

/// What is wrong with the regular expression of a condition.
pub open spec fn condition_error(c: ConditionView) -> Option<Seq<char>> {
    match condition_pattern(c) {
        Some(p) => match pattern::regex_error(p) {
            Some(e) => Some(regex_complaint(c.field, e)),
            None => None,
        },
        None => None,
    }
}

/// The first error among the regular expressions of a tree of conditions.
pub open spec fn node_error(n: NodeView) -> Option<Seq<char>>
    decreases n,
{
    match n {
        NodeView::Leaf(c) => condition_error(c),
        NodeView::And(v) => nodes_error(v),
        NodeView::Or(v) => nodes_error(v),
    }
}

/// The first error among the regular expressions of a list of condition trees.
pub open spec fn nodes_error(v: Seq<NodeView>) -> Option<Seq<char>>
    decreases v,
{
    if v.len() == 0 {
        None
    } else if node_error(v[0]) is Some {
        node_error(v[0])
    } else {
        nodes_error(v.skip(1))
    }
}

/// The first error among the regular expressions of a list of rules.
pub open spec fn rules_error(v: Seq<RuleView>) -> Option<Seq<char>>
    decreases v.len(),
{
    if v.len() == 0 {
        None
    } else if nodes_error(v[0].conditions) is Some {
        nodes_error(v[0].conditions)
    } else {
        rules_error(v.skip(1))
    }
}

/// A condition that carries the compiled expression of its own pattern, where it has one.
pub open spec fn compiled_condition(c: ConditionView) -> ConditionView {
    match condition_pattern(c) {
        Some(p) => ConditionView { compiled: Some(p), ..c },
        None => c,
    }
}

/// A tree of conditions that carry their compiled expressions.
pub open spec fn compiled_node(n: NodeView) -> NodeView
    decreases n,
{
    match n {
        NodeView::Leaf(c) => NodeView::Leaf(compiled_condition(c)),
        NodeView::And(v) => NodeView::And(
            Seq::new(
                v.len(),
                |i: int|
                    if 0 <= i < v.len() {
                        compiled_node(v[i])
                    } else {
                        arbitrary()
                    },
            ),
        ),
        NodeView::Or(v) => NodeView::Or(
            Seq::new(
                v.len(),
                |i: int|
                    if 0 <= i < v.len() {
                        compiled_node(v[i])
                    } else {
                        arbitrary()
                    },
            ),
        ),
    }
}

/// Rules whose conditions carry their compiled expressions.
pub open spec fn compiled_rules(v: Seq<RuleView>) -> Seq<RuleView> {
    Seq::new(
        v.len(),
        |i: int|
            RuleView {
                conditions: Seq::new(
                    v[i].conditions.len(),
                    |k: int| compiled_node(v[i].conditions[k]),
                ),
                ..v[i]
            },
    )
}

/// What is said of the regular expression of the condition on `field` that failed with `e`.
pub fn complain_of_regex(field: &str, e: &str) -> (r: String)
    ensures
        r@ == regex_complaint(field@, e@),
{
    let mut message = "invalid regex for field '".to_string();
    message.append(field);
    message.append("': ");
    message.append(e);
    message
}

fn compile_regex_in_condition(c: &mut Condition) -> (r: Result<(), String>)
    ensures
        match r {
            Ok(_) => condition_error(old(c)@) is None && final(c)@ == compiled_condition(old(c)@),
            Err(e) => condition_error(old(c)@) == Some(e@),
        },
{
    if text::same(c.operator.as_str(), "matches") || text::same(c.operator.as_str(), "not_matches") {
        if let Some(s) = yaml::opt_yaml_to_string(&c.value) {
            match pattern::compile(s.as_str()) {
                Ok(re) => {
                    c.compiled_regex = Some(re);
                },
                Err(e) => {
                    return Err(complain_of_regex(c.field.as_str(), e.as_str()));
                },
            }
        }
    }
    Ok(())
}

fn compile_regexes_in_node(node: &mut ConditionNode) -> (r: Result<(), String>)
    ensures
        match r {
            Ok(_) => node_error(old(node)@) is None && final(node)@ == compiled_node(old(node)@),
            Err(e) => node_error(old(node)@) == Some(e@),
        },
    decreases *old(node), 0int,
{
    let ghost start = *node;
    proof {
        config::lemma_node_view(start);
    }
    match node {
        ConditionNode::Leaf(c) => {
            return compile_regex_in_condition(c);
        },
        ConditionNode::And { and } => {
            match compile_regexes_in_list(and) {
                Ok(_) => {},
                Err(e) => {
                    return Err(e);
                },
            }
            assert(compiled_node(start@)->And_0 =~= config::node_list(and@));
        },
        ConditionNode::Or { or } => {
            match compile_regexes_in_list(or) {
                Ok(_) => {},
                Err(e) => {
                    return Err(e);
                },
            }
            assert(compiled_node(start@)->Or_0 =~= config::node_list(or@));
        },
    }
    proof {
        config::lemma_node_view(*node);
    }
    Ok(())
}

fn compile_regexes_in_list(v: &mut Vec<ConditionNode>) -> (r: Result<(), String>)
    ensures
        match r {
            Ok(_) => nodes_error(config::node_list(old(v)@)) is None && config::node_list(final(v)@)
                == Seq::new(
                old(v)@.len(),
                |k: int| compiled_node(config::node_list(old(v)@)[k]),
            ),
            Err(e) => nodes_error(config::node_list(old(v)@)) == Some(e@),
        },
    decreases *old(v), 1int,
{
    let ghost before = v@;
    let ghost list = config::node_list(before);
    let mut i: usize = 0;
    assert(list.skip(0) =~= list);
    while i < v.len()
        invariant
            i <= v@.len(),
            v@.len() == before.len(),
            before == old(v)@,
            list == config::node_list(before),
            nodes_error(list) == nodes_error(list.skip(i as int)),
            forall|j: int| 0 <= j < i ==> (#[trigger] v@[j])@ == compiled_node(before[j]@),
            forall|j: int| i <= j < v@.len() ==> #[trigger] v@[j] == before[j],
        decreases v@.len() - i,
    {
        assert(list.skip(i as int)[0] == before[i as int]@);
        assert(list.skip(i as int).skip(1) =~= list.skip(i + 1));
        assert(decreases_to!(*old(v) => old(v)@[i as int]));
        match compile_regexes_in_node(&mut v[i]) {
            Ok(_) => {},
            Err(e) => {
                return Err(e);
            },
        }
        i += 1;
    }
    assert(config::node_list(v@) =~= Seq::new(before.len(), |k: int| compiled_node(list[k])));
    Ok(())
}

fn compile_regexes_in_rules(v: &mut Vec<Rule>) -> (r: Result<(), String>)
    ensures
        match r {
            Ok(_) => rules_error(config::rule_list(old(v)@)) is None && config::rule_list(final(v)@)
                == compiled_rules(config::rule_list(old(v)@)),
            Err(e) => rules_error(config::rule_list(old(v)@)) == Some(e@),
        },
{
    let ghost before = v@;
    let ghost list = config::rule_list(before);
    let mut i: usize = 0;
    assert(list.skip(0) =~= list);
    while i < v.len()
        invariant
            i <= v@.len(),
            v@.len() == before.len(),
            before == old(v)@,
            list == config::rule_list(before),
            rules_error(list) == rules_error(list.skip(i as int)),
            forall|j: int| 0 <= j < i ==> (#[trigger] v@[j])@ == compiled_rules(list)[j],
            forall|j: int| i <= j < v@.len() ==> #[trigger] v@[j] == before[j],
        decreases v@.len() - i,
    {
        assert(list.skip(i as int)[0] == before[i as int]@);
        assert(list.skip(i as int).skip(1) =~= list.skip(i + 1));
        match compile_regexes_in_list(&mut v[i].conditions) {
            Ok(_) => {},
            Err(e) => {
                return Err(e);
            },
        }
        assert(v@[i as int]@.conditions =~= compiled_rules(list)[i as int].conditions);
        i += 1;
    }
    assert(config::rule_list(v@) =~= compiled_rules(list));
    Ok(())
}

/// A configuration whose conditions carry their compiled expressions.
pub open spec fn compiled_config(c: ProxyConfigView) -> ProxyConfigView {
    ProxyConfigView {
        rules: match c.rules {
            Some(v) => Some(compiled_rules(v)),
            None => None,
        },
        ..c
    }
}

/// The first error among the regular expressions of a configuration.
pub open spec fn pattern_error(c: ProxyConfigView) -> Option<Seq<char>> {
    match c.rules {
        Some(v) => rules_error(v),
        None => None,
    }
}

/// A complaint about a rule.
pub open spec fn about_rule(name: Seq<char>, complaint: Seq<char>) -> Seq<char> {
    "rule '"@ + name + "' "@ + complaint
}

/// What is wrong with a rule.
pub open spec fn rule_problem(r: RuleView) -> Option<Seq<char>> {
    if r.name.len() == 0 {
        Some("rule name cannot be empty"@)
    } else if r.action.len() == 0 {
        Some(about_rule(r.name, "has no action"@))
    } else if r.conditions.len() == 0 {
        Some(about_rule(r.name, "has no conditions"@))
    } else if r.action == "require_role"@ && r.role is None {
        Some(about_rule(r.name, "uses require_role but has no role specified"@))
    } else if r.action == "rate_limit"@ && r.rate_limit is None {
        Some(about_rule(r.name, "uses rate_limit but has no rate_limit config"@))
    } else if r.action == "response_filter"@ && r.response_filter is None {
        Some(about_rule(r.name, "uses response_filter but has no response_filter entries"@))
    } else {
        None
    }
}

/// What is wrong with the first rule with which something is wrong.
pub open spec fn rules_problem(v: Seq<RuleView>) -> Option<Seq<char>>
    decreases v.len(),
{
    if v.len() == 0 {
        None
    } else if rule_problem(v[0]) is Some {
        rule_problem(v[0])
    } else {
        rules_problem(v.skip(1))
    }
}

/// What is wrong with the authentication scheme.
pub open spec fn auth_problem(c: ProxyConfigView) -> Option<Seq<char>> {
    match c.auth {
        Some(a) => match a.auth_type {
            Some(t) => if t == "none"@ || t == "bearer"@ || t == "mtls"@ {
                None
            } else {
                Some("invalid auth.type: "@ + t)
            },
            None => None,
        },
        None => None,
    }
}

/// The path of the metrics endpoint; `None` where it is not enabled.
pub open spec fn metrics_path(c: ProxyConfigView) -> Option<Seq<char>> {
    match c.global {
        Some(g) => match g.metrics {
            Some(m) => if m.enabled == Some(true) {
                Some(
                    match m.path {
                        Some(p) => p,
                        None => "/metrics"@,
                    },
                )
            } else {
                None
            },
            None => None,
        },
        None => None,
    }
}

/// What is wrong with the metrics endpoint.
pub open spec fn metrics_problem(c: ProxyConfigView) -> Option<Seq<char>> {
    match metrics_path(c) {
        Some(p) => if p == "/"@ || p.len() == 0 {
            Some("metrics path cannot be '/' or empty"@)
        } else if text::begins_with(p, "/v"@) {
            Some("metrics path '"@ + p + "' looks like a Docker API versioned path"@)
        } else {
            None
        },
        None => None,
    }
}

/// What is wrong with a configuration: with its authentication scheme, else with a rule, else with
/// the metrics endpoint.
pub open spec fn config_problem(c: ProxyConfigView) -> Option<Seq<char>> {
    let rules = match c.rules {
        Some(v) => rules_problem(v),
        None => None,
    };
    if auth_problem(c) is Some {
        auth_problem(c)
    } else if rules is Some {
        rules
    } else {
        metrics_problem(c)
    }
}

fn complain_about(name: &String, complaint: &str) -> (r: String)
    ensures
        r@ == about_rule(name@, complaint@),
{
    let mut message = "rule '".to_string();
    message.append(name.as_str());
    message.append("' ");
    message.append(complaint);
    message
}

fn check_rule(r: &Rule) -> (res: Result<(), String>)
    ensures
        match res {
            Ok(_) => rule_problem(r@) is None,
            Err(e) => rule_problem(r@) == Some(e@),
        },
{
    let action = r.action.as_str();
    if r.name.as_str().is_empty() {
        return Err("rule name cannot be empty".to_string());
    }
    if action.is_empty() {
        return Err(complain_about(&r.name, "has no action"));
    }
    if r.conditions.len() == 0 {
        return Err(complain_about(&r.name, "has no conditions"));
    }
    if text::same(action, "require_role") && r.role.is_none() {
        return Err(complain_about(&r.name, "uses require_role but has no role specified"));
    }
    if text::same(action, "rate_limit") && r.rate_limit.is_none() {
        return Err(complain_about(&r.name, "uses rate_limit but has no rate_limit config"));
    }
    if text::same(action, "response_filter") && r.response_filter.is_none() {
        return Err(
            complain_about(&r.name, "uses response_filter but has no response_filter entries"),
        );
    }
    Ok(())
}

fn check_rules(v: &Vec<Rule>) -> (res: Result<(), String>)
    ensures
        match res {
            Ok(_) => rules_problem(config::rule_list(v@)) is None,
            Err(e) => rules_problem(config::rule_list(v@)) == Some(e@),
        },
{
    let ghost list = config::rule_list(v@);
    let mut i: usize = 0;
    assert(list.skip(0) =~= list);
    while i < v.len()
        invariant
            i <= v@.len(),
            list == config::rule_list(v@),
            rules_problem(list) == rules_problem(list.skip(i as int)),
        decreases v@.len() - i,
    {
        assert(list.skip(i as int).skip(1) =~= list.skip(i + 1));
        match check_rule(&v[i]) {
            Ok(_) => {},
            Err(e) => {
                return Err(e);
            },
        }
        i += 1;
    }
    Ok(())
}

/// `DOCKER_PROXY_PORT`, where it is a port.
pub open spec fn env_port(env: Seq<(Seq<char>, Seq<char>)>) -> Option<u16> {
    match environment::env_value(env, "DOCKER_PROXY_PORT"@) {
        Some(v) => match text::parse_up_to(v, 65535) {
            Some(n) => Some(n as u16),
            None => None,
        },
        None => None,
    }
}

/// The global settings, or the defaults.
pub open spec fn global_or_default(g: Option<GlobalView>) -> GlobalView {
    match g {
        Some(x) => x,
        None => config::default_global(),
    }
}

/// The global settings under the variables `DOCKER_PROXY_PORT` and `DOCKER_SOCKET`; the latter
/// counts where the file that it names exists.
pub open spec fn overridden_global(
    g: Option<GlobalView>,
    env: Seq<(Seq<char>, Seq<char>)>,
    socket_exists: bool,
) -> Option<GlobalView> {
    let ported = match env_port(env) {
        Some(p) => Some(GlobalView { port: Some(p), ..global_or_default(g) }),
        None => g,
    };
    match environment::env_value(env, "DOCKER_SOCKET"@) {
        Some(s) => if socket_exists {
            Some(GlobalView { socket: Some(s), ..global_or_default(ported) })
        } else {
            ported
        },
        None => ported,
    }
}

/// Whether authentication is switched off.
pub open spec fn auth_is_off(a: Option<AuthView>) -> bool {
    match a {
        Some(x) => x.auth_type == Some("none"@),
        None => false,
    }
}

/// The authentication settings under the variable `DOCKER_PROXY_SECRET`, which counts unless it is
/// empty or authentication is switched off.
pub open spec fn overridden_auth(
    a: Option<AuthView>,
    env: Seq<(Seq<char>, Seq<char>)>,
) -> Option<AuthView> {
    match environment::env_value(env, "DOCKER_PROXY_SECRET"@) {
        Some(s) => if s.len() == 0 || auth_is_off(a) {
            a
        } else {
            match a {
                Some(x) => Some(
                    AuthView {
                        secret: Some(s),
                        auth_type: if x.auth_type is None {
                            Some("bearer"@)
                        } else {
                            x.auth_type
                        },
                        ..x
                    },
                ),
                None => Some(
                    AuthView {
                        auth_type: Some("bearer"@),
                        secret: Some(s),
                        tokens: None,
                        mtls: None,
                    },
                ),
            }
        },
        None => a,
    }
}

/// A configuration under the environment variables that take precedence over the file.
pub open spec fn overridden(
    c: ProxyConfigView,
    env: Seq<(Seq<char>, Seq<char>)>,
    socket_exists: bool,
) -> ProxyConfigView {
    ProxyConfigView {
        global: overridden_global(c.global, env, socket_exists),
        auth: overridden_auth(c.auth, env),
        rules: c.rules,
    }
}

/// A rule's priority; 0 where it gives none.
pub open spec fn priority_of(r: RuleView) -> int {
    match r.priority {
        Some(p) => p as int,
        None => 0,
    }
}

/// The rules of one priority, in order.
pub open spec fn of_priority(v: Seq<RuleView>, p: int) -> Seq<RuleView> {
    v.filter(|r: RuleView| priority_of(r) == p)
}

/// Whether the rules stand in order of priority, the highest first.
pub open spec fn in_priority_order(v: Seq<RuleView>) -> bool {
    forall|i: int, j: int|
        0 <= i < j < v.len() ==> priority_of(#[trigger] v[i]) >= priority_of(#[trigger] v[j])
}

/// Whether `after` holds the rules of `before`, the highest priority first, and those of one
/// priority in the order in which they stood.
pub open spec fn sorted_from(before: Seq<RuleView>, after: Seq<RuleView>) -> bool {
    &&& after.len() == before.len()
    &&& in_priority_order(after)
    &&& forall|p: int| #[trigger] of_priority(after, p) == of_priority(before, p)
}

fn rule_priority(r: &Rule) -> (p: u32)
    ensures
        p == priority_of(r@),
{
    match r.priority {
        Some(p) => p,
        None => 0,
    }
}

proof fn lemma_moved(a: Seq<RuleView>, m: Seq<RuleView>, r: RuleView, b: Seq<RuleView>)
    requires
        forall|i: int| 0 <= i < m.len() ==> priority_of(#[trigger] m[i]) != priority_of(r),
    ensures
        forall|p: int| #[trigger]
            of_priority(a + seq![r] + m + b, p) == of_priority(a + m + seq![r] + b, p),
{
    assert forall|p: int| #[trigger]
        of_priority(a + seq![r] + m + b, p) == of_priority(a + m + seq![r] + b, p) by {
        let f = |r: RuleView| priority_of(r) == p;
        let one = seq![r];
        Seq::filter_distributes_over_add(a + one + m, b, f);
        Seq::filter_distributes_over_add(a + one, m, f);
        Seq::filter_distributes_over_add(a, one, f);
        Seq::filter_distributes_over_add(a + m + one, b, f);
        Seq::filter_distributes_over_add(a + m, one, f);
        Seq::filter_distributes_over_add(a, m, f);
        if priority_of(r) == p {
            lemma_filter_none(m, f);
            assert(a.filter(f) + one.filter(f) + m.filter(f) =~= a.filter(f) + m.filter(f)
                + one.filter(f));
        } else {
            lemma_filter_none(one, f);
            assert(a.filter(f) + one.filter(f) + m.filter(f) =~= a.filter(f) + m.filter(f)
                + one.filter(f));
        }
    }
}

proof fn lemma_filter_none(v: Seq<RuleView>, f: spec_fn(RuleView) -> bool)
    requires
        forall|i: int| 0 <= i < v.len() ==> !f(#[trigger] v[i]),
    ensures
        v.filter(f) == Seq::<RuleView>::empty(),
    decreases v.len(),
{
    reveal(Seq::filter);
    if v.len() > 0 {
        assert(!f(v[v.len() - 1]));
        lemma_filter_none(v.drop_last(), f);
    }
}

/// Moves the rule at `i` forward over those before it of lower priority.
fn settle_rule(v: &mut Vec<Rule>, i: usize)
    requires
        i < old(v)@.len(),
        in_priority_order(config::rule_list(old(v)@).take(i as int)),
    ensures
        final(v)@.len() == old(v)@.len(),
        in_priority_order(config::rule_list(final(v)@).take(i + 1)),
        forall|p: int| #[trigger]
            of_priority(config::rule_list(final(v)@), p) == of_priority(
                config::rule_list(old(v)@),
                p,
            ),
{
    let ghost before = config::rule_list(v@);
    let priority: u32 = rule_priority(&v[i]);
    let mut j: usize = i;
    while j > 0 && rule_priority(&v[j - 1]) < priority
        invariant
            j <= i < v@.len(),
            before == config::rule_list(v@),
            priority == priority_of(before[i as int]),
            forall|k: int| j <= k < i ==> priority_of(#[trigger] before[k]) < priority,
        ensures
            j > 0 ==> priority_of(before[j - 1]) >= priority,
        decreases j,
    {
        j -= 1;
    }
    let rule = v.remove(i);
    v.insert(j, rule);
    proof {
        let after = config::rule_list(v@);
        let a = before.take(j as int);
        let m = before.subrange(j as int, i as int);
        let r = before[i as int];
        let b = before.skip(i + 1);
        assert(before =~= a + m + seq![r] + b);
        assert(after =~= a + seq![r] + m + b);
        assert forall|k: int| 0 <= k < m.len() implies priority_of(#[trigger] m[k]) != priority_of(
            r,
        ) by {
            assert(m[k] == before[j + k]);
        }
        lemma_moved(a, m, r, b);
        let sorted = before.take(i as int);
        let top = after.take(i + 1);
        assert forall|x: int, y: int| 0 <= x < y < top.len() implies priority_of(#[trigger] top[x])
            >= priority_of(#[trigger] top[y]) by {
            let ox = if x < j {
                x
            } else {
                x - 1
            };
            let oy = if y < j {
                y
            } else {
                y - 1
            };
            if x < j {
                assert(top[x] == sorted[x]);
                if j > 0 {
                    assert(sorted[j - 1] == before[j - 1]);
                }
                if x < j - 1 {
                    assert(priority_of(sorted[x]) >= priority_of(sorted[j - 1]));
                }
            }
            if y > j {
                assert(top[y] == sorted[oy]);
                assert(before[oy] == sorted[oy]);
            }
            if x > j {
                assert(top[x] == sorted[ox]);
            }
            if y < j {
                assert(top[y] == sorted[y]);
            }
            if x != j && y != j {
                assert(priority_of(sorted[ox]) >= priority_of(sorted[oy]));
            }
        }
    }
}

fn sort_rules(v: &mut Vec<Rule>)
    ensures
        sorted_from(config::rule_list(old(v)@), config::rule_list(final(v)@)),
{
    let mut i: usize = 0;
    while i < v.len()
        invariant
            i <= v@.len(),
            v@.len() == old(v)@.len(),
            in_priority_order(config::rule_list(v@).take(i as int)),
            forall|p: int| #[trigger]
                of_priority(config::rule_list(v@), p) == of_priority(
                    config::rule_list(old(v)@),
                    p,
                ),
        decreases v@.len() - i,
    {
        settle_rule(v, i);
        i += 1;
    }
    assert(config::rule_list(v@).take(i as int) =~= config::rule_list(v@));
}

/// Whether two configurations differ in the order of their rules only, and `after` has them in
/// order of priority.
pub open spec fn sorted_config(before: ProxyConfigView, after: ProxyConfigView) -> bool {
    &&& after.global == before.global
    &&& after.auth == before.auth
    &&& match (before.rules, after.rules) {
        (Some(b), Some(a)) => sorted_from(b, a),
        (None, None) => true,
        _ => false,
    }
}

/// What a configuration is once its references are expanded, the environment has taken
/// precedence, and its expressions are compiled.
pub open spec fn prepared(
    c: ProxyConfigView,
    env: Seq<(Seq<char>, Seq<char>)>,
    socket_exists: bool,
) -> ProxyConfigView {
    compiled_config(overridden(expansion::expanded_config(c, env), env, socket_exists))
}

/// Why a configuration cannot be used.
pub open spec fn load_error(
    c: ProxyConfigView,
    env: Seq<(Seq<char>, Seq<char>)>,
    socket_exists: bool,
) -> Option<Seq<char>> {
    let over = overridden(expansion::expanded_config(c, env), env, socket_exists);
    if expansion::missing_secret(c, env) is Some {
        expansion::missing_secret(c, env)
    } else if pattern_error(over) is Some {
        pattern_error(over)
    } else {
        config_problem(prepared(c, env, socket_exists))
    }
}

/// Whether requests can be authenticated, or need not be.
pub open spec fn auth_configured(a: Option<AuthView>) -> bool {
    match a {
        Some(x) => {
            ||| x.auth_type == Some("none"@)
            ||| x.auth_type == Some("mtls"@)
            ||| x.tokens is Some && x.tokens->0.len() > 0
            ||| x.secret is Some && x.secret->0.len() > 0
        },
        None => false,
    }
}

/// Whether an optional text is this one.
pub fn opt_is(o: &Option<String>, s: &str) -> (r: bool)
    ensures
        r == (text::opt_text(*o) == Some(s@)),
{
    match o {
        Some(t) => text::same(t.as_str(), s),
        None => false,
    }
}

impl ProxyConfig {
    /// Compiles the regular expressions of the conditions.
    pub fn compile_regexes(self) -> (r: Result<ProxyConfig, String>)
        ensures
            match r {
                Ok(c) => pattern_error(self@) is None && c@ == compiled_config(self@),
                Err(e) => pattern_error(self@) == Some(e@),
            },
    {
        let mut c = self;
        if let Some(v) = &mut c.rules {
            match compile_regexes_in_rules(v) {
                Ok(_) => {},
                Err(e) => {
                    return Err(e);
                },
            }
        }
        Ok(c)
    }

    /// Whether the configuration makes sense; if not, what is wrong with it.
    pub fn validate(&self) -> (r: Result<(), String>)
        ensures
            match r {
                Ok(_) => config_problem(self@) is None,
                Err(e) => config_problem(self@) == Some(e@),
            },
    {
        if let Some(a) = &self.auth {
            if let Some(t) = &a.auth_type {
                if !text::same(t.as_str(), "none") && !text::same(t.as_str(), "bearer")
                    && !text::same(t.as_str(), "mtls") {
                    let mut message = "invalid auth.type: ".to_string();
                    message.append(t.as_str());
                    return Err(message);
                }
            }
        }
        if let Some(v) = &self.rules {
            match check_rules(v) {
                Ok(_) => {},
                Err(e) => {
                    return Err(e);
                },
            }
        }
        match self.metrics_path() {
            Some(p) => {
                let c = text::chars_of(p.as_str());
                let v = text::chars_of("/v");
                if p.as_str().is_empty() || text::same(p.as_str(), "/") {
                    return Err("metrics path cannot be '/' or empty".to_string());
                }
                if text::has_prefix(c.as_slice(), v.as_slice()) {
                    let mut message = "metrics path '".to_string();
                    message.append(p.as_str());
                    message.append("' looks like a Docker API versioned path");
                    return Err(message);
                }
            },
            None => {},
        }
        Ok(())
    }

    /// The path of the metrics endpoint, where it is enabled.
    pub fn metrics_path(&self) -> (r: Option<String>)
        ensures
            text::opt_text(r) == metrics_path(self@),
    {
        match &self.global {
            Some(g) => match &g.metrics {
                Some(m) => {
                    let on = match m.enabled {
                        Some(b) => b,
                        None => false,
                    };
                    if on {
                        match &m.path {
                            Some(p) => Some(p.clone()),
                            None => Some("/metrics".to_string()),
                        }
                    } else {
                        None
                    }
                },
                None => None,
            },
            None => None,
        }
    }

    /// Lets the environment variables take precedence over the file. `socket_exists` tells whether
    /// the file that `DOCKER_SOCKET` names exists.
    pub fn apply_env_overrides(self, env: &Environment, socket_exists: bool) -> (r: ProxyConfig)
        ensures
            r@ == overridden(self@, env@, socket_exists),
    {
        let mut c = self;
        if let Some(v) = env.get("DOCKER_PROXY_PORT") {
            let chars = text::chars_of(v.as_str());
            if let Some(p) = text::parse_number(chars.as_slice(), 65535) {
                let mut g = match c.global {
                    Some(g) => g,
                    None => GlobalConfig::default(),
                };
                g.port = Some(p as u16);
                c.global = Some(g);
            }
        }
        if let Some(v) = env.get("DOCKER_SOCKET") {
            if socket_exists {
                let mut g = match c.global {
                    Some(g) => g,
                    None => GlobalConfig::default(),
                };
                g.socket = Some(v);
                c.global = Some(g);
            }
        }
        if let Some(v) = env.get("DOCKER_PROXY_SECRET") {
            let off = match &c.auth {
                Some(a) => opt_is(&a.auth_type, "none"),
                None => false,
            };
            if !v.as_str().is_empty() && !off {
                let mut a = match c.auth {
                    Some(a) => a,
                    None => AuthConfig {
                        auth_type: Some("bearer".to_string()),
                        secret: None,
                        tokens: None,
                        mtls: None,
                    },
                };
                a.secret = Some(SecretToken::new(v));
                if a.auth_type.is_none() {
                    a.auth_type = Some("bearer".to_string());
                }
                c.auth = Some(a);
            }
        }
        c
    }

    /// Whether requests can be authenticated, or need not be.
    pub fn is_auth_configured(&self) -> (r: bool)
        ensures
            r == auth_configured(self@.auth),
    {
        match &self.auth {
            Some(a) => {
                let tokens = match &a.tokens {
                    Some(t) => t.len() > 0,
                    None => false,
                };
                let secret = match &a.secret {
                    Some(s) => !s.expose_secret().is_empty(),
                    None => false,
                };
                opt_is(&a.auth_type, "none") || opt_is(&a.auth_type, "mtls") || tokens || secret
            },
            None => false,
        }
    }

    /// Puts the rules of higher priority first; rules of one priority keep their order.
    pub fn sort_rules_by_priority(&mut self)
        ensures
            sorted_config(old(self)@, final(self)@),
    {
        if let Some(v) = &mut self.rules {
            sort_rules(v);
        }
    }

    /// Makes the values of a file ready for use: expands references, lets the environment take
    /// precedence, compiles expressions, validates, and sorts the rules.
    pub fn finish(self, env: &Environment, socket_exists: bool) -> (r: Result<ProxyConfig, String>)
        ensures
            match r {
                Ok(c) => load_error(self@, env@, socket_exists) is None && sorted_config(
                    prepared(self@, env@, socket_exists),
                    c@,
                ),
                Err(e) => load_error(self@, env@, socket_exists) == Some(e@),
            },
    {
        let resolved = match self.resolve_env_vars(env) {
            Ok(c) => c,
            Err(e) => {
                return Err(e);
            },
        };
        let over = resolved.apply_env_overrides(env, socket_exists);
        let mut compiled = match over.compile_regexes() {
            Ok(c) => c,
            Err(e) => {
                return Err(e);
            },
        };
        match compiled.validate() {
            Ok(_) => {},
            Err(e) => {
                return Err(e);
            },
        }
        compiled.sort_rules_by_priority();
        Ok(compiled)
    }
}

proof fn lemma_last_of_priority(v: Seq<RuleView>)
    requires
        v.len() > 0,
    ensures
        of_priority(v, priority_of(v.last())) == of_priority(
            v.drop_last(),
            priority_of(v.last()),
        ).push(v.last()),
        forall|p: int|
            p != priority_of(v.last()) ==> #[trigger] of_priority(v, p) == of_priority(
                v.drop_last(),
                p,
            ),
{
    reveal(Seq::filter);
}

proof fn lemma_lowest_priority(a: Seq<RuleView>, b: Seq<RuleView>)
    requires
        a.len() > 0,
        b.len() > 0,
        in_priority_order(b),
        of_priority(a, priority_of(a.last())) == of_priority(b, priority_of(a.last())),
    ensures
        priority_of(b.last()) <= priority_of(a.last()),
{
    let p = priority_of(a.last());
    let f = |r: RuleView| priority_of(r) == p;
    lemma_last_of_priority(a);
    let found = of_priority(b, p);
    assert(found.len() > 0);
    let e = found[0];
    b.lemma_filter_pred(f, 0);
    assert(found.contains(e));
    b.lemma_filter_contains_rev(f, e);
    let i = choose|i: int| 0 <= i < b.len() && b[i] == e;
    if i < b.len() - 1 {
        assert(priority_of(b[i]) >= priority_of(b[b.len() - 1]));
    }
}

/// Sorting has one outcome: rules in order of priority, those of one priority in their order.
pub proof fn law_sorted_order_is_determined(
    before: Seq<RuleView>,
    a: Seq<RuleView>,
    b: Seq<RuleView>,
)
    requires
        sorted_from(before, a),
        sorted_from(before, b),
    ensures
        a == b,
{
    assert forall|p: int| #[trigger] of_priority(a, p) == of_priority(b, p) by {
        assert(of_priority(a, p) == of_priority(before, p));
    }
    lemma_same_order(a, b);
}

proof fn lemma_same_order(a: Seq<RuleView>, b: Seq<RuleView>)
    requires
        a.len() == b.len(),
        in_priority_order(a),
        in_priority_order(b),
        forall|p: int| #[trigger] of_priority(a, p) == of_priority(b, p),
    ensures
        a == b,
    decreases a.len(),
{
    if a.len() > 0 {
        let p = priority_of(a.last());
        assert(of_priority(a, p) == of_priority(b, p));
        assert(of_priority(a, priority_of(b.last())) == of_priority(b, priority_of(b.last())));
        lemma_lowest_priority(a, b);
        lemma_lowest_priority(b, a);
        lemma_last_of_priority(a);
        lemma_last_of_priority(b);
        let ha = of_priority(a.drop_last(), p);
        let hb = of_priority(b.drop_last(), p);
        assert(ha.push(a.last()).last() == hb.push(b.last()).last());
        assert(ha =~= ha.push(a.last()).drop_last());
        assert(hb =~= hb.push(b.last()).drop_last());
        assert forall|q: int| #[trigger] of_priority(a.drop_last(), q) == of_priority(
            b.drop_last(),
            q,
        ) by {
            assert(of_priority(a, q) == of_priority(b, q));
        }
        assert forall|i: int, j: int| 0 <= i < j < a.drop_last().len() implies priority_of(
            #[trigger] a.drop_last()[i],
        ) >= priority_of(#[trigger] a.drop_last()[j]) by {
            assert(a.drop_last()[i] == a[i] && a.drop_last()[j] == a[j]);
        }
        assert forall|i: int, j: int| 0 <= i < j < b.drop_last().len() implies priority_of(
            #[trigger] b.drop_last()[i],
        ) >= priority_of(#[trigger] b.drop_last()[j]) by {
            assert(b.drop_last()[i] == b[i] && b.drop_last()[j] == b[j]);
        }
        lemma_same_order(a.drop_last(), b.drop_last());
        assert(a =~= a.drop_last().push(a.last()));
        assert(b =~= b.drop_last().push(b.last()));
    } else {
        assert(a =~= b);
    }
}

/// Sorting rules that are sorted changes nothing.
pub proof fn law_sorting_twice_changes_nothing(
    before: Seq<RuleView>,
    once: Seq<RuleView>,
    twice: Seq<RuleView>,
)
    requires
        sorted_from(before, once),
        sorted_from(once, twice),
    ensures
        twice == once,
{
    law_sorted_order_is_determined(once, once, twice);
}

/// Sorting keeps every rule, and adds none.
pub proof fn law_sorting_keeps_the_rules(
    before: Seq<RuleView>,
    after: Seq<RuleView>,
    r: RuleView,
)
    requires
        sorted_from(before, after),
    ensures
        after.contains(r) <==> before.contains(r),
{
    let p = priority_of(r);
    assert(of_priority(after, p) == of_priority(before, p));
    lemma_of_priority_contains(after, r);
    lemma_of_priority_contains(before, r);
}

proof fn lemma_of_priority_contains(v: Seq<RuleView>, r: RuleView)
    ensures
        of_priority(v, priority_of(r)).contains(r) <==> v.contains(r),
{
    let p = priority_of(r);
    let f = |x: RuleView| priority_of(x) == p;
    if v.contains(r) {
        let i = choose|i: int| 0 <= i < v.len() && v[i] == r;
        v.lemma_filter_contains(f, i);
    }
    if of_priority(v, p).contains(r) {
        v.lemma_filter_contains_rev(f, r);
    }
}

proof fn lemma_no_problem(v: Seq<RuleView>, i: int)
    requires
        rules_problem(v) is None,
        0 <= i < v.len(),
    ensures
        rule_problem(v[i]) is None,
    decreases v.len(),
{
    if i > 0 {
        lemma_no_problem(v.skip(1), i - 1);
    }
}

/// In a configuration that was loaded every rule has a name, an action, conditions, and what its
/// action needs.
pub proof fn law_loaded_rules_are_valid(
    c: ProxyConfigView,
    env: Seq<(Seq<char>, Seq<char>)>,
    socket_exists: bool,
    loaded: ProxyConfigView,
    i: int,
)
    requires
        load_error(c, env, socket_exists) is None,
        sorted_config(prepared(c, env, socket_exists), loaded),
        loaded.rules is Some,
        0 <= i < loaded.rules->0.len(),
    ensures
        rule_problem(loaded.rules->0[i]) is None,
{
    let before = prepared(c, env, socket_exists).rules->0;
    let after = loaded.rules->0;
    let r = after[i];
    assert(after.contains(r));
    law_sorting_keeps_the_rules(before, after, r);
    let j = choose|j: int| 0 <= j < before.len() && before[j] == r;
    lemma_no_problem(before, j);
}

/// A configuration with a secret or a token whose variable is not set cannot be used.
pub proof fn law_missing_secrets_stop_loading(
    c: ProxyConfigView,
    env: Seq<(Seq<char>, Seq<char>)>,
    socket_exists: bool,
)
    requires
        c.auth is Some,
        ({
            ||| c.auth->0.secret is Some && environment::missing(c.auth->0.secret->0, env).len() > 0
            ||| c.auth->0.tokens is Some && exists|i: int|
                0 <= i < c.auth->0.tokens->0.len() && environment::missing(
                    (#[trigger] c.auth->0.tokens->0[i]).token,
                    env,
                ).len() > 0
        }),
    ensures
        load_error(c, env, socket_exists) is Some,
{
    let a = c.auth->0;
    if a.tokens is Some {
        let v = a.tokens->0;
        if exists|i: int|
            0 <= i < v.len() && environment::missing((#[trigger] v[i]).token, env).len() > 0 {
            let i = choose|i: int|
                0 <= i < v.len() && environment::missing((#[trigger] v[i]).token, env).len() > 0;
            lemma_token_missing(v, env, i);
        }
    }
}

proof fn lemma_token_missing(
    v: Seq<config::TokenView>,
    env: Seq<(Seq<char>, Seq<char>)>,
    i: int,
)
    requires
        0 <= i < v.len(),
        environment::missing(v[i].token, env).len() > 0,
    ensures
        expansion::tokens_error(v, env) is Some,
    decreases v.len(),
{
    if i > 0 {
        assert(v.skip(1)[i - 1] == v[i]);
        lemma_token_missing(v.skip(1), env, i - 1);
    }
}

/// The variables of the environment take precedence over the file, but no secret switches
/// authentication on where the file switches it off.
pub proof fn law_environment_takes_precedence(
    c: ProxyConfigView,
    env: Seq<(Seq<char>, Seq<char>)>,
    socket_exists: bool,
)
    ensures
        env_port(env) is Some ==> overridden(c, env, socket_exists).global is Some && overridden(
            c,
            env,
            socket_exists,
        ).global->0.port == env_port(env),
        socket_exists && environment::env_value(env, "DOCKER_SOCKET"@) is Some ==> overridden(
            c,
            env,
            socket_exists,
        ).global is Some && overridden(c, env, socket_exists).global->0.socket
            == environment::env_value(env, "DOCKER_SOCKET"@),
        auth_is_off(c.auth) ==> overridden(c, env, socket_exists).auth == c.auth,
        !auth_is_off(c.auth) && environment::env_value(env, "DOCKER_PROXY_SECRET"@) is Some
            && environment::env_value(env, "DOCKER_PROXY_SECRET"@)->0.len() > 0 ==> overridden(
            c,
            env,
            socket_exists,
        ).auth is Some && overridden(c, env, socket_exists).auth->0.secret == environment::env_value(
            env,
            "DOCKER_PROXY_SECRET"@,
        ),
        overridden(c, env, socket_exists).rules == c.rules,
{
}

/// The number of a rule's priority is the one it says, or 0; sorted rules go from the highest to
/// the lowest, and those of one priority stay in their order.
pub proof fn law_rules_go_by_priority(
    before: Seq<RuleView>,
    after: Seq<RuleView>,
    i: int,
    j: int,
    p: u32,
)
    requires
        sorted_from(before, after),
        0 <= i < j < after.len(),
    ensures
        after[i].priority is Some && after[j].priority is Some ==> after[i].priority->0
            >= after[j].priority->0,
        after[i].priority is None ==> after[j].priority is None || after[j].priority->0 == 0,
        p > 0 ==> after.filter(|r: RuleView| r.priority == Some(p)) == before.filter(
            |r: RuleView| r.priority == Some(p),
        ),
        after.filter(|r: RuleView| r.priority is None || r.priority == Some(0u32))
            == before.filter(|r: RuleView| r.priority is None || r.priority == Some(0u32)),
{
    assert(priority_of(after[i]) >= priority_of(after[j]));
    if p > 0 {
        let f = |r: RuleView| priority_of(r) == p as int;
        let g = |r: RuleView| r.priority == Some(p);
        assert(f =~= g);
        assert(of_priority(after, p as int) == of_priority(before, p as int));
    }
    let f = |r: RuleView| priority_of(r) == 0;
    let g = |r: RuleView| r.priority is None || r.priority == Some(0u32);
    assert(f =~= g);
    assert(of_priority(after, 0) == of_priority(before, 0));
}

/// A condition is at fault exactly where its operator takes a regular expression and its value is
/// the text of one that is not valid; the error then names the field and the fault.
pub proof fn law_faulty_expressions(c: ConditionView, v: yaml::YamlView, p: Seq<char>, e: Seq<char>)
    ensures
        c.operator != "matches"@ && c.operator != "not_matches"@ ==> condition_error(c) is None,
        c.value is None ==> condition_error(c) is None,
        c.value == Some(v) && yaml::yaml_text(v) is None ==> condition_error(c) is None,
        (c.operator == "matches"@ || c.operator == "not_matches"@) && c.value == Some(v)
            && yaml::yaml_text(v) == Some(p) ==> {
            &&& pattern::regex_error(p) is None ==> condition_error(c) is None
            &&& pattern::regex_error(p) == Some(e) ==> condition_error(c) == Some(
                "invalid regex for field '"@ + c.field + "': "@ + e,
            )
        },
{
}

/// The fault of several condition trees is the first that there is: that of those before, else that
/// of those after. A group has the fault of its members, a leaf that of its condition. The fault
/// of several rules is the first of their conditions.
pub proof fn law_first_fault_is_told(
    c: ConditionView,
    n: NodeView,
    a: Seq<NodeView>,
    b: Seq<NodeView>,
    r: RuleView,
    x: Seq<RuleView>,
    y: Seq<RuleView>,
)
    ensures
        node_error(NodeView::Leaf(c)) == condition_error(c),
        node_error(NodeView::And(a)) == nodes_error(a),
        node_error(NodeView::Or(a)) == nodes_error(a),
        nodes_error(Seq::empty()) is None,
        nodes_error(seq![n]) == node_error(n),
        nodes_error(a) is Some ==> nodes_error(a + b) == nodes_error(a),
        nodes_error(a) is None ==> nodes_error(a + b) == nodes_error(b),
        rules_error(Seq::empty()) is None,
        rules_error(seq![r]) == nodes_error(r.conditions),
        rules_error(x) is Some ==> rules_error(x + y) == rules_error(x),
        rules_error(x) is None ==> rules_error(x + y) == rules_error(y),
{
    lemma_one_fault(n);
    assert(seq![r].skip(1) =~= Seq::<RuleView>::empty());
    assert(rules_error(Seq::empty()) is None);
    assert(seq![r][0] == r);
    lemma_nodes_error(a, b);
    lemma_rules_error(x, y);
    assert(node_error(NodeView::And(a)) == nodes_error(a)) by {
        reveal_with_fuel(node_error, 2);
    }
    assert(node_error(NodeView::Or(a)) == nodes_error(a)) by {
        reveal_with_fuel(node_error, 2);
    }
}

proof fn lemma_one_fault(n: NodeView)
    ensures
        nodes_error(Seq::empty()) is None,
        nodes_error(seq![n]) == node_error(n),
{
    let one = seq![n];
    let none = Seq::<NodeView>::empty();
    assert(one.skip(1) =~= none);
    assert(nodes_error(none) is None);
    reveal_with_fuel(nodes_error, 2);
    reveal_with_fuel(node_error, 2);
    assert(one[0] == n);
}

proof fn lemma_nodes_error(a: Seq<NodeView>, b: Seq<NodeView>)
    ensures
        nodes_error(a) is Some ==> nodes_error(a + b) == nodes_error(a),
        nodes_error(a) is None ==> nodes_error(a + b) == nodes_error(b),
    decreases a.len(),
{
    if a.len() == 0 {
        assert(a + b =~= b);
        assert(nodes_error(a) is None);
    } else {
        assert((a + b)[0] == a[0]);
        assert((a + b).skip(1) =~= a.skip(1) + b);
        lemma_nodes_error(a.skip(1), b);
        lemma_nodes_error_step(a);
        lemma_nodes_error_step(a + b);
    }
}

proof fn lemma_nodes_error_step(v: Seq<NodeView>)
    requires
        v.len() > 0,
    ensures
        nodes_error(v) == (if node_error(v[0]) is Some {
            node_error(v[0])
        } else {
            nodes_error(v.skip(1))
        }),
{
    reveal_with_fuel(nodes_error, 2);
    reveal_with_fuel(node_error, 2);
}

proof fn lemma_rules_error(a: Seq<RuleView>, b: Seq<RuleView>)
    ensures
        rules_error(a) is Some ==> rules_error(a + b) == rules_error(a),
        rules_error(a) is None ==> rules_error(a + b) == rules_error(b),
    decreases a.len(),
{
    if a.len() == 0 {
        assert(a + b =~= b);
    } else {
        assert((a + b)[0] == a[0]);
        assert((a + b).skip(1) =~= a.skip(1) + b);
        lemma_rules_error(a.skip(1), b);
    }
}

/// Compiling the expressions of a condition tree changes none of its answers.
pub proof fn law_compiling_changes_no_answer(n: NodeView, ctx: ContextView)
    ensures
        conditions::node_holds(compiled_node(n), ctx) == conditions::node_holds(n, ctx),
    decreases n,
{
    match n {
        NodeView::Leaf(c) => {
            let d = compiled_condition(c);
            assert(conditions::findings_of(d, ctx) == conditions::findings_of(c, ctx));
            assert(conditions::condition_holds(d, ctx) == conditions::condition_holds(c, ctx));
        },
        NodeView::And(v) => {
            let w = compiled_node(n)->And_0;
            assert forall|i: int| 0 <= i < v.len() implies conditions::node_holds(
                #[trigger] w[i],
                ctx,
            ) == conditions::node_holds(v[i], ctx) by {
                law_compiling_changes_no_answer(v[i], ctx);
                assert(w[i] == compiled_node(v[i]));
            }
            conditions::law_conditions_are_joined_by_and(v, ctx);
            conditions::law_conditions_are_joined_by_and(w, ctx);
            assert(compiled_node(n) == NodeView::And(w));
            if conditions::all_hold(w, ctx) {
                assert forall|i: int| 0 <= i < v.len() implies conditions::node_holds(
                    #[trigger] v[i],
                    ctx,
                ) by {
                    assert(conditions::node_holds(w[i], ctx));
                }
            }
        },
        NodeView::Or(v) => {
            let m = compiled_node(n);
            let w = m->Or_0;
            assert forall|i: int| 0 <= i < v.len() implies conditions::node_holds(
                #[trigger] w[i],
                ctx,
            ) == conditions::node_holds(v[i], ctx) by {
                law_compiling_changes_no_answer(v[i], ctx);
                assert(w[i] == compiled_node(v[i]));
            }
            if conditions::node_holds(m, ctx) {
                let i = choose|i: int|
                    0 <= i < w.len() && conditions::node_holds(#[trigger] m->Or_0[i], ctx);
                assert(conditions::node_holds(w[i], ctx));
                assert(conditions::node_holds(n->Or_0[i], ctx));
            }
            if conditions::node_holds(n, ctx) {
                let i = choose|i: int|
                    0 <= i < v.len() && conditions::node_holds(#[trigger] n->Or_0[i], ctx);
                assert(conditions::node_holds(v[i], ctx));
                assert(conditions::node_holds(w[i], ctx));
                assert(conditions::node_holds(m->Or_0[i], ctx));
            }
        },
    }
}

/// A condition that takes a regular expression keeps it compiled; nothing else of a condition, of
/// a rule or of the configuration is changed by that.
pub proof fn law_what_compiling_keeps(c: ConditionView, p: ProxyConfigView, i: int)
    ensures
        compiled_condition(c).field == c.field && compiled_condition(c).operator == c.operator
            && compiled_condition(c).value == c.value,
        (c.operator == "matches"@ || c.operator == "not_matches"@) && c.value is Some
            && yaml::yaml_text(c.value->0) is Some ==> compiled_condition(c).compiled
            == yaml::yaml_text(c.value->0),
        c.operator != "matches"@ && c.operator != "not_matches"@ ==> compiled_condition(c) == c,
        compiled_config(p).global == p.global && compiled_config(p).auth == p.auth,
        compiled_config(p).rules is Some <==> p.rules is Some,
        p.rules is Some ==> compiled_config(p).rules->0.len() == p.rules->0.len(),
        p.rules is Some && 0 <= i < p.rules->0.len() ==> {
            let r = p.rules->0[i];
            let s = compiled_config(p).rules->0[i];
            &&& s == RuleView { conditions: s.conditions, ..r }
            &&& s.conditions.len() == r.conditions.len()
            &&& forall|k: int|
                0 <= k < r.conditions.len() ==> #[trigger] s.conditions[k] == compiled_node(
                    r.conditions[k],
                )
        },
{
}

/// What is wrong with a rule: it needs a name, an action and conditions, and what its action works
/// with: a role, a limit or filters. A rule that has all of it is in order.
pub proof fn law_problems_of_a_rule(r: RuleView)
    ensures
        r.name.len() == 0 ==> rule_problem(r) == Some("rule name cannot be empty"@),
        r.name.len() > 0 && r.action.len() == 0 ==> rule_problem(r) == Some(
            "rule '"@ + r.name + "' "@ + "has no action"@,
        ),
        r.name.len() > 0 && r.action.len() > 0 && r.conditions.len() == 0 ==> rule_problem(r)
            == Some("rule '"@ + r.name + "' "@ + "has no conditions"@),
        r.name.len() > 0 && r.conditions.len() > 0 ==> {
            &&& r.action == "require_role"@ && r.role is None ==> rule_problem(r) == Some(
                "rule '"@ + r.name + "' "@ + "uses require_role but has no role specified"@,
            )
            &&& r.action == "rate_limit"@ && r.rate_limit is None ==> rule_problem(r) == Some(
                "rule '"@ + r.name + "' "@ + "uses rate_limit but has no rate_limit config"@,
            )
            &&& r.action == "response_filter"@ && r.response_filter is None ==> rule_problem(r)
                == Some(
                "rule '"@ + r.name + "' "@
                    + "uses response_filter but has no response_filter entries"@,
            )
        },
        rule_problem(r) is None <==> r.name.len() > 0 && r.action.len() > 0 && r.conditions.len() > 0
            && (r.action == "require_role"@ ==> r.role is Some) && (r.action == "rate_limit"@
            ==> r.rate_limit is Some) && (r.action == "response_filter"@ ==> r.response_filter
            is Some),
{
    reveal_strlit("require_role");
    reveal_strlit("rate_limit");
    reveal_strlit("response_filter");
    assert("require_role"@.len() == 12 && "rate_limit"@.len() == 10 && "response_filter"@.len()
        == 15);
}

/// The problem of several rules is the first that there is.
pub proof fn law_first_problem_is_told(r: RuleView, a: Seq<RuleView>, b: Seq<RuleView>)
    ensures
        rules_problem(Seq::empty()) is None,
        rules_problem(seq![r]) == rule_problem(r),
        rules_problem(a) is Some ==> rules_problem(a + b) == rules_problem(a),
        rules_problem(a) is None ==> rules_problem(a + b) == rules_problem(b),
    decreases a.len(),
{
    let none = Seq::<RuleView>::empty();
    assert(seq![r].skip(1) =~= none);
    assert(rules_problem(none) is None);
    assert(seq![r][0] == r);
    if a.len() == 0 {
        assert(a + b =~= b);
    } else {
        assert((a + b)[0] == a[0]);
        assert((a + b).skip(1) =~= a.skip(1) + b);
        law_first_problem_is_told(r, a.skip(1), b);
    }
}

/// The kinds of authentication are `none`, `bearer` and `mtls`; none need be said, and any other
/// is a problem.
pub proof fn law_kinds_of_authentication(c: ProxyConfigView, t: Seq<char>)
    ensures
        c.auth is None || c.auth->0.auth_type is None ==> auth_problem(c) is None,
        c.auth is Some && c.auth->0.auth_type == Some(t) ==> {
            &&& t == "none"@ || t == "bearer"@ || t == "mtls"@ ==> auth_problem(c) is None
            &&& t != "none"@ && t != "bearer"@ && t != "mtls"@ ==> auth_problem(c) == Some(
                "invalid auth.type: "@ + t,
            )
        },
{
}

/// The metrics are shown only where they are switched on, at the path that is set or at
/// `/metrics`. That path is neither empty nor a slash, and does not begin like a version of the
/// Docker API.
pub proof fn law_path_of_the_metrics(c: ProxyConfigView, p: Seq<char>)
    ensures
        metrics_path(c) is Some <==> c.global is Some && c.global->0.metrics is Some
            && c.global->0.metrics->0.enabled == Some(true),
        metrics_path(c) is Some && c.global->0.metrics->0.path is Some ==> metrics_path(c)
            == c.global->0.metrics->0.path,
        metrics_path(c) is Some && c.global->0.metrics->0.path is None ==> metrics_path(c) == Some(
            "/metrics"@,
        ),
        metrics_path(c) is None ==> metrics_problem(c) is None,
        metrics_path(c) == Some(p) && (p.len() == 0 || p == seq!['/']) ==> metrics_problem(c)
            == Some("metrics path cannot be '/' or empty"@),
        metrics_path(c) == Some(p) && p.len() >= 2 && p[0] == '/' && p[1] == 'v'
            ==> metrics_problem(c) == Some(
            "metrics path '"@ + p + "' looks like a Docker API versioned path"@,
        ),
        metrics_path(c) == Some(p) && p.len() > 0 && p != seq!['/'] && !(p.len() >= 2 && p[0]
            == '/' && p[1] == 'v') ==> metrics_problem(c) is None,
{
    reveal_strlit("/");
    reveal_strlit("/v");
    assert("/"@ =~= seq!['/']);
    text::law_beginning(p, "/v"@);
    if p.len() >= 2 {
        assert(p.take(2)[0] == p[0] && p.take(2)[1] == p[1]);
        if p[0] == '/' && p[1] == 'v' {
            assert(p.take(2) =~= "/v"@);
        }
    }
}

/// Of several problems of a configuration the one of its authentication is told first, then that
/// of its rules, then that of its metrics.
pub proof fn law_order_of_the_problems(c: ProxyConfigView)
    ensures
        auth_problem(c) is Some ==> config_problem(c) == auth_problem(c),
        auth_problem(c) is None && c.rules is Some && rules_problem(c.rules->0) is Some
            ==> config_problem(c) == rules_problem(c.rules->0),
        auth_problem(c) is None && (c.rules is None || rules_problem(c.rules->0) is None)
            ==> config_problem(c) == metrics_problem(c),
{
}

/// The port of the environment is the number up to 65535 that `DOCKER_PROXY_PORT` writes, and none
/// where it writes no such number.
pub proof fn law_port_of_the_environment(env: Seq<(Seq<char>, Seq<char>)>, n: nat)
    ensures
        environment::env_value(env, "DOCKER_PROXY_PORT"@) == Some(text::decimal(n)) && n <= 65535
            ==> env_port(env) == Some(n as u16),
        environment::env_value(env, "DOCKER_PROXY_PORT"@) == Some(text::decimal(n)) && n > 65535
            ==> env_port(env) is None,
        environment::env_value(env, "DOCKER_PROXY_PORT"@) is None ==> env_port(env) is None,
        environment::env_value(env, "DOCKER_PROXY_PORT"@) is Some && text::parse_nat(
            environment::env_value(env, "DOCKER_PROXY_PORT"@)->0,
        ) is None ==> env_port(env) is None,
{
    text::law_decimal_text_is_read_as_the_number(n);
}

/// What the environment does not set stays as it is: without a port and a socket that exists the
/// global settings stay, and of these nothing but the port and the socket ever changes; without a
/// secret the authentication stays, and of it nothing but the secret, and the kind where there is
/// none, ever changes.
pub proof fn law_environment_leaves_the_rest(
    c: ProxyConfigView,
    env: Seq<(Seq<char>, Seq<char>)>,
    socket_exists: bool,
)
    ensures
        ({
            let o = overridden(c, env, socket_exists);
            let port = env_port(env);
            let socket = environment::env_value(env, "DOCKER_SOCKET"@);
            let secret = environment::env_value(env, "DOCKER_PROXY_SECRET"@);
            &&& port is None && (socket is None || !socket_exists) ==> o.global == c.global
            &&& port is None && c.global is Some ==> o.global is Some && o.global->0.port
                == c.global->0.port
            &&& (socket is None || !socket_exists) && c.global is Some ==> o.global is Some
                && o.global->0.socket == c.global->0.socket
            &&& c.global is Some ==> o.global is Some && o.global->0 == GlobalView {
                port: o.global->0.port,
                socket: o.global->0.socket,
                ..c.global->0
            }
            &&& c.global is None && o.global is Some ==> o.global->0 == GlobalView {
                port: port,
                socket: if socket_exists {
                    socket
                } else {
                    None
                },
                log_level: None,
                log_format: None,
                audit_log: None,
                bind: None,
                tls: None,
                metrics: None,
                trusted_proxies: None,
            }
            &&& secret is None || secret->0.len() == 0 ==> o.auth == c.auth
            &&& c.auth is Some ==> o.auth is Some && o.auth->0.tokens == c.auth->0.tokens
                && o.auth->0.mtls == c.auth->0.mtls
            &&& c.auth is Some && c.auth->0.auth_type is Some ==> o.auth->0.auth_type
                == c.auth->0.auth_type
            &&& c.auth is Some && c.auth->0.auth_type is None && secret is Some && secret->0.len()
                > 0 ==> o.auth->0.auth_type == Some("bearer"@)
            &&& c.auth is None && secret is Some && secret->0.len() > 0 ==> o.auth == Some(
                AuthView {
                    auth_type: Some("bearer"@),
                    secret,
                    tokens: None,
                    mtls: None,
                },
            )
        }),
{
}

/// What stops a configuration from being loaded: first a secret that names a variable that is not
/// there, then a regular expression that is not valid, then a problem of the configuration as it
/// would be used. One that has none of these is loaded, with its variables replaced, what the
/// environment sets put in, and its expressions compiled.
pub proof fn law_order_of_loading(
    c: ProxyConfigView,
    env: Seq<(Seq<char>, Seq<char>)>,
    socket_exists: bool,
)
    ensures
        ({
            let over = overridden(expansion::expanded_config(c, env), env, socket_exists);
            let secret = expansion::missing_secret(c, env);
            &&& secret is Some ==> load_error(c, env, socket_exists) == secret
            &&& secret is None && pattern_error(over) is Some ==> load_error(c, env, socket_exists)
                == pattern_error(over)
            &&& secret is None && pattern_error(over) is None ==> load_error(c, env, socket_exists)
                == config_problem(compiled_config(over))
            &&& prepared(c, env, socket_exists) == compiled_config(over)
            &&& over.rules is None ==> pattern_error(over) is None
            &&& over.rules is Some ==> pattern_error(over) == rules_error(over.rules->0)
        }),
{
}

/// Authentication counts as configured where it is switched off or by certificate, where tokens
/// are listed, or where there is a secret that is not empty.
pub proof fn law_authentication_counts_as_configured(a: AuthView)
    ensures
        !auth_configured(None),
        auth_configured(Some(a)) <==> a.auth_type == Some("none"@) || a.auth_type == Some("mtls"@)
            || (a.tokens is Some && a.tokens->0.len() > 0) || (a.secret is Some
            && a.secret->0.len() > 0),
{
}

} // verus!
