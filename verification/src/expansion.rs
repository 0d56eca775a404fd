//! Expanding the references to environment variables throughout a configuration.
use crate::config;
use crate::config::{
    AuthConfig, AuthView, CertRoleView, ConditionNode, ConditionView, FilterView, GlobalConfig,
    GlobalView, MetricsConfigView, MtlsConfig, MtlsView, NodeView, ProxyConfig, ProxyConfigView,
    ResponseFilterEntry, Rule, RuleView, SecretToken, TlsView, TokenEntry, TokenView,
};
use crate::environment;
use crate::environment::Environment;
use crate::text;
use crate::yaml;
use crate::yaml::{YamlValue, YamlView};
use vstd::prelude::*;

verus! {

/// The expansion of an optional text.
pub open spec fn expanded_opt(
    o: Option<Seq<char>>,
    env: Seq<(Seq<char>, Seq<char>)>,
) -> Option<Seq<char>> {
    match o {
        Some(s) => Some(environment::expanded(s, env)),
        None => None,
    }
}

/// The expansion of each text in a list.
pub open spec fn expanded_list(
    v: Seq<Seq<char>>,
    env: Seq<(Seq<char>, Seq<char>)>,
) -> Seq<Seq<char>> {
    Seq::new(v.len(), |i: int| environment::expanded(v[i], env))
}

/// The expansion of the texts in a YAML value.
pub open spec fn expanded_yaml(v: YamlView, env: Seq<(Seq<char>, Seq<char>)>) -> YamlView
    decreases v,
{
    match v {
        YamlView::String(s) => YamlView::String(environment::expanded(s, env)),
        YamlView::Sequence(a) => YamlView::Sequence(
            Seq::new(
                a.len(),
                |i: int|
                    if 0 <= i < a.len() {
                        expanded_yaml(a[i], env)
                    } else {
                        arbitrary()
                    },
            ),
        ),
        _ => v,
    }
}

fn expand_text(s: &mut String, env: &Environment)
    ensures
        final(s)@ == environment::expanded(old(s)@, env@),
{
    *s = environment::expand_optional(s.as_str(), env);
}

fn expand_opt(o: &mut Option<String>, env: &Environment)
    ensures
        text::opt_text(*final(o)) == expanded_opt(text::opt_text(*old(o)), env@),
{
    if let Some(s) = o {
        expand_text(s, env);
    }
}

fn expand_list(v: &mut Vec<String>, env: &Environment)
    ensures
        text::strings(final(v)@) == expanded_list(text::strings(old(v)@), env@),
{
    let ghost before = v@;
    let mut i: usize = 0;
    while i < v.len()
        invariant
            i <= v@.len(),
            v@.len() == before.len(),
            forall|j: int|
                0 <= j < i ==> (#[trigger] v@[j])@ == environment::expanded(before[j]@, env@),
            forall|j: int| i <= j < v@.len() ==> #[trigger] v@[j] == before[j],
        decreases v@.len() - i,
    {
        expand_text(&mut v[i], env);
        i += 1;
    }
    assert(text::strings(v@) =~= expanded_list(text::strings(before), env@));
}

fn expand_opt_list(o: &mut Option<Vec<String>>, env: &Environment)
    ensures
        config::opt_strings(*final(o)) == (match config::opt_strings(*old(o)) {
            Some(v) => Some(expanded_list(v, env@)),
            None => None,
        }),
{
    if let Some(v) = o {
        expand_list(v, env);
    }
}

/// Expands the texts in a YAML value.
pub fn expand_value_env(value: &mut YamlValue, env: &Environment)
    ensures
        final(value)@ == expanded_yaml(old(value)@, env@),
    decreases *old(value),
{
    let ghost start = *value;
    match value {
        YamlValue::String(s) => {
            expand_text(s, env);
        },
        YamlValue::Sequence(a) => {
            let ghost before = a@;
            proof {
                yaml::lemma_yaml_list(start);
            }
            let mut i: usize = 0;
            while i < a.len()
                invariant
                    i <= a@.len(),
                    a@.len() == before.len(),
                    start == *old(value),
                    start is Sequence,
                    start->Sequence_0@ == before,
                    forall|j: int|
                        0 <= j < i ==> (#[trigger] a@[j])@ == expanded_yaml(before[j]@, env@),
                    forall|j: int| i <= j < a@.len() ==> #[trigger] a@[j] == before[j],
                decreases a@.len() - i,
            {
                assert(decreases_to!(start => start->Sequence_0@[i as int]));
                expand_value_env(&mut a[i], env);
                i += 1;
            }
            assert(expanded_yaml(start@, env@)->Sequence_0 =~= yaml::yaml_list(a@));
        },
        _ => {},
    }
    proof {
        if start is Sequence {
            yaml::lemma_yaml_list(*value);
        }
    }
}

/// The expansion of the texts in a condition.
pub open spec fn expanded_condition(
    c: ConditionView,
    env: Seq<(Seq<char>, Seq<char>)>,
) -> ConditionView {
    ConditionView {
        field: environment::expanded(c.field, env),
        operator: environment::expanded(c.operator, env),
        value: match c.value {
            Some(v) => Some(expanded_yaml(v, env)),
            None => None,
        },
        compiled: c.compiled,
    }
}

/// The expansion of the texts in a tree of conditions.
pub open spec fn expanded_node(n: NodeView, env: Seq<(Seq<char>, Seq<char>)>) -> NodeView
    decreases n,
{
    match n {
        NodeView::Leaf(c) => NodeView::Leaf(expanded_condition(c, env)),
        NodeView::And(v) => NodeView::And(
            Seq::new(
                v.len(),
                |i: int|
                    if 0 <= i < v.len() {
                        expanded_node(v[i], env)
                    } else {
                        arbitrary()
                    },
            ),
        ),
        NodeView::Or(v) => NodeView::Or(
            Seq::new(
                v.len(),
                |i: int|
                    if 0 <= i < v.len() {
                        expanded_node(v[i], env)
                    } else {
                        arbitrary()
                    },
            ),
        ),
    }
}

/// The expansion of the texts in a list of condition trees.
pub open spec fn expanded_nodes(
    v: Seq<NodeView>,
    env: Seq<(Seq<char>, Seq<char>)>,
) -> Seq<NodeView> {
    Seq::new(v.len(), |i: int| expanded_node(v[i], env))
}

/// Expands the texts in a tree of conditions.
pub fn expand_node_env(node: &mut ConditionNode, env: &Environment)
    ensures
        final(node)@ == expanded_node(old(node)@, env@),
    decreases *old(node),
{
    let ghost start = *node;
    match node {
        ConditionNode::Leaf(c) => {
            expand_text(&mut c.field, env);
            expand_text(&mut c.operator, env);
            if let Some(v) = &mut c.value {
                expand_value_env(v, env);
            }
        },
        ConditionNode::And { and } => {
            let ghost before = and@;
            proof {
                config::lemma_node_view(start);
            }
            let mut i: usize = 0;
            while i < and.len()
                invariant
                    i <= and@.len(),
                    and@.len() == before.len(),
                    start == *old(node),
                    start is And,
                    start->and@ == before,
                    forall|j: int|
                        0 <= j < i ==> (#[trigger] and@[j])@ == expanded_node(before[j]@, env@),
                    forall|j: int| i <= j < and@.len() ==> #[trigger] and@[j] == before[j],
                decreases and@.len() - i,
            {
                assert(decreases_to!(start => start->and@[i as int]));
                expand_node_env(&mut and[i], env);
                i += 1;
            }
            assert(expanded_node(start@, env@)->And_0 =~= config::node_list(and@));
        },
        ConditionNode::Or { or } => {
            let ghost before = or@;
            proof {
                config::lemma_node_view(start);
            }
            let mut i: usize = 0;
            while i < or.len()
                invariant
                    i <= or@.len(),
                    or@.len() == before.len(),
                    start == *old(node),
                    start is Or,
                    start->or@ == before,
                    forall|j: int|
                        0 <= j < i ==> (#[trigger] or@[j])@ == expanded_node(before[j]@, env@),
                    forall|j: int| i <= j < or@.len() ==> #[trigger] or@[j] == before[j],
                decreases or@.len() - i,
            {
                assert(decreases_to!(start => start->or@[i as int]));
                expand_node_env(&mut or[i], env);
                i += 1;
            }
            assert(expanded_node(start@, env@)->Or_0 =~= config::node_list(or@));
        },
    }
    proof {
        config::lemma_node_view(*node);
    }
}

fn expand_nodes(v: &mut Vec<ConditionNode>, env: &Environment)
    ensures
        config::node_list(final(v)@) == expanded_nodes(config::node_list(old(v)@), env@),
{
    let ghost before = v@;
    let mut i: usize = 0;
    while i < v.len()
        invariant
            i <= v@.len(),
            v@.len() == before.len(),
            forall|j: int| 0 <= j < i ==> (#[trigger] v@[j])@ == expanded_node(before[j]@, env@),
            forall|j: int| i <= j < v@.len() ==> #[trigger] v@[j] == before[j],
        decreases v@.len() - i,
    {
        expand_node_env(&mut v[i], env);
        i += 1;
    }
    assert(config::node_list(v@) =~= expanded_nodes(config::node_list(before), env@));
}

/// The expansion of the texts in a response filter.
pub open spec fn expanded_filter(f: FilterView, env: Seq<(Seq<char>, Seq<char>)>) -> FilterView {
    FilterView {
        field: environment::expanded(f.field, env),
        action: environment::expanded(f.action, env),
        replacement: expanded_opt(f.replacement, env),
    }
}

/// The expansion of the texts in a list of response filters.
pub open spec fn expanded_filters(
    v: Seq<FilterView>,
    env: Seq<(Seq<char>, Seq<char>)>,
) -> Seq<FilterView> {
    Seq::new(v.len(), |i: int| expanded_filter(v[i], env))
}

fn expand_filter(f: &mut ResponseFilterEntry, env: &Environment)
    ensures
        final(f)@ == expanded_filter(old(f)@, env@),
{
    expand_text(&mut f.field, env);
    expand_text(&mut f.action, env);
    expand_opt(&mut f.replacement, env);
}

fn expand_filters(v: &mut Vec<ResponseFilterEntry>, env: &Environment)
    ensures
        config::filter_list(final(v)@) == expanded_filters(config::filter_list(old(v)@), env@),
{
    let ghost before = v@;
    let mut i: usize = 0;
    while i < v.len()
        invariant
            i <= v@.len(),
            v@.len() == before.len(),
            forall|j: int| 0 <= j < i ==> (#[trigger] v@[j])@ == expanded_filter(before[j]@, env@),
            forall|j: int| i <= j < v@.len() ==> #[trigger] v@[j] == before[j],
        decreases v@.len() - i,
    {
        expand_filter(&mut v[i], env);
        i += 1;
    }
    assert(config::filter_list(v@) =~= expanded_filters(config::filter_list(before), env@));
}

/// The expansion of the texts in a rule.
pub open spec fn expanded_rule(r: RuleView, env: Seq<(Seq<char>, Seq<char>)>) -> RuleView {
    RuleView {
        name: environment::expanded(r.name, env),
        description: expanded_opt(r.description, env),
        action: environment::expanded(r.action, env),
        conditions: expanded_nodes(r.conditions, env),
        message: expanded_opt(r.message, env),
        role: expanded_opt(r.role, env),
        response_filter: match r.response_filter {
            Some(f) => Some(expanded_filters(f, env)),
            None => None,
        },
        methods: match r.methods {
            Some(m) => Some(expanded_list(m, env)),
            None => None,
        },
        ..r
    }
}

/// The expansion of the texts in a list of rules.
pub open spec fn expanded_rules(
    v: Seq<RuleView>,
    env: Seq<(Seq<char>, Seq<char>)>,
) -> Seq<RuleView> {
    Seq::new(v.len(), |i: int| expanded_rule(v[i], env))
}

fn expand_rule(rule: &mut Rule, env: &Environment)
    ensures
        final(rule)@ == expanded_rule(old(rule)@, env@),
{
    expand_text(&mut rule.name, env);
    expand_opt(&mut rule.description, env);
    expand_text(&mut rule.action, env);
    expand_nodes(&mut rule.conditions, env);
    expand_opt(&mut rule.message, env);
    expand_opt(&mut rule.role, env);
    if let Some(f) = &mut rule.response_filter {
        expand_filters(f, env);
    }
    expand_opt_list(&mut rule.methods, env);
}

fn expand_rules(v: &mut Vec<Rule>, env: &Environment)
    ensures
        config::rule_list(final(v)@) == expanded_rules(config::rule_list(old(v)@), env@),
{
    let ghost before = v@;
    let mut i: usize = 0;
    while i < v.len()
        invariant
            i <= v@.len(),
            v@.len() == before.len(),
            forall|j: int| 0 <= j < i ==> (#[trigger] v@[j])@ == expanded_rule(before[j]@, env@),
            forall|j: int| i <= j < v@.len() ==> #[trigger] v@[j] == before[j],
        decreases v@.len() - i,
    {
        expand_rule(&mut v[i], env);
        i += 1;
    }
    assert(config::rule_list(v@) =~= expanded_rules(config::rule_list(before), env@));
}

/// The expansion of the texts in the certificate mappings.
pub open spec fn expanded_mtls(m: MtlsView, env: Seq<(Seq<char>, Seq<char>)>) -> MtlsView {
    MtlsView {
        cert_role_map: match m.cert_role_map {
            Some(v) => Some(
                Seq::new(
                    v.len(),
                    |i: int|
                        CertRoleView {
                            cn: environment::expanded(v[i].cn, env),
                            role: environment::expanded(v[i].role, env),
                        },
                ),
            ),
            None => None,
        },
        default_role: expanded_opt(m.default_role, env),
    }
}

fn expand_mtls(m: &mut MtlsConfig, env: &Environment)
    ensures
        final(m)@ == expanded_mtls(old(m)@, env@),
{
    let ghost start = m@;
    if let Some(v) = &mut m.cert_role_map {
        let ghost before = v@;
        let mut i: usize = 0;
        while i < v.len()
            invariant
                i <= v@.len(),
                v@.len() == before.len(),
                forall|j: int|
                    0 <= j < i ==> (#[trigger] v@[j])@ == (CertRoleView {
                        cn: environment::expanded(before[j].cn@, env@),
                        role: environment::expanded(before[j].role@, env@),
                    }),
                forall|j: int| i <= j < v@.len() ==> #[trigger] v@[j] == before[j],
            decreases v@.len() - i,
        {
            expand_text(&mut v[i].cn, env);
            expand_text(&mut v[i].role, env);
            i += 1;
        }
        assert(config::cert_role_list(v@) =~= expanded_mtls(start, env@).cert_role_map->0);
    }
    expand_opt(&mut m.default_role, env);
}

/// The expansion of the texts in the global settings.
pub open spec fn expanded_global(g: GlobalView, env: Seq<(Seq<char>, Seq<char>)>) -> GlobalView {
    GlobalView {
        port: g.port,
        socket: expanded_opt(g.socket, env),
        log_level: expanded_opt(g.log_level, env),
        log_format: expanded_opt(g.log_format, env),
        audit_log: expanded_opt(g.audit_log, env),
        bind: expanded_opt(g.bind, env),
        tls: match g.tls {
            Some(t) => Some(
                TlsView {
                    cert: environment::expanded(t.cert, env),
                    key: environment::expanded(t.key, env),
                    client_ca: expanded_opt(t.client_ca, env),
                    require_client_cert: t.require_client_cert,
                },
            ),
            None => None,
        },
        metrics: match g.metrics {
            Some(m) => Some(
                MetricsConfigView { enabled: m.enabled, path: expanded_opt(m.path, env) },
            ),
            None => None,
        },
        trusted_proxies: match g.trusted_proxies {
            Some(v) => Some(expanded_list(v, env)),
            None => None,
        },
    }
}

fn expand_global(g: &mut GlobalConfig, env: &Environment)
    ensures
        final(g)@ == expanded_global(old(g)@, env@),
{
    expand_opt(&mut g.socket, env);
    expand_opt(&mut g.log_level, env);
    expand_opt(&mut g.log_format, env);
    expand_opt(&mut g.audit_log, env);
    expand_opt(&mut g.bind, env);
    if let Some(t) = &mut g.tls {
        expand_text(&mut t.cert, env);
        expand_text(&mut t.key, env);
        expand_opt(&mut t.client_ca, env);
    }
    if let Some(m) = &mut g.metrics {
        expand_opt(&mut m.path, env);
    }
    expand_opt_list(&mut g.trusted_proxies, env);
}

/// The expansion of a token, all of whose variables are set.
pub open spec fn expanded_token(t: TokenView, env: Seq<(Seq<char>, Seq<char>)>) -> TokenView {
    TokenView { token: environment::expanded(t.token, env), role: expanded_opt(t.role, env) }
}

/// The expansion of the texts in the authentication settings, all of whose secrets' variables are
/// set.
pub open spec fn expanded_auth(a: AuthView, env: Seq<(Seq<char>, Seq<char>)>) -> AuthView {
    AuthView {
        auth_type: expanded_opt(a.auth_type, env),
        secret: expanded_opt(a.secret, env),
        tokens: match a.tokens {
            Some(v) => Some(Seq::new(v.len(), |i: int| expanded_token(v[i], env))),
            None => None,
        },
        mtls: match a.mtls {
            Some(m) => Some(expanded_mtls(m, env)),
            None => None,
        },
    }
}

/// The error of a secret that refers to a variable that is not set.
pub open spec fn secret_error(
    s: Seq<char>,
    env: Seq<(Seq<char>, Seq<char>)>,
) -> Option<Seq<char>> {
    match environment::expansion(s, env, true) {
        Ok(_) => None,
        Err(e) => Some(e),
    }
}

/// The error of the first token that refers to a variable that is not set.
pub open spec fn tokens_error(
    v: Seq<TokenView>,
    env: Seq<(Seq<char>, Seq<char>)>,
) -> Option<Seq<char>>
    decreases v.len(),
{
    if v.len() == 0 {
        None
    } else if secret_error(v[0].token, env) is Some {
        secret_error(v[0].token, env)
    } else {
        tokens_error(v.skip(1), env)
    }
}

/// The error of the first secret, the shared one before the tokens, that refers to a variable
/// that is not set.
pub open spec fn auth_error(a: AuthView, env: Seq<(Seq<char>, Seq<char>)>) -> Option<Seq<char>> {
    let tokens = match a.tokens {
        Some(v) => tokens_error(v, env),
        None => None,
    };
    match a.secret {
        Some(s) => if secret_error(s, env) is Some {
            secret_error(s, env)
        } else {
            tokens
        },
        None => tokens,
    }
}

fn expand_secret(s: &mut SecretToken, env: &Environment) -> (r: Result<(), String>)
    ensures
        match r {
            Ok(_) => secret_error(old(s)@, env@) is None && final(s)@ == environment::expanded(
                old(s)@,
                env@,
            ),
            Err(e) => secret_error(old(s)@, env@) == Some(e@),
        },
{
    match environment::expand_env(s.expose_secret(), env, true) {
        Ok(t) => {
            *s = SecretToken::new(t);
            Ok(())
        },
        Err(e) => Err(e),
    }
}

fn expand_tokens(v: &mut Vec<TokenEntry>, env: &Environment) -> (r: Result<(), String>)
    ensures
        match r {
            Ok(_) => tokens_error(config::token_list(old(v)@), env@) is None && config::token_list(
                final(v)@,
            ) == Seq::new(
                old(v)@.len(),
                |i: int| expanded_token(config::token_list(old(v)@)[i], env@),
            ),
            Err(e) => tokens_error(config::token_list(old(v)@), env@) == Some(e@),
        },
{
    let ghost before = v@;
    let ghost list = config::token_list(before);
    let mut i: usize = 0;
    assert(list.skip(0) =~= list);
    while i < v.len()
        invariant
            i <= v@.len(),
            v@.len() == before.len(),
            before == old(v)@,
            list == config::token_list(before),
            tokens_error(list, env@) == tokens_error(list.skip(i as int), env@),
            forall|j: int| 0 <= j < i ==> (#[trigger] v@[j])@ == expanded_token(before[j]@, env@),
            forall|j: int| i <= j < v@.len() ==> #[trigger] v@[j] == before[j],
        decreases v@.len() - i,
    {
        assert(list.skip(i as int)[0] == before[i as int]@);
        assert(list.skip(i as int).skip(1) =~= list.skip(i + 1));
        match expand_secret(&mut v[i].token, env) {
            Ok(_) => {},
            Err(e) => {
                return Err(e);
            },
        }
        expand_opt(&mut v[i].role, env);
        i += 1;
    }
    assert(config::token_list(v@) =~= Seq::new(
        before.len(),
        |i: int| expanded_token(list[i], env@),
    ));
    Ok(())
}

fn expand_auth(a: &mut AuthConfig, env: &Environment) -> (r: Result<(), String>)
    ensures
        match r {
            Ok(_) => auth_error(old(a)@, env@) is None && final(a)@ == expanded_auth(
                old(a)@,
                env@,
            ),
            Err(e) => auth_error(old(a)@, env@) == Some(e@),
        },
{
    let ghost start = a@;
    if let Some(s) = &mut a.secret {
        match expand_secret(s, env) {
            Ok(_) => {},
            Err(e) => {
                return Err(e);
            },
        }
    }
    if let Some(v) = &mut a.tokens {
        match expand_tokens(v, env) {
            Ok(_) => {},
            Err(e) => {
                return Err(e);
            },
        }
        assert(config::token_list(v@) =~= expanded_auth(start, env@).tokens->0);
    }
    expand_opt(&mut a.auth_type, env);
    if let Some(m) = &mut a.mtls {
        expand_mtls(m, env);
    }
    Ok(())
}

/// The configuration with each `${NAME}` in it replaced by the value of the variable.
pub open spec fn expanded_config(
    c: ProxyConfigView,
    env: Seq<(Seq<char>, Seq<char>)>,
) -> ProxyConfigView {
    ProxyConfigView {
        global: match c.global {
            Some(g) => Some(expanded_global(g, env)),
            None => None,
        },
        auth: match c.auth {
            Some(a) => Some(expanded_auth(a, env)),
            None => None,
        },
        rules: match c.rules {
            Some(v) => Some(expanded_rules(v, env)),
            None => None,
        },
    }
}

/// The error of the first secret that refers to a variable that is not set.
pub open spec fn missing_secret(
    c: ProxyConfigView,
    env: Seq<(Seq<char>, Seq<char>)>,
) -> Option<Seq<char>> {
    match c.auth {
        Some(a) => auth_error(a, env),
        None => None,
    }
}

impl ProxyConfig {
    /// Replaces each `${NAME}` by the value of the variable. A secret whose variable is not set is
    /// an error; elsewhere a variable that is not set counts as empty.
    pub fn resolve_env_vars(self, env: &Environment) -> (r: Result<ProxyConfig, String>)
        ensures
            match r {
                Ok(c) => missing_secret(self@, env@) is None && c@ == expanded_config(self@, env@),
                Err(e) => missing_secret(self@, env@) == Some(e@),
            },
    {
        let mut c = self;
        if let Some(a) = &mut c.auth {
            match expand_auth(a, env) {
                Ok(_) => {},
                Err(e) => {
                    return Err(e);
                },
            }
        }
        if let Some(g) = &mut c.global {
            expand_global(g, env);
        }
        if let Some(v) = &mut c.rules {
            expand_rules(v, env);
        }
        Ok(c)
    }
}

/// The variables in every text of the global settings are replaced; what is not set stays so, and
/// what is no text stays as it is.
pub proof fn law_global_settings_are_expanded(
    g: GlobalView,
    env: Seq<(Seq<char>, Seq<char>)>,
    t: TlsView,
    m: MetricsConfigView,
    i: int,
)
    ensures
        ({
            let e = expanded_global(g, env);
            &&& e.port == g.port
            &&& e.socket is Some <==> g.socket is Some
            &&& g.socket is Some ==> e.socket->0 == environment::expanded(g.socket->0, env)
            &&& e.log_level is Some <==> g.log_level is Some
            &&& g.log_level is Some ==> e.log_level->0 == environment::expanded(
                g.log_level->0,
                env,
            )
            &&& e.log_format is Some <==> g.log_format is Some
            &&& g.log_format is Some ==> e.log_format->0 == environment::expanded(
                g.log_format->0,
                env,
            )
            &&& e.audit_log is Some <==> g.audit_log is Some
            &&& g.audit_log is Some ==> e.audit_log->0 == environment::expanded(
                g.audit_log->0,
                env,
            )
            &&& e.bind is Some <==> g.bind is Some
            &&& g.bind is Some ==> e.bind->0 == environment::expanded(g.bind->0, env)
            &&& e.tls is Some <==> g.tls is Some
            &&& g.tls == Some(t) ==> {
                &&& e.tls->0.cert == environment::expanded(t.cert, env)
                &&& e.tls->0.key == environment::expanded(t.key, env)
                &&& e.tls->0.client_ca is Some <==> t.client_ca is Some
                &&& t.client_ca is Some ==> e.tls->0.client_ca->0 == environment::expanded(
                    t.client_ca->0,
                    env,
                )
                &&& e.tls->0.require_client_cert == t.require_client_cert
            }
            &&& e.metrics is Some <==> g.metrics is Some
            &&& g.metrics == Some(m) ==> {
                &&& e.metrics->0.enabled == m.enabled
                &&& e.metrics->0.path is Some <==> m.path is Some
                &&& m.path is Some ==> e.metrics->0.path->0 == environment::expanded(m.path->0, env)
            }
            &&& e.trusted_proxies is Some <==> g.trusted_proxies is Some
            &&& g.trusted_proxies is Some ==> e.trusted_proxies->0.len()
                == g.trusted_proxies->0.len()
            &&& g.trusted_proxies is Some && 0 <= i < g.trusted_proxies->0.len()
                ==> e.trusted_proxies->0[i] == environment::expanded(g.trusted_proxies->0[i], env)
        }),
{
}

/// The variables in every text of the authentication settings are replaced.
pub proof fn law_authentication_settings_are_expanded(
    a: AuthView,
    env: Seq<(Seq<char>, Seq<char>)>,
    m: MtlsView,
    i: int,
)
    ensures
        ({
            let e = expanded_auth(a, env);
            &&& e.auth_type is Some <==> a.auth_type is Some
            &&& a.auth_type is Some ==> e.auth_type->0 == environment::expanded(
                a.auth_type->0,
                env,
            )
            &&& e.secret is Some <==> a.secret is Some
            &&& a.secret is Some ==> e.secret->0 == environment::expanded(a.secret->0, env)
            &&& e.tokens is Some <==> a.tokens is Some
            &&& a.tokens is Some ==> e.tokens->0.len() == a.tokens->0.len()
            &&& a.tokens is Some && 0 <= i < a.tokens->0.len() ==> {
                let t = a.tokens->0[i];
                let x = e.tokens->0[i];
                &&& x.token == environment::expanded(t.token, env)
                &&& x.role is Some <==> t.role is Some
                &&& t.role is Some ==> x.role->0 == environment::expanded(t.role->0, env)
            }
            &&& e.mtls is Some <==> a.mtls is Some
            &&& a.mtls == Some(m) ==> {
                &&& e.mtls->0.default_role is Some <==> m.default_role is Some
                &&& m.default_role is Some ==> e.mtls->0.default_role->0 == environment::expanded(
                    m.default_role->0,
                    env,
                )
                &&& e.mtls->0.cert_role_map is Some <==> m.cert_role_map is Some
                &&& m.cert_role_map is Some ==> e.mtls->0.cert_role_map->0.len()
                    == m.cert_role_map->0.len()
                &&& m.cert_role_map is Some && 0 <= i < m.cert_role_map->0.len() ==> {
                    &&& e.mtls->0.cert_role_map->0[i].cn == environment::expanded(
                        m.cert_role_map->0[i].cn,
                        env,
                    )
                    &&& e.mtls->0.cert_role_map->0[i].role == environment::expanded(
                        m.cert_role_map->0[i].role,
                        env,
                    )
                }
            }
        }),
{
}

/// The variables in every text of a rule are replaced, in its filters and its conditions too; its
/// numbers and its switch stay as they are.
pub proof fn law_rules_are_expanded(
    r: RuleView,
    env: Seq<(Seq<char>, Seq<char>)>,
    f: Seq<FilterView>,
    i: int,
)
    ensures
        ({
            let e = expanded_rule(r, env);
            &&& e.name == environment::expanded(r.name, env)
            &&& e.action == environment::expanded(r.action, env)
            &&& e.description is Some <==> r.description is Some
            &&& r.description is Some ==> e.description->0 == environment::expanded(
                r.description->0,
                env,
            )
            &&& e.message is Some <==> r.message is Some
            &&& r.message is Some ==> e.message->0 == environment::expanded(r.message->0, env)
            &&& e.role is Some <==> r.role is Some
            &&& r.role is Some ==> e.role->0 == environment::expanded(r.role->0, env)
            &&& e.priority == r.priority && e.status == r.status && e.rate_limit == r.rate_limit
                && e.dry_run == r.dry_run
            &&& e.methods is Some <==> r.methods is Some
            &&& r.methods is Some ==> e.methods->0.len() == r.methods->0.len()
            &&& r.methods is Some && 0 <= i < r.methods->0.len() ==> e.methods->0[i]
                == environment::expanded(r.methods->0[i], env)
            &&& e.conditions.len() == r.conditions.len()
            &&& 0 <= i < r.conditions.len() ==> e.conditions[i] == expanded_node(
                r.conditions[i],
                env,
            )
            &&& e.response_filter is Some <==> r.response_filter is Some
            &&& r.response_filter == Some(f) ==> {
                &&& e.response_filter->0.len() == f.len()
                &&& 0 <= i < f.len() ==> {
                    let x = e.response_filter->0[i];
                    &&& x.field == environment::expanded(f[i].field, env)
                    &&& x.action == environment::expanded(f[i].action, env)
                    &&& x.replacement is Some <==> f[i].replacement is Some
                    &&& f[i].replacement is Some ==> x.replacement->0 == environment::expanded(
                        f[i].replacement->0,
                        env,
                    )
                }
            }
        }),
{
}

/// The variables in the field, the operator and the value of every condition of a tree are
/// replaced, and the tree keeps its shape. Of a value, texts and those in lists are replaced, and
/// what is no text stays as it is.
pub proof fn law_conditions_are_expanded(
    c: ConditionView,
    v: Seq<NodeView>,
    s: Seq<char>,
    list: Seq<YamlView>,
    y: YamlView,
    env: Seq<(Seq<char>, Seq<char>)>,
    i: int,
)
    ensures
        ({
            let e = expanded_node(NodeView::Leaf(c), env);
            &&& e is Leaf
            &&& e->Leaf_0.field == environment::expanded(c.field, env)
            &&& e->Leaf_0.operator == environment::expanded(c.operator, env)
            &&& e->Leaf_0.compiled == c.compiled
            &&& e->Leaf_0.value is Some <==> c.value is Some
            &&& c.value is Some ==> e->Leaf_0.value->0 == expanded_yaml(c.value->0, env)
        }),
        ({
            let e = expanded_node(NodeView::And(v), env);
            &&& e is And && e->And_0.len() == v.len()
            &&& 0 <= i < v.len() ==> e->And_0[i] == expanded_node(v[i], env)
        }),
        ({
            let e = expanded_node(NodeView::Or(v), env);
            &&& e is Or && e->Or_0.len() == v.len()
            &&& 0 <= i < v.len() ==> e->Or_0[i] == expanded_node(v[i], env)
        }),
        expanded_yaml(YamlView::String(s), env) == YamlView::String(environment::expanded(s, env)),
        ({
            let e = expanded_yaml(YamlView::Sequence(list), env);
            &&& e is Sequence && e->Sequence_0.len() == list.len()
            &&& 0 <= i < list.len() ==> e->Sequence_0[i] == expanded_yaml(list[i], env)
        }),
        !(y is String) && !(y is Sequence) ==> expanded_yaml(y, env) == y,
{
    reveal_with_fuel(expanded_node, 2);
    reveal_with_fuel(expanded_yaml, 2);
}

/// The variables of a configuration are replaced in all of its parts.
pub proof fn law_configurations_are_expanded(
    c: ProxyConfigView,
    env: Seq<(Seq<char>, Seq<char>)>,
    i: int,
)
    ensures
        ({
            let e = expanded_config(c, env);
            &&& e.global is Some <==> c.global is Some
            &&& c.global is Some ==> e.global->0 == expanded_global(c.global->0, env)
            &&& e.auth is Some <==> c.auth is Some
            &&& c.auth is Some ==> e.auth->0 == expanded_auth(c.auth->0, env)
            &&& e.rules is Some <==> c.rules is Some
            &&& c.rules is Some ==> e.rules->0.len() == c.rules->0.len()
            &&& c.rules is Some && 0 <= i < c.rules->0.len() ==> e.rules->0[i] == expanded_rule(
                c.rules->0[i],
                env,
            )
        }),
{
}

/// A configuration has no fault in its secrets exactly where every variable that the secret or a
/// token names is there; of several faults the secret's is told first, then that of the first
/// token.
pub proof fn law_variables_of_secrets_must_exist(
    c: ProxyConfigView,
    env: Seq<(Seq<char>, Seq<char>)>,
    i: int,
)
    ensures
        c.auth is None ==> missing_secret(c, env) is None,
        c.auth is Some ==> {
            let a = c.auth->0;
            let secret_fails = a.secret is Some && environment::missing(a.secret->0, env).len() > 0;
            &&& secret_fails ==> missing_secret(c, env) == Some(
                environment::expansion(a.secret->0, env, true)->Err_0,
            )
            &&& !secret_fails && a.tokens is Some && 0 <= i < a.tokens->0.len()
                && environment::missing(a.tokens->0[i].token, env).len() > 0 && (forall|k: int|
                0 <= k < i ==> environment::missing(
                    (#[trigger] a.tokens->0[k]).token,
                    env,
                ).len() == 0) ==> missing_secret(c, env) == Some(
                environment::expansion(a.tokens->0[i].token, env, true)->Err_0,
            )
            &&& !secret_fails && (a.tokens is None || forall|k: int|
                0 <= k < a.tokens->0.len() ==> environment::missing(
                    (#[trigger] a.tokens->0[k]).token,
                    env,
                ).len() == 0) ==> missing_secret(c, env) is None
        },
{
    if c.auth is Some && c.auth->0.tokens is Some {
        let v = c.auth->0.tokens->0;
        if 0 <= i < v.len() && environment::missing(v[i].token, env).len() > 0 && (forall|k: int|
            0 <= k < i ==> environment::missing((#[trigger] v[k]).token, env).len() == 0) {
            lemma_first_token(v, env, i);
        }
        if forall|k: int|
            0 <= k < v.len() ==> environment::missing((#[trigger] v[k]).token, env).len() == 0 {
            lemma_first_token(v, env, v.len() as int);
        }
    }
}

proof fn lemma_first_token(v: Seq<TokenView>, env: Seq<(Seq<char>, Seq<char>)>, i: int)
    requires
        0 <= i <= v.len(),
        i < v.len() ==> environment::missing(v[i].token, env).len() > 0,
        forall|k: int|
            0 <= k < i ==> environment::missing((#[trigger] v[k]).token, env).len() == 0,
    ensures
        i < v.len() ==> tokens_error(v, env) == secret_error(v[i].token, env),
        i == v.len() ==> tokens_error(v, env) is None,
    decreases v.len(),
{
    if i > 0 {
        assert(environment::missing(v[0].token, env).len() == 0);
        let rest = v.skip(1);
        assert forall|k: int| 0 <= k < i - 1 implies environment::missing(
            (#[trigger] rest[k]).token,
            env,
        ).len() == 0 by {
            assert(rest[k] == v[k + 1]);
        }
        lemma_first_token(rest, env, i - 1);
        if i < v.len() {
            assert(rest[i - 1] == v[i]);
        }
    }
}

} // verus!
