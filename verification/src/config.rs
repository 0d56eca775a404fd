//! The configuration: what a configuration file holds.
use crate::pattern;
use crate::text;
use crate::yaml;
use crate::yaml::{YamlValue, YamlView};
use vstd::prelude::*;

verus! {

/// The listener, the logs and the reverse proxies in front.
#[derive(Debug, Clone)]
pub struct GlobalConfig {
    pub port: Option<u16>,
    pub socket: Option<String>,
    pub log_level: Option<String>,
    pub log_format: Option<String>,
    pub audit_log: Option<String>,
    pub bind: Option<String>,
    pub tls: Option<TlsConfig>,
    pub metrics: Option<MetricsConfig>,
    pub trusted_proxies: Option<Vec<String>>,
}

/// TLS termination: paths of the certificate chain, the key and the client authorities.
#[derive(Debug, Clone)]
pub struct TlsConfig {
    pub cert: String,
    pub key: String,
    pub client_ca: Option<String>,
    pub require_client_cert: Option<bool>,
}

/// The metrics endpoint.
#[derive(Debug, Clone)]
pub struct MetricsConfig {
    pub enabled: Option<bool>,
    pub path: Option<String>,
}

/// The role of the clients whose certificate bears a name.
#[derive(Debug, Clone)]
pub struct CertRoleMapping {
    pub cn: String,
    pub role: String,
}

/// How client certificates become roles.
#[derive(Debug, Clone)]
pub struct MtlsConfig {
    pub cert_role_map: Option<Vec<CertRoleMapping>>,
    pub default_role: Option<String>,
}

/// A secret that is wiped from memory when it is dropped and that `Debug` does not print.
#[derive(Debug)]
#[verifier::external_body]
pub struct SecretToken(secrecy::SecretString);

/// The text that a [`SecretToken`] keeps.
pub uninterp spec fn secret_text(s: SecretToken) -> Seq<char>;

impl View for SecretToken {
    type V = Seq<char>;

    open spec fn view(&self) -> Seq<char> {
        secret_text(*self)
    }
}

impl SecretToken {
    /// `secrecy::SecretString::new` keeps the text that it is given.
    #[verifier::external_body]
    pub fn new(s: String) -> (r: SecretToken)
        ensures
            secret_text(r) == s@,
    {
        SecretToken(secrecy::SecretString::new(s.into_boxed_str()))
    }

    /// `secrecy::ExposeSecret::expose_secret` gives the text that is kept.
    #[verifier::external_body]
    pub fn expose_secret(&self) -> (r: &str)
        ensures
            r@ == secret_text(*self),
    {
        secrecy::ExposeSecret::expose_secret(&self.0)
    }
}

impl Clone for SecretToken {
    fn clone(&self) -> (r: Self)
        ensures
            r@ == self@,
    {
        SecretToken::new(self.expose_secret().to_string())
    }
}

/// A bearer token and the role that it gives.
#[derive(Debug, Clone)]
pub struct TokenEntry {
    pub token: SecretToken,
    pub role: Option<String>,
}

/// How requests are authenticated.
#[derive(Debug, Clone)]
pub struct AuthConfig {
    pub auth_type: Option<String>,
    pub secret: Option<SecretToken>,
    pub tokens: Option<Vec<TokenEntry>>,
    pub mtls: Option<MtlsConfig>,
}

/// One test of a request.
#[derive(Debug)]
pub struct Condition {
    pub field: String,
    pub operator: String,
    pub value: Option<YamlValue>,
    pub compiled_regex: Option<regex::Regex>,
}

/// A tree of tests.
#[derive(Debug)]
pub enum ConditionNode {
    Leaf(Condition),
    And { and: Vec<ConditionNode> },
    Or { or: Vec<ConditionNode> },
}

/// A change to one field of a JSON response.
#[derive(Debug)]
pub struct ResponseFilterEntry {
    pub field: String,
    pub action: String,
    pub replacement: Option<String>,
}

/// The capacity of a bucket when the configuration gives none.
pub fn default_rate_requests() -> (r: u64)
    ensures
        r == 50,
{
    50
}

/// The seconds in which a bucket fills when the configuration gives none.
pub fn default_rate_period() -> (r: u64)
    ensures
        r == 30,
{
    30
}

/// The seconds for which an empty bucket stays closed when the configuration gives none.
pub fn default_rate_penalty() -> (r: u64)
    ensures
        r == 30,
{
    30
}

/// A token bucket: its capacity, the seconds in which it fills, and the seconds for which it
/// stays closed once it is empty.
#[derive(Debug, Clone, Copy)]
pub struct RateLimitConfig {
    pub requests: u64,
    pub period: u64,
    pub penalty: u64,
}

impl RateLimitConfig {
    /// The values of a configuration, with the defaults in place of those that it leaves out.
    pub fn from_options(requests: Option<u64>, period: Option<u64>, penalty: Option<u64>) -> (r:
        RateLimitConfig)
        ensures
            r.requests == (match requests {
                Some(n) => n,
                None => 50,
            }),
            r.period == (match period {
                Some(n) => n,
                None => 30,
            }),
            r.penalty == (match penalty {
                Some(n) => n,
                None => 30,
            }),
    {
        RateLimitConfig {
            requests: match requests {
                Some(n) => n,
                None => default_rate_requests(),
            },
            period: match period {
                Some(n) => n,
                None => default_rate_period(),
            },
            penalty: match penalty {
                Some(n) => n,
                None => default_rate_penalty(),
            },
        }
    }
}

/// One rule: when all of its conditions hold, its action decides or contributes.
#[derive(Debug)]
pub struct Rule {
    pub name: String,
    pub description: Option<String>,
    pub action: String,
    pub priority: Option<u32>,
    pub conditions: Vec<ConditionNode>,
    pub message: Option<String>,
    pub role: Option<String>,
    pub response_filter: Option<Vec<ResponseFilterEntry>>,
    pub status: Option<u16>,
    pub methods: Option<Vec<String>>,
    pub rate_limit: Option<RateLimitConfig>,
    pub dry_run: Option<bool>,
}

/// The whole configuration.
#[derive(Debug)]
pub struct ProxyConfig {
    pub global: Option<GlobalConfig>,
    pub auth: Option<AuthConfig>,
    pub rules: Option<Vec<Rule>>,
}

/// What a [`TlsConfig`] stands for.
pub struct TlsView {
    pub cert: Seq<char>,
    pub key: Seq<char>,
    pub client_ca: Option<Seq<char>>,
    pub require_client_cert: Option<bool>,
}

/// What a [`MetricsConfig`] stands for.
pub struct MetricsConfigView {
    pub enabled: Option<bool>,
    pub path: Option<Seq<char>>,
}

/// What a [`GlobalConfig`] stands for.
pub struct GlobalView {
    pub port: Option<u16>,
    pub socket: Option<Seq<char>>,
    pub log_level: Option<Seq<char>>,
    pub log_format: Option<Seq<char>>,
    pub audit_log: Option<Seq<char>>,
    pub bind: Option<Seq<char>>,
    pub tls: Option<TlsView>,
    pub metrics: Option<MetricsConfigView>,
    pub trusted_proxies: Option<Seq<Seq<char>>>,
}

/// What a [`CertRoleMapping`] stands for.
pub struct CertRoleView {
    pub cn: Seq<char>,
    pub role: Seq<char>,
}

/// What a [`MtlsConfig`] stands for.
pub struct MtlsView {
    pub cert_role_map: Option<Seq<CertRoleView>>,
    pub default_role: Option<Seq<char>>,
}

/// What a [`TokenEntry`] stands for.
pub struct TokenView {
    pub token: Seq<char>,
    pub role: Option<Seq<char>>,
}

/// What an [`AuthConfig`] stands for.
pub struct AuthView {
    pub auth_type: Option<Seq<char>>,
    pub secret: Option<Seq<char>>,
    pub tokens: Option<Seq<TokenView>>,
    pub mtls: Option<MtlsView>,
}

/// What a [`Condition`] stands for; `compiled` is the pattern of the compiled expression that it
/// carries.
pub struct ConditionView {
    pub field: Seq<char>,
    pub operator: Seq<char>,
    pub value: Option<YamlView>,
    pub compiled: Option<Seq<char>>,
}

/// What a [`ConditionNode`] stands for.
pub enum NodeView {
    Leaf(ConditionView),
    And(Seq<NodeView>),
    Or(Seq<NodeView>),
}

/// What a [`ResponseFilterEntry`] stands for.
pub struct FilterView {
    pub field: Seq<char>,
    pub action: Seq<char>,
    pub replacement: Option<Seq<char>>,
}

/// What a [`Rule`] stands for.
pub struct RuleView {
    pub name: Seq<char>,
    pub description: Option<Seq<char>>,
    pub action: Seq<char>,
    pub priority: Option<u32>,
    pub conditions: Seq<NodeView>,
    pub message: Option<Seq<char>>,
    pub role: Option<Seq<char>>,
    pub response_filter: Option<Seq<FilterView>>,
    pub status: Option<u16>,
    pub methods: Option<Seq<Seq<char>>>,
    pub rate_limit: Option<RateLimitConfig>,
    pub dry_run: Option<bool>,
}

/// What a [`ProxyConfig`] stands for.
pub struct ProxyConfigView {
    pub global: Option<GlobalView>,
    pub auth: Option<AuthView>,
    pub rules: Option<Seq<RuleView>>,
}

impl View for TlsConfig {
    type V = TlsView;

    open spec fn view(&self) -> TlsView {
        TlsView {
            cert: self.cert@,
            key: self.key@,
            client_ca: text::opt_text(self.client_ca),
            require_client_cert: self.require_client_cert,
        }
    }
}

impl View for MetricsConfig {
    type V = MetricsConfigView;

    open spec fn view(&self) -> MetricsConfigView {
        MetricsConfigView { enabled: self.enabled, path: text::opt_text(self.path) }
    }
}

/// The contents of an optional list of strings.
pub open spec fn opt_strings(o: Option<Vec<String>>) -> Option<Seq<Seq<char>>> {
    match o {
        Some(v) => Some(text::strings(v@)),
        None => None,
    }
}

impl View for GlobalConfig {
    type V = GlobalView;

    open spec fn view(&self) -> GlobalView {
        GlobalView {
            port: self.port,
            socket: text::opt_text(self.socket),
            log_level: text::opt_text(self.log_level),
            log_format: text::opt_text(self.log_format),
            audit_log: text::opt_text(self.audit_log),
            bind: text::opt_text(self.bind),
            tls: match self.tls {
                Some(t) => Some(t@),
                None => None,
            },
            metrics: match self.metrics {
                Some(m) => Some(m@),
                None => None,
            },
            trusted_proxies: opt_strings(self.trusted_proxies),
        }
    }
}

impl View for CertRoleMapping {
    type V = CertRoleView;

    open spec fn view(&self) -> CertRoleView {
        CertRoleView { cn: self.cn@, role: self.role@ }
    }
}

/// What a list of certificate mappings stands for.
pub open spec fn cert_role_list(v: Seq<CertRoleMapping>) -> Seq<CertRoleView> {
    Seq::new(v.len(), |i: int| v[i]@)
}

impl View for MtlsConfig {
    type V = MtlsView;

    open spec fn view(&self) -> MtlsView {
        MtlsView {
            cert_role_map: match self.cert_role_map {
                Some(m) => Some(cert_role_list(m@)),
                None => None,
            },
            default_role: text::opt_text(self.default_role),
        }
    }
}

impl View for TokenEntry {
    type V = TokenView;

    open spec fn view(&self) -> TokenView {
        TokenView { token: self.token@, role: text::opt_text(self.role) }
    }
}

/// What a list of tokens stands for.
pub open spec fn token_list(v: Seq<TokenEntry>) -> Seq<TokenView> {
    Seq::new(v.len(), |i: int| v[i]@)
}

/// The text of an optional secret.
pub open spec fn opt_secret(o: Option<SecretToken>) -> Option<Seq<char>> {
    match o {
        Some(s) => Some(s@),
        None => None,
    }
}

impl View for AuthConfig {
    type V = AuthView;

    open spec fn view(&self) -> AuthView {
        AuthView {
            auth_type: text::opt_text(self.auth_type),
            secret: opt_secret(self.secret),
            tokens: match self.tokens {
                Some(t) => Some(token_list(t@)),
                None => None,
            },
            mtls: match self.mtls {
                Some(m) => Some(m@),
                None => None,
            },
        }
    }
}

impl View for Condition {
    type V = ConditionView;

    open spec fn view(&self) -> ConditionView {
        ConditionView {
            field: self.field@,
            operator: self.operator@,
            value: yaml::opt_yaml(self.value),
            compiled: match self.compiled_regex {
                Some(re) => Some(pattern::regex_pattern(re)),
                None => None,
            },
        }
    }
}

/// What a tree of conditions stands for.
pub open spec fn node_view(n: ConditionNode) -> NodeView
    decreases n,
{
    match n {
        ConditionNode::Leaf(c) => NodeView::Leaf(c@),
        ConditionNode::And { and } => NodeView::And(
            Seq::new(
                and@.len(),
                |i: int|
                    if 0 <= i < and@.len() {
                        node_view(and@[i])
                    } else {
                        arbitrary()
                    },
            ),
        ),
        ConditionNode::Or { or } => NodeView::Or(
            Seq::new(
                or@.len(),
                |i: int|
                    if 0 <= i < or@.len() {
                        node_view(or@[i])
                    } else {
                        arbitrary()
                    },
            ),
        ),
    }
}

impl View for ConditionNode {
    type V = NodeView;

    open spec fn view(&self) -> NodeView {
        node_view(*self)
    }
}

/// What a list of condition trees stands for.
pub open spec fn node_list(v: Seq<ConditionNode>) -> Seq<NodeView> {
    Seq::new(v.len(), |i: int| v[i]@)
}

/// The groups in a tree of conditions stand for groups of what their members stand for.
pub proof fn lemma_node_view(n: ConditionNode)
    ensures
        n is And ==> n@ == NodeView::And(node_list(n->and@)),
        n is Or ==> n@ == NodeView::Or(node_list(n->or@)),
{
    if n is And {
        assert(n@->And_0 =~= node_list(n->and@));
    }
    if n is Or {
        assert(n@->Or_0 =~= node_list(n->or@));
    }
}

impl View for ResponseFilterEntry {
    type V = FilterView;

    open spec fn view(&self) -> FilterView {
        FilterView {
            field: self.field@,
            action: self.action@,
            replacement: text::opt_text(self.replacement),
        }
    }
}

/// What a list of response filters stands for.
pub open spec fn filter_list(v: Seq<ResponseFilterEntry>) -> Seq<FilterView> {
    Seq::new(v.len(), |i: int| v[i]@)
}

impl Clone for ResponseFilterEntry {
    fn clone(&self) -> (r: Self)
        ensures
            r@ == self@,
    {
        ResponseFilterEntry {
            field: self.field.clone(),
            action: self.action.clone(),
            replacement: text::copy_opt(&self.replacement),
        }
    }
}

impl View for Rule {
    type V = RuleView;

    open spec fn view(&self) -> RuleView {
        RuleView {
            name: self.name@,
            description: text::opt_text(self.description),
            action: self.action@,
            priority: self.priority,
            conditions: node_list(self.conditions@),
            message: text::opt_text(self.message),
            role: text::opt_text(self.role),
            response_filter: match self.response_filter {
                Some(f) => Some(filter_list(f@)),
                None => None,
            },
            status: self.status,
            methods: opt_strings(self.methods),
            rate_limit: self.rate_limit,
            dry_run: self.dry_run,
        }
    }
}

/// What a list of rules stands for.
pub open spec fn rule_list(v: Seq<Rule>) -> Seq<RuleView> {
    Seq::new(v.len(), |i: int| v[i]@)
}

impl View for ProxyConfig {
    type V = ProxyConfigView;

    open spec fn view(&self) -> ProxyConfigView {
        ProxyConfigView {
            global: match self.global {
                Some(g) => Some(g@),
                None => None,
            },
            auth: match self.auth {
                Some(a) => Some(a@),
                None => None,
            },
            rules: match self.rules {
                Some(r) => Some(rule_list(r@)),
                None => None,
            },
        }
    }
}

/// The settings of a configuration that gives none.
pub open spec fn default_global() -> GlobalView {
    GlobalView {
        port: None,
        socket: None,
        log_level: None,
        log_format: None,
        audit_log: None,
        bind: None,
        tls: None,
        metrics: None,
        trusted_proxies: None,
    }
}

impl Default for GlobalConfig {
    fn default() -> (r: Self)
        ensures
            r@ == default_global(),
    {
        GlobalConfig {
            port: None,
            socket: None,
            log_level: None,
            log_format: None,
            audit_log: None,
            bind: None,
            tls: None,
            metrics: None,
            trusted_proxies: None,
        }
    }
}

impl Default for Condition {
    fn default() -> (r: Self)
        ensures
            r@ == (ConditionView {
                field: Seq::empty(),
                operator: Seq::empty(),
                value: None,
                compiled: None,
            }),
    {
        Condition {
            field: String::new(),
            operator: String::new(),
            value: None,
            compiled_regex: None,
        }
    }
}

impl Default for Rule {
    fn default() -> (r: Self)
        ensures
            r@ == (RuleView {
                name: Seq::empty(),
                description: None,
                action: Seq::empty(),
                priority: None,
                conditions: Seq::empty(),
                message: None,
                role: None,
                response_filter: None,
                status: None,
                methods: None,
                rate_limit: None,
                dry_run: None,
            }),
    {
        let conditions: Vec<ConditionNode> = Vec::new();
        assert(node_list(conditions@) =~= Seq::<NodeView>::empty());
        Rule {
            name: String::new(),
            description: None,
            action: String::new(),
            priority: None,
            conditions,
            message: None,
            role: None,
            response_filter: None,
            status: None,
            methods: None,
            rate_limit: None,
            dry_run: None,
        }
    }
}

impl Default for ProxyConfig {
    fn default() -> (r: Self)
        ensures
            r@ == (ProxyConfigView { global: None, auth: None, rules: None }),
    {
        ProxyConfig { global: None, auth: None, rules: None }
    }
}

/// What global settings stand for, field by field.
pub proof fn law_what_global_settings_stand_for(g: GlobalConfig, t: TlsConfig, m: MetricsConfig)
    ensures
        g@.port == g.port,
        g@.socket == text::opt_text(g.socket),
        g@.log_level == text::opt_text(g.log_level),
        g@.log_format == text::opt_text(g.log_format),
        g@.audit_log == text::opt_text(g.audit_log),
        g@.bind == text::opt_text(g.bind),
        g@.tls is Some <==> g.tls is Some,
        g.tls is Some ==> g@.tls->0 == g.tls->0@,
        g@.metrics is Some <==> g.metrics is Some,
        g.metrics is Some ==> g@.metrics->0 == g.metrics->0@,
        g@.trusted_proxies is Some <==> g.trusted_proxies is Some,
        g.trusted_proxies is Some ==> g@.trusted_proxies->0 == text::strings(
            g.trusted_proxies->0@,
        ),
        t@.cert == t.cert@,
        t@.key == t.key@,
        t@.client_ca == text::opt_text(t.client_ca),
        t@.require_client_cert == t.require_client_cert,
        m@.enabled == m.enabled,
        m@.path == text::opt_text(m.path),
{
}

/// What authentication settings stand for, field by field.
pub proof fn law_what_authentication_settings_stand_for(
    a: AuthConfig,
    t: TokenEntry,
    m: MtlsConfig,
    c: CertRoleMapping,
    i: int,
)
    ensures
        a@.auth_type == text::opt_text(a.auth_type),
        a@.secret is Some <==> a.secret is Some,
        a.secret is Some ==> a@.secret->0 == secret_text(a.secret->0),
        a@.tokens is Some <==> a.tokens is Some,
        a.tokens is Some ==> a@.tokens->0.len() == a.tokens->0@.len(),
        a.tokens is Some && 0 <= i < a.tokens->0@.len() ==> a@.tokens->0[i] == a.tokens->0@[i]@,
        a@.mtls is Some <==> a.mtls is Some,
        a.mtls is Some ==> a@.mtls->0 == a.mtls->0@,
        t@.token == secret_text(t.token),
        t@.role == text::opt_text(t.role),
        m@.default_role == text::opt_text(m.default_role),
        m@.cert_role_map is Some <==> m.cert_role_map is Some,
        m.cert_role_map is Some ==> m@.cert_role_map->0.len() == m.cert_role_map->0@.len(),
        m.cert_role_map is Some && 0 <= i < m.cert_role_map->0@.len() ==> m@.cert_role_map->0[i]
            == m.cert_role_map->0@[i]@,
        c@.cn == c.cn@,
        c@.role == c.role@,
{
}

/// What a rule, its conditions and its filters stand for, field by field.
pub proof fn law_what_rules_stand_for(
    r: Rule,
    c: Condition,
    n: ConditionNode,
    f: ResponseFilterEntry,
    i: int,
)
    ensures
        r@.name == r.name@,
        r@.description == text::opt_text(r.description),
        r@.action == r.action@,
        r@.priority == r.priority,
        r@.conditions.len() == r.conditions@.len(),
        0 <= i < r.conditions@.len() ==> r@.conditions[i] == r.conditions@[i]@,
        r@.message == text::opt_text(r.message),
        r@.role == text::opt_text(r.role),
        r@.response_filter is Some <==> r.response_filter is Some,
        r.response_filter is Some ==> r@.response_filter->0.len() == r.response_filter->0@.len(),
        r.response_filter is Some && 0 <= i < r.response_filter->0@.len() ==> r@.response_filter->0[
        i] == r.response_filter->0@[i]@,
        r@.status == r.status,
        r@.methods is Some <==> r.methods is Some,
        r.methods is Some ==> r@.methods->0 == text::strings(r.methods->0@),
        r@.rate_limit == r.rate_limit,
        r@.dry_run == r.dry_run,
        c@.field == c.field@,
        c@.operator == c.operator@,
        c@.value is Some <==> c.value is Some,
        c.value is Some ==> c@.value->0 == c.value->0@,
        c@.compiled is Some <==> c.compiled_regex is Some,
        c.compiled_regex is Some ==> c@.compiled->0 == pattern::regex_pattern(c.compiled_regex->0),
        f@.field == f.field@,
        f@.action == f.action@,
        f@.replacement == text::opt_text(f.replacement),
        n is Leaf ==> n@ == NodeView::Leaf(n->Leaf_0@),
        n is And ==> n@ is And && n@->And_0.len() == n->and@.len(),
        n is And && 0 <= i < n->and@.len() ==> n@->And_0[i] == n->and@[i]@,
        n is Or ==> n@ is Or && n@->Or_0.len() == n->or@.len(),
        n is Or && 0 <= i < n->or@.len() ==> n@->Or_0[i] == n->or@[i]@,
{
    lemma_node_view(n);
}

/// What a configuration stands for, part by part.
pub proof fn law_what_a_configuration_stands_for(c: ProxyConfig, i: int)
    ensures
        c@.global is Some <==> c.global is Some,
        c.global is Some ==> c@.global->0 == c.global->0@,
        c@.auth is Some <==> c.auth is Some,
        c.auth is Some ==> c@.auth->0 == c.auth->0@,
        c@.rules is Some <==> c.rules is Some,
        c.rules is Some ==> c@.rules->0.len() == c.rules->0@.len(),
        c.rules is Some && 0 <= i < c.rules->0@.len() ==> c@.rules->0[i] == c.rules->0@[i]@,
{
}

} // verus!
