//! What becomes of a request, step by step: each function takes what is known so far and says
//! what to do next, and what was counted.
use crate::addresses;
use crate::addresses::IpAddress;
use crate::audit;
use crate::audit::{AuditEvent, AuditView};
use crate::auth;
use crate::auth::{AuthOutcome, AuthState, OutcomeView};
use crate::conditions;
use crate::conditions::{ContextView, EvaluationContext, RequestHeader};
use crate::config;
use crate::config::{FilterView, ProxyConfig, ProxyConfigView, ResponseFilterEntry, Rule, RuleView};
use crate::forwarding;
use crate::forwarding::Passage;
use crate::headers;
use crate::headers::{HeaderEntry, HeaderView};
use crate::json;
use crate::json::{JsonValue, JsonView};
use crate::limits::{AuthLimiter, Bucket, RateLimiter};
use crate::metrics;
use crate::metrics::{Metrics, MetricsView};
use crate::paths;
use crate::rules;
use crate::rules::{Decision, DecisionView, ResultView, RuleResult};
use crate::text;
use crate::tls::{CertIdentity, IdentityView};
use crate::upgrade;
use vstd::prelude::*;
use vstd::slice::slice_subrange;
use vstd::utf8::*;

verus! {

/// The head of a request, as it came in.
pub struct RequestHead {
    pub method: String,
    pub raw_path: String,
    pub raw_query: Option<String>,
    pub headers: Vec<HeaderEntry>,
    pub peer: IpAddress,
    pub cert: Option<CertIdentity>,
}

/// What a [`RequestHead`] stands for.
pub struct HeadView {
    pub method: Seq<char>,
    pub raw_path: Seq<char>,
    pub raw_query: Option<Seq<char>>,
    pub headers: Seq<HeaderView>,
    pub peer: IpAddress,
    pub cert: Option<IdentityView>,
}

impl View for RequestHead {
    type V = HeadView;

    open spec fn view(&self) -> HeadView {
        HeadView {
            method: self.method@,
            raw_path: self.raw_path@,
            raw_query: text::opt_text(self.raw_query),
            headers: headers::header_list(self.headers@),
            peer: self.peer,
            cert: match self.cert {
                Some(c) => Some(c@),
                None => None,
            },
        }
    }
}

/// What is known of a request once its sender is.
pub struct Caller {
    pub peer: IpAddress,
    pub method: String,
    pub path: String,
    pub user_agent: String,
    pub role: Option<String>,
    pub identity: Option<String>,
}

/// What a [`Caller`] stands for.
pub struct CallerView {
    pub peer: IpAddress,
    pub method: Seq<char>,
    pub path: Seq<char>,
    pub user_agent: Seq<char>,
    pub role: Option<Seq<char>>,
    pub identity: Option<Seq<char>>,
}

impl View for Caller {
    type V = CallerView;

    open spec fn view(&self) -> CallerView {
        CallerView {
            peer: self.peer,
            method: self.method@,
            path: self.path@,
            user_agent: self.user_agent@,
            role: text::opt_text(self.role),
            identity: text::opt_text(self.identity),
        }
    }
}

/// A text to answer with.
#[derive(Debug)]
pub struct Reply {
    pub status: u16,
    pub body: String,
}

/// What a [`Reply`] stands for.
pub struct ReplyView {
    pub status: u16,
    pub body: Seq<char>,
}

impl View for Reply {
    type V = ReplyView;

    open spec fn view(&self) -> ReplyView {
        ReplyView { status: self.status, body: self.body@ }
    }
}

/// What an optional event stands for.
pub open spec fn opt_event(o: Option<AuditEvent>) -> Option<AuditView> {
    match o {
        Some(e) => Some(e@),
        None => None,
    }
}

/// What an optional reply stands for.
pub open spec fn opt_reply(o: Option<Reply>) -> Option<ReplyView> {
    match o {
        Some(r) => Some(r@),
        None => None,
    }
}

/// The user agent of a request; `-` where it gives none.
pub open spec fn user_agent_of(h: Seq<HeaderView>) -> Seq<char> {
    match headers::first_text(h, "user-agent"@) {
        Some(t) => t,
        None => "-"@,
    }
}

/// The canonical path and the target of a request, or why it is malformed.
pub open spec fn target_of(raw_path: Seq<char>, raw_query: Option<Seq<char>>) -> Result<
    (Seq<char>, Seq<char>),
    Seq<char>,
> {
    match paths::canonical(raw_path) {
        Some(p) => match raw_query {
            Some(q) => if paths::query_accepted(q) {
                Ok((p, p + "?"@ + q))
            } else {
                Err("Malformed query string"@)
            },
            None => Ok((p, p)),
        },
        None => Err("Malformed request path"@),
    }
}

/// The canonical path and the target of a request, or why it is malformed.
pub fn request_target(raw_path: &str, raw_query: &Option<String>) -> (r: Result<
    (String, String),
    &'static str,
>)
    ensures
        match r {
            Ok(x) => target_of(raw_path@, text::opt_text(*raw_query)) == Ok::<
                (Seq<char>, Seq<char>),
                Seq<char>,
            >((x.0@, x.1@)),
            Err(e) => target_of(raw_path@, text::opt_text(*raw_query)) == Err::<
                (Seq<char>, Seq<char>),
                Seq<char>,
            >(e@),
        },
{
    match paths::canonicalize_path(raw_path) {
        Some(p) => match raw_query {
            Some(q) => {
                if !paths::accept_query(q.as_str()) {
                    return Err("Malformed query string");
                }
                let mut target = p.clone();
                target.append("?");
                target.append(q.as_str());
                Ok((p, target))
            },
            None => {
                let target = p.clone();
                Ok((p, target))
            },
        },
        None => Err("Malformed request path"),
    }
}

/// A status that can be answered with; 403 in place of one that cannot.
pub open spec fn valid_status(status: u16) -> u16 {
    if 100 <= status <= 999 {
        status
    } else {
        403
    }
}

/// The event of a decision.
pub open spec fn decision_event(
    c: CallerView,
    d: DecisionView,
    timestamp: Seq<char>,
) -> Option<AuditView> {
    let plain = audit::plain_event(
        timestamp,
        if d.result is Deny {
            "deny"@
        } else {
            "dry_run"@
        },
        c.peer,
        c.method,
        c.path,
        c.user_agent,
    );
    let told = AuditView {
        user_role: c.role,
        identity: c.identity,
        rule_name: d.rule_name,
        rule_action: d.action,
        ..plain
    };
    match d.result {
        ResultView::Deny { status, message } => Some(
            AuditView { status: valid_status(status), message: Some(message), ..told },
        ),
        ResultView::Allow => if d.dry_run && d.rule_name is Some {
            Some(AuditView { dry_run: true, ..told })
        } else {
            None
        },
    }
}

/// The answer to a request that a decision denies.
pub open spec fn decision_reply(d: DecisionView) -> Option<ReplyView> {
    match d.result {
        ResultView::Deny { status, message } => Some(
            ReplyView { status: valid_status(status), body: message },
        ),
        ResultView::Allow => None,
    }
}

/// What is counted of a decision.
pub open spec fn decision_counted(m: MetricsView, d: DecisionView) -> MetricsView {
    match d.result {
        ResultView::Deny { .. } => MetricsView {
            requests_denied: metrics::bumped(m.requests_denied),
            rate_limited_total: if d.action == Some("rate_limit"@) {
                metrics::bumped(m.rate_limited_total)
            } else {
                m.rate_limited_total
            },
            by_rule: match d.rule_name {
                Some(n) => metrics::counted_rule(m.by_rule, n, false),
                None => m.by_rule,
            },
            ..m
        },
        ResultView::Allow => if d.dry_run && d.rule_name is Some {
            MetricsView {
                requests_dry_run: metrics::bumped(m.requests_dry_run),
                by_rule: metrics::counted_rule(m.by_rule, d.rule_name->0, true),
                ..m
            }
        } else {
            m
        },
    }
}

fn event_of(
    kind: &'static str,
    c: &Caller,
    d: &Decision,
    timestamp: &str,
) -> (r: AuditEvent)
    ensures
        r@ == (AuditView {
            user_role: c@.role,
            identity: c@.identity,
            rule_name: d@.rule_name,
            rule_action: d@.action,
            ..audit::plain_event(timestamp@, kind@, c@.peer, c@.method, c@.path, c@.user_agent)
        }),
{
    let mut e = AuditEvent::at(
        timestamp.to_string(),
        kind,
        c.peer,
        c.method.as_str(),
        c.path.as_str(),
        c.user_agent.as_str(),
    );
    e.user_role = text::copy_opt(&c.role);
    e.identity = text::copy_opt(&c.identity);
    e.rule_name = text::copy_opt(&d.rule_name);
    e.rule_action = text::copy_opt(&d.action);
    e
}

/// Counts a decision, and gives the answer that it calls for and the event to record.
pub fn settle_decision(c: &Caller, d: &Decision, timestamp: &str, metrics: &mut Metrics) -> (r: (
    Option<Reply>,
    Option<AuditEvent>,
))
    requires
        old(metrics).wf(),
    ensures
        final(metrics).wf(),
        final(metrics)@ == decision_counted(old(metrics)@, d@),
        opt_reply(r.0) == decision_reply(d@),
        opt_event(r.1) == decision_event(c@, d@, timestamp@),
{
    match &d.result {
        RuleResult::Deny { status, message } => {
            metrics.requests_denied.increment();
            let limited = match &d.action {
                Some(a) => text::same(a.as_str(), "rate_limit"),
                None => false,
            };
            if limited {
                metrics.rate_limited_total.increment();
            }
            if let Some(n) = &d.rule_name {
                metrics.record_rule_deny(n.as_str(), false);
            }
            let code: u16 = if 100 <= *status && *status <= 999 {
                *status
            } else {
                403
            };
            let mut e = event_of("deny", c, d, timestamp);
            e.status = code;
            e.message = Some(message.clone());
            (Some(Reply { status: code, body: message.clone() }), Some(e))
        },
        RuleResult::Allow => {
            if d.dry_run {
                if let Some(n) = &d.rule_name {
                    metrics.requests_dry_run.increment();
                    metrics.record_rule_deny(n.as_str(), true);
                    let mut e = event_of("dry_run", c, d, timestamp);
                    e.dry_run = true;
                    return (None, Some(e));
                }
            }
            (None, None)
        },
    }
}

/// A request that the rules have yet to look at, or that is on its way to Docker.
pub struct Pending {
    pub caller: Caller,
    pub target: String,
    pub client_ip: String,
    pub rule_headers: Vec<RequestHeader>,
    pub forward: Vec<HeaderEntry>,
}

/// What a [`Pending`] stands for.
pub struct PendingView {
    pub caller: CallerView,
    pub target: Seq<char>,
    pub client_ip: Seq<char>,
    pub rule_headers: Seq<(Seq<char>, Seq<char>)>,
    pub forward: Seq<HeaderView>,
}

impl View for Pending {
    type V = PendingView;

    open spec fn view(&self) -> PendingView {
        PendingView {
            caller: self.caller@,
            target: self.target@,
            client_ip: self.client_ip@,
            rule_headers: conditions::request_headers(self.rule_headers@),
            forward: headers::header_list(self.forward@),
        }
    }
}

/// What to do with a request whose head has come in: answer it, show the metrics, forward it as
/// an upgrade, or read its body.
pub enum Step {
    Answer { reply: Reply, path: String, event: Option<AuditEvent> },
    ShowMetrics { body: String },
    Upgrade { pending: Pending, event: Option<AuditEvent> },
    ReadBody { pending: Pending },
}

/// What a [`Step`] stands for.
pub enum StepView {
    Answer { reply: ReplyView, path: Seq<char>, event: Option<AuditView> },
    ShowMetrics { body: Seq<char> },
    Upgrade { pending: PendingView, event: Option<AuditView> },
    ReadBody { pending: PendingView },
}

impl View for Step {
    type V = StepView;

    open spec fn view(&self) -> StepView {
        match self {
            Step::Answer { reply, path, event } => StepView::Answer {
                reply: reply@,
                path: path@,
                event: opt_event(*event),
            },
            Step::ShowMetrics { body } => StepView::ShowMetrics { body: body@ },
            Step::Upgrade { pending, event } => StepView::Upgrade {
                pending: pending@,
                event: opt_event(*event),
            },
            Step::ReadBody { pending } => StepView::ReadBody { pending: pending@ },
        }
    }
}

/// What the proxy keeps between requests.
pub struct StateView {
    pub buckets: Map<Seq<char>, Bucket>,
    pub auth: AuthState,
}

/// The networks of trusted proxies.
pub open spec fn trusted_networks(c: ProxyConfigView) -> Seq<addresses::Cidr> {
    match c.global {
        Some(g) => match g.trusted_proxies {
            Some(v) => addresses::cidrs_of(v),
            None => Seq::empty(),
        },
        None => Seq::empty(),
    }
}

/// The rules of a configuration.
pub open spec fn rules_of(c: ProxyConfigView) -> Seq<RuleView> {
    match c.rules {
        Some(v) => v,
        None => Seq::empty(),
    }
}

/// A request of a known sender, and what goes to Docker of it.
pub open spec fn pending_of(
    head: HeadView,
    c: ProxyConfigView,
    path: Seq<char>,
    target: Seq<char>,
    role: Option<Seq<char>>,
    identity: Option<Seq<char>>,
) -> PendingView {
    PendingView {
        caller: CallerView {
            peer: head.peer,
            method: head.method,
            path,
            user_agent: user_agent_of(head.headers),
            role,
            identity,
        },
        target,
        client_ip: addresses::ip_text(
            addresses::client_ip(head.peer, head.headers, trusted_networks(c)),
        ),
        rule_headers: forwarding::text_headers(head.headers),
        forward: forwarding::docker_headers(
            head.headers,
            if upgrade::asks_upgrade(head.headers) {
                Some(headers::first_text(head.headers, "upgrade"@))
            } else {
                None
            },
        ),
    }
}

/// What the rules look at.
pub open spec fn context_of(p: PendingView, body: Option<JsonView>) -> ContextView {
    ContextView {
        path: p.caller.path,
        method: p.caller.method,
        headers: p.rule_headers,
        client_ip: p.client_ip,
        body_json: body,
        user_role: p.caller.role,
    }
}

/// The state with other counters.
pub open spec fn with_metrics(s: StateView, m: MetricsView) -> StateView {
    StateView { auth: AuthState { metrics: m, ..s.auth }, ..s }
}

/// The path under which a malformed request is logged.
pub open spec fn logged_path(raw_path: Seq<char>) -> Seq<char> {
    match paths::canonical(raw_path) {
        Some(p) => p,
        None => raw_path,
    }
}

/// Whether the text of the client's address that the rules get is read as this address.
pub open spec fn rules_see_client(s: StepView, ip: IpAddress) -> bool {
    match s {
        StepView::Upgrade { pending, .. } => addresses::ip_parse(pending.client_ip) == Some(ip),
        StepView::ReadBody { pending } => addresses::ip_parse(pending.client_ip) == Some(ip),
        _ => true,
    }
}

/// What is done with a request of a known sender.
pub open spec fn known_caller_step(
    head: HeadView,
    c: ProxyConfigView,
    metrics_path: Option<Seq<char>>,
    p: PendingView,
    s: StateView,
    now: u64,
    timestamp: Seq<char>,
) -> (StepView, StateView) {
    if metrics_path == Some(p.caller.path) && head.method == "GET"@ {
        (StepView::ShowMetrics { body: metrics::prometheus_text(s.auth.metrics) }, s)
    } else if upgrade::asks_upgrade(head.headers) {
        let (d, buckets) = rules::rules_decision(rules_of(c), context_of(p, None), s.buckets, now);
        let event = decision_event(p.caller, d, timestamp);
        let counted = decision_counted(s.auth.metrics, d);
        let judged = StateView { buckets, ..s };
        match decision_reply(d) {
            Some(reply) => (
                StepView::Answer { reply, path: p.caller.path, event },
                with_metrics(judged, counted),
            ),
            None => (
                StepView::Upgrade { pending: p, event },
                with_metrics(
                    judged,
                    MetricsView {
                        requests_allowed: metrics::bumped(counted.requests_allowed),
                        ..counted
                    },
                ),
            ),
        }
    } else {
        (StepView::ReadBody { pending: p }, s)
    }
}

/// What is done with a request whose head has come in, and the state afterwards.
pub open spec fn first_step(
    head: HeadView,
    c: ProxyConfigView,
    env_secret: Seq<char>,
    metrics_path: Option<Seq<char>>,
    s: StateView,
    now: u64,
    timestamp: Seq<char>,
) -> (StepView, StateView) {
    let received = MetricsView {
        requests_total: metrics::bumped(s.auth.metrics.requests_total),
        ..s.auth.metrics
    };
    match target_of(head.raw_path, head.raw_query) {
        Err(e) => (
            StepView::Answer {
                reply: ReplyView { status: 400, body: e },
                path: logged_path(head.raw_path),
                event: None,
            },
            with_metrics(
                s,
                MetricsView {
                    bad_request_total: metrics::bumped(received.bad_request_total),
                    ..received
                },
            ),
        ),
        Ok((path, target)) => {
            let (outcome, after) = auth::auth_outcome(
                c,
                env_secret,
                head.headers,
                head.peer,
                head.cert,
                AuthState { metrics: received, ..s.auth },
                now,
            );
            let known = StateView { auth: after, ..s };
            match outcome {
                OutcomeView::Denied { status, message } => (
                    StepView::Answer {
                        reply: ReplyView { status, body: message },
                        path,
                        event: Some(
                            AuditView {
                                status,
                                message: Some(message),
                                ..audit::plain_event(
                                    timestamp,
                                    "auth_denied"@,
                                    head.peer,
                                    head.method,
                                    path,
                                    user_agent_of(head.headers),
                                )
                            },
                        ),
                    },
                    with_metrics(
                        known,
                        MetricsView {
                            requests_denied: metrics::bumped(after.metrics.requests_denied),
                            ..after.metrics
                        },
                    ),
                ),
                OutcomeView::Allowed { role, identity } => known_caller_step(
                    head,
                    c,
                    metrics_path,
                    pending_of(head, c, path, target, role, identity),
                    known,
                    now,
                    timestamp,
                ),
            }
        },
    }
}

fn read_trusted_networks(config: &ProxyConfig) -> (r: Vec<addresses::Cidr>)
    ensures
        r@ == trusted_networks(config@),
        addresses::valid_cidrs(r@),
{
    match &config.global {
        Some(g) => match &g.trusted_proxies {
            Some(v) => addresses::parse_trusted_proxies(v),
            None => Vec::new(),
        },
        None => Vec::new(),
    }
}

/// What a client says that it is.
pub fn user_agent(h: &Vec<HeaderEntry>) -> (r: String)
    ensures
        r@ == user_agent_of(headers::header_list(h@)),
{
    match headers::first_header_string(h, "user-agent") {
        Some(t) => t,
        None => "-".to_string(),
    }
}

fn make_pending(
    head: &RequestHead,
    config: &ProxyConfig,
    path: String,
    target: String,
    role: Option<String>,
    identity: Option<String>,
) -> (r: Pending)
    ensures
        r@ == pending_of(
            head@,
            config@,
            path@,
            target@,
            text::opt_text(role),
            text::opt_text(identity),
        ),
        addresses::ip_parse(r.client_ip@) == Some(
            addresses::client_ip(head@.peer, head@.headers, trusted_networks(config@)),
        ),
{
    let trusted = read_trusted_networks(config);
    let ip = addresses::compute_client_ip(&head.peer, &head.headers, &trusted);
    let wanted = if upgrade::entries_ask_upgrade(&head.headers) {
        Some(headers::first_header_string(&head.headers, "upgrade"))
    } else {
        None
    };
    Pending {
        caller: Caller {
            peer: head.peer,
            method: head.method.clone(),
            path,
            user_agent: user_agent(&head.headers),
            role,
            identity,
        },
        target,
        client_ip: addresses::ip_to_string(ip),
        rule_headers: forwarding::headers_for_rules(&head.headers),
        forward: forwarding::request_headers_for_docker(&head.headers, &wanted),
    }
}

fn copy_headers(v: &Vec<RequestHeader>) -> (r: Vec<RequestHeader>)
    ensures
        conditions::request_headers(r@) == conditions::request_headers(v@),
{
    let mut out: Vec<RequestHeader> = Vec::new();
    let ghost list = conditions::request_headers(v@);
    let mut i: usize = 0;
    while i < v.len()
        invariant
            i <= v@.len(),
            list == conditions::request_headers(v@),
            conditions::request_headers(out@) == list.take(i as int),
        decreases v@.len() - i,
    {
        let ghost before = out@;
        out.push(RequestHeader { name: v[i].name.clone(), value: v[i].value.clone() });
        assert(conditions::request_headers(out@) =~= conditions::request_headers(before).push(
            list[i as int],
        ));
        assert(list.take(i + 1) =~= list.take(i as int).push(list[i as int]));
        i += 1;
    }
    assert(list.take(i as int) =~= list);
    out
}

fn make_context(p: &Pending, body: Option<JsonValue>) -> (r: EvaluationContext)
    ensures
        r@ == context_of(p@, json::opt_json(body)),
{
    EvaluationContext {
        path: p.caller.path.clone(),
        method: p.caller.method.clone(),
        headers: copy_headers(&p.rule_headers),
        client_ip: p.client_ip.clone(),
        body_json: body,
        user_role: text::copy_opt(&p.caller.role),
    }
}

fn decide(
    config: &ProxyConfig,
    ctx: &EvaluationContext,
    limiter: &mut RateLimiter,
    now: u64,
) -> (d: Decision)
    requires
        old(limiter).wf(),
    ensures
        final(limiter).wf(),
        (d@, final(limiter)@) == rules::rules_decision(
            rules_of(config@),
            ctx@,
            old(limiter)@,
            now,
        ),
{
    match &config.rules {
        Some(v) => rules::evaluate_request_detailed(v, ctx, limiter, now),
        None => {
            let none: Vec<Rule> = Vec::new();
            assert(config::rule_list(none@) =~= Seq::<RuleView>::empty());
            rules::evaluate_request_detailed(&none, ctx, limiter, now)
        },
    }
}

/// Says what to do with a request whose head has come in: refuses it where its path or query is
/// malformed or its sender is not authenticated, shows the metrics, lets the rules judge an
/// upgrade, or asks for the body.
pub fn begin(
    head: &RequestHead,
    config: &ProxyConfig,
    env_secret: &str,
    metrics_path: &Option<String>,
    limiter: &mut RateLimiter,
    auth_limiter: &mut AuthLimiter,
    metrics: &mut Metrics,
    now: u64,
    timestamp: &str,
) -> (r: Step)
    requires
        old(limiter).wf(),
        old(auth_limiter).wf(),
        old(metrics).wf(),
    ensures
        final(limiter).wf(),
        final(auth_limiter).wf(),
        final(metrics).wf(),
        (
            r@,
            StateView {
                buckets: final(limiter)@,
                auth: AuthState { limiter: final(auth_limiter)@, metrics: final(metrics)@ },
            },
        ) == first_step(
            head@,
            config@,
            env_secret@,
            text::opt_text(*metrics_path),
            StateView {
                buckets: old(limiter)@,
                auth: AuthState { limiter: old(auth_limiter)@, metrics: old(metrics)@ },
            },
            now,
            timestamp@,
        ),
        rules_see_client(
            r@,
            addresses::client_ip(head@.peer, head@.headers, trusted_networks(config@)),
        ),
{
    metrics.requests_total.increment();
    let (path, target) = match request_target(head.raw_path.as_str(), &head.raw_query) {
        Ok(x) => x,
        Err(e) => {
            metrics.bad_request_total.increment();
            let path = match paths::canonicalize_path(head.raw_path.as_str()) {
                Some(p) => p,
                None => head.raw_path.clone(),
            };
            return Step::Answer {
                reply: Reply { status: 400, body: e.to_string() },
                path,
                event: None,
            };
        },
    };
    let cert = match &head.cert {
        Some(c) => Some(c),
        None => None,
    };
    let outcome = auth::authenticate(
        config,
        env_secret,
        &head.headers,
        head.peer,
        cert,
        auth_limiter,
        metrics,
        now,
    );
    let (role, identity) = match outcome {
        AuthOutcome::Allowed { role, identity } => (role, identity),
        AuthOutcome::Denied { status, message } => {
            metrics.requests_denied.increment();
            let agent = user_agent(&head.headers);
            let mut e = AuditEvent::at(
                timestamp.to_string(),
                "auth_denied",
                head.peer,
                head.method.as_str(),
                path.as_str(),
                agent.as_str(),
            );
            e.status = status;
            e.message = Some(message.to_string());
            return Step::Answer {
                reply: Reply { status, body: message.to_string() },
                path,
                event: Some(e),
            };
        },
    };
    let shows = match metrics_path {
        Some(m) => text::same(m.as_str(), path.as_str()) && text::same(head.method.as_str(), "GET"),
        None => false,
    };
    if shows {
        return Step::ShowMetrics { body: metrics.render_prometheus() };
    }
    let pending = make_pending(head, config, path, target, role, identity);
    if upgrade::entries_ask_upgrade(&head.headers) {
        let ctx = make_context(&pending, None);
        let d = decide(config, &ctx, limiter, now);
        let (reply, event) = settle_decision(&pending.caller, &d, timestamp, metrics);
        return match reply {
            Some(reply) => Step::Answer { reply, path: pending.caller.path, event },
            None => {
                metrics.requests_allowed.increment();
                Step::Upgrade { pending, event }
            },
        };
    }
    Step::ReadBody { pending }
}

/// Whether a path is that of an endpoint whose body must be JSON: creating a container, or
/// updating one.
pub open spec fn requires_json(path: Seq<char>) -> bool {
    ||| path == "/containers/create"@
    ||| {
        &&& text::begins_with(path, "/containers/"@)
        &&& text::finishes_with(path, "/update"@)
        &&& path.len() > 19
        &&& !path.subrange(12, path.len() - 7).contains('/')
    }
}

/// Whether a path is that of an endpoint whose body must be JSON.
pub fn requires_json_body(path: &str) -> (r: bool)
    ensures
        r == requires_json(path@),
{
    if text::same(path, "/containers/create") {
        return true;
    }
    let c = text::chars_of(path);
    let head = text::chars_of("/containers/");
    let tail = text::chars_of("/update");
    if c.len() <= 19 || !text::has_prefix(c.as_slice(), head.as_slice()) || !text::has_suffix(
        c.as_slice(),
        tail.as_slice(),
    ) {
        return false;
    }
    let id = slice_subrange(c.as_slice(), 12, c.len() - 7);
    let slash: usize = text::position_of(id, '/');
    proof {
        text::lemma_find_char(id@, '/');
        if slash < id@.len() {
            assert(id@[slash as int] == '/');
            assert(id@.contains('/'));
        } else if id@.contains('/') {
            let k = choose|k: int| 0 <= k < id@.len() && id@[k] == '/';
            assert(id@[k] != '/');
        }
    }
    slash >= id.len()
}

/// The JSON value of a body that was read as `parsed`, or why the body is refused. What is no JSON
/// counts as none, unless the endpoint requires it.
pub open spec fn accepted_value(path: Seq<char>, parsed: Result<JsonView, Seq<char>>) -> Result<
    Option<JsonView>,
    Seq<char>,
> {
    match parsed {
        Ok(v) => Ok(Some(v)),
        Err(e) => if requires_json(path) {
            Err("Request body must be valid JSON for this endpoint: "@ + e)
        } else {
            Ok(None)
        },
    }
}

/// The JSON value of a body, or why it is refused. An empty body has none.
pub open spec fn body_value(path: Seq<char>, body: Seq<u8>) -> Result<Option<JsonView>, Seq<char>> {
    if body.len() == 0 {
        Ok(None)
    } else {
        accepted_value(path, json::json_parse(body))
    }
}

/// The JSON value of a body that was read as `parsed`, or why the body is refused.
pub fn accept_value(path: &str, parsed: Result<JsonValue, String>) -> (r: Result<
    Option<JsonValue>,
    String,
>)
    ensures
        match r {
            Ok(v) => accepted_value(path@, json::parsed_json(parsed)) == Ok::<
                Option<JsonView>,
                Seq<char>,
            >(json::opt_json(v)),
            Err(e) => accepted_value(path@, json::parsed_json(parsed)) == Err::<
                Option<JsonView>,
                Seq<char>,
            >(e@),
        },
{
    match parsed {
        Ok(v) => Ok(Some(v)),
        Err(e) => {
            if requires_json_body(path) {
                let mut message = "Request body must be valid JSON for this endpoint: ".to_string();
                message.append(e.as_str());
                Err(message)
            } else {
                Ok(None)
            }
        },
    }
}

/// The JSON value of a body, or why it is refused.
pub fn read_body_value(path: &str, body: &[u8]) -> (r: Result<Option<JsonValue>, String>)
    ensures
        match r {
            Ok(v) => body_value(path@, body@) == Ok::<Option<JsonView>, Seq<char>>(
                json::opt_json(v),
            ),
            Err(e) => body_value(path@, body@) == Err::<Option<JsonView>, Seq<char>>(e@),
        },
{
    if body.len() == 0 {
        return Ok(None);
    }
    accept_value(path, json::parse_json(body))
}

/// How reading the body of a request ended.
pub enum BodyRead {
    Complete { bytes: Vec<u8> },
    TooLarge,
    Failed,
    TimedOut,
}

/// What to do with a request whose body has been read: answer it, or forward it and apply the
/// filters to what comes back.
pub enum Verdict {
    Answer { reply: Reply, path: String, event: Option<AuditEvent> },
    Forward {
        pending: Pending,
        body: Vec<u8>,
        filters: Vec<ResponseFilterEntry>,
        event: Option<AuditEvent>,
    },
}

/// What a [`Verdict`] stands for.
pub enum VerdictView {
    Answer { reply: ReplyView, path: Seq<char>, event: Option<AuditView> },
    Forward {
        pending: PendingView,
        body: Seq<u8>,
        filters: Seq<FilterView>,
        event: Option<AuditView>,
    },
}

impl View for Verdict {
    type V = VerdictView;

    open spec fn view(&self) -> VerdictView {
        match self {
            Verdict::Answer { reply, path, event } => VerdictView::Answer {
                reply: reply@,
                path: path@,
                event: opt_event(*event),
            },
            Verdict::Forward { pending, body, filters, event } => VerdictView::Forward {
                pending: pending@,
                body: body@,
                filters: config::filter_list(filters@),
                event: opt_event(*event),
            },
        }
    }
}

/// An answer without an event.
pub open spec fn plain_answer(status: u16, body: Seq<char>, path: Seq<char>) -> VerdictView {
    VerdictView::Answer { reply: ReplyView { status, body }, path, event: None }
}

/// What the rules make of a request, and the buckets and counters afterwards.
pub open spec fn judged_step(
    p: PendingView,
    c: ProxyConfigView,
    body: Seq<u8>,
    value: Option<JsonView>,
    buckets: Map<Seq<char>, Bucket>,
    m: MetricsView,
    now: u64,
    timestamp: Seq<char>,
) -> (VerdictView, Map<Seq<char>, Bucket>, MetricsView) {
    let ctx = context_of(p, value);
    let (d, after) = rules::rules_decision(rules_of(c), ctx, buckets, now);
    let event = decision_event(p.caller, d, timestamp);
    let verdict = match decision_reply(d) {
        Some(reply) => VerdictView::Answer { reply, path: p.caller.path, event },
        None => VerdictView::Forward {
            pending: p,
            body,
            filters: rules::filters_for(rules_of(c), ctx),
            event,
        },
    };
    (verdict, after, decision_counted(m, d))
}

/// What is done with a request whose body has been read, and the buckets and counters afterwards.
pub open spec fn body_step(
    p: PendingView,
    c: ProxyConfigView,
    read: BodyRead,
    buckets: Map<Seq<char>, Bucket>,
    m: MetricsView,
    now: u64,
    timestamp: Seq<char>,
) -> (VerdictView, Map<Seq<char>, Bucket>, MetricsView) {
    let path = p.caller.path;
    match read {
        BodyRead::Complete { bytes } => match body_value(path, bytes@) {
            Ok(value) => judged_step(p, c, bytes@, value, buckets, m, now, timestamp),
            Err(e) => (
                plain_answer(400, e, path),
                buckets,
                MetricsView { bad_request_total: metrics::bumped(m.bad_request_total), ..m },
            ),
        },
        BodyRead::TooLarge => (
            plain_answer(413, "Request body too large"@, path),
            buckets,
            MetricsView { body_too_large_total: metrics::bumped(m.body_too_large_total), ..m },
        ),
        BodyRead::Failed => (
            plain_answer(400, "Request body invalid"@, path),
            buckets,
            MetricsView { bad_request_total: metrics::bumped(m.bad_request_total), ..m },
        ),
        BodyRead::TimedOut => (
            plain_answer(408, "Request body read timeout"@, path),
            buckets,
            MetricsView { request_timeouts_total: metrics::bumped(m.request_timeouts_total), ..m },
        ),
    }
}

fn answer(status: u16, body: &str, path: String) -> (r: Verdict)
    ensures
        r@ == plain_answer(status, body@, path@),
{
    Verdict::Answer { reply: Reply { status, body: body.to_string() }, path, event: None }
}

/// Lets the rules judge a request, given the JSON value of its body.
pub fn judge_value(
    pending: Pending,
    config: &ProxyConfig,
    body: Vec<u8>,
    value: Option<JsonValue>,
    limiter: &mut RateLimiter,
    metrics: &mut Metrics,
    now: u64,
    timestamp: &str,
) -> (r: Verdict)
    requires
        old(limiter).wf(),
        old(metrics).wf(),
    ensures
        final(limiter).wf(),
        final(metrics).wf(),
        (r@, final(limiter)@, final(metrics)@) == judged_step(
            pending@,
            config@,
            body@,
            json::opt_json(value),
            old(limiter)@,
            old(metrics)@,
            now,
            timestamp@,
        ),
{
    let ctx = make_context(&pending, value);
    let d = decide(config, &ctx, limiter, now);
    let (reply, event) = settle_decision(&pending.caller, &d, timestamp, metrics);
    match reply {
        Some(reply) => Verdict::Answer { reply, path: pending.caller.path, event },
        None => {
            let filters = match &config.rules {
                Some(v) => rules::collect_response_filters(v, &ctx),
                None => Vec::new(),
            };
            assert(config::filter_list(filters@) =~= rules::filters_for(rules_of(config@), ctx@));
            Verdict::Forward { pending, body, filters, event }
        },
    }
}

/// Says what to do with a request whose body has been read: refuses it where the body could not be
/// read or is not what the endpoint requires, else lets the rules judge it.
pub fn judge(
    pending: Pending,
    config: &ProxyConfig,
    read: BodyRead,
    limiter: &mut RateLimiter,
    metrics: &mut Metrics,
    now: u64,
    timestamp: &str,
) -> (r: Verdict)
    requires
        old(limiter).wf(),
        old(metrics).wf(),
    ensures
        final(limiter).wf(),
        final(metrics).wf(),
        (r@, final(limiter)@, final(metrics)@) == body_step(
            pending@,
            config@,
            read,
            old(limiter)@,
            old(metrics)@,
            now,
            timestamp@,
        ),
{
    match read {
        BodyRead::Complete { bytes } => {
            match read_body_value(pending.caller.path.as_str(), bytes.as_slice()) {
                Ok(value) => judge_value(
                    pending,
                    config,
                    bytes,
                    value,
                    limiter,
                    metrics,
                    now,
                    timestamp,
                ),
                Err(e) => {
                    metrics.bad_request_total.increment();
                    answer(400, e.as_str(), pending.caller.path)
                },
            }
        },
        BodyRead::TooLarge => {
            metrics.body_too_large_total.increment();
            answer(413, "Request body too large", pending.caller.path)
        },
        BodyRead::Failed => {
            metrics.bad_request_total.increment();
            answer(400, "Request body invalid", pending.caller.path)
        },
        BodyRead::TimedOut => {
            metrics.request_timeouts_total.increment();
            answer(408, "Request body read timeout", pending.caller.path)
        },
    }
}

/// What can go wrong on the way to Docker and back.
#[derive(Debug, Clone, Copy, PartialEq, Eq, Structural)]
pub enum UpstreamFailure {
    ConnectFailed,
    ConnectTimedOut,
    HandshakeFailed,
    RequestInvalid,
    RequestFailed,
    RequestTimedOut,
    ResponseFailed,
    ResponseTimedOut,
    ResponseInvalid,
    UpgradeRefusalInvalid,
    UpgradeResponseInvalid,
}

/// Whether a failure is one of Docker's.
pub open spec fn is_upstream_error(f: UpstreamFailure) -> bool {
    f == UpstreamFailure::ConnectFailed || f == UpstreamFailure::HandshakeFailed || f
        == UpstreamFailure::RequestFailed || f == UpstreamFailure::ResponseFailed
}

/// Whether a failure is that Docker took too long.
pub open spec fn is_upstream_timeout(f: UpstreamFailure) -> bool {
    f == UpstreamFailure::ConnectTimedOut || f == UpstreamFailure::RequestTimedOut || f
        == UpstreamFailure::ResponseTimedOut
}

/// The text of the answer after a failure.
pub open spec fn failure_text(f: UpstreamFailure) -> Seq<char> {
    match f {
        UpstreamFailure::ConnectFailed => "docker socket unavailable"@,
        UpstreamFailure::ConnectTimedOut => "docker socket connect timeout"@,
        UpstreamFailure::HandshakeFailed => "docker handshake failed"@,
        UpstreamFailure::RequestInvalid => "failed to build upstream request"@,
        UpstreamFailure::RequestFailed => "docker request failed"@,
        UpstreamFailure::RequestTimedOut => "docker upstream timeout"@,
        UpstreamFailure::ResponseFailed => "failed to read docker response"@,
        UpstreamFailure::ResponseTimedOut => "docker response timeout"@,
        UpstreamFailure::ResponseInvalid => "failed to build response"@,
        UpstreamFailure::UpgradeRefusalInvalid => "upgrade rejected"@,
        UpstreamFailure::UpgradeResponseInvalid => "upgrade response build failed"@,
    }
}

/// The answer after a failure: 504 where Docker took too long, else 502.
pub open spec fn failure_reply(f: UpstreamFailure) -> ReplyView {
    ReplyView {
        status: if is_upstream_timeout(f) {
            504
        } else {
            502
        },
        body: failure_text(f),
    }
}

/// What is counted of a failure.
pub open spec fn failure_counted(m: MetricsView, f: UpstreamFailure) -> MetricsView {
    if is_upstream_error(f) {
        MetricsView { upstream_errors_total: metrics::bumped(m.upstream_errors_total), ..m }
    } else if is_upstream_timeout(f) {
        MetricsView { upstream_timeouts_total: metrics::bumped(m.upstream_timeouts_total), ..m }
    } else {
        m
    }
}

/// Counts a failure on the way to Docker and back, and gives the answer.
pub fn upstream_failed(f: UpstreamFailure, metrics: &mut Metrics) -> (r: Reply)
    requires
        old(metrics).wf(),
    ensures
        final(metrics).wf(),
        final(metrics)@ == failure_counted(old(metrics)@, f),
        r@ == failure_reply(f),
{
    let (status, body): (u16, &'static str) = match f {
        UpstreamFailure::ConnectFailed => (502, "docker socket unavailable"),
        UpstreamFailure::ConnectTimedOut => (504, "docker socket connect timeout"),
        UpstreamFailure::HandshakeFailed => (502, "docker handshake failed"),
        UpstreamFailure::RequestInvalid => (502, "failed to build upstream request"),
        UpstreamFailure::RequestFailed => (502, "docker request failed"),
        UpstreamFailure::RequestTimedOut => (504, "docker upstream timeout"),
        UpstreamFailure::ResponseFailed => (502, "failed to read docker response"),
        UpstreamFailure::ResponseTimedOut => (504, "docker response timeout"),
        UpstreamFailure::ResponseInvalid => (502, "failed to build response"),
        UpstreamFailure::UpgradeRefusalInvalid => (502, "upgrade rejected"),
        UpstreamFailure::UpgradeResponseInvalid => (502, "upgrade response build failed"),
    };
    match f {
        UpstreamFailure::ConnectFailed | UpstreamFailure::HandshakeFailed
        | UpstreamFailure::RequestFailed | UpstreamFailure::ResponseFailed => {
            metrics.upstream_errors_total.increment();
        },
        UpstreamFailure::ConnectTimedOut | UpstreamFailure::RequestTimedOut
        | UpstreamFailure::ResponseTimedOut => {
            metrics.upstream_timeouts_total.increment();
        },
        _ => {},
    }
    Reply { status, body: body.to_string() }
}

/// An answer of Docker, or one to the client.
pub struct Message {
    pub status: u16,
    pub headers: Vec<HeaderEntry>,
    pub body: Vec<u8>,
}

/// What a [`Message`] stands for.
pub struct MessageView {
    pub status: u16,
    pub headers: Seq<HeaderView>,
    pub body: Seq<u8>,
}

impl View for Message {
    type V = MessageView;

    open spec fn view(&self) -> MessageView {
        MessageView {
            status: self.status,
            headers: headers::header_list(self.headers@),
            body: self.body@,
        }
    }
}

/// The content type of an answer.
pub open spec fn content_type_of(h: Seq<HeaderView>) -> Seq<char> {
    match headers::first_text(h, "content-type"@) {
        Some(t) => t,
        None => "application/octet-stream"@,
    }
}

/// The headers of an answer to the client: those of Docker that pass, and a content type where
/// Docker gave none.
pub open spec fn client_headers(h: Seq<HeaderView>) -> Seq<HeaderView> {
    let passed = forwarding::passing(Passage::ToClient, h);
    if headers::values_of(h, "content-type"@).len() > 0 {
        passed
    } else {
        passed.push(forwarding::text_header("content-type"@, "application/octet-stream"@))
    }
}

/// The answer to the client: Docker's, with the filters applied to a body of JSON.
pub open spec fn client_message(m: MessageView, filters: Seq<FilterView>) -> MessageView {
    MessageView {
        status: m.status,
        headers: client_headers(m.headers),
        body: if text::contains_text(content_type_of(m.headers), "application/json"@) {
            rules::filtered_body(filters, m.body)
        } else {
            m.body
        },
    }
}

/// Makes the answer to the client of Docker's, and counts it with the time that it took.
pub fn finish_response(
    upstream: Message,
    filters: &Vec<ResponseFilterEntry>,
    elapsed_ms: u64,
    metrics: &mut Metrics,
) -> (r: Message)
    requires
        old(metrics).wf(),
        old(metrics)@.latency.count < u64::MAX,
    ensures
        final(metrics).wf(),
        final(metrics)@ == (MetricsView {
            requests_allowed: metrics::bumped(old(metrics)@.requests_allowed),
            latency: metrics::observed(old(metrics)@.latency, elapsed_ms),
            ..old(metrics)@
        }),
        r@ == client_message(upstream@, config::filter_list(filters@)),
        text::contains_text(content_type_of(upstream@.headers), "application/json"@)
            ==> rules::reads_as_filtered(config::filter_list(filters@), upstream@.body, r@.body),
{
    metrics.observe_upstream_latency_ms(elapsed_ms);
    metrics.requests_allowed.increment();
    let kind = match headers::first_header_text(&upstream.headers, "content-type") {
        Some(t) => t,
        None => text::chars_of("application/octet-stream"),
    };
    let is_json = text::has_text(
        kind.as_slice(),
        text::chars_of("application/json").as_slice(),
    );
    let mut passed = forwarding::passing_headers(Passage::ToClient, &upstream.headers);
    if headers::positions_of(&upstream.headers, "content-type").len() == 0 {
        let ghost before = passed@;
        passed.push(forwarding::make_header("content-type", "application/octet-stream"));
        assert(headers::header_list(passed@) =~= headers::header_list(before).push(
            forwarding::text_header("content-type"@, "application/octet-stream"@),
        ));
    }
    let body = if is_json {
        rules::apply_response_filters(filters, upstream.body.as_slice())
    } else {
        upstream.body
    };
    Message { status: upstream.status, headers: passed, body }
}

/// Whether Docker's answer to an upgrade accepts it: 101, Switching Protocols.
pub fn upgrade_accepted(status: u16) -> (r: bool)
    ensures
        r == (status == 101),
{
    status == 101
}

/// Makes the answer to a client whose upgrade Docker did not accept.
pub fn refuse_upgrade(upstream: Message) -> (r: Message)
    ensures
        r@ == (MessageView {
            headers: forwarding::passing(Passage::ToClient, upstream@.headers),
            ..upstream@
        }),
{
    let passed = forwarding::passing_headers(Passage::ToClient, &upstream.headers);
    Message { status: upstream.status, headers: passed, body: upstream.body }
}

/// Makes the headers of the answer to a client whose upgrade Docker accepted, and counts it.
pub fn accept_upgrade(h: &Vec<HeaderEntry>, metrics: &mut Metrics) -> (r: Vec<HeaderEntry>)
    requires
        old(metrics).wf(),
    ensures
        final(metrics).wf(),
        final(metrics)@ == (MetricsView {
            upgrade_total: metrics::bumped(old(metrics)@.upgrade_total),
            ..old(metrics)@
        }),
        headers::header_list(r@) == forwarding::passing(
            Passage::OnUpgrade,
            headers::header_list(h@),
        ),
{
    metrics.upgrade_total.increment();
    forwarding::passing_headers(Passage::OnUpgrade, h)
}

/// A request that is malformed, or whose sender is not authenticated, is answered without a look
/// at the rules or the buckets.
pub proof fn law_rules_see_authenticated_requests_only(
    head: HeadView,
    c: ProxyConfigView,
    env_secret: Seq<char>,
    metrics_path: Option<Seq<char>>,
    s: StateView,
    now: u64,
    timestamp: Seq<char>,
)
    requires
        target_of(head.raw_path, head.raw_query) is Err || auth::auth_outcome(
            c,
            env_secret,
            head.headers,
            head.peer,
            head.cert,
            AuthState {
                metrics: MetricsView {
                    requests_total: metrics::bumped(s.auth.metrics.requests_total),
                    ..s.auth.metrics
                },
                ..s.auth
            },
            now,
        ).0 is Denied,
    ensures
        first_step(head, c, env_secret, metrics_path, s, now, timestamp).0 is Answer,
        first_step(head, c, env_secret, metrics_path, s, now, timestamp).1.buckets == s.buckets,
{
}

/// Every request is counted, whatever becomes of it.
pub proof fn law_every_request_is_counted(
    head: HeadView,
    c: ProxyConfigView,
    env_secret: Seq<char>,
    metrics_path: Option<Seq<char>>,
    s: StateView,
    now: u64,
    timestamp: Seq<char>,
)
    ensures
        first_step(
            head,
            c,
            env_secret,
            metrics_path,
            s,
            now,
            timestamp,
        ).1.auth.metrics.requests_total == metrics::bumped(s.auth.metrics.requests_total),
{
}

/// What goes to Docker is a canonical path.
pub proof fn law_forwarded_paths_are_canonical(
    raw_path: Seq<char>,
    raw_query: Option<Seq<char>>,
)
    ensures
        match target_of(raw_path, raw_query) {
            Ok((path, target)) => paths::canonical(raw_path) == Some(path) && text::begins_with(
                target,
                path,
            ),
            Err(_) => true,
        },
{
    if let Ok((path, target)) = target_of(raw_path, raw_query) {
        assert(target.subrange(0, path.len() as int) =~= path);
    }
}

/// A request that a rule denies is answered and recorded, and never forwarded.
pub proof fn law_denied_requests_are_not_forwarded(
    p: PendingView,
    c: ProxyConfigView,
    bytes: Seq<u8>,
    value: Option<JsonView>,
    buckets: Map<Seq<char>, Bucket>,
    m: MetricsView,
    now: u64,
    timestamp: Seq<char>,
)
    requires
        rules::rules_decision(rules_of(c), context_of(p, value), buckets, now).0.result is Deny,
    ensures
        match judged_step(p, c, bytes, value, buckets, m, now, timestamp).0 {
            VerdictView::Answer { reply, path, event } => event is Some && event->0.event
                == "deny"@ && event->0.status == reply.status && event->0.message == Some(
                reply.body,
            ),
            _ => false,
        },
{
}

/// A request that a rule only watches is forwarded, recorded as a dry run and counted.
pub proof fn law_watched_requests_are_forwarded_and_recorded(
    p: PendingView,
    c: ProxyConfigView,
    bytes: Seq<u8>,
    value: Option<JsonView>,
    buckets: Map<Seq<char>, Bucket>,
    m: MetricsView,
    now: u64,
    timestamp: Seq<char>,
)
    requires
        ({
            let d = rules::rules_decision(rules_of(c), context_of(p, value), buckets, now).0;
            d.dry_run && d.rule_name is Some && d.result is Allow
        }),
    ensures
        ({
            let d = rules::rules_decision(rules_of(c), context_of(p, value), buckets, now).0;
            let (verdict, _, after) = judged_step(p, c, bytes, value, buckets, m, now, timestamp);
            &&& after.requests_dry_run == metrics::bumped(m.requests_dry_run)
            &&& after.by_rule == metrics::counted_rule(m.by_rule, d.rule_name->0, true)
            &&& match verdict {
                VerdictView::Forward { pending, body, event, .. } => pending == p && body == bytes
                    && event is Some && event->0.event == "dry_run"@ && event->0.dry_run
                    && event->0.rule_name == d.rule_name,
                _ => false,
            }
        }),
{
}

/// A request whose sender is not authenticated is recorded with the answer that it gets.
pub proof fn law_unauthenticated_requests_are_recorded(
    head: HeadView,
    c: ProxyConfigView,
    env_secret: Seq<char>,
    metrics_path: Option<Seq<char>>,
    s: StateView,
    now: u64,
    timestamp: Seq<char>,
)
    requires
        target_of(head.raw_path, head.raw_query) is Ok,
        auth::auth_outcome(
            c,
            env_secret,
            head.headers,
            head.peer,
            head.cert,
            AuthState {
                metrics: MetricsView {
                    requests_total: metrics::bumped(s.auth.metrics.requests_total),
                    ..s.auth.metrics
                },
                ..s.auth
            },
            now,
        ).0 is Denied,
    ensures
        match first_step(head, c, env_secret, metrics_path, s, now, timestamp).0 {
            StepView::Answer { reply, path, event } => event is Some && event->0.event
                == "auth_denied"@ && event->0.status == reply.status && event->0.message == Some(
                reply.body,
            ) && event->0.path == path && event->0.peer_ip == addresses::ip_text(head.peer),
            _ => false,
        },
{
}

/// The target of a request: its canonical path, with the query behind it where there is one. What
/// is malformed is told apart.
pub proof fn law_target_of_a_request(raw_path: Seq<char>, q: Seq<char>, p: Seq<char>)
    ensures
        paths::canonical(raw_path) is None ==> target_of(raw_path, None) == Err::<
            (Seq<char>, Seq<char>),
            Seq<char>,
        >("Malformed request path"@) && target_of(raw_path, Some(q)) == Err::<
            (Seq<char>, Seq<char>),
            Seq<char>,
        >("Malformed request path"@),
        paths::canonical(raw_path) == Some(p) ==> {
            &&& target_of(raw_path, None) == Ok::<(Seq<char>, Seq<char>), Seq<char>>((p, p))
            &&& paths::query_accepted(q) ==> target_of(raw_path, Some(q)) == Ok::<
                (Seq<char>, Seq<char>),
                Seq<char>,
            >((p, p + seq!['?'] + q))
            &&& !paths::query_accepted(q) ==> target_of(raw_path, Some(q)) == Err::<
                (Seq<char>, Seq<char>),
                Seq<char>,
            >("Malformed query string"@)
        },
{
    reveal_strlit("?");
    assert("?"@ =~= seq!['?']);
}

/// A status of three digits is kept, any other becomes 403.
pub proof fn law_status_of_a_denial(status: u16)
    ensures
        100 <= status <= 999 ==> valid_status(status) == status,
        status < 100 || status > 999 ==> valid_status(status) == 403,
{
}

/// A denial is answered with its status and message and recorded with the caller, the rule and its
/// action; what a rule would have denied is recorded and not answered; nothing else is recorded
/// or answered.
pub proof fn law_decisions_are_answered_and_recorded(
    c: CallerView,
    d: DecisionView,
    timestamp: Seq<char>,
)
    ensures
        d.result is Deny ==> decision_reply(d) is Some && decision_reply(d)->0.body
            == d.result->message && decision_reply(d)->0.status == valid_status(d.result->status),
        d.result is Allow ==> decision_reply(d) is None,
        decision_event(c, d, timestamp) is Some <==> d.result is Deny || (d.dry_run && d.rule_name
            is Some),
        decision_event(c, d, timestamp) matches Some(e) ==> {
            &&& d.result is Deny ==> e.event == "deny"@ && e.status == valid_status(
                d.result->status,
            ) && e.message == Some(d.result->message) && !e.dry_run
            &&& d.result is Allow ==> e.event == "dry_run"@ && e.status == 0 && e.message is None
                && e.dry_run
            &&& e.timestamp == timestamp
            &&& e.peer_ip == addresses::ip_text(c.peer)
            &&& e.method == c.method && e.path == c.path && e.user_agent == c.user_agent
            &&& e.user_role == c.role && e.identity == c.identity
            &&& e.rule_name == d.rule_name && e.rule_action == d.action
        },
{
}

/// What is counted of a decision: a denial as one more that is denied, and as one more that is
/// limited where a rate limit denied it; what a rule would have denied as one more of these; both
/// under the rule's name. Nothing else changes.
pub proof fn law_decisions_are_counted(m: MetricsView, d: DecisionView, rule: Seq<char>)
    ensures
        ({
            let after = decision_counted(m, d);
            let watched = d.result is Allow && d.dry_run && d.rule_name is Some;
            &&& d.result is Deny ==> after.requests_denied == metrics::bumped(m.requests_denied)
            &&& !(d.result is Deny) ==> after.requests_denied == m.requests_denied
            &&& d.result is Deny && d.action == Some("rate_limit"@) ==> after.rate_limited_total
                == metrics::bumped(m.rate_limited_total)
            &&& !(d.result is Deny && d.action == Some("rate_limit"@)) ==> after.rate_limited_total
                == m.rate_limited_total
            &&& watched ==> after.requests_dry_run == metrics::bumped(m.requests_dry_run)
            &&& !watched ==> after.requests_dry_run == m.requests_dry_run
            &&& d.result is Deny && d.rule_name == Some(rule) ==> after.by_rule
                == metrics::counted_rule(m.by_rule, rule, false)
            &&& watched && d.rule_name == Some(rule) ==> after.by_rule == metrics::counted_rule(
                m.by_rule,
                rule,
                true,
            )
            &&& d.rule_name is None || (d.result is Allow && !d.dry_run) ==> after.by_rule
                == m.by_rule
            &&& after == MetricsView {
                requests_denied: after.requests_denied,
                rate_limited_total: after.rate_limited_total,
                requests_dry_run: after.requests_dry_run,
                by_rule: after.by_rule,
                ..m
            }
        }),
{
}

/// The user agent is that of the first such header, or `-`. The rules and the trusted networks are
/// those of the configuration, or none.
pub proof fn law_defaults_of_a_request(h: Seq<HeaderView>, c: ProxyConfigView)
    ensures
        headers::first_text(h, "user-agent"@) is Some ==> Some(user_agent_of(h))
            == headers::first_text(h, "user-agent"@),
        headers::first_text(h, "user-agent"@) is None ==> user_agent_of(h) == seq!['-'],
        c.rules is Some ==> rules_of(c) == c.rules->0,
        c.rules is None ==> rules_of(c) == Seq::<RuleView>::empty(),
        c.global is None || c.global->0.trusted_proxies is None ==> trusted_networks(c) == Seq::<
            addresses::Cidr,
        >::empty(),
        c.global is Some && c.global->0.trusted_proxies is Some ==> trusted_networks(c)
            == addresses::cidrs_of(c.global->0.trusted_proxies->0),
{
    reveal_strlit("-");
    assert("-"@ =~= seq!['-']);
}

/// A malformed request is answered with 400 and what is wrong, and counted as a bad request; it is
/// neither recorded nor authenticated nor judged.
pub proof fn law_malformed_requests_are_refused(
    head: HeadView,
    c: ProxyConfigView,
    env_secret: Seq<char>,
    metrics_path: Option<Seq<char>>,
    s: StateView,
    now: u64,
    timestamp: Seq<char>,
)
    requires
        target_of(head.raw_path, head.raw_query) is Err,
    ensures
        ({
            let (step, after) = first_step(head, c, env_secret, metrics_path, s, now, timestamp);
            let path = match paths::canonical(head.raw_path) {
                Some(p) => p,
                None => head.raw_path,
            };
            &&& step == StepView::Answer {
                reply: ReplyView {
                    status: 400,
                    body: target_of(head.raw_path, head.raw_query)->Err_0,
                },
                path,
                event: None,
            }
            &&& after.buckets == s.buckets && after.auth.limiter == s.auth.limiter
            &&& after.auth.metrics == MetricsView {
                requests_total: metrics::bumped(s.auth.metrics.requests_total),
                bad_request_total: metrics::bumped(s.auth.metrics.bad_request_total),
                ..s.auth.metrics
            }
        }),
{
}

/// The state in which a request that was received is authenticated.
pub open spec fn received_state(s: StateView) -> AuthState {
    AuthState {
        metrics: MetricsView {
            requests_total: metrics::bumped(s.auth.metrics.requests_total),
            ..s.auth.metrics
        },
        ..s.auth
    }
}

/// What authentication refuses is answered as it says and counted as denied.
pub proof fn law_refused_callers_are_answered(
    head: HeadView,
    c: ProxyConfigView,
    env_secret: Seq<char>,
    metrics_path: Option<Seq<char>>,
    s: StateView,
    now: u64,
    timestamp: Seq<char>,
    path: Seq<char>,
    target: Seq<char>,
)
    requires
        target_of(head.raw_path, head.raw_query) == Ok::<(Seq<char>, Seq<char>), Seq<char>>(
            (path, target),
        ),
    ensures
        ({
            let (o, known) = auth::auth_outcome(
                c,
                env_secret,
                head.headers,
                head.peer,
                head.cert,
                received_state(s),
                now,
            );
            let (step, after) = first_step(head, c, env_secret, metrics_path, s, now, timestamp);
            o is Denied ==> {
                &&& step is Answer
                &&& step->Answer_reply == ReplyView { status: o->status, body: o->message }
                &&& step->Answer_path == path
                &&& step->Answer_event is Some
                &&& step->Answer_event->0.timestamp == timestamp
                &&& step->Answer_event->0.method == head.method
                &&& step->Answer_event->0.user_agent == user_agent_of(head.headers)
                &&& after.auth.limiter == known.limiter
                &&& after.auth.metrics == MetricsView {
                    requests_denied: metrics::bumped(known.metrics.requests_denied),
                    ..known.metrics
                }
                &&& after.buckets == s.buckets
            }
        }),
{
}

/// What becomes of a request whose caller is known: a `GET` of the metrics' path shows the metrics;
/// one that asks for an upgrade is judged without a body; the body of any other is read, and until
/// then nothing is judged.
pub proof fn law_known_callers_go_on(
    head: HeadView,
    c: ProxyConfigView,
    metrics_path: Option<Seq<char>>,
    p: PendingView,
    s: StateView,
    now: u64,
    timestamp: Seq<char>,
)
    ensures
        ({
            let (step, after) = known_caller_step(head, c, metrics_path, p, s, now, timestamp);
            let asks = upgrade::asks_upgrade(head.headers);
            let shows = metrics_path == Some(p.caller.path) && head.method == "GET"@;
            let (d, buckets) = rules::rules_decision(
                rules_of(c),
                context_of(p, None),
                s.buckets,
                now,
            );
            let counted = decision_counted(s.auth.metrics, d);
            &&& shows ==> step is ShowMetrics && step->body == metrics::prometheus_text(
                s.auth.metrics,
            ) && after == s
            &&& !shows && !asks ==> step == StepView::ReadBody { pending: p } && after == s
            &&& !shows && asks ==> after.buckets == buckets && after.auth.limiter == s.auth.limiter
            &&& !shows && asks && d.result is Deny ==> step == StepView::Answer {
                reply: decision_reply(d)->0,
                path: p.caller.path,
                event: decision_event(p.caller, d, timestamp),
            } && after.auth.metrics == counted
            &&& !shows && asks && d.result is Allow ==> step == StepView::Upgrade {
                pending: p,
                event: decision_event(p.caller, d, timestamp),
            } && after.auth.metrics == MetricsView {
                requests_allowed: metrics::bumped(counted.requests_allowed),
                ..counted
            }
        }),
{
}

/// What is known of a caller that is let in goes on as it is: the peer, the method, the canonical
/// path, the user agent, and the role and the identity that it was given.
pub proof fn law_callers_keep_what_is_known(
    head: HeadView,
    c: ProxyConfigView,
    env_secret: Seq<char>,
    metrics_path: Option<Seq<char>>,
    s: StateView,
    now: u64,
    timestamp: Seq<char>,
    path: Seq<char>,
    target: Seq<char>,
)
    requires
        target_of(head.raw_path, head.raw_query) == Ok::<(Seq<char>, Seq<char>), Seq<char>>(
            (path, target),
        ),
        auth::auth_outcome(
            c,
            env_secret,
            head.headers,
            head.peer,
            head.cert,
            received_state(s),
            now,
        ).0 is Allowed,
    ensures
        ({
            let (o, known) = auth::auth_outcome(
                c,
                env_secret,
                head.headers,
                head.peer,
                head.cert,
                received_state(s),
                now,
            );
            let p = pending_of(head, c, path, target, o->role, o->identity);
            let u = headers::first_text(head.headers, "upgrade"@);
            &&& first_step(head, c, env_secret, metrics_path, s, now, timestamp)
                == known_caller_step(
                head,
                c,
                metrics_path,
                p,
                StateView { auth: known, ..s },
                now,
                timestamp,
            )
            &&& p.caller.peer == head.peer && p.caller.method == head.method
            &&& p.caller.path == path && p.target == target
            &&& p.caller.user_agent == user_agent_of(head.headers)
            &&& p.caller.role == o->role && p.caller.identity == o->identity
            &&& p.client_ip == addresses::ip_text(
                addresses::client_ip(head.peer, head.headers, trusted_networks(c)),
            )
            &&& p.rule_headers == forwarding::text_headers(head.headers)
            &&& upgrade::asks_upgrade(head.headers) ==> p.forward == forwarding::docker_headers(
                head.headers,
                Some(u),
            )
            &&& !upgrade::asks_upgrade(head.headers) ==> p.forward == forwarding::docker_headers(
                head.headers,
                None,
            )
        }),
{
}

/// What the rules look at is what is known of the request.
pub proof fn law_rules_look_at_the_request(p: PendingView, body: Option<JsonView>)
    ensures
        ({
            let ctx = context_of(p, body);
            &&& ctx.path == p.caller.path && ctx.method == p.caller.method
            &&& ctx.headers == p.rule_headers && ctx.client_ip == p.client_ip
            &&& ctx.body_json == body && ctx.user_role == p.caller.role
        }),
{
}

/// The endpoints whose body must be JSON: the one that creates a container, and the one that
/// updates a container, whose name holds no slash.
pub proof fn law_endpoints_that_take_json(path: Seq<char>, id: Seq<char>)
    requires
        id.len() > 0,
        !id.contains('/'),
    ensures
        requires_json("/containers/create"@),
        requires_json("/containers/"@ + id + "/update"@),
        requires_json(path) ==> path == "/containers/create"@ || exists|x: Seq<char>|
            x.len() > 0 && !x.contains('/') && path == #[trigger] ("/containers/"@ + x
                + "/update"@),
{
    reveal_strlit("/containers/");
    reveal_strlit("/update");
    let a = "/containers/"@ + id + "/update"@;
    assert(a.subrange(0, 12) =~= "/containers/"@);
    assert(a.subrange(a.len() - 7, a.len() as int) =~= "/update"@);
    assert(a.subrange(12, a.len() - 7) =~= id);
    if requires_json(path) && path != "/containers/create"@ {
        let x = path.subrange(12, path.len() - 7);
        assert(path =~= path.subrange(0, 12) + x + path.subrange(
            path.len() - 7,
            path.len() as int,
        ));
        assert(path == "/containers/"@ + x + "/update"@);
    }
}

/// The value of a body: an empty body has none; one that is JSON has its value; any other has none
/// where the endpoint takes other bodies, and is refused where it does not.
pub proof fn law_value_of_a_body(path: Seq<char>, body: Seq<u8>, v: JsonView, e: Seq<char>)
    ensures
        body_value(path, Seq::empty()) == Ok::<Option<JsonView>, Seq<char>>(None),
        body.len() > 0 && json::json_parse(body) == Ok::<JsonView, Seq<char>>(v) ==> body_value(
            path,
            body,
        ) == Ok::<Option<JsonView>, Seq<char>>(Some(v)),
        body.len() > 0 && json::json_parse(body) == Err::<JsonView, Seq<char>>(e)
            && !requires_json(path) ==> body_value(path, body) == Ok::<
            Option<JsonView>,
            Seq<char>,
        >(None),
        body.len() > 0 && json::json_parse(body) == Err::<JsonView, Seq<char>>(e) && requires_json(
            path,
        ) ==> body_value(path, body) == Err::<Option<JsonView>, Seq<char>>(
            "Request body must be valid JSON for this endpoint: "@ + e,
        ),
{
}

/// A body that cannot be read is answered by what went wrong, counted as that, and not judged.
pub proof fn law_bodies_that_cannot_be_read(
    p: PendingView,
    c: ProxyConfigView,
    buckets: Map<Seq<char>, Bucket>,
    m: MetricsView,
    now: u64,
    timestamp: Seq<char>,
)
    ensures
        ({
            let (v, b, after) = body_step(
                p,
                c,
                BodyRead::TooLarge,
                buckets,
                m,
                now,
                timestamp,
            );
            &&& v is Answer && v->Answer_reply == ReplyView {
                status: 413,
                body: "Request body too large"@,
            }
            &&& v->Answer_path == p.caller.path && v->Answer_event is None && b == buckets
            &&& after == MetricsView {
                body_too_large_total: metrics::bumped(m.body_too_large_total),
                ..m
            }
        }),
        ({
            let (v, b, after) = body_step(p, c, BodyRead::Failed, buckets, m, now, timestamp);
            &&& v is Answer && v->Answer_reply == ReplyView {
                status: 400,
                body: "Request body invalid"@,
            }
            &&& v->Answer_path == p.caller.path && v->Answer_event is None && b == buckets
            &&& after == MetricsView {
                bad_request_total: metrics::bumped(m.bad_request_total),
                ..m
            }
        }),
        ({
            let (v, b, after) = body_step(p, c, BodyRead::TimedOut, buckets, m, now, timestamp);
            &&& v is Answer && v->Answer_reply == ReplyView {
                status: 408,
                body: "Request body read timeout"@,
            }
            &&& v->Answer_path == p.caller.path && v->Answer_event is None && b == buckets
            &&& after == MetricsView {
                request_timeouts_total: metrics::bumped(m.request_timeouts_total),
                ..m
            }
        }),
{
}

/// A body that was read is refused with 400 where its endpoint does not take it, and else judged
/// with its value: what is allowed is forwarded as it was sent, with the filters of the rules that
/// apply, and what is denied is answered.
pub proof fn law_bodies_that_were_read(
    p: PendingView,
    c: ProxyConfigView,
    bytes: Vec<u8>,
    value: Option<JsonView>,
    buckets: Map<Seq<char>, Bucket>,
    m: MetricsView,
    now: u64,
    timestamp: Seq<char>,
)
    ensures
        ({
            let read = BodyRead::Complete { bytes };
            let (v, b, after) = body_step(p, c, read, buckets, m, now, timestamp);
            let (d, judged) = rules::rules_decision(
                rules_of(c),
                context_of(p, value),
                buckets,
                now,
            );
            &&& body_value(p.caller.path, bytes@) is Err ==> v is Answer && v->Answer_reply
                == ReplyView {
                status: 400,
                body: body_value(p.caller.path, bytes@)->Err_0,
            } && v->Answer_event is None && b == buckets && after == MetricsView {
                bad_request_total: metrics::bumped(m.bad_request_total),
                ..m
            }
            &&& body_value(p.caller.path, bytes@) == Ok::<Option<JsonView>, Seq<char>>(value) ==> {
                &&& b == judged && after == decision_counted(m, d)
                &&& d.result is Allow ==> v == VerdictView::Forward {
                    pending: p,
                    body: bytes@,
                    filters: rules::filters_for(rules_of(c), context_of(p, value)),
                    event: decision_event(p.caller, d, timestamp),
                }
                &&& d.result is Deny ==> v == VerdictView::Answer {
                    reply: decision_reply(d)->0,
                    path: p.caller.path,
                    event: decision_event(p.caller, d, timestamp),
                }
            }
        }),
{
}

/// What went wrong with Docker is answered with 504 where something took too long and with 502
/// otherwise, and counted as a timeout, as an error of Docker, or, where the fault is not
/// Docker's, as neither.
pub proof fn law_failures_of_docker(m: MetricsView, f: UpstreamFailure)
    ensures
        ({
            let slow = f is ConnectTimedOut || f is RequestTimedOut || f is ResponseTimedOut;
            let broken = f is ConnectFailed || f is HandshakeFailed || f is RequestFailed || f
                is ResponseFailed;
            let after = failure_counted(m, f);
            &&& slow ==> failure_reply(f).status == 504
            &&& !slow ==> failure_reply(f).status == 502
            &&& slow ==> after.upstream_timeouts_total == metrics::bumped(
                m.upstream_timeouts_total,
            )
            &&& !slow ==> after.upstream_timeouts_total == m.upstream_timeouts_total
            &&& broken ==> after.upstream_errors_total == metrics::bumped(m.upstream_errors_total)
            &&& !broken ==> after.upstream_errors_total == m.upstream_errors_total
            &&& after == MetricsView {
                upstream_timeouts_total: after.upstream_timeouts_total,
                upstream_errors_total: after.upstream_errors_total,
                ..m
            }
        }),
{
}

/// What a client is told of each failure.
pub proof fn law_texts_of_failures()
    ensures
        failure_reply(UpstreamFailure::ConnectFailed).body == "docker socket unavailable"@,
        failure_reply(UpstreamFailure::ConnectTimedOut).body == "docker socket connect timeout"@,
        failure_reply(UpstreamFailure::HandshakeFailed).body == "docker handshake failed"@,
        failure_reply(UpstreamFailure::RequestInvalid).body == "failed to build upstream request"@,
        failure_reply(UpstreamFailure::RequestFailed).body == "docker request failed"@,
        failure_reply(UpstreamFailure::RequestTimedOut).body == "docker upstream timeout"@,
        failure_reply(UpstreamFailure::ResponseFailed).body == "failed to read docker response"@,
        failure_reply(UpstreamFailure::ResponseTimedOut).body == "docker response timeout"@,
        failure_reply(UpstreamFailure::ResponseInvalid).body == "failed to build response"@,
        failure_reply(UpstreamFailure::UpgradeRefusalInvalid).body == "upgrade rejected"@,
        failure_reply(UpstreamFailure::UpgradeResponseInvalid).body
            == "upgrade response build failed"@,
{
}

/// An answer of Docker reaches the client with its status and the headers that pass; its body is
/// filtered exactly where its type is JSON, and untouched otherwise. One without a type is given
/// that of plain bytes, and is not filtered.
pub proof fn law_answers_of_docker(m: MessageView, filters: Seq<FilterView>, t: Seq<char>)
    ensures
        client_message(m, filters).status == m.status,
        headers::first_text(m.headers, "content-type"@) == Some(t) ==> {
            &&& text::contains_text(t, "application/json"@) ==> client_message(m, filters).body
                == rules::filtered_body(filters, m.body)
            &&& !text::contains_text(t, "application/json"@) ==> client_message(m, filters).body
                == m.body
        },
        headers::first_text(m.headers, "content-type"@) is None ==> client_message(m, filters).body
            == m.body,
        headers::first_value(m.headers, "content-type"@) is Some ==> client_message(
            m,
            filters,
        ).headers == forwarding::passing(Passage::ToClient, m.headers),
        headers::first_value(m.headers, "content-type"@) is None ==> client_message(
            m,
            filters,
        ).headers == forwarding::passing(Passage::ToClient, m.headers).push(
            HeaderView {
                name: "content-type"@,
                value: encode_utf8("application/octet-stream"@),
            },
        ),
{
    reveal_strlit("application/octet-stream");
    reveal_strlit("application/json");
    let s = "application/octet-stream"@;
    let part = "application/json"@;
    if text::contains_text(s, part) {
        let i = choose|i: int| text::occurs_at(s, part, i);
        assert(s.subrange(i, i + 16)[12] == s[i + 12]);
        assert(s.subrange(i, i + 16)[0] == s[i]);
        assert(s.subrange(i, i + 16)[1] == s[i + 1]);
        assert(0 <= i <= 8);
    }
}

/// What a request's head, its caller and what is pending of it stand for, field by field.
pub proof fn law_what_requests_stand_for(h: RequestHead, c: Caller, p: Pending)
    ensures
        h@.method == h.method@,
        h@.raw_path == h.raw_path@,
        h@.raw_query == text::opt_text(h.raw_query),
        h@.headers == headers::header_list(h.headers@),
        h@.peer == h.peer,
        h@.cert is Some <==> h.cert is Some,
        h.cert is Some ==> h@.cert->0 == h.cert->0@,
        c@.peer == c.peer,
        c@.method == c.method@,
        c@.path == c.path@,
        c@.user_agent == c.user_agent@,
        c@.role == text::opt_text(c.role),
        c@.identity == text::opt_text(c.identity),
        p@.caller == p.caller@,
        p@.target == p.target@,
        p@.client_ip == p.client_ip@,
        p@.rule_headers == conditions::request_headers(p.rule_headers@),
        p@.forward == headers::header_list(p.forward@),
{
}

/// What answers, verdicts and messages stand for, field by field.
pub proof fn law_what_answers_stand_for(r: Reply, s: Step, v: Verdict, m: Message, e: AuditEvent)
    ensures
        r@.status == r.status && r@.body == r.body@,
        opt_event(Some(e)) == Some(e@) && opt_event(None) is None,
        s is Answer ==> s@ == (StepView::Answer {
            reply: s->Answer_reply@,
            path: s->Answer_path@,
            event: opt_event(s->Answer_event),
        }),
        s is ShowMetrics ==> s@ == (StepView::ShowMetrics { body: s->body@ }),
        s is Upgrade ==> s@ == (StepView::Upgrade {
            pending: s->Upgrade_pending@,
            event: opt_event(s->Upgrade_event),
        }),
        s is ReadBody ==> s@ == (StepView::ReadBody { pending: s->ReadBody_pending@ }),
        v is Answer ==> v@ == (VerdictView::Answer {
            reply: v->Answer_reply@,
            path: v->Answer_path@,
            event: opt_event(v->Answer_event),
        }),
        v is Forward ==> v@ == (VerdictView::Forward {
            pending: v->pending@,
            body: v->body@,
            filters: config::filter_list(v->filters@),
            event: opt_event(v->Forward_event),
        }),
        m@.status == m.status,
        m@.headers == headers::header_list(m.headers@),
        m@.body == m.body@,
{
}

} // verus!
