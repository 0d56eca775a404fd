//! What the rules say of a request, and what they change in the response.
use crate::conditions;
use crate::conditions::ContextView;
use crate::config;
use crate::config::{FilterView, NodeView, ResponseFilterEntry, Rule, RuleView};
use crate::json;
use crate::json::{JsonValue, JsonView};
use crate::limits;
use crate::limits::Bucket;
use crate::text;
use vstd::prelude::*;
use vstd::slice::slice_to_vec;
use vstd::utf8::*;

pub use crate::conditions::{evaluate_condition, evaluate_node, EvaluationContext, RequestHeader};
pub use crate::limits::{AuthLimiter, RateLimiter};

verus! {

/// Whether a request may pass; if not, the status and the text of the answer.
#[derive(Debug, Clone)]
pub enum RuleResult {
    Allow,
    Deny { status: u16, message: String },
}

/// What a [`RuleResult`] stands for.
pub enum ResultView {
    Allow,
    Deny { status: u16, message: Seq<char> },
}

impl View for RuleResult {
    type V = ResultView;

    open spec fn view(&self) -> ResultView {
        match self {
            RuleResult::Allow => ResultView::Allow,
            RuleResult::Deny { status, message } => ResultView::Deny {
                status: *status,
                message: message@,
            },
        }
    }
}

/// What the rules decide of a request: the result, the rule that decided and its action, and
/// whether that rule would have denied the request but only watches.
#[derive(Debug)]
pub struct Decision {
    pub result: RuleResult,
    pub rule_name: Option<String>,
    pub action: Option<String>,
    pub dry_run: bool,
}

/// What a [`Decision`] stands for.
pub struct DecisionView {
    pub result: ResultView,
    pub rule_name: Option<Seq<char>>,
    pub action: Option<Seq<char>>,
    pub dry_run: bool,
}

impl View for Decision {
    type V = DecisionView;

    open spec fn view(&self) -> DecisionView {
        DecisionView {
            result: self.result@,
            rule_name: text::opt_text(self.rule_name),
            action: text::opt_text(self.action),
            dry_run: self.dry_run,
        }
    }
}

/// Whether a rule applies to a request: it has conditions, and all of them hold.
pub open spec fn rule_applies(r: RuleView, ctx: ContextView) -> bool {
    r.conditions.len() > 0 && conditions::all_hold(r.conditions, ctx)
}

/// The decision where no rule decides.
pub open spec fn undecided() -> DecisionView {
    DecisionView { result: ResultView::Allow, rule_name: None, action: None, dry_run: false }
}

/// The decision of a rule that allows a request.
pub open spec fn allowed_by(r: RuleView) -> DecisionView {
    DecisionView {
        result: ResultView::Allow,
        rule_name: Some(r.name),
        action: Some(r.action),
        dry_run: false,
    }
}

/// The decision of a rule that denies a request, or that would if it did not only watch.
pub open spec fn denied_by(r: RuleView, status: u16, message: Seq<char>) -> DecisionView {
    if r.dry_run == Some(true) {
        DecisionView { dry_run: true, ..allowed_by(r) }
    } else {
        DecisionView {
            result: ResultView::Deny {
                status: match r.status {
                    Some(s) => s,
                    None => status,
                },
                message: match r.message {
                    Some(m) => m,
                    None => message,
                },
            },
            ..allowed_by(r)
        }
    }
}

/// The role that a rule requires.
pub open spec fn required_role(r: RuleView) -> Seq<char> {
    match r.role {
        Some(x) => x,
        None => "admin"@,
    }
}

/// The role of the caller.
pub open spec fn caller_role(ctx: ContextView) -> Seq<char> {
    match ctx.user_role {
        Some(x) => x,
        None => Seq::empty(),
    }
}

/// Whether a role meets a requirement: `admin` meets every one.
pub open spec fn role_suffices(role: Seq<char>, required: Seq<char>) -> bool {
    role == "admin"@ || role == required
}

/// The key of a client's bucket under a rule.
pub open spec fn bucket_key(r: RuleView, ctx: ContextView) -> Seq<char> {
    r.name + ":"@ + ctx.client_ip
}

/// What a rule that applies decides, and the buckets afterwards; no decision where the rules
/// after it decide.
pub open spec fn rule_decision(
    r: RuleView,
    ctx: ContextView,
    m: Map<Seq<char>, Bucket>,
    now: u64,
) -> (Option<DecisionView>, Map<Seq<char>, Bucket>) {
    if r.action == "deny"@ {
        (Some(denied_by(r, 403, "Forbidden by rule"@)), m)
    } else if r.action == "allow"@ {
        (Some(allowed_by(r)), m)
    } else if r.action == "require_role"@ {
        if role_suffices(caller_role(ctx), required_role(r)) {
            (Some(allowed_by(r)), m)
        } else {
            (Some(denied_by(r, 403, "Role '"@ + required_role(r) + "' required"@)), m)
        }
    } else if r.action == "rate_limit"@ && r.rate_limit is Some {
        let limit = r.rate_limit->0;
        let outcome = limits::limited_request(
            m,
            bucket_key(r, ctx),
            limit.requests,
            limit.period,
            limit.penalty,
            now,
        );
        if outcome.0 {
            (None, outcome.1)
        } else {
            (Some(denied_by(r, 429, "Rate limit exceeded"@)), outcome.1)
        }
    } else {
        (None, m)
    }
}

/// What a list of rules decides, and the buckets afterwards: the first rule that applies and
/// decides.
pub open spec fn rules_decision(
    rules: Seq<RuleView>,
    ctx: ContextView,
    m: Map<Seq<char>, Bucket>,
    now: u64,
) -> (DecisionView, Map<Seq<char>, Bucket>)
    decreases rules.len(),
{
    if rules.len() == 0 {
        (undecided(), m)
    } else if !rule_applies(rules[0], ctx) {
        rules_decision(rules.skip(1), ctx, m, now)
    } else {
        match rule_decision(rules[0], ctx, m, now) {
            (Some(d), after) => (d, after),
            (None, after) => rules_decision(rules.skip(1), ctx, after, now),
        }
    }
}

fn applies(r: &Rule, ctx: &EvaluationContext) -> (res: bool)
    ensures
        res == rule_applies(r@, ctx@),
{
    r.conditions.len() > 0 && conditions::evaluate_all(&r.conditions, ctx)
}

fn allow_by(r: &Rule) -> (d: Decision)
    ensures
        d@ == allowed_by(r@),
{
    Decision {
        result: RuleResult::Allow,
        rule_name: Some(r.name.clone()),
        action: Some(r.action.clone()),
        dry_run: false,
    }
}

fn deny_by(r: &Rule, status: u16, message: &str) -> (d: Decision)
    ensures
        d@ == denied_by(r@, status, message@),
{
    let mut d = allow_by(r);
    let watching = match r.dry_run {
        Some(b) => b,
        None => false,
    };
    if watching {
        d.dry_run = true;
    } else {
        d.result =
        RuleResult::Deny {
            status: match r.status {
                Some(s) => s,
                None => status,
            },
            message: match &r.message {
                Some(m) => m.clone(),
                None => message.to_string(),
            },
        };
    }
    d
}

fn decide(r: &Rule, ctx: &EvaluationContext, limiter: &mut RateLimiter, now: u64) -> (d: Option<
    Decision,
>)
    requires
        old(limiter).wf(),
    ensures
        final(limiter).wf(),
        (
            match d {
                Some(x) => Some(x@),
                None => None,
            },
            final(limiter)@,
        ) == rule_decision(r@, ctx@, old(limiter)@, now),
{
    let action = r.action.as_str();
    if text::same(action, "deny") {
        return Some(deny_by(r, 403, "Forbidden by rule"));
    }
    if text::same(action, "allow") {
        return Some(allow_by(r));
    }
    if text::same(action, "require_role") {
        let required = match &r.role {
            Some(x) => x.as_str(),
            None => "admin",
        };
        let (is_admin, has_role) = match &ctx.user_role {
            Some(x) => (text::same(x.as_str(), "admin"), text::same(x.as_str(), required)),
            None => (text::same("", "admin"), text::same("", required)),
        };
        proof {
            reveal_strlit("");
            assert(""@ =~= Seq::<char>::empty());
        }
        if is_admin || has_role {
            return Some(allow_by(r));
        }
        let mut message = "Role '".to_string();
        message.append(required);
        message.append("' required");
        return Some(deny_by(r, 403, message.as_str()));
    }
    if text::same(action, "rate_limit") {
        if let Some(limit) = r.rate_limit {
            let mut key = r.name.clone();
            key.append(":");
            key.append(ctx.client_ip.as_str());
            if !limiter.check(key.as_str(), limit.requests, limit.period, limit.penalty, now) {
                return Some(deny_by(r, 429, "Rate limit exceeded"));
            }
        }
    }
    None
}

/// What the rules decide of a request at a time, and which of them decides.
pub fn evaluate_request_detailed(
    rules: &Vec<Rule>,
    ctx: &EvaluationContext,
    limiter: &mut RateLimiter,
    now: u64,
) -> (d: Decision)
    requires
        old(limiter).wf(),
    ensures
        final(limiter).wf(),
        (d@, final(limiter)@) == rules_decision(
            config::rule_list(rules@),
            ctx@,
            old(limiter)@,
            now,
        ),
{
    let ghost list = config::rule_list(rules@);
    let mut i: usize = 0;
    assert(list.skip(0) =~= list);
    while i < rules.len()
        invariant
            i <= rules@.len(),
            list == config::rule_list(rules@),
            limiter.wf(),
            rules_decision(list, ctx@, old(limiter)@, now) == rules_decision(
                list.skip(i as int),
                ctx@,
                limiter@,
                now,
            ),
        decreases rules@.len() - i,
    {
        assert(list.skip(i as int)[0] == rules@[i as int]@);
        assert(list.skip(i as int).skip(1) =~= list.skip(i + 1));
        if applies(&rules[i], ctx) {
            if let Some(d) = decide(&rules[i], ctx, limiter, now) {
                return d;
            }
        }
        i += 1;
    }
    Decision { result: RuleResult::Allow, rule_name: None, action: None, dry_run: false }
}

/// Whether the rules let a request pass at a time.
pub fn evaluate_request(
    rules: &Vec<Rule>,
    ctx: &EvaluationContext,
    limiter: &mut RateLimiter,
    now: u64,
) -> (r: RuleResult)
    requires
        old(limiter).wf(),
    ensures
        final(limiter).wf(),
        r@ == rules_decision(config::rule_list(rules@), ctx@, old(limiter)@, now).0.result,
        final(limiter)@ == rules_decision(
            config::rule_list(rules@),
            ctx@,
            old(limiter)@,
            now,
        ).1,
{
    evaluate_request_detailed(rules, ctx, limiter, now).result
}

/// The response filters of the rules that apply to a request and whose action is to filter, in
/// order.
pub open spec fn filters_for(rules: Seq<RuleView>, ctx: ContextView) -> Seq<FilterView>
    decreases rules.len(),
{
    if rules.len() == 0 {
        Seq::empty()
    } else {
        let r = rules.last();
        let earlier = filters_for(rules.drop_last(), ctx);
        if r.action == "response_filter"@ && r.response_filter is Some && rule_applies(r, ctx) {
            earlier + r.response_filter->0
        } else {
            earlier
        }
    }
}

fn append_filters(out: &mut Vec<ResponseFilterEntry>, filters: &Vec<ResponseFilterEntry>)
    ensures
        config::filter_list(final(out)@) == config::filter_list(old(out)@) + config::filter_list(
            filters@,
        ),
{
    let ghost before = config::filter_list(out@);
    let ghost added = config::filter_list(filters@);
    let mut i: usize = 0;
    assert(before + added.take(0) =~= before);
    while i < filters.len()
        invariant
            i <= filters@.len(),
            added == config::filter_list(filters@),
            config::filter_list(out@) == before + added.take(i as int),
        decreases filters@.len() - i,
    {
        let ghost so_far = out@;
        out.push(filters[i].clone());
        assert(config::filter_list(out@) =~= config::filter_list(so_far).push(
            filters@[i as int]@,
        ));
        assert(before + added.take(i + 1) =~= (before + added.take(i as int)).push(
            filters@[i as int]@,
        ));
        i += 1;
    }
    assert(added.take(i as int) =~= added);
}

/// The response filters of the rules that apply to a request.
pub fn collect_response_filters(rules: &Vec<Rule>, ctx: &EvaluationContext) -> (r: Vec<
    ResponseFilterEntry,
>)
    ensures
        config::filter_list(r@) == filters_for(config::rule_list(rules@), ctx@),
{
    let ghost list = config::rule_list(rules@);
    let mut out: Vec<ResponseFilterEntry> = Vec::new();
    assert(config::filter_list(out@) =~= Seq::<FilterView>::empty());
    let mut i: usize = 0;
    while i < rules.len()
        invariant
            i <= rules@.len(),
            list == config::rule_list(rules@),
            config::filter_list(out@) == filters_for(list.take(i as int), ctx@),
        decreases rules@.len() - i,
    {
        assert(list.take(i + 1).last() == rules@[i as int]@);
        assert(list.take(i + 1).drop_last() =~= list.take(i as int));
        let rule = &rules[i];
        if text::same(rule.action.as_str(), "response_filter") && applies(rule, ctx) {
            if let Some(f) = &rule.response_filter {
                append_filters(&mut out, f);
            }
        }
        i += 1;
    }
    assert(list.take(i as int) =~= list);
    out
}

/// What takes the place of a redacted field.
pub open spec fn redaction() -> JsonView {
    JsonView::String("***REDACTED***"@)
}

/// What a filter makes of a value.
pub open spec fn filtered(v: JsonView, f: FilterView) -> JsonView {
    let path = text::split(f.field, '.');
    if f.action == "redact"@ {
        json::replaced(v, path, redaction())
    } else if f.action == "remove"@ {
        json::removed(v, path)
    } else if f.action == "replace"@ {
        json::replaced(
            v,
            path,
            JsonView::String(
                match f.replacement {
                    Some(s) => s,
                    None => Seq::empty(),
                },
            ),
        )
    } else {
        v
    }
}

/// What a list of filters, one after the other, makes of a value.
pub open spec fn filtered_by(v: JsonView, filters: Seq<FilterView>) -> JsonView
    decreases filters.len(),
{
    if filters.len() == 0 {
        v
    } else {
        filtered(filtered_by(v, filters.drop_last()), filters.last())
    }
}

/// What a list of filters makes of a body: one that is no JSON is kept, and so is every body where
/// there is no filter.
pub open spec fn filtered_body(filters: Seq<FilterView>, body: Seq<u8>) -> Seq<u8> {
    if filters.len() == 0 {
        body
    } else {
        match json::json_parse(body) {
            Ok(v) => encode_utf8(json::json_text(filtered_by(v, filters))),
            Err(_) => body,
        }
    }
}

fn apply_filter(v: &mut JsonValue, f: &ResponseFilterEntry)
    ensures
        final(v)@ == filtered(old(v)@, f@),
{
    let action = f.action.as_str();
    let field = f.field.as_str();
    if text::same(action, "redact") {
        json::json_set(v, field, JsonValue::String("***REDACTED***".to_string()));
    } else if text::same(action, "remove") {
        json::json_remove(v, field);
    } else if text::same(action, "replace") {
        let new = match &f.replacement {
            Some(s) => s.clone(),
            None => String::new(),
        };
        json::json_set(v, field, JsonValue::String(new));
    }
}

/// Applies a list of filters to a value, one after the other.
pub fn filter_json(v: JsonValue, filters: &Vec<ResponseFilterEntry>) -> (r: JsonValue)
    ensures
        r@ == filtered_by(v@, config::filter_list(filters@)),
{
    let ghost list = config::filter_list(filters@);
    let ghost start = v@;
    let mut out = v;
    let mut i: usize = 0;
    assert(list.take(0) =~= Seq::<FilterView>::empty());
    while i < filters.len()
        invariant
            i <= filters@.len(),
            list == config::filter_list(filters@),
            out@ == filtered_by(start, list.take(i as int)),
        decreases filters@.len() - i,
    {
        assert(list.take(i + 1).last() == filters@[i as int]@);
        assert(list.take(i + 1).drop_last() =~= list.take(i as int));
        apply_filter(&mut out, &filters[i]);
        i += 1;
    }
    assert(list.take(i as int) =~= list);
    out
}

/// Whether what a reader finds in the filtered body is what the filters make of the value in the
/// body, where that holds no numbers but integers.
pub open spec fn reads_as_filtered(filters: Seq<FilterView>, body: Seq<u8>, out: Seq<u8>) -> bool {
    match json::json_parse(body) {
        Ok(v) => json::is_kept(v, json::max_depth(), true) ==> json::json_parse(out) == Ok::<
            JsonView,
            Seq<char>,
        >(filtered_by(v, filters)),
        Err(_) => true,
    }
}

/// Applies a list of filters to a body, where it is JSON.
pub fn apply_response_filters(filters: &Vec<ResponseFilterEntry>, body: &[u8]) -> (r: Vec<u8>)
    ensures
        r@ == filtered_body(config::filter_list(filters@), body@),
        reads_as_filtered(config::filter_list(filters@), body@, r@),
{
    if filters.len() == 0 {
        return slice_to_vec(body);
    }
    match json::parse_json(body) {
        Ok(v) => {
            proof {
                if json::is_kept(v@, json::max_depth(), true) {
                    law_filtered_value_is_kept(
                        v@,
                        config::filter_list(filters@),
                        json::max_depth(),
                        true,
                    );
                }
            }
            let out = filter_json(v, filters);
            let t = json::json_to_string(&out);
            t.as_str().as_bytes_vec()
        },
        Err(_) => slice_to_vec(body),
    }
}

/// Filters keep a value one that `serde_json` keeps as it is.
pub proof fn law_filtered_value_is_kept(
    v: JsonView,
    filters: Seq<FilterView>,
    depth: nat,
    integers: bool,
)
    requires
        json::is_kept(v, depth, integers),
    ensures
        json::is_kept(filtered_by(v, filters), depth, integers),
    decreases filters.len(),
{
    if filters.len() > 0 {
        law_filtered_value_is_kept(v, filters.drop_last(), depth, integers);
        let before = filtered_by(v, filters.drop_last());
        let f = filters.last();
        let path = text::split(f.field, '.');
        let new = match f.replacement {
            Some(s) => s,
            None => Seq::empty(),
        };
        json::law_replaced_value_is_kept(before, path, "***REDACTED***"@, depth, integers);
        json::law_replaced_value_is_kept(before, path, new, depth, integers);
        json::law_value_with_a_field_removed_is_kept(before, path, depth, integers);
    }
}

/// Rules that do not apply have no say: the rules after them decide.
pub proof fn law_rules_that_do_not_apply_have_no_say(
    before: Seq<RuleView>,
    rest: Seq<RuleView>,
    ctx: ContextView,
    m: Map<Seq<char>, Bucket>,
    now: u64,
)
    requires
        forall|i: int| 0 <= i < before.len() ==> !rule_applies(#[trigger] before[i], ctx),
    ensures
        rules_decision(before + rest, ctx, m, now) == rules_decision(rest, ctx, m, now),
    decreases before.len(),
{
    if before.len() > 0 {
        let tail = before.skip(1);
        assert((before + rest)[0] == before[0]);
        assert((before + rest).skip(1) =~= tail + rest);
        assert forall|i: int| 0 <= i < tail.len() implies !rule_applies(#[trigger] tail[i], ctx) by {
            assert(tail[i] == before[i + 1]);
        }
        law_rules_that_do_not_apply_have_no_say(tail, rest, ctx, m, now);
    } else {
        assert(before + rest =~= rest);
    }
}

/// A request to which no rule applies is allowed.
pub proof fn law_request_without_rules_is_allowed(
    rules: Seq<RuleView>,
    ctx: ContextView,
    m: Map<Seq<char>, Bucket>,
    now: u64,
)
    requires
        forall|i: int| 0 <= i < rules.len() ==> !rule_applies(#[trigger] rules[i], ctx),
    ensures
        rules_decision(rules, ctx, m, now) == (undecided(), m),
{
    law_rules_that_do_not_apply_have_no_say(rules, Seq::empty(), ctx, m, now);
    assert(rules + Seq::<RuleView>::empty() =~= rules);
}

/// The first rule that applies wins, where its action is to deny, to allow or to require a role.
pub proof fn law_first_terminating_rule_wins(
    before: Seq<RuleView>,
    rule: RuleView,
    after: Seq<RuleView>,
    ctx: ContextView,
    m: Map<Seq<char>, Bucket>,
    now: u64,
)
    requires
        forall|i: int| 0 <= i < before.len() ==> !rule_applies(#[trigger] before[i], ctx),
        rule_applies(rule, ctx),
        rule.action == "deny"@ || rule.action == "allow"@ || rule.action == "require_role"@,
    ensures
        rule_decision(rule, ctx, m, now).0 is Some,
        rules_decision(before + seq![rule] + after, ctx, m, now) == (
            rule_decision(rule, ctx, m, now).0->0,
            m,
        ),
{
    let rest = seq![rule] + after;
    assert(before + seq![rule] + after =~= before + rest);
    law_rules_that_do_not_apply_have_no_say(before, rest, ctx, m, now);
    assert(rest[0] == rule);
}

/// A rule that applies and does not decide leaves the decision to the rules after it: one that
/// filters responses, and a rate limit that is not exceeded, which has taken its token.
pub proof fn law_rules_that_do_not_decide_pass_on(
    rule: RuleView,
    after: Seq<RuleView>,
    ctx: ContextView,
    m: Map<Seq<char>, Bucket>,
    now: u64,
)
    requires
        rule_applies(rule, ctx),
    ensures
        rule.action == "response_filter"@ ==> rule_decision(rule, ctx, m, now) == (
            None::<DecisionView>,
            m,
        ),
        rule_decision(rule, ctx, m, now).0 is None ==> rules_decision(
            seq![rule] + after,
            ctx,
            m,
            now,
        ) == rules_decision(after, ctx, rule_decision(rule, ctx, m, now).1, now),
{
    reveal_strlit("response_filter");
    reveal_strlit("deny");
    reveal_strlit("allow");
    reveal_strlit("require_role");
    reveal_strlit("rate_limit");
    assert("response_filter"@.len() == 15 && "deny"@.len() == 4 && "allow"@.len() == 5);
    assert("require_role"@.len() == 12 && "rate_limit"@.len() == 10);
    assert((seq![rule] + after)[0] == rule);
    assert((seq![rule] + after).skip(1) =~= after);
}

/// The filters of all rules that apply accumulate, in the order of the rules.
pub proof fn law_filters_accumulate(a: Seq<RuleView>, b: Seq<RuleView>, ctx: ContextView)
    ensures
        filters_for(a + b, ctx) == filters_for(a, ctx) + filters_for(b, ctx),
    decreases b.len(),
{
    if b.len() == 0 {
        assert(a + b =~= a);
        assert(filters_for(a, ctx) + filters_for(b, ctx) =~= filters_for(a, ctx));
    } else {
        law_filters_accumulate(a, b.drop_last(), ctx);
        assert((a + b).drop_last() =~= a + b.drop_last());
        assert((a + b).last() == b.last());
        let earlier = filters_for(b.drop_last(), ctx);
        if b.last().response_filter is Some {
            assert(filters_for(a, ctx) + earlier + b.last().response_filter->0 =~= filters_for(
                a,
                ctx,
            ) + (earlier + b.last().response_filter->0));
        }
    }
}

/// A rule that only watches never denies a request.
pub proof fn law_watching_rule_never_denies(
    r: RuleView,
    ctx: ContextView,
    m: Map<Seq<char>, Bucket>,
    now: u64,
)
    requires
        r.dry_run == Some(true),
    ensures
        match rule_decision(r, ctx, m, now).0 {
            Some(d) => d.result is Allow,
            None => true,
        },
{
}

/// The role `admin` meets every requirement.
pub proof fn law_admin_always_passes(
    r: RuleView,
    ctx: ContextView,
    m: Map<Seq<char>, Bucket>,
    now: u64,
)
    requires
        ctx.user_role == Some("admin"@),
        r.action == "require_role"@,
    ensures
        rule_decision(r, ctx, m, now) == (Some(allowed_by(r)), m),
{
    reveal_strlit("deny");
    reveal_strlit("allow");
    reveal_strlit("require_role");
    assert("require_role"@.len() != "deny"@.len());
    assert("require_role"@.len() != "allow"@.len());
}

/// A request is denied only by a rule that applies to it and does not only watch.
pub proof fn law_denials_come_from_a_rule(
    rules: Seq<RuleView>,
    ctx: ContextView,
    m: Map<Seq<char>, Bucket>,
    now: u64,
) -> (i: int)
    requires
        rules_decision(rules, ctx, m, now).0.result is Deny,
    ensures
        0 <= i < rules.len(),
        rule_applies(rules[i], ctx),
        rules[i].dry_run != Some(true),
        rules_decision(rules, ctx, m, now).0.rule_name == Some(rules[i].name),
        rules_decision(rules, ctx, m, now).0.action == Some(rules[i].action),
    decreases rules.len(),
{
    if !rule_applies(rules[0], ctx) {
        let j = law_denials_come_from_a_rule(rules.skip(1), ctx, m, now);
        j + 1
    } else {
        match rule_decision(rules[0], ctx, m, now) {
            (Some(_), _) => 0,
            (None, next) => {
                let j = law_denials_come_from_a_rule(rules.skip(1), ctx, next, now);
                j + 1
            },
        }
    }
}

/// Two clients have separate buckets under a rule.
pub proof fn law_clients_have_separate_buckets(r: RuleView, a: ContextView, b: ContextView)
    requires
        a.client_ip != b.client_ip,
    ensures
        bucket_key(r, a) != bucket_key(r, b),
{
    let head = r.name + ":"@;
    let x = bucket_key(r, a);
    let y = bucket_key(r, b);
    assert(x.skip(head.len() as int) =~= a.client_ip);
    assert(y.skip(head.len() as int) =~= b.client_ip);
}

/// A redacted field shows the redaction, a replaced one the replacement, where they were there.
pub proof fn law_redacted_and_replaced_fields(v: JsonView, f: FilterView)
    requires
        json::lookup(v, text::split(f.field, '.')) is Some,
    ensures
        f.action == "redact"@ ==> json::lookup(filtered(v, f), text::split(f.field, '.')) == Some(
            redaction(),
        ),
        f.action == "replace"@ && f.replacement is Some ==> json::lookup(
            filtered(v, f),
            text::split(f.field, '.'),
        ) == Some(JsonView::String(f.replacement->0)),
{
    let path = text::split(f.field, '.');
    json::law_replaced_value_is_found(v, path, redaction());
    if f.replacement is Some {
        json::law_replaced_value_is_found(v, path, JsonView::String(f.replacement->0));
    }
    reveal_strlit("redact");
    reveal_strlit("remove");
    reveal_strlit("replace");
    assert("redact"@.len() == 6);
    assert("remove"@[2] == 'm');
    assert("replace"@.len() == 7);
}

/// A removed member is gone. A removed array item is gone from its array, whose later items have
/// moved up.
pub proof fn law_removed_fields(v: JsonView, f: FilterView)
    requires
        f.action == "remove"@,
        json::distinct_names(v),
    ensures
        ({
            let path = text::split(f.field, '.');
            match (json::lookup(v, path.drop_last()), json::lookup(v, path)) {
                (Some(JsonView::Array(a)), Some(_)) => {
                    let n = text::parse_nat(path.last())->0 as int;
                    match json::lookup(filtered(v, f), path.drop_last()) {
                        Some(JsonView::Array(b)) => n < a.len() && json::is_closed_up(a, n, b),
                        _ => false,
                    }
                },
                _ => json::lookup(filtered(v, f), path) is None,
            }
        }),
{
    text::lemma_split_parts(f.field, '.');
    json::law_removed_field_is_gone(v, text::split(f.field, '.'));
    reveal_strlit("redact");
    reveal_strlit("remove");
    assert("redact"@[2] == 'd');
    assert("remove"@[2] == 'm');
}

/// A filter leaves every field whose path parts from that of the filter, but for the array items
/// that move up when one before them is removed.
pub proof fn law_filters_keep_other_fields(v: JsonView, f: FilterView, other: Seq<Seq<char>>)
    requires
        json::paths_part(v, text::split(f.field, '.'), other),
        f.action == "remove"@ ==> !json::moves_up(v, text::split(f.field, '.'), other),
    ensures
        json::lookup(filtered(v, f), other) == json::lookup(v, other),
{
    let path = text::split(f.field, '.');
    json::law_replacing_keeps_other_fields(v, path, other, redaction());
    if f.action == "remove"@ {
        json::law_removing_keeps_other_fields(v, path, other);
    }
    json::law_replacing_keeps_other_fields(
        v,
        path,
        other,
        JsonView::String(
            match f.replacement {
                Some(s) => s,
                None => Seq::empty(),
            },
        ),
    );
}

/// A body that is no JSON passes unchanged, and so does every body where there is no filter.
pub proof fn law_other_bodies_pass_unchanged(filters: Seq<FilterView>, body: Seq<u8>)
    requires
        filters.len() == 0 || json::json_parse(body) is Err,
    ensures
        filtered_body(filters, body) == body,
{
}

/// A rule applies exactly where it has conditions and an `and` group of them holds.
pub proof fn law_rules_apply_where_their_conditions_hold(r: RuleView, ctx: ContextView)
    ensures
        r.conditions == Seq::<NodeView>::empty() ==> !rule_applies(r, ctx),
        r.conditions != Seq::<NodeView>::empty() ==> (rule_applies(r, ctx)
            <==> conditions::node_holds(NodeView::And(r.conditions), ctx)),
{
    conditions::law_conditions_are_joined_by_and(r.conditions, ctx);
    if r.conditions.len() == 0 {
        assert(r.conditions =~= Seq::<NodeView>::empty());
    }
}

proof fn lemma_actions()
    ensures
        "deny"@.len() == 4,
        "allow"@.len() == 5,
        "require_role"@.len() == 12,
        "rate_limit"@.len() == 10,
        "response_filter"@.len() == 15,
{
    reveal_strlit("response_filter");
    reveal_strlit("deny");
    reveal_strlit("allow");
    reveal_strlit("require_role");
    reveal_strlit("rate_limit");
}

/// The first rule that applies, where it requires the role `q`: a caller with another role than
/// `q` and `admin` is denied, and so is one without a role, unless `q` is empty; a caller with the
/// role `q` is allowed. The denial has the rule's status and message, or else 403 and a message
/// that names the role. A rule that names no role requires `admin`.
pub proof fn law_required_role_decides(
    before: Seq<RuleView>,
    rule: RuleView,
    after: Seq<RuleView>,
    ctx: ContextView,
    m: Map<Seq<char>, Bucket>,
    now: u64,
    q: Seq<char>,
    role: Seq<char>,
)
    requires
        forall|i: int| 0 <= i < before.len() ==> !rule_applies(#[trigger] before[i], ctx),
        rule_applies(rule, ctx),
        rule.action == "require_role"@,
        rule.dry_run != Some(true),
        rule.role == Some(q) || rule.role is None && q == "admin"@,
    ensures
        ({
            let (d, buckets) = rules_decision(before + seq![rule] + after, ctx, m, now);
            &&& buckets == m
            &&& d.rule_name == Some(rule.name) && d.action == Some(rule.action) && !d.dry_run
            &&& ctx.user_role == Some(role) && role != "admin"@ && role != q ==> d.result is Deny
            &&& ctx.user_role is None && q.len() > 0 ==> d.result is Deny
            &&& ctx.user_role == Some(role) && (role == q || role == "admin"@) ==> d.result is Allow
            &&& d.result is Deny && rule.status is None ==> d.result->status == 403
            &&& d.result is Deny && rule.status is Some ==> d.result->status == rule.status->0
            &&& d.result is Deny && rule.message is None ==> d.result->message == "Role '"@ + q
                + "' required"@
            &&& d.result is Deny && rule.message is Some ==> d.result->message == rule.message->0
        }),
{
    lemma_actions();
    reveal_strlit("admin");
    law_first_terminating_rule_wins(before, rule, after, ctx, m, now);
}

/// The first rule that applies, where its action is to deny or to allow and it does not only
/// watch: the request is denied, with the rule's status and message or else 403 and a fixed
/// message, or it is allowed.
pub proof fn law_denying_and_allowing_rules(
    before: Seq<RuleView>,
    rule: RuleView,
    after: Seq<RuleView>,
    ctx: ContextView,
    m: Map<Seq<char>, Bucket>,
    now: u64,
)
    requires
        forall|i: int| 0 <= i < before.len() ==> !rule_applies(#[trigger] before[i], ctx),
        rule_applies(rule, ctx),
        rule.action == "deny"@ || rule.action == "allow"@,
        rule.dry_run != Some(true),
    ensures
        ({
            let (d, buckets) = rules_decision(before + seq![rule] + after, ctx, m, now);
            &&& buckets == m
            &&& d.rule_name == Some(rule.name) && d.action == Some(rule.action) && !d.dry_run
            &&& rule.action == "allow"@ ==> d.result is Allow
            &&& rule.action == "deny"@ ==> d.result is Deny
            &&& d.result is Deny && rule.status is None ==> d.result->status == 403
            &&& d.result is Deny && rule.status is Some ==> d.result->status == rule.status->0
            &&& d.result is Deny && rule.message is None ==> d.result->message
                == "Forbidden by rule"@
            &&& d.result is Deny && rule.message is Some ==> d.result->message == rule.message->0
        }),
{
    lemma_actions();
    law_first_terminating_rule_wins(before, rule, after, ctx, m, now);
}

/// A rule that applies and limits the rate asks the client's bucket under the rule's name: where
/// it refuses, the request is denied, with the rule's status and message or else 429 and a fixed
/// message; where it does not, the rules after it decide, with the buckets as that left them.
pub proof fn law_rate_limiting_rules(
    rule: RuleView,
    after: Seq<RuleView>,
    ctx: ContextView,
    m: Map<Seq<char>, Bucket>,
    now: u64,
)
    requires
        rule_applies(rule, ctx),
        rule.action == "rate_limit"@,
        rule.rate_limit is Some,
        rule.dry_run != Some(true),
    ensures
        ({
            let limit = rule.rate_limit->0;
            let (granted, next) = limits::limited_request(
                m,
                rule.name + ":"@ + ctx.client_ip,
                limit.requests,
                limit.period,
                limit.penalty,
                now,
            );
            let (d, buckets) = rules_decision(seq![rule] + after, ctx, m, now);
            &&& granted ==> (d, buckets) == rules_decision(after, ctx, next, now)
            &&& !granted ==> {
                &&& buckets == next
                &&& d.rule_name == Some(rule.name) && d.action == Some(rule.action) && !d.dry_run
                &&& d.result is Deny
                &&& rule.status is None ==> d.result->status == 429
                &&& rule.status is Some ==> d.result->status == rule.status->0
                &&& rule.message is None ==> d.result->message == "Rate limit exceeded"@
                &&& rule.message is Some ==> d.result->message == rule.message->0
            }
        }),
{
    lemma_actions();
    assert((seq![rule] + after)[0] == rule);
    assert((seq![rule] + after).skip(1) =~= after);
}

/// A rule whose action is none of the known ones, or that limits the rate and says no limit, is as
/// if it were not there.
pub proof fn law_rules_without_an_action_are_ignored(
    rule: RuleView,
    after: Seq<RuleView>,
    ctx: ContextView,
    m: Map<Seq<char>, Bucket>,
    now: u64,
)
    requires
        rule.action != "deny"@ && rule.action != "allow"@ && rule.action != "require_role"@,
        rule.action != "rate_limit"@ || rule.rate_limit is None,
    ensures
        rules_decision(seq![rule] + after, ctx, m, now) == rules_decision(after, ctx, m, now),
{
    assert((seq![rule] + after)[0] == rule);
    assert((seq![rule] + after).skip(1) =~= after);
}

/// A rule that only watches decides where the same rule would if it did not, and leaves the
/// buckets as that would: what would be denied is allowed and marked, what would be allowed is
/// allowed and not marked.
pub proof fn law_watching_rule_marks_what_it_would_deny(
    r: RuleView,
    ctx: ContextView,
    m: Map<Seq<char>, Bucket>,
    now: u64,
)
    requires
        r.dry_run == Some(true),
    ensures
        ({
            let (d, next) = rule_decision(r, ctx, m, now);
            let (strict, same) = rule_decision(RuleView { dry_run: Some(false), ..r }, ctx, m, now);
            &&& next == same
            &&& d is Some <==> strict is Some
            &&& strict is Some ==> d->0.result is Allow && (d->0.dry_run
                <==> strict->0.result is Deny) && d->0.rule_name == strict->0.rule_name
                && d->0.action == strict->0.action && !strict->0.dry_run
        }),
{
}

/// Where no rule decides, the request is allowed, by no rule and no action, and nothing is marked.
pub proof fn law_without_rules_nothing_is_named(
    ctx: ContextView,
    m: Map<Seq<char>, Bucket>,
    now: u64,
)
    ensures
        ({
            let (d, buckets) = rules_decision(Seq::empty(), ctx, m, now);
            &&& buckets == m
            &&& d.result is Allow && d.rule_name is None && d.action is None && !d.dry_run
        }),
{
}

/// A client has separate buckets under two rules.
pub proof fn law_rules_have_separate_buckets(a: RuleView, b: RuleView, ctx: ContextView)
    requires
        a.name != b.name,
    ensures
        bucket_key(a, ctx) != bucket_key(b, ctx),
{
    let x = bucket_key(a, ctx);
    let y = bucket_key(b, ctx);
    reveal_strlit(":");
    let tail = 1 + ctx.client_ip.len();
    assert(x.take(x.len() - tail) =~= a.name);
    assert(y.take(y.len() - tail) =~= b.name);
}

/// The response filters of one rule: those that it lists where it applies and its action is to
/// filter, else none.
pub proof fn law_filters_of_a_rule(r: RuleView, ctx: ContextView)
    ensures
        filters_for(Seq::empty(), ctx) == Seq::<FilterView>::empty(),
        r.action == "response_filter"@ && r.response_filter is Some && rule_applies(r, ctx)
            ==> filters_for(seq![r], ctx) == r.response_filter->0,
        r.action != "response_filter"@ || r.response_filter is None || !rule_applies(r, ctx)
            ==> filters_for(seq![r], ctx) == Seq::<FilterView>::empty(),
{
    let none = Seq::<RuleView>::empty();
    assert(seq![r].drop_last() =~= none);
    assert(filters_for(none, ctx) == Seq::<FilterView>::empty());
    if r.response_filter is Some {
        assert(Seq::<FilterView>::empty() + r.response_filter->0 =~= r.response_filter->0);
    }
}

/// What is seen of a field that was there once a filter has been at it: `***REDACTED***` of a
/// redacted one, the replacement of a replaced one, and an empty text where the filter has no
/// replacement. A filter of another action changes nothing.
pub proof fn law_filtered_fields(v: JsonView, f: FilterView)
    requires
        json::lookup(v, text::split(f.field, '.')) is Some,
    ensures
        f.action == "redact"@ ==> json::lookup(filtered(v, f), text::split(f.field, '.')) == Some(
            JsonView::String("***REDACTED***"@),
        ),
        f.action == "replace"@ && f.replacement is Some ==> json::lookup(
            filtered(v, f),
            text::split(f.field, '.'),
        ) == Some(JsonView::String(f.replacement->0)),
        f.action == "replace"@ && f.replacement is None ==> json::lookup(
            filtered(v, f),
            text::split(f.field, '.'),
        ) == Some(JsonView::String(Seq::empty())),
        f.action != "redact"@ && f.action != "replace"@ && f.action != "remove"@ ==> filtered(v, f)
            == v,
{
    law_redacted_and_replaced_fields(v, f);
    json::law_replaced_value_is_found(
        v,
        text::split(f.field, '.'),
        JsonView::String(Seq::empty()),
    );
    reveal_strlit("redact");
    reveal_strlit("remove");
    reveal_strlit("replace");
    assert("redact"@.len() == 6 && "remove"@.len() == 6 && "replace"@.len() == 7);
}

/// Filters are applied one after the other, in their order.
pub proof fn law_filters_are_applied_in_order(
    v: JsonView,
    f: FilterView,
    a: Seq<FilterView>,
    b: Seq<FilterView>,
)
    ensures
        filtered_by(v, Seq::empty()) == v,
        filtered_by(v, seq![f]) == filtered(v, f),
        filtered_by(v, a + b) == filtered_by(filtered_by(v, a), b),
    decreases b.len(),
{
    let none = Seq::<FilterView>::empty();
    assert(seq![f].drop_last() =~= none);
    assert(filtered_by(v, none) == v);
    if b.len() == 0 {
        assert(a + b =~= a);
    } else {
        law_filters_are_applied_in_order(v, f, a, b.drop_last());
        assert((a + b).drop_last() =~= a + b.drop_last());
        assert((a + b).last() == b.last());
    }
}

/// A body that is JSON becomes the text of what the filters make of its value.
pub proof fn law_json_bodies_are_filtered(filters: Seq<FilterView>, body: Seq<u8>, v: JsonView)
    requires
        filters.len() > 0,
        json::json_parse(body) == Ok::<JsonView, Seq<char>>(v),
    ensures
        filtered_body(filters, body) == encode_utf8(json::json_text(filtered_by(v, filters))),
{
}

/// What a decision stands for, field by field.
pub proof fn law_what_a_decision_stands_for(d: Decision)
    ensures
        d@.rule_name == text::opt_text(d.rule_name),
        d@.action == text::opt_text(d.action),
        d@.dry_run == d.dry_run,
        d@.result is Allow <==> d.result is Allow,
        d.result is Deny ==> d@.result->status == d.result->status && d@.result->message
            == d.result->message@,
{
}

} // verus!
