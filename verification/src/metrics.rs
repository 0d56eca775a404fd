//! Counters of what the proxy did, and their text for Prometheus.
use crate::text;
use vstd::prelude::*;

verus! {

/// A counter; one that is full starts again at 0.
#[derive(Debug)]
pub struct Counter {
    value: u64,
}

impl View for Counter {
    type V = u64;

    closed spec fn view(&self) -> u64 {
        self.value
    }
}

/// What a counter holds after one more.
pub open spec fn bumped(n: u64) -> u64 {
    ((n + 1) % 0x1_0000_0000_0000_0000) as u64
}

impl Counter {
    /// A counter at 0.
    pub fn new() -> (r: Counter)
        ensures
            r@ == 0,
    {
        Counter { value: 0 }
    }

    /// Adds to the counter, and gives what it was.
    pub fn fetch_add(&mut self, n: u64) -> (r: u64)
        ensures
            r == old(self)@,
            final(self)@ == (old(self)@ + n) % 0x1_0000_0000_0000_0000,
    {
        let before: u64 = self.value;
        self.value = before.wrapping_add(n);
        before
    }

    /// Adds one to the counter.
    pub fn increment(&mut self)
        ensures
            final(self)@ == bumped(old(self)@),
    {
        self.fetch_add(1);
    }

    /// What the counter holds.
    pub fn load(&self) -> (r: u64)
        ensures
            r == self@,
    {
        self.value
    }
}

/// How often a rule denied, and how often it only would have.
#[derive(Debug)]
pub struct RuleCounters {
    pub rule: String,
    pub denied: u64,
    pub dry_run: u64,
}

/// What [`RuleCounters`] stand for.
pub struct RuleCountersView {
    pub rule: Seq<char>,
    pub denied: u64,
    pub dry_run: u64,
}

impl View for RuleCounters {
    type V = RuleCountersView;

    open spec fn view(&self) -> RuleCountersView {
        RuleCountersView { rule: self.rule@, denied: self.denied, dry_run: self.dry_run }
    }
}

/// What a list of counters by rule stands for.
pub open spec fn counter_list(v: Seq<RuleCounters>) -> Seq<RuleCountersView> {
    Seq::new(v.len(), |i: int| v[i]@)
}

/// One more, unless the counter is full.
pub open spec fn one_more(n: u64) -> u64 {
    if n < u64::MAX {
        (n + 1) as u64
    } else {
        n
    }
}

/// A rule's counters after one more decision.
pub open spec fn counted(c: RuleCountersView, dry_run: bool) -> RuleCountersView {
    if dry_run {
        RuleCountersView { dry_run: one_more(c.dry_run), ..c }
    } else {
        RuleCountersView { denied: one_more(c.denied), ..c }
    }
}

/// The counters by rule after one more decision of a rule; a new rule comes last.
pub open spec fn counted_rule(
    v: Seq<RuleCountersView>,
    rule: Seq<char>,
    dry_run: bool,
) -> Seq<RuleCountersView>
    decreases v.len(),
{
    if v.len() == 0 {
        seq![counted(RuleCountersView { rule, denied: 0, dry_run: 0 }, dry_run)]
    } else if v[0].rule == rule {
        v.update(0, counted(v[0], dry_run))
    } else {
        seq![v[0]] + counted_rule(v.skip(1), rule, dry_run)
    }
}

/// The number of bounds of the latency histogram.
pub const LATENCY_BOUNDS: usize = 11;

/// The bounds of the latency histogram, in milliseconds.
pub open spec fn latency_bound(i: int) -> u64 {
    if i == 0 {
        5
    } else if i == 1 {
        10
    } else if i == 2 {
        25
    } else if i == 3 {
        50
    } else if i == 4 {
        100
    } else if i == 5 {
        250
    } else if i == 6 {
        500
    } else if i == 7 {
        1000
    } else if i == 8 {
        2500
    } else if i == 9 {
        5000
    } else {
        10000
    }
}

fn bound_at(i: usize) -> (r: u64)
    ensures
        r == latency_bound(i as int),
{
    match i {
        0 => 5,
        1 => 10,
        2 => 25,
        3 => 50,
        4 => 100,
        5 => 250,
        6 => 500,
        7 => 1000,
        8 => 2500,
        9 => 5000,
        _ => 10000,
    }
}

/// The bucket of a latency: that of the first bound that is not below it, from position `i` on,
/// or the one for all that is above every bound.
pub open spec fn latency_bucket(ms: u64, i: int) -> int
    decreases LATENCY_BOUNDS - i,
{
    if i >= LATENCY_BOUNDS || ms <= latency_bound(i) {
        i
    } else {
        latency_bucket(ms, i + 1)
    }
}

/// How often each latency was seen, their sum and their number.
#[derive(Debug)]
pub struct LatencyHistogram {
    buckets: Vec<u64>,
    sum_ms: u128,
    count: u64,
}

/// What a [`LatencyHistogram`] stands for.
pub struct LatencyView {
    pub buckets: Seq<u64>,
    pub sum_ms: nat,
    pub count: nat,
}

impl View for LatencyHistogram {
    type V = LatencyView;

    closed spec fn view(&self) -> LatencyView {
        LatencyView {
            buckets: self.buckets@,
            sum_ms: self.sum_ms as nat,
            count: self.count as nat,
        }
    }
}

/// The sum of some numbers.
pub open spec fn total(v: Seq<u64>) -> int
    decreases v.len(),
{
    if v.len() == 0 {
        0
    } else {
        total(v.drop_last()) + v.last()
    }
}

/// A histogram of no latencies.
pub open spec fn no_latencies() -> LatencyView {
    LatencyView {
        buckets: Seq::new((LATENCY_BOUNDS + 1) as nat, |i: int| 0u64),
        sum_ms: 0,
        count: 0,
    }
}

/// A histogram after one more latency.
pub open spec fn observed(h: LatencyView, ms: u64) -> LatencyView {
    let i = latency_bucket(ms, 0);
    LatencyView {
        buckets: h.buckets.update(i, (h.buckets[i] + 1) as u64),
        sum_ms: h.sum_ms + ms as nat,
        count: h.count + 1,
    }
}

proof fn lemma_bucket_range(ms: u64, i: int)
    requires
        0 <= i <= LATENCY_BOUNDS,
    ensures
        i <= latency_bucket(ms, i) <= LATENCY_BOUNDS,
    decreases LATENCY_BOUNDS - i,
{
    if i < LATENCY_BOUNDS && ms > latency_bound(i) {
        lemma_bucket_range(ms, i + 1);
    }
}

proof fn lemma_total_update(v: Seq<u64>, i: int, x: u64)
    requires
        0 <= i < v.len(),
    ensures
        total(v.update(i, x)) == total(v) - v[i] + x,
    decreases v.len(),
{
    if i == v.len() - 1 {
        assert(v.update(i, x).drop_last() =~= v.drop_last());
    } else {
        assert(v.update(i, x).drop_last() =~= v.drop_last().update(i, x));
        lemma_total_update(v.drop_last(), i, x);
    }
}

proof fn lemma_total_bounds(v: Seq<u64>, n: int)
    requires
        0 <= n <= v.len(),
    ensures
        0 <= total(v.take(n)) <= total(v),
    decreases v.len(),
{
    if n == v.len() {
        assert(v.take(n) =~= v);
        if n > 0 {
            lemma_total_bounds(v.drop_last(), n - 1);
        }
    } else {
        lemma_total_bounds(v.drop_last(), n);
        assert(v.drop_last().take(n) =~= v.take(n));
    }
}

proof fn lemma_total_item(v: Seq<u64>, i: int)
    requires
        0 <= i < v.len(),
    ensures
        v[i] <= total(v),
{
    lemma_total_bounds(v, i);
    lemma_total_bounds(v, i + 1);
    assert(v.take(i + 1).drop_last() =~= v.take(i));
}

impl LatencyHistogram {
    /// There is one bucket more than bounds, and their counts make up the number of latencies.
    pub closed spec fn wf(&self) -> bool {
        &&& self.buckets@.len() == LATENCY_BOUNDS + 1
        &&& total(self.buckets@) == self.count
        &&& self.sum_ms <= self.count * u64::MAX
    }

    /// A histogram of no latencies.
    pub fn new() -> (r: LatencyHistogram)
        ensures
            r.wf(),
            r@ == no_latencies(),
    {
        let mut buckets: Vec<u64> = Vec::new();
        let mut i: usize = 0;
        while i < LATENCY_BOUNDS + 1
            invariant
                i <= LATENCY_BOUNDS + 1,
                buckets@ == Seq::new(i as nat, |j: int| 0u64),
                total(buckets@) == 0,
            decreases LATENCY_BOUNDS + 1 - i,
        {
            let ghost before = buckets@;
            buckets.push(0);
            assert(buckets@.drop_last() =~= before);
            i += 1;
        }
        LatencyHistogram { buckets, sum_ms: 0, count: 0 }
    }

    /// Counts one latency.
    pub fn observe(&mut self, ms: u64)
        requires
            old(self).wf(),
            old(self)@.count < u64::MAX,
        ensures
            final(self).wf(),
            final(self)@ == observed(old(self)@, ms),
    {
        let ghost before = self.buckets@;
        let mut i: usize = 0;
        while i < LATENCY_BOUNDS && ms > bound_at(i)
            invariant
                i <= LATENCY_BOUNDS,
                latency_bucket(ms, 0) == latency_bucket(ms, i as int),
            ensures
                i == latency_bucket(ms, 0),
                i <= LATENCY_BOUNDS,
            decreases LATENCY_BOUNDS - i,
        {
            i += 1;
        }
        proof {
            lemma_total_item(before, i as int);
            lemma_total_update(before, i as int, (before[i as int] + 1) as u64);
            assert((self.count + 1) * u64::MAX == self.count * u64::MAX + u64::MAX)
                by (nonlinear_arith);
        }
        self.buckets[i] = self.buckets[i] + 1;
        self.sum_ms = self.sum_ms + ms as u128;
        self.count = self.count + 1;
        assert(self.buckets@ =~= before.update(i as int, (before[i as int] + 1) as u64));
    }

    /// How many latencies were counted.
    pub fn count(&self) -> (r: u64)
        ensures
            r == self@.count,
    {
        self.count
    }
}

/// Everything that the proxy counts.
#[derive(Debug)]
pub struct Metrics {
    pub requests_total: Counter,
    pub requests_allowed: Counter,
    pub requests_denied: Counter,
    pub requests_dry_run: Counter,
    pub auth_failures_total: Counter,
    pub auth_lockouts_total: Counter,
    pub rate_limited_total: Counter,
    pub upstream_errors_total: Counter,
    pub upstream_timeouts_total: Counter,
    pub request_timeouts_total: Counter,
    pub body_too_large_total: Counter,
    pub bad_request_total: Counter,
    pub upgrade_total: Counter,
    pub by_rule: Vec<RuleCounters>,
    pub latency: LatencyHistogram,
}

/// What [`Metrics`] stand for.
pub struct MetricsView {
    pub requests_total: u64,
    pub requests_allowed: u64,
    pub requests_denied: u64,
    pub requests_dry_run: u64,
    pub auth_failures_total: u64,
    pub auth_lockouts_total: u64,
    pub rate_limited_total: u64,
    pub upstream_errors_total: u64,
    pub upstream_timeouts_total: u64,
    pub request_timeouts_total: u64,
    pub body_too_large_total: u64,
    pub bad_request_total: u64,
    pub upgrade_total: u64,
    pub by_rule: Seq<RuleCountersView>,
    pub latency: LatencyView,
}

impl View for Metrics {
    type V = MetricsView;

    open spec fn view(&self) -> MetricsView {
        MetricsView {
            requests_total: self.requests_total@,
            requests_allowed: self.requests_allowed@,
            requests_denied: self.requests_denied@,
            requests_dry_run: self.requests_dry_run@,
            auth_failures_total: self.auth_failures_total@,
            auth_lockouts_total: self.auth_lockouts_total@,
            rate_limited_total: self.rate_limited_total@,
            upstream_errors_total: self.upstream_errors_total@,
            upstream_timeouts_total: self.upstream_timeouts_total@,
            request_timeouts_total: self.request_timeouts_total@,
            body_too_large_total: self.body_too_large_total@,
            bad_request_total: self.bad_request_total@,
            upgrade_total: self.upgrade_total@,
            by_rule: counter_list(self.by_rule@),
            latency: self.latency@,
        }
    }
}

/// A rule's name as a label: backslashes, quotation marks and line ends are escaped.
pub open spec fn escaped(s: Seq<char>) -> Seq<char>
    decreases s.len(),
{
    if s.len() == 0 {
        Seq::empty()
    } else {
        escaped(s.drop_last()) + escaped_char(s.last())
    }
}

/// A character of a label.
pub open spec fn escaped_char(c: char) -> Seq<char> {
    if c == '\\' {
        "\\\\"@
    } else if c == '"' {
        "\\\""@
    } else if c == '\n' {
        "\\n"@
    } else {
        seq![c]
    }
}

/// A rule's name as a label.
pub fn escape_label(s: &str) -> (r: String)
    ensures
        r@ == escaped(s@),
{
    let chars = text::chars_of(s);
    let mut out = String::new();
    let mut i: usize = 0;
    while i < chars.len()
        invariant
            i <= chars@.len(),
            out@ == escaped(chars@.take(i as int)),
        decreases chars@.len() - i,
    {
        let c = chars[i];
        assert(chars@.take(i + 1).drop_last() =~= chars@.take(i as int));
        if c == '\\' {
            out.append("\\\\");
        } else if c == '"' {
            out.append("\\\"");
        } else if c == '\n' {
            out.append("\\n");
        } else {
            let ghost before = out@;
            out.push(c);
            assert(out@ =~= before + seq![c]);
        }
        i += 1;
    }
    assert(chars@.take(i as int) =~= chars@);
    out
}

/// The lines of a counter.
pub open spec fn counter_lines(name: Seq<char>, help: Seq<char>, value: u64) -> Seq<char> {
    "# HELP "@ + name + " "@ + help + "\n# TYPE "@ + name + " counter\n"@ + name + " "@
        + text::decimal(value as nat) + "\n"@
}

/// The lines of a rule's counters.
pub open spec fn rule_lines(c: RuleCountersView) -> Seq<char> {
    "docker_proxy_rule_decisions_total{rule=\""@ + escaped(c.rule) + "\",mode=\"enforced\"} "@
        + text::decimal(c.denied as nat) + "\ndocker_proxy_rule_decisions_total{rule=\""@ + escaped(
        c.rule,
    ) + "\",mode=\"dry_run\"} "@ + text::decimal(c.dry_run as nat) + "\n"@
}

/// The lines of all counters by rule.
pub open spec fn all_rule_lines(v: Seq<RuleCountersView>) -> Seq<char>
    decreases v.len(),
{
    if v.len() == 0 {
        Seq::empty()
    } else {
        all_rule_lines(v.drop_last()) + rule_lines(v.last())
    }
}

/// The line of the latencies up to a bound.
pub open spec fn bucket_line(bound: Seq<char>, count: int) -> Seq<char> {
    "docker_proxy_upstream_latency_ms_bucket{le=\""@ + bound + "\"} "@ + text::decimal(
        count as nat,
    ) + "\n"@
}

/// The lines of the latencies up to each of the first bounds.
pub open spec fn bucket_lines(buckets: Seq<u64>, n: int) -> Seq<char>
    decreases n,
{
    if n <= 0 {
        Seq::empty()
    } else {
        bucket_lines(buckets, n - 1) + bucket_line(
            text::decimal(latency_bound(n - 1) as nat),
            total(buckets.take(n)),
        )
    }
}

/// The lines of the latencies.
pub open spec fn latency_lines(h: LatencyView) -> Seq<char> {
    "# HELP docker_proxy_upstream_latency_ms Latency to docker upstream in milliseconds\n"@
        + "# TYPE docker_proxy_upstream_latency_ms histogram\n"@ + bucket_lines(
        h.buckets,
        LATENCY_BOUNDS as int,
    ) + bucket_line("+Inf"@, total(h.buckets)) + "docker_proxy_upstream_latency_ms_sum "@
        + text::decimal(h.sum_ms) + "\ndocker_proxy_upstream_latency_ms_count "@ + text::decimal(
        h.count,
    ) + "\n"@
}

/// The lines of the plain counters.
pub open spec fn all_counter_lines(m: MetricsView) -> Seq<char> {
    counter_lines("docker_proxy_requests_total"@, "Total HTTP requests received"@, m.requests_total)
        + counter_lines(
            "docker_proxy_requests_allowed_total"@,
            "Requests with outcome 'allowed'"@,
            m.requests_allowed,
        )
        + counter_lines(
            "docker_proxy_requests_denied_total"@,
            "Requests with outcome 'denied'"@,
            m.requests_denied,
        )
        + counter_lines(
            "docker_proxy_requests_dry_run_total"@,
            "Requests with outcome 'dry_run'"@,
            m.requests_dry_run,
        )
        + counter_lines(
            "docker_proxy_auth_failures_total"@,
            "Failed auth attempts"@,
            m.auth_failures_total,
        )
        + counter_lines(
            "docker_proxy_auth_lockouts_total"@,
            "IP auth lockouts triggered"@,
            m.auth_lockouts_total,
        )
        + counter_lines(
            "docker_proxy_rate_limited_total"@,
            "Requests blocked by rate limit"@,
            m.rate_limited_total,
        )
        + counter_lines(
            "docker_proxy_upstream_errors_total"@,
            "Upstream docker errors"@,
            m.upstream_errors_total,
        )
        + counter_lines(
            "docker_proxy_upstream_timeouts_total"@,
            "Upstream docker timeouts"@,
            m.upstream_timeouts_total,
        )
        + counter_lines(
            "docker_proxy_request_timeouts_total"@,
            "Requests whose body took too long"@,
            m.request_timeouts_total,
        )
        + counter_lines(
            "docker_proxy_body_too_large_total"@,
            "Requests rejected for body size"@,
            m.body_too_large_total,
        )
        + counter_lines(
            "docker_proxy_bad_request_total"@,
            "Requests rejected as malformed"@,
            m.bad_request_total,
        )
        + counter_lines(
            "docker_proxy_upgrade_total"@,
            "HTTP upgrade (exec/attach) requests proxied"@,
            m.upgrade_total,
        )
}

/// The text of the metrics.
pub open spec fn prometheus_text(m: MetricsView) -> Seq<char> {
    all_counter_lines(m) + "# HELP docker_proxy_rule_decisions_total Decisions per rule\n"@
        + "# TYPE docker_proxy_rule_decisions_total counter\n"@ + all_rule_lines(m.by_rule)
        + latency_lines(m.latency)
}

fn write_counter(out: &mut String, name: &str, help: &str, value: u64)
    ensures
        final(out)@ == old(out)@ + counter_lines(name@, help@, value),
{
    let mut lines = "# HELP ".to_string();
    lines.append(name);
    lines.append(" ");
    lines.append(help);
    lines.append("\n# TYPE ");
    lines.append(name);
    lines.append(" counter\n");
    lines.append(name);
    lines.append(" ");
    lines.append(text::decimal_text(value as u128).as_str());
    lines.append("\n");
    out.append(lines.as_str());
}

fn write_rule(out: &mut String, c: &RuleCounters)
    ensures
        final(out)@ == old(out)@ + rule_lines(c@),
{
    let rule = escape_label(c.rule.as_str());
    let mut lines = "docker_proxy_rule_decisions_total{rule=\"".to_string();
    lines.append(rule.as_str());
    lines.append("\",mode=\"enforced\"} ");
    lines.append(text::decimal_text(c.denied as u128).as_str());
    lines.append("\ndocker_proxy_rule_decisions_total{rule=\"");
    lines.append(rule.as_str());
    lines.append("\",mode=\"dry_run\"} ");
    lines.append(text::decimal_text(c.dry_run as u128).as_str());
    lines.append("\n");
    out.append(lines.as_str());
}

fn write_rules(out: &mut String, v: &Vec<RuleCounters>)
    ensures
        final(out)@ == old(out)@ + all_rule_lines(counter_list(v@)),
{
    let ghost before = out@;
    let ghost list = counter_list(v@);
    let mut i: usize = 0;
    assert(before + all_rule_lines(list.take(0)) =~= before);
    while i < v.len()
        invariant
            i <= v@.len(),
            list == counter_list(v@),
            out@ == before + all_rule_lines(list.take(i as int)),
        decreases v@.len() - i,
    {
        assert(list.take(i + 1).drop_last() =~= list.take(i as int));
        assert(list.take(i + 1).last() == v@[i as int]@);
        write_rule(out, &v[i]);
        assert(out@ =~= before + (all_rule_lines(list.take(i as int)) + rule_lines(
            v@[i as int]@,
        )));
        i += 1;
    }
    assert(list.take(i as int) =~= list);
}

fn write_bucket(out: &mut String, bound: &str, count: u64)
    ensures
        final(out)@ == old(out)@ + bucket_line(bound@, count as int),
{
    let mut line = "docker_proxy_upstream_latency_ms_bucket{le=\"".to_string();
    line.append(bound);
    line.append("\"} ");
    line.append(text::decimal_text(count as u128).as_str());
    line.append("\n");
    out.append(line.as_str());
}

impl LatencyHistogram {
    fn render(&self) -> (r: String)
        requires
            self.wf(),
        ensures
            r@ == latency_lines(self@),
    {
        let mut out = String::new();
        out.append(
            "# HELP docker_proxy_upstream_latency_ms Latency to docker upstream in milliseconds\n",
        );
        out.append("# TYPE docker_proxy_upstream_latency_ms histogram\n");
        let ghost head = out@;
        let ghost all = self.buckets@;
        let mut cumulative: u64 = 0;
        let mut i: usize = 0;
        assert(head + bucket_lines(all, 0) =~= head);
        while i < LATENCY_BOUNDS
            invariant
                i <= LATENCY_BOUNDS,
                self.wf(),
                all == self.buckets@,
                cumulative == total(all.take(i as int)),
                out@ == head + bucket_lines(all, i as int),
            decreases LATENCY_BOUNDS - i,
        {
            proof {
                assert(all.take(i + 1).drop_last() =~= all.take(i as int));
                lemma_total_bounds(all, i + 1);
            }
            cumulative = cumulative + self.buckets[i];
            let ghost before = out@;
            write_bucket(&mut out, text::decimal_text(bound_at(i) as u128).as_str(), cumulative);
            assert(out@ =~= head + (bucket_lines(all, i as int) + bucket_line(
                text::decimal(latency_bound(i as int) as nat),
                total(all.take(i + 1)),
            )));
            i += 1;
        }
        proof {
            assert(all.take(i + 1) =~= all);
            assert(all.drop_last() =~= all.take(i as int));
        }
        cumulative = cumulative + self.buckets[LATENCY_BOUNDS];
        write_bucket(&mut out, "+Inf", cumulative);
        out.append("docker_proxy_upstream_latency_ms_sum ");
        out.append(text::decimal_text(self.sum_ms).as_str());
        out.append("\ndocker_proxy_upstream_latency_ms_count ");
        out.append(text::decimal_text(self.count as u128).as_str());
        out.append("\n");
        out
    }
}

impl Metrics {
    /// The latencies are counted consistently.
    pub open spec fn wf(&self) -> bool {
        self.latency.wf()
    }

    /// Metrics of a proxy that did nothing yet.
    pub fn new() -> (r: Metrics)
        ensures
            r.wf(),
            r@.requests_total == 0,
            r@.requests_allowed == 0,
            r@.requests_denied == 0,
            r@.requests_dry_run == 0,
            r@.auth_failures_total == 0,
            r@.auth_lockouts_total == 0,
            r@.rate_limited_total == 0,
            r@.upstream_errors_total == 0,
            r@.upstream_timeouts_total == 0,
            r@.request_timeouts_total == 0,
            r@.body_too_large_total == 0,
            r@.bad_request_total == 0,
            r@.upgrade_total == 0,
            r@.by_rule == Seq::<RuleCountersView>::empty(),
            r@.latency == no_latencies(),
    {
        let r = Metrics {
            requests_total: Counter::new(),
            requests_allowed: Counter::new(),
            requests_denied: Counter::new(),
            requests_dry_run: Counter::new(),
            auth_failures_total: Counter::new(),
            auth_lockouts_total: Counter::new(),
            rate_limited_total: Counter::new(),
            upstream_errors_total: Counter::new(),
            upstream_timeouts_total: Counter::new(),
            request_timeouts_total: Counter::new(),
            body_too_large_total: Counter::new(),
            bad_request_total: Counter::new(),
            upgrade_total: Counter::new(),
            by_rule: Vec::new(),
            latency: LatencyHistogram::new(),
        };
        assert(r@.by_rule =~= Seq::<RuleCountersView>::empty());
        r
    }

    /// Counts a denial of a rule, or one that it only watched.
    pub fn record_rule_deny(&mut self, rule_name: &str, dry_run: bool)
        requires
            old(self).wf(),
        ensures
            final(self).wf(),
            final(self)@ == (MetricsView {
                by_rule: counted_rule(old(self)@.by_rule, rule_name@, dry_run),
                ..old(self)@
            }),
    {
        count_rule(&mut self.by_rule, rule_name, dry_run);
    }

    /// Counts the latency of one answer.
    pub fn observe_upstream_latency_ms(&mut self, ms: u64)
        requires
            old(self).wf(),
            old(self)@.latency.count < u64::MAX,
        ensures
            final(self).wf(),
            final(self)@ == (MetricsView {
                latency: observed(old(self)@.latency, ms),
                ..old(self)@
            }),
    {
        self.latency.observe(ms);
    }

    /// The text of the metrics.
    pub fn render_prometheus(&self) -> (r: String)
        requires
            self.wf(),
        ensures
            r@ == prometheus_text(self@),
    {
        let mut out = String::new();
        write_counter(
            &mut out,
            "docker_proxy_requests_total",
            "Total HTTP requests received",
            self.requests_total.load(),
        );
        assert(out@ =~= counter_lines(
            "docker_proxy_requests_total"@,
            "Total HTTP requests received"@,
            self.requests_total@,
        ));
        write_counter(
            &mut out,
            "docker_proxy_requests_allowed_total",
            "Requests with outcome 'allowed'",
            self.requests_allowed.load(),
        );
        write_counter(
            &mut out,
            "docker_proxy_requests_denied_total",
            "Requests with outcome 'denied'",
            self.requests_denied.load(),
        );
        write_counter(
            &mut out,
            "docker_proxy_requests_dry_run_total",
            "Requests with outcome 'dry_run'",
            self.requests_dry_run.load(),
        );
        write_counter(
            &mut out,
            "docker_proxy_auth_failures_total",
            "Failed auth attempts",
            self.auth_failures_total.load(),
        );
        write_counter(
            &mut out,
            "docker_proxy_auth_lockouts_total",
            "IP auth lockouts triggered",
            self.auth_lockouts_total.load(),
        );
        write_counter(
            &mut out,
            "docker_proxy_rate_limited_total",
            "Requests blocked by rate limit",
            self.rate_limited_total.load(),
        );
        write_counter(
            &mut out,
            "docker_proxy_upstream_errors_total",
            "Upstream docker errors",
            self.upstream_errors_total.load(),
        );
        write_counter(
            &mut out,
            "docker_proxy_upstream_timeouts_total",
            "Upstream docker timeouts",
            self.upstream_timeouts_total.load(),
        );
        write_counter(
            &mut out,
            "docker_proxy_request_timeouts_total",
            "Requests whose body took too long",
            self.request_timeouts_total.load(),
        );
        write_counter(
            &mut out,
            "docker_proxy_body_too_large_total",
            "Requests rejected for body size",
            self.body_too_large_total.load(),
        );
        write_counter(
            &mut out,
            "docker_proxy_bad_request_total",
            "Requests rejected as malformed",
            self.bad_request_total.load(),
        );
        write_counter(
            &mut out,
            "docker_proxy_upgrade_total",
            "HTTP upgrade (exec/attach) requests proxied",
            self.upgrade_total.load(),
        );
        out.append("# HELP docker_proxy_rule_decisions_total Decisions per rule\n");
        out.append("# TYPE docker_proxy_rule_decisions_total counter\n");
        write_rules(&mut out, &self.by_rule);
        out.append(self.latency.render().as_str());
        out
    }
}

fn count_rule(v: &mut Vec<RuleCounters>, rule: &str, dry_run: bool)
    ensures
        counter_list(final(v)@) == counted_rule(counter_list(old(v)@), rule@, dry_run),
{
    let ghost list = counter_list(v@);
    let mut i: usize = 0;
    assert(list.skip(0) =~= list);
    assert(list.take(0) + counted_rule(list, rule@, dry_run) =~= counted_rule(
        list,
        rule@,
        dry_run,
    ));
    while i < v.len()
        invariant
            i <= v@.len(),
            v@ == old(v)@,
            list == counter_list(v@),
            counted_rule(list, rule@, dry_run) == list.take(i as int) + counted_rule(
                list.skip(i as int),
                rule@,
                dry_run,
            ),
        decreases v@.len() - i,
    {
        let ghost rest = list.skip(i as int);
        assert(rest[0] == v@[i as int]@);
        assert(rest.skip(1) =~= list.skip(i + 1));
        if text::same(v[i].rule.as_str(), rule) {
            if dry_run {
                if v[i].dry_run < u64::MAX {
                    v[i].dry_run = v[i].dry_run + 1;
                }
            } else if v[i].denied < u64::MAX {
                v[i].denied = v[i].denied + 1;
            }
            assert(counter_list(v@) =~= list.take(i as int) + rest.update(
                0,
                counted(rest[0], dry_run),
            ));
            return ;
        }
        assert(list.take(i + 1) + counted_rule(list.skip(i + 1), rule@, dry_run) =~= list.take(
            i as int,
        ) + (seq![rest[0]] + counted_rule(rest.skip(1), rule@, dry_run)));
        i += 1;
    }
    let (denied, watched): (u64, u64) = if dry_run {
        (0, 1)
    } else {
        (1, 0)
    };
    v.push(RuleCounters { rule: rule.to_string(), denied, dry_run: watched });
    assert(list.skip(i as int) =~= Seq::<RuleCountersView>::empty());
    assert(counter_list(v@) =~= list.take(i as int) + seq![
        counted(RuleCountersView { rule: rule@, denied: 0, dry_run: 0 }, dry_run),
    ]);
}

/// The last bucket of the histogram counts every latency.
pub proof fn law_last_bucket_counts_every_latency(m: Metrics)
    requires
        m.wf(),
    ensures
        total(m@.latency.buckets) == m@.latency.count,
{
}

/// Each bucket of the histogram counts at least what the one before it counts.
pub proof fn law_buckets_are_cumulative(buckets: Seq<u64>, n: int)
    requires
        0 <= n < buckets.len(),
    ensures
        total(buckets.take(n)) <= total(buckets.take(n + 1)),
{
    assert(buckets.take(n + 1).drop_last() =~= buckets.take(n));
}

/// A histogram after a run of latencies.
pub open spec fn observed_all(h: LatencyView, xs: Seq<u64>) -> LatencyView
    decreases xs.len(),
{
    if xs.len() == 0 {
        h
    } else {
        observed(observed_all(h, xs.drop_last()), xs.last())
    }
}

/// How many of the latencies are no longer than a bound.
pub open spec fn number_up_to(xs: Seq<u64>, bound: u64) -> nat
    decreases xs.len(),
{
    if xs.len() == 0 {
        0
    } else if xs.last() <= bound {
        number_up_to(xs.drop_last(), bound) + 1
    } else {
        number_up_to(xs.drop_last(), bound)
    }
}

/// The lines of the numbers of latencies up to each of the first bounds.
pub open spec fn number_lines(xs: Seq<u64>, n: int) -> Seq<char>
    decreases n,
{
    if n <= 0 {
        Seq::empty()
    } else {
        number_lines(xs, n - 1) + bucket_line(
            text::decimal(latency_bound(n - 1) as nat),
            number_up_to(xs, latency_bound(n - 1)) as int,
        )
    }
}

proof fn lemma_zeros(n: nat)
    ensures
        total(Seq::new(n, |i: int| 0u64)) == 0,
    decreases n,
{
    let v = Seq::new(n, |i: int| 0u64);
    if n > 0 {
        assert(v.drop_last() =~= Seq::new((n - 1) as nat, |i: int| 0u64));
        lemma_zeros((n - 1) as nat);
    }
}

/// A latency falls into one of the first buckets exactly where it is within their bounds.
proof fn lemma_bucket_of_bound(ms: u64, i: int, from: int)
    requires
        0 <= from <= i < LATENCY_BOUNDS,
    ensures
        (latency_bucket(ms, from) <= i) == (ms <= latency_bound(i)),
    decreases LATENCY_BOUNDS - from,
{
    if ms <= latency_bound(from) {
        assert(latency_bound(from) <= latency_bound(i));
    } else if from == i {
        lemma_bucket_range(ms, from + 1);
    } else {
        lemma_bucket_of_bound(ms, i, from + 1);
    }
}

/// After any run of latencies, the first buckets together hold the number of those up to their
/// last bound, and all buckets together the number of all; the sum is that of all.
pub proof fn law_buckets_hold_the_latencies_up_to_their_bound(xs: Seq<u64>, i: int)
    requires
        xs.len() <= u64::MAX,
        0 <= i < LATENCY_BOUNDS,
    ensures
        ({
            let h = observed_all(no_latencies(), xs);
            &&& h.buckets.len() == LATENCY_BOUNDS + 1
            &&& total(h.buckets.take(i + 1)) == number_up_to(xs, latency_bound(i))
            &&& total(h.buckets) == xs.len()
            &&& h.count == xs.len()
            &&& h.sum_ms == total(xs)
        }),
    decreases xs.len(),
{
    let h = observed_all(no_latencies(), xs);
    if xs.len() == 0 {
        lemma_zeros((LATENCY_BOUNDS + 1) as nat);
        lemma_zeros((i + 1) as nat);
        assert(h.buckets.take(i + 1) =~= Seq::new((i + 1) as nat, |i: int| 0u64));
    } else {
        law_buckets_hold_the_latencies_up_to_their_bound(xs.drop_last(), i);
        let before = observed_all(no_latencies(), xs.drop_last()).buckets;
        let ms = xs.last();
        let k = latency_bucket(ms, 0);
        lemma_bucket_range(ms, 0);
        lemma_bucket_of_bound(ms, i, 0);
        lemma_total_item(before, k);
        let x = (before[k] + 1) as u64;
        lemma_total_update(before, k, x);
        let head = before.take(i + 1);
        if k <= i {
            lemma_total_update(head, k, x);
            assert(h.buckets.take(i + 1) =~= head.update(k, x));
        } else {
            assert(h.buckets.take(i + 1) =~= head);
        }
    }
}

proof fn lemma_number_lines(xs: Seq<u64>, n: int)
    requires
        xs.len() <= u64::MAX,
        0 <= n <= LATENCY_BOUNDS,
    ensures
        bucket_lines(observed_all(no_latencies(), xs).buckets, n) == number_lines(xs, n),
    decreases n,
{
    if n > 0 {
        lemma_number_lines(xs, n - 1);
        law_buckets_hold_the_latencies_up_to_their_bound(xs, n - 1);
    }
}

/// After any run of latencies, the line of each bound shows how many of them are up to it, and
/// the line without a bound and that of the count show how many there are, the line of the sum
/// what they add up to.
pub proof fn law_latency_lines_show_the_latencies(xs: Seq<u64>)
    requires
        xs.len() <= u64::MAX,
    ensures
        latency_lines(observed_all(no_latencies(), xs))
            == "# HELP docker_proxy_upstream_latency_ms Latency to docker upstream in milliseconds\n"@
            + "# TYPE docker_proxy_upstream_latency_ms histogram\n"@ + number_lines(
            xs,
            LATENCY_BOUNDS as int,
        ) + bucket_line("+Inf"@, xs.len() as int) + "docker_proxy_upstream_latency_ms_sum "@
            + text::decimal(total(xs) as nat)
            + "\ndocker_proxy_upstream_latency_ms_count "@ + text::decimal(xs.len()) + "\n"@,
{
    lemma_number_lines(xs, LATENCY_BOUNDS as int);
    law_buckets_hold_the_latencies_up_to_their_bound(xs, 0);
}

/// A longer bound takes in no fewer latencies.
pub proof fn law_longer_bounds_take_in_more(xs: Seq<u64>, a: u64, b: u64)
    requires
        a <= b,
    ensures
        number_up_to(xs, a) <= number_up_to(xs, b) <= xs.len(),
    decreases xs.len(),
{
    if xs.len() > 0 {
        law_longer_bounds_take_in_more(xs.drop_last(), a, b);
    }
}

/// The counters of a rule; none where it never decided.
pub open spec fn counters_of(v: Seq<RuleCountersView>, rule: Seq<char>) -> RuleCountersView
    decreases v.len(),
{
    if v.len() == 0 {
        RuleCountersView { rule, denied: 0, dry_run: 0 }
    } else if v[0].rule == rule {
        v[0]
    } else {
        counters_of(v.skip(1), rule)
    }
}

/// A decision of a rule is counted for that rule, and for no other.
pub proof fn law_decisions_are_counted_by_rule(
    v: Seq<RuleCountersView>,
    rule: Seq<char>,
    other: Seq<char>,
    dry_run: bool,
)
    ensures
        counters_of(counted_rule(v, rule, dry_run), rule) == counted(
            counters_of(v, rule),
            dry_run,
        ),
        other != rule ==> counters_of(counted_rule(v, rule, dry_run), other) == counters_of(
            v,
            other,
        ),
    decreases v.len(),
{
    let after = counted_rule(v, rule, dry_run);
    if v.len() == 0 {
        assert(after.skip(1) =~= v);
    } else if v[0].rule == rule {
        assert(after.skip(1) =~= v.skip(1));
    } else {
        law_decisions_are_counted_by_rule(v.skip(1), rule, other, dry_run);
        assert(after.skip(1) =~= counted_rule(v.skip(1), rule, dry_run));
    }
}

/// A label holds no line end, so that it stays on its line.
pub proof fn law_labels_stay_on_one_line(s: Seq<char>)
    ensures
        !escaped(s).contains('\n'),
    decreases s.len(),
{
    reveal_strlit("\\\\");
    reveal_strlit("\\\"");
    reveal_strlit("\\n");
    if s.len() > 0 {
        law_labels_stay_on_one_line(s.drop_last());
        let head = escaped(s.drop_last());
        let tail = escaped_char(s.last());
        assert(forall|k: int| 0 <= k < tail.len() ==> tail[k] != '\n');
        assert forall|k: int| 0 <= k < escaped(s).len() implies escaped(s)[k] != '\n' by {
            if k < head.len() {
                assert(head[k] == escaped(s)[k]);
                assert(head.contains(head[k]));
            } else {
                assert(escaped(s)[k] == tail[k - head.len()]);
            }
        }
    }
}

/// A counter goes up by one, and over to 0 from the largest number.
pub proof fn law_counters_go_up_by_one(n: u64)
    ensures
        n < u64::MAX ==> bumped(n) == n + 1,
        n == u64::MAX ==> bumped(n) == 0,
{
}

/// A decision of a rule counts as one more that is enforced or one more that is only watched, and
/// changes neither the rule's other counter nor its name; a counter at the largest number stays
/// there. A rule that has no counters yet gets them at the end.
pub proof fn law_counters_of_a_rule(
    v: Seq<RuleCountersView>,
    c: RuleCountersView,
    rule: Seq<char>,
    dry_run: bool,
)
    ensures
        counted(c, dry_run).rule == c.rule,
        dry_run ==> counted(c, dry_run).denied == c.denied,
        !dry_run ==> counted(c, dry_run).dry_run == c.dry_run,
        dry_run && c.dry_run < u64::MAX ==> counted(c, dry_run).dry_run == c.dry_run + 1,
        dry_run && c.dry_run == u64::MAX ==> counted(c, dry_run).dry_run == c.dry_run,
        !dry_run && c.denied < u64::MAX ==> counted(c, dry_run).denied == c.denied + 1,
        !dry_run && c.denied == u64::MAX ==> counted(c, dry_run).denied == c.denied,
        (forall|i: int| 0 <= i < v.len() ==> (#[trigger] v[i]).rule != rule) ==> counted_rule(
            v,
            rule,
            dry_run,
        ) == v.push(counted(RuleCountersView { rule, denied: 0, dry_run: 0 }, dry_run)),
    decreases v.len(),
{
    if forall|i: int| 0 <= i < v.len() ==> (#[trigger] v[i]).rule != rule {
        let fresh = counted(RuleCountersView { rule, denied: 0, dry_run: 0 }, dry_run);
        if v.len() == 0 {
            assert(v.push(fresh) =~= seq![fresh]);
        } else {
            assert(v[0].rule != rule);
            let rest = v.skip(1);
            assert forall|i: int| 0 <= i < rest.len() implies (#[trigger] rest[i]).rule != rule by {
                assert(rest[i] == v[i + 1]);
            }
            law_counters_of_a_rule(rest, c, rule, dry_run);
            assert(seq![v[0]] + rest.push(fresh) =~= v.push(fresh));
        }
    }
}

/// The bounds of the latency buckets, in milliseconds.
pub proof fn law_bounds_of_the_buckets()
    ensures
        seq![
            latency_bound(0),
            latency_bound(1),
            latency_bound(2),
            latency_bound(3),
            latency_bound(4),
            latency_bound(5),
            latency_bound(6),
            latency_bound(7),
            latency_bound(8),
            latency_bound(9),
            latency_bound(10),
        ] == seq![5u64, 10, 25, 50, 100, 250, 500, 1000, 2500, 5000, 10000],
        LATENCY_BOUNDS == 11,
{
}

/// A label is escaped character by character: a backslash and a quote get a backslash before them,
/// a line end becomes a backslash and an `n`, and every other character stays.
pub proof fn law_labels_are_escaped(a: Seq<char>, b: Seq<char>, c: char)
    ensures
        escaped(Seq::empty()) == Seq::<char>::empty(),
        escaped(a + b) == escaped(a) + escaped(b),
        escaped(seq!['\\']) == seq!['\\', '\\'],
        escaped(seq!['"']) == seq!['\\', '"'],
        escaped(seq!['\n']) == seq!['\\', 'n'],
        c != '\\' && c != '"' && c != '\n' ==> escaped(seq![c]) == seq![c],
    decreases b.len(),
{
    reveal_strlit("\\\\");
    reveal_strlit("\\\"");
    reveal_strlit("\\n");
    lemma_escaped_one('\\');
    lemma_escaped_one('"');
    lemma_escaped_one('\n');
    lemma_escaped_one(c);
    assert("\\\\"@ =~= seq!['\\', '\\']);
    assert("\\\""@ =~= seq!['\\', '"']);
    assert("\\n"@ =~= seq!['\\', 'n']);
    if b.len() == 0 {
        assert(a + b =~= a);
        assert(escaped(a) + escaped(b) =~= escaped(a));
    } else {
        law_labels_are_escaped(a, b.drop_last(), c);
        assert((a + b).drop_last() =~= a + b.drop_last());
        assert((a + b).last() == b.last());
        assert(escaped(a) + escaped(b.drop_last()) + escaped_char(b.last()) =~= escaped(a) + (
        escaped(b.drop_last()) + escaped_char(b.last())));
    }
}

proof fn lemma_escaped_one(c: char)
    ensures
        escaped(seq![c]) == escaped_char(c),
{
    let none = Seq::<char>::empty();
    assert(seq![c].drop_last() =~= none);
    assert(escaped(none) =~= none);
    assert(none + escaped_char(c) =~= escaped_char(c));
}

/// The line that shows the value of a counter, with the end of the line before it.
pub open spec fn value_line(name: Seq<char>, value: u64) -> Seq<char> {
    "\n"@ + name + " "@ + text::decimal(value as nat) + "\n"@
}

proof fn lemma_counter_lines(name: Seq<char>, help: Seq<char>, value: u64)
    ensures
        text::contains_text(counter_lines(name, help, value), value_line(name, value)),
{
    reveal_strlit(" counter\n");
    reveal_strlit("\n");
    let line = value_line(name, value);
    let before = "# HELP "@ + name + " "@ + help + "\n# TYPE "@ + name + " counter"@;
    reveal_strlit(" counter");
    assert(" counter\n"@ =~= " counter"@ + "\n"@);
    assert(counter_lines(name, help, value) =~= before + line + Seq::<char>::empty());
    text::law_texts_contain_themselves(before, line, Seq::empty());
}

/// The text of the metrics shows every counter on a line of its own, by its name and with its
/// value.
pub proof fn law_every_counter_is_shown(m: MetricsView)
    ensures
        ({
            let t = prometheus_text(m);
            &&& text::contains_text(t, value_line("docker_proxy_requests_total"@, m.requests_total))
            &&& text::contains_text(
                t,
                value_line("docker_proxy_requests_allowed_total"@, m.requests_allowed),
            )
            &&& text::contains_text(
                t,
                value_line("docker_proxy_requests_denied_total"@, m.requests_denied),
            )
            &&& text::contains_text(
                t,
                value_line("docker_proxy_requests_dry_run_total"@, m.requests_dry_run),
            )
            &&& text::contains_text(
                t,
                value_line("docker_proxy_auth_failures_total"@, m.auth_failures_total),
            )
            &&& text::contains_text(
                t,
                value_line("docker_proxy_auth_lockouts_total"@, m.auth_lockouts_total),
            )
            &&& text::contains_text(
                t,
                value_line("docker_proxy_rate_limited_total"@, m.rate_limited_total),
            )
            &&& text::contains_text(
                t,
                value_line("docker_proxy_upstream_errors_total"@, m.upstream_errors_total),
            )
            &&& text::contains_text(
                t,
                value_line("docker_proxy_upstream_timeouts_total"@, m.upstream_timeouts_total),
            )
            &&& text::contains_text(
                t,
                value_line("docker_proxy_request_timeouts_total"@, m.request_timeouts_total),
            )
            &&& text::contains_text(
                t,
                value_line("docker_proxy_body_too_large_total"@, m.body_too_large_total),
            )
            &&& text::contains_text(
                t,
                value_line("docker_proxy_bad_request_total"@, m.bad_request_total),
            )
            &&& text::contains_text(t, value_line("docker_proxy_upgrade_total"@, m.upgrade_total))
        }),
{
    assert forall|x: Seq<char>, y: Seq<char>, p: Seq<char>|
        #![trigger text::contains_text(x + y, p)]
        text::contains_text(x, p) || text::contains_text(y, p) implies text::contains_text(
        x + y,
        p,
    ) by {
        let none = Seq::<char>::empty();
        if text::contains_text(x, p) {
            text::law_longer_texts_contain_as_much(none, x, y, p);
        } else {
            text::law_longer_texts_contain_as_much(x, y, none, p);
        }
    }
    lemma_counter_lines(
        "docker_proxy_requests_total"@,
        "Total HTTP requests received"@,
        m.requests_total,
    );
    lemma_counter_lines(
        "docker_proxy_requests_allowed_total"@,
        "Requests with outcome 'allowed'"@,
        m.requests_allowed,
    );
    lemma_counter_lines(
        "docker_proxy_requests_denied_total"@,
        "Requests with outcome 'denied'"@,
        m.requests_denied,
    );
    lemma_counter_lines(
        "docker_proxy_requests_dry_run_total"@,
        "Requests with outcome 'dry_run'"@,
        m.requests_dry_run,
    );
    lemma_counter_lines(
        "docker_proxy_auth_failures_total"@,
        "Failed auth attempts"@,
        m.auth_failures_total,
    );
    lemma_counter_lines(
        "docker_proxy_auth_lockouts_total"@,
        "IP auth lockouts triggered"@,
        m.auth_lockouts_total,
    );
    lemma_counter_lines(
        "docker_proxy_rate_limited_total"@,
        "Requests blocked by rate limit"@,
        m.rate_limited_total,
    );
    lemma_counter_lines(
        "docker_proxy_upstream_errors_total"@,
        "Upstream docker errors"@,
        m.upstream_errors_total,
    );
    lemma_counter_lines(
        "docker_proxy_upstream_timeouts_total"@,
        "Upstream docker timeouts"@,
        m.upstream_timeouts_total,
    );
    lemma_counter_lines(
        "docker_proxy_request_timeouts_total"@,
        "Requests whose body took too long"@,
        m.request_timeouts_total,
    );
    lemma_counter_lines(
        "docker_proxy_body_too_large_total"@,
        "Requests rejected for body size"@,
        m.body_too_large_total,
    );
    lemma_counter_lines(
        "docker_proxy_bad_request_total"@,
        "Requests rejected as malformed"@,
        m.bad_request_total,
    );
    lemma_counter_lines(
        "docker_proxy_upgrade_total"@,
        "HTTP upgrade (exec/attach) requests proxied"@,
        m.upgrade_total,
    );
}

/// The text of the metrics shows, for each rule that has counters, what it denied and what it
/// would have denied, on a line each.
pub proof fn law_every_rule_is_shown(m: MetricsView, i: int)
    requires
        0 <= i < m.by_rule.len(),
    ensures
        ({
            let c = m.by_rule[i];
            let name = "docker_proxy_rule_decisions_total{rule=\""@ + escaped(c.rule);
            &&& text::contains_text(
                prometheus_text(m),
                name + "\",mode=\"enforced\"} "@ + text::decimal(c.denied as nat) + "\n"@,
            )
            &&& text::contains_text(
                prometheus_text(m),
                name + "\",mode=\"dry_run\"} "@ + text::decimal(c.dry_run as nat) + "\n"@,
            )
        }),
{
    let c = m.by_rule[i];
    let head = "docker_proxy_rule_decisions_total{rule=\""@;
    let name = head + escaped(c.rule);
    let first = name + "\",mode=\"enforced\"} "@ + text::decimal(c.denied as nat) + "\n"@;
    let second = name + "\",mode=\"dry_run\"} "@ + text::decimal(c.dry_run as nat) + "\n"@;
    reveal_strlit("\ndocker_proxy_rule_decisions_total{rule=\"");
    reveal_strlit("docker_proxy_rule_decisions_total{rule=\"");
    reveal_strlit("\n");
    assert("\ndocker_proxy_rule_decisions_total{rule=\""@ =~= "\n"@ + head);
    let none = Seq::<char>::empty();
    assert(rule_lines(c) =~= none + first + second);
    assert(rule_lines(c) =~= first + second + none);
    text::law_texts_contain_themselves(none, first, second);
    text::law_texts_contain_themselves(first, second, none);
    lemma_rule_lines(m.by_rule, i, first);
    lemma_rule_lines(m.by_rule, i, second);
    let before = all_counter_lines(m)
        + "# HELP docker_proxy_rule_decisions_total Decisions per rule\n"@
        + "# TYPE docker_proxy_rule_decisions_total counter\n"@;
    let all = all_rule_lines(m.by_rule);
    let after = latency_lines(m.latency);
    assert(prometheus_text(m) =~= before + all + after);
    text::law_longer_texts_contain_as_much(before, all, after, first);
    text::law_longer_texts_contain_as_much(before, all, after, second);
}

proof fn lemma_rule_lines(v: Seq<RuleCountersView>, i: int, part: Seq<char>)
    requires
        0 <= i < v.len(),
        text::contains_text(rule_lines(v[i]), part),
    ensures
        text::contains_text(all_rule_lines(v), part),
    decreases v.len(),
{
    let none = Seq::<char>::empty();
    let head = all_rule_lines(v.drop_last());
    if i == v.len() - 1 {
        text::law_longer_texts_contain_as_much(head, rule_lines(v.last()), none, part);
    } else {
        lemma_rule_lines(v.drop_last(), i, part);
        text::law_longer_texts_contain_as_much(none, head, rule_lines(v.last()), part);
    }
}

/// The text of the metrics holds the lines of the latencies, at its end.
pub proof fn law_latencies_are_shown(m: MetricsView)
    ensures
        text::finishes_with(prometheus_text(m), latency_lines(m.latency)),
{
    let t = prometheus_text(m);
    let l = latency_lines(m.latency);
    assert(t.subrange(t.len() - l.len(), t.len() as int) =~= l);
}

/// What the lines of a counter and of a bucket look like: a heading with the counter's meaning and
/// its type, and a line with the bucket's bound and what is counted up to it.
pub proof fn law_headings_and_bucket_lines(
    name: Seq<char>,
    help: Seq<char>,
    value: u64,
    bound: Seq<char>,
    n: nat,
)
    ensures
        text::begins_with(
            counter_lines(name, help, value),
            "# HELP "@ + name + " "@ + help + "\n# TYPE "@ + name + " counter\n"@,
        ),
        bucket_line(bound, n as int) == "docker_proxy_upstream_latency_ms_bucket{le=\""@ + bound
            + "\"} "@ + text::decimal(n) + "\n"@,
{
    let head = "# HELP "@ + name + " "@ + help + "\n# TYPE "@ + name + " counter\n"@;
    let all = counter_lines(name, help, value);
    assert(all.subrange(0, head.len() as int) =~= head);
}

/// The text of the metrics says what each counter means, before its value.
pub proof fn law_every_counter_is_explained(m: MetricsView)
    ensures
        ({
            let t = prometheus_text(m);
            &&& text::contains_text(
                t,
                counter_lines(
                    "docker_proxy_requests_total"@,
                    "Total HTTP requests received"@,
                    m.requests_total,
                ),
            )
            &&& text::contains_text(
                t,
                counter_lines(
                    "docker_proxy_requests_allowed_total"@,
                    "Requests with outcome 'allowed'"@,
                    m.requests_allowed,
                ),
            )
            &&& text::contains_text(
                t,
                counter_lines(
                    "docker_proxy_requests_denied_total"@,
                    "Requests with outcome 'denied'"@,
                    m.requests_denied,
                ),
            )
            &&& text::contains_text(
                t,
                counter_lines(
                    "docker_proxy_requests_dry_run_total"@,
                    "Requests with outcome 'dry_run'"@,
                    m.requests_dry_run,
                ),
            )
            &&& text::contains_text(
                t,
                counter_lines(
                    "docker_proxy_auth_failures_total"@,
                    "Failed auth attempts"@,
                    m.auth_failures_total,
                ),
            )
            &&& text::contains_text(
                t,
                counter_lines(
                    "docker_proxy_auth_lockouts_total"@,
                    "IP auth lockouts triggered"@,
                    m.auth_lockouts_total,
                ),
            )
            &&& text::contains_text(
                t,
                counter_lines(
                    "docker_proxy_rate_limited_total"@,
                    "Requests blocked by rate limit"@,
                    m.rate_limited_total,
                ),
            )
            &&& text::contains_text(
                t,
                counter_lines(
                    "docker_proxy_upstream_errors_total"@,
                    "Upstream docker errors"@,
                    m.upstream_errors_total,
                ),
            )
            &&& text::contains_text(
                t,
                counter_lines(
                    "docker_proxy_upstream_timeouts_total"@,
                    "Upstream docker timeouts"@,
                    m.upstream_timeouts_total,
                ),
            )
            &&& text::contains_text(
                t,
                counter_lines(
                    "docker_proxy_request_timeouts_total"@,
                    "Requests whose body took too long"@,
                    m.request_timeouts_total,
                ),
            )
            &&& text::contains_text(
                t,
                counter_lines(
                    "docker_proxy_body_too_large_total"@,
                    "Requests rejected for body size"@,
                    m.body_too_large_total,
                ),
            )
            &&& text::contains_text(
                t,
                counter_lines(
                    "docker_proxy_bad_request_total"@,
                    "Requests rejected as malformed"@,
                    m.bad_request_total,
                ),
            )
            &&& text::contains_text(
                t,
                counter_lines(
                    "docker_proxy_upgrade_total"@,
                    "HTTP upgrade (exec/attach) requests proxied"@,
                    m.upgrade_total,
                ),
            )
            &&& text::contains_text(
                t,
                "# HELP docker_proxy_rule_decisions_total Decisions per rule\n"@,
            )
            &&& text::contains_text(t, "# TYPE docker_proxy_rule_decisions_total counter\n"@)
        }),
{
    assert forall|x: Seq<char>, y: Seq<char>, p: Seq<char>|
        #![trigger text::contains_text(x + y, p)]
        x == p || y == p || text::contains_text(x, p) || text::contains_text(y, p) implies
        text::contains_text(x + y, p) by {
        let none = Seq::<char>::empty();
        text::law_texts_contain_themselves(none, p, none);
        if x == p || text::contains_text(x, p) {
            text::law_longer_texts_contain_as_much(none, x, y, p);
        } else {
            text::law_longer_texts_contain_as_much(x, y, none, p);
        }
    }
}

/// What the metrics stand for, counter by counter.
pub proof fn law_what_the_metrics_stand_for(m: Metrics, c: RuleCounters, i: int)
    ensures
        m@.requests_total == m.requests_total@,
        m@.requests_allowed == m.requests_allowed@,
        m@.requests_denied == m.requests_denied@,
        m@.requests_dry_run == m.requests_dry_run@,
        m@.auth_failures_total == m.auth_failures_total@,
        m@.auth_lockouts_total == m.auth_lockouts_total@,
        m@.rate_limited_total == m.rate_limited_total@,
        m@.upstream_errors_total == m.upstream_errors_total@,
        m@.upstream_timeouts_total == m.upstream_timeouts_total@,
        m@.request_timeouts_total == m.request_timeouts_total@,
        m@.body_too_large_total == m.body_too_large_total@,
        m@.bad_request_total == m.bad_request_total@,
        m@.upgrade_total == m.upgrade_total@,
        m@.latency == m.latency@,
        m@.by_rule.len() == m.by_rule@.len(),
        0 <= i < m.by_rule@.len() ==> m@.by_rule[i] == m.by_rule@[i]@,
        c@.rule == c.rule@ && c@.denied == c.denied && c@.dry_run == c.dry_run,
{
}

} // verus!
