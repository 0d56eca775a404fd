//! Token buckets for requests, and lockouts after failed authentication. Time is given in
//! nanoseconds of a clock that never runs backwards.
use crate::table;
use crate::table::Table;
use vstd::arithmetic::div_mod::*;
use vstd::arithmetic::mul::*;
use vstd::prelude::*;

verus! {

/// The most clients for which buckets are kept.
pub const MAX_RATE_BUCKETS: usize = 16_384;

/// The most sources for which failed authentication is kept.
pub const MAX_AUTH_KEYS: usize = 16_384;

/// The state of a token bucket: whole tokens and a fraction of one in units of
/// `1 / span(period)`, when they were counted and under which limit, and until when
/// the bucket is closed.
#[derive(Debug, Clone, Copy)]
pub struct Bucket {
    pub whole: u64,
    pub part: u128,
    pub last: u64,
    pub requests: u64,
    pub period: u64,
    pub blocked_until: Option<u128>,
}

/// The nanoseconds in which a bucket fills.
pub open spec fn span(period: u64) -> int {
    period * 1_000_000_000
}

/// The time that has passed.
pub open spec fn elapsed(last: u64, now: u64) -> int {
    if now > last {
        now - last
    } else {
        0
    }
}

/// Whether the fraction is less than one token.
pub open spec fn valid_bucket(b: Bucket) -> bool {
    b.part == 0 || b.part < span(b.period)
}

/// A full bucket.
pub open spec fn full_bucket(requests: u64, period: u64, now: u64) -> Bucket {
    Bucket { whole: requests, part: 0, last: now, requests, period, blocked_until: None }
}

/// The fraction of a token that a bucket holds, in the units of another period. Periods so long
/// that the conversion would not fit 128 bits lose it.
pub open spec fn carried(b: Bucket, period: u64) -> int {
    if b.period == period || b.part == 0 {
        b.part as int
    } else if b.part * span(period) <= u128::MAX {
        (b.part * span(period)) / span(b.period)
    } else {
        0
    }
}

/// What a bucket holds after refilling, as a number of units: `requests` of them come in each
/// nanosecond, until the bucket is full.
pub open spec fn refilled_level(b: Bucket, requests: u64, period: u64, now: u64) -> int {
    let level = b.whole * span(period) + carried(b, period) + elapsed(b.last, now) * requests;
    if level < requests * span(period) {
        level
    } else {
        requests * span(period)
    }
}

/// A bucket after refilling. One whose period is 0 is always full.
pub open spec fn refilled(b: Bucket, requests: u64, period: u64, now: u64) -> Bucket {
    if period == 0 {
        full_bucket(requests, period, now)
    } else {
        Bucket {
            whole: (refilled_level(b, requests, period, now) / span(period)) as u64,
            part: (refilled_level(b, requests, period, now) % span(period)) as u128,
            last: now,
            requests,
            period,
            blocked_until: None,
        }
    }
}

/// Whether a bucket is closed.
pub open spec fn is_closed(b: Bucket, now: u64) -> bool {
    match b.blocked_until {
        Some(t) => now < t,
        None => false,
    }
}

/// A bucket that is not closed, as the next request finds it: full where there was none or where
/// it was closed until now, else refilled.
pub open spec fn found_bucket(
    prior: Option<Bucket>,
    requests: u64,
    period: u64,
    now: u64,
) -> Bucket {
    match prior {
        Some(b) => if b.blocked_until is Some {
            full_bucket(requests, period, now)
        } else {
            refilled(b, requests, period, now)
        },
        None => full_bucket(requests, period, now),
    }
}

/// What a request does to a bucket: whether it may pass, and the bucket afterwards. A request that
/// passes takes a token; one that finds none closes the bucket for `penalty` seconds.
pub open spec fn request(
    prior: Option<Bucket>,
    requests: u64,
    period: u64,
    penalty: u64,
    now: u64,
) -> (bool, Bucket) {
    if prior is Some && is_closed(prior->0, now) {
        (false, prior->0)
    } else {
        let b = found_bucket(prior, requests, period, now);
        if b.whole >= 1 {
            (true, Bucket { whole: (b.whole - 1) as u64, ..b })
        } else {
            (false, Bucket { blocked_until: Some((now + span(penalty)) as u128), ..b })
        }
    }
}

/// Whether a bucket is no different from a new one: it is not closed, and full.
pub open spec fn is_idle(b: Bucket, now: u64) -> bool {
    &&& !is_closed(b, now)
    &&& found_bucket(Some(b), b.requests, b.period, now) == full_bucket(b.requests, b.period, now)
}

proof fn lemma_rescaled(part: int, new_span: int, old_span: int)
    requires
        0 <= part < old_span,
        0 < new_span,
    ensures
        0 <= (part * new_span) / old_span < new_span,
{
    lemma_mul_strict_inequality(part, old_span, new_span);
    lemma_mul_nonnegative(part, new_span);
    lemma_mul_is_commutative(new_span, old_span);
    lemma_div_pos_is_pos(part * new_span, old_span);
    lemma_multiply_divide_lt(part * new_span, old_span, new_span);
}

proof fn lemma_level(
    whole: int,
    fraction: int,
    time: int,
    requests: int,
    span: int,
    gained: int,
    rest: int,
)
    requires
        0 < span,
        gained == (time * requests) / span,
        rest == (time * requests) % span,
    ensures
        whole * span + fraction + time * requests == (whole + gained) * span + (fraction + rest),
{
    lemma_fundamental_div_mod(time * requests, span);
    lemma_mul_is_commutative(span, gained);
    lemma_mul_is_distributive_add_other_way(span, whole, gained);
}

fn span_of(period: u64) -> (r: u128)
    ensures
        r == span(period),
        r <= u64::MAX * 1_000_000_000,
        period > 0 ==> r > 0,
{
    period as u128 * 1_000_000_000
}

fn carry_fraction(b: &Bucket, period: u64) -> (r: u128)
    requires
        valid_bucket(*b),
        period > 0,
    ensures
        r == carried(*b, period),
        r < span(period),
{
    if b.period == period || b.part == 0 {
        return b.part;
    }
    let new_span: u128 = span_of(period);
    let old_span: u128 = span_of(b.period);
    proof {
        lemma_rescaled(b.part as int, new_span as int, old_span as int);
    }
    match b.part.checked_mul(new_span) {
        Some(p) => p / old_span,
        None => 0,
    }
}

fn refill(b: &Bucket, requests: u64, period: u64, now: u64) -> (r: Bucket)
    requires
        valid_bucket(*b),
    ensures
        r == refilled(*b, requests, period, now),
        valid_bucket(r),
{
    let full = Bucket { whole: requests, part: 0, last: now, requests, period, blocked_until: None };
    if period == 0 {
        return full;
    }
    let length: u128 = span_of(period);
    let time: u64 = if now > b.last {
        now - b.last
    } else {
        0
    };
    let fraction: u128 = carry_fraction(b, period);
    proof {
        lemma_mul_upper_bound(time as int, u64::MAX as int, requests as int, u64::MAX as int);
        lemma_mul_nonnegative(time as int, requests as int);
    }
    let income: u128 = time as u128 * requests as u128;
    let gained: u128 = income / length;
    let rest: u128 = income % length;
    proof {
        lemma_div_is_ordered_by_denominator(income as int, 1, length as int);
        lemma_level(
            b.whole as int,
            fraction as int,
            time as int,
            requests as int,
            length as int,
            gained as int,
            rest as int,
        );
    }
    let sum: u128 = fraction + rest;
    let (carry, part): (u128, u128) = if sum >= length {
        (1, sum - length)
    } else {
        (0, sum)
    };
    if gained >= requests as u128 {
        proof {
            assert((b.whole + gained) * length >= requests * length) by (nonlinear_arith)
                requires
                    gained >= requests,
                    b.whole >= 0,
                    length > 0,
            ;
            lemma_full_level(requests as int, length as int);
        }
        return full;
    }
    let whole: u128 = b.whole as u128 + gained + carry;
    proof {
        assert((b.whole + gained) * length + sum == whole * length + part) by (nonlinear_arith)
            requires
                whole == b.whole + gained + carry,
                sum == carry * length + part,
        ;
    }
    if whole >= requests as u128 {
        proof {
            assert(whole * length >= requests * length) by (nonlinear_arith)
                requires
                    whole >= requests,
                    length > 0,
            ;
            lemma_full_level(requests as int, length as int);
        }
        return full;
    }
    proof {
        assert(whole * length + part < requests * length) by (nonlinear_arith)
            requires
                whole + 1 <= requests,
                part < length,
        ;
        lemma_fundamental_div_mod_converse(
            whole * length + part,
            length as int,
            whole as int,
            part as int,
        );
    }
    Bucket { whole: whole as u64, part, last: now, requests, period, blocked_until: None }
}

proof fn lemma_full_level(requests: int, span: int)
    requires
        0 < span,
        0 <= requests,
    ensures
        (requests * span) / span == requests,
        (requests * span) % span == 0,
{
    lemma_fundamental_div_mod_converse(requests * span, span, requests, 0);
}

/// The deadline a number of seconds from now.
fn after_secs(now: u64, secs: u64) -> (r: u128)
    ensures
        r == now + span(secs),
{
    now as u128 + span_of(secs)
}

fn take_token(prior: Option<Bucket>, requests: u64, period: u64, penalty: u64, now: u64) -> (r: (
    bool,
    Bucket,
))
    requires
        prior is Some ==> valid_bucket(prior->0),
    ensures
        r == request(prior, requests, period, penalty, now),
        valid_bucket(r.1),
{
    let full = Bucket { whole: requests, part: 0, last: now, requests, period, blocked_until: None };
    let b = match prior {
        Some(b) => match b.blocked_until {
            Some(t) => {
                if (now as u128) < t {
                    return (false, b);
                }
                full
            },
            None => refill(&b, requests, period, now),
        },
        None => full,
    };
    if b.whole >= 1 {
        (true, Bucket { whole: b.whole - 1, ..b })
    } else {
        (false, Bucket { blocked_until: Some(after_secs(now, penalty)), ..b })
    }
}

/// A token bucket for each client of each rule.
pub struct RateLimiter {
    buckets: Table<Bucket>,
}

impl View for RateLimiter {
    type V = Map<Seq<char>, Bucket>;

    closed spec fn view(&self) -> Map<Seq<char>, Bucket> {
        self.buckets@
    }
}

/// The bucket of a key.
pub open spec fn bucket_of(m: Map<Seq<char>, Bucket>, key: Seq<char>) -> Option<Bucket> {
    if m.contains_key(key) {
        Some(m[key])
    } else {
        None
    }
}

/// What a request does to the buckets: whether it may pass, and the buckets afterwards. A key
/// without a bucket does not pass, and gets none, while the limiter is full.
pub open spec fn limited_request(
    m: Map<Seq<char>, Bucket>,
    key: Seq<char>,
    requests: u64,
    period: u64,
    penalty: u64,
    now: u64,
) -> (bool, Map<Seq<char>, Bucket>) {
    if !m.contains_key(key) && m.dom().len() >= MAX_RATE_BUCKETS {
        (false, m)
    } else {
        let r = request(bucket_of(m, key), requests, period, penalty, now);
        (r.0, m.insert(key, r.1))
    }
}

/// The buckets that are not idle.
pub open spec fn without_idle(m: Map<Seq<char>, Bucket>, now: u64) -> Map<Seq<char>, Bucket> {
    m.remove_keys(m.dom().filter(|k: Seq<char>| is_idle(m[k], now)))
}

impl RateLimiter {
    /// Each key has one bucket, whose fraction is less than one token.
    pub closed spec fn wf(&self) -> bool {
        &&& self.buckets.wf()
        &&& forall|k: Seq<char>| #[trigger]
            self.buckets@.contains_key(k) ==> valid_bucket(self.buckets@[k])
    }

    /// A limiter without buckets.
    pub fn new() -> (r: RateLimiter)
        ensures
            r.wf(),
            r@ == Map::<Seq<char>, Bucket>::empty(),
    {
        RateLimiter { buckets: Table::new() }
    }

    /// Whether a request of this key may pass, under a bucket of `max_requests` tokens that fills
    /// in `period_secs` and closes for `penalty_secs` when it is empty.
    pub fn check(
        &mut self,
        key: &str,
        max_requests: u64,
        period_secs: u64,
        penalty_secs: u64,
        now: u64,
    ) -> (r: bool)
        requires
            old(self).wf(),
        ensures
            final(self).wf(),
            (r, final(self)@) == limited_request(
                old(self)@,
                key@,
                max_requests,
                period_secs,
                penalty_secs,
                now,
            ),
    {
        match self.buckets.position(key) {
            Some(i) => {
                let b = self.buckets.entries[i].value;
                let (passed, next) = take_token(
                    Some(b),
                    max_requests,
                    period_secs,
                    penalty_secs,
                    now,
                );
                self.buckets.replace_at(i, next);
                passed
            },
            None => {
                if self.buckets.len() >= MAX_RATE_BUCKETS {
                    return false;
                }
                let (passed, next) = take_token(
                    None,
                    max_requests,
                    period_secs,
                    penalty_secs,
                    now,
                );
                self.buckets.add(key.to_string(), next);
                passed
            },
        }
    }
}

proof fn lemma_dropped(
    m: Map<Seq<char>, Bucket>,
    part: Map<Seq<char>, Bucket>,
    now: u64,
)
    requires
        forall|k: Seq<char>| #[trigger]
            part.contains_key(k) ==> m.contains_key(k) && part[k] == m[k] && !is_idle(m[k], now),
        forall|k: Seq<char>| #[trigger]
            m.contains_key(k) && !is_idle(m[k], now) ==> part.contains_key(k),
    ensures
        part == without_idle(m, now),
{
    assert(part =~= without_idle(m, now));
}

fn bucket_is_idle(b: &Bucket, now: u64) -> (r: bool)
    requires
        valid_bucket(*b),
    ensures
        r == is_idle(*b, now),
{
    match b.blocked_until {
        Some(t) => now as u128 >= t,
        None => {
            let next = refill(b, b.requests, b.period, now);
            next.whole == b.requests && next.part == 0
        },
    }
}

impl RateLimiter {
    /// Forgets the buckets that are no different from new ones.
    pub fn cleanup(&mut self, now: u64)
        requires
            old(self).wf(),
        ensures
            final(self).wf(),
            final(self)@ == without_idle(old(self)@, now),
    {
        let ghost before = self.buckets@;
        let mut i: usize = 0;
        while i < self.buckets.entries.len()
            invariant
                i <= self.buckets.entries@.len(),
                self.wf(),
                before == old(self)@,
                forall|k: Seq<char>| #[trigger]
                    self.buckets@.contains_key(k) ==> before.contains_key(k) && self.buckets@[k]
                        == before[k],
                forall|k: Seq<char>| #[trigger]
                    before.contains_key(k) && !is_idle(before[k], now) ==> self.buckets@.contains_key(
                        k,
                    ),
                forall|j: int|
                    0 <= j < i ==> !is_idle((#[trigger] self.buckets.entries@[j]).value, now),
            decreases self.buckets.entries@.len() - i,
        {
            proof {
                table::lemma_record_at(self.buckets, i as int);
            }
            let b = self.buckets.entries[i].value;
            if bucket_is_idle(&b, now) {
                self.buckets.remove_at(i);
            } else {
                i += 1;
            }
        }
        proof {
            assert forall|k: Seq<char>| #[trigger] self.buckets@.contains_key(k) implies !is_idle(
                before[k],
                now,
            ) by {
                let j = table::entry_index(self.buckets.entries@, k);
                assert(0 <= j < self.buckets.entries@.len() && self.buckets.entries@[j].key@ == k);
                table::lemma_record_at(self.buckets, j);
            }
            lemma_dropped(before, self.buckets@, now);
        }
    }
}

/// A request of one key leaves the buckets of the others.
pub proof fn law_buckets_are_independent(
    m: Map<Seq<char>, Bucket>,
    key: Seq<char>,
    other: Seq<char>,
    requests: u64,
    period: u64,
    penalty: u64,
    now: u64,
)
    requires
        other != key,
    ensures
        bucket_of(limited_request(m, key, requests, period, penalty, now).1, other) == bucket_of(
            m,
            other,
        ),
{
}

/// A bucket never holds more than its capacity, however long it stands.
pub proof fn law_bucket_holds_at_most_its_capacity(
    prior: Option<Bucket>,
    requests: u64,
    period: u64,
    now: u64,
)
    requires
        prior is Some ==> valid_bucket(prior->0),
    ensures
        found_bucket(prior, requests, period, now).whole <= requests,
{
    if let Some(b) = prior {
        if b.blocked_until is None && period > 0 {
            let level = refilled_level(b, requests, period, now);
            lemma_full_level(requests as int, span(period));
            lemma_mul_nonnegative(b.whole as int, span(period));
            lemma_mul_nonnegative(b.part as int, span(period));
            lemma_mul_nonnegative(elapsed(b.last, now), requests as int);
            lemma_mul_nonnegative(requests as int, span(period));
            if b.part > 0 {
                lemma_div_pos_is_pos(b.part * span(period), span(b.period));
            }
            lemma_div_pos_is_pos(level, span(period));
            lemma_div_is_ordered(level, requests * span(period), span(period));
        }
    }
}

/// Once a request has found a bucket empty, every request is refused until the penalty ends and
/// does not prolong it, and then the bucket is full again.
pub proof fn law_penalty(
    prior: Option<Bucket>,
    requests: u64,
    period: u64,
    penalty: u64,
    now: u64,
    later: u64,
)
    requires
        !(prior is Some && is_closed(prior->0, now)),
        !request(prior, requests, period, penalty, now).0,
    ensures
        later < now + span(penalty) ==> request(
            Some(request(prior, requests, period, penalty, now).1),
            requests,
            period,
            penalty,
            later,
        ) == (false, request(prior, requests, period, penalty, now).1),
        later >= now + span(penalty) ==> found_bucket(
            Some(request(prior, requests, period, penalty, now).1),
            requests,
            period,
            later,
        ) == full_bucket(requests, period, later),
{
}

/// The bucket of a new client after a number of requests at one moment.
pub open spec fn after_burst(
    requests: u64,
    period: u64,
    penalty: u64,
    now: u64,
    count: nat,
) -> Option<Bucket>
    decreases count,
{
    if count == 0 {
        None
    } else {
        Some(
            request(
                after_burst(requests, period, penalty, now, (count - 1) as nat),
                requests,
                period,
                penalty,
                now,
            ).1,
        )
    }
}

/// A new client may make as many requests at one moment as the bucket holds, and no more.
pub proof fn law_burst(requests: u64, period: u64, penalty: u64, now: u64, count: nat)
    ensures
        count < requests ==> request(
            after_burst(requests, period, penalty, now, count),
            requests,
            period,
            penalty,
            now,
        ).0,
        count == requests && period > 0 ==> !request(
            after_burst(requests, period, penalty, now, count),
            requests,
            period,
            penalty,
            now,
        ).0,
{
    if count <= requests {
        lemma_burst(requests, period, penalty, now, count);
    }
}

proof fn lemma_burst(requests: u64, period: u64, penalty: u64, now: u64, count: nat)
    requires
        count <= requests,
    ensures
        count > 0 && period > 0 ==> after_burst(requests, period, penalty, now, count) == Some(
            Bucket { whole: (requests - count) as u64, ..full_bucket(requests, period, now) },
        ),
        count > 0 && period == 0 ==> after_burst(requests, period, penalty, now, count) == Some(
            Bucket { whole: (requests - 1) as u64, ..full_bucket(requests, period, now) },
        ),
        period > 0 ==> found_bucket(
            after_burst(requests, period, penalty, now, count),
            requests,
            period,
            now,
        ) == (Bucket { whole: (requests - count) as u64, ..full_bucket(requests, period, now) }),
    decreases count,
{
    if count > 0 {
        lemma_burst(requests, period, penalty, now, (count - 1) as nat);
        if period > 0 {
            let whole = requests - count;
            lemma_mul_is_commutative(0, requests as int);
            assert(whole * span(period) < requests * span(period)) by (nonlinear_arith)
                requires
                    whole < requests,
                    span(period) > 0,
            ;
            lemma_full_level(whole, span(period));
        }
    }
}

/// Forgetting an idle bucket changes nothing for later requests under the same limit.
pub proof fn law_cleanup_is_not_noticed(b: Bucket, penalty: u64, now: u64, later: u64)
    requires
        valid_bucket(b),
        is_idle(b, now),
        now <= later,
    ensures
        request(Some(b), b.requests, b.period, penalty, later) == request(
            None,
            b.requests,
            b.period,
            penalty,
            later,
        ),
{
    if b.blocked_until is None && b.period > 0 {
        let d = span(b.period);
        let r = b.requests as int;
        assert(elapsed(b.last, now) * r <= elapsed(b.last, later) * r) by (nonlinear_arith)
            requires
                elapsed(b.last, now) <= elapsed(b.last, later),
                r >= 0,
        ;
        lemma_full_level(r, d);
        let level = refilled_level(b, b.requests, b.period, now);
        lemma_mul_nonnegative(b.whole as int, d);
        lemma_mul_nonnegative(elapsed(b.last, now), r);
        lemma_mul_nonnegative(r, d);
        assert(0 <= level <= r * d);
        lemma_div_pos_is_pos(level, d);
        lemma_div_is_ordered(level, r * d, d);
        lemma_fundamental_div_mod(level, d);
        lemma_mul_is_commutative(d, r);
        assert(level == r * d);
    }
}

/// The bucket of a client after requests at these times.
pub open spec fn after_requests(
    requests: u64,
    period: u64,
    penalty: u64,
    times: Seq<u64>,
) -> Option<Bucket>
    decreases times.len(),
{
    if times.len() == 0 {
        None
    } else {
        Some(
            request(
                after_requests(requests, period, penalty, times.drop_last()),
                requests,
                period,
                penalty,
                times.last(),
            ).1,
        )
    }
}

/// Whether a client's requests at these times all pass.
pub open spec fn all_pass(requests: u64, period: u64, penalty: u64, times: Seq<u64>) -> bool
    decreases times.len(),
{
    times.len() > 0 ==> all_pass(requests, period, penalty, times.drop_last()) && request(
        after_requests(requests, period, penalty, times.drop_last()),
        requests,
        period,
        penalty,
        times.last(),
    ).0
}

proof fn lemma_level_after_passes(requests: u64, period: u64, penalty: u64, times: Seq<u64>)
    requires
        period > 0,
        times.len() > 0,
        forall|i: int, j: int| 0 <= i <= j < times.len() ==> times[i] <= times[j],
        all_pass(requests, period, penalty, times),
    ensures
        ({
            let b = after_requests(requests, period, penalty, times)->0;
            &&& b.blocked_until is None
            &&& b.last == times.last()
            &&& b.period == period
            &&& b.part < span(period)
            &&& b.whole * span(period) + b.part + times.len() * span(period) <= requests * span(
                period,
            ) + (times.last() - times[0]) * requests
        }),
    decreases times.len(),
{
    let d = span(period);
    let prior = times.drop_last();
    let now = times.last();
    let before = after_requests(requests, period, penalty, prior);
    let b = found_bucket(before, requests, period, now);
    let after = after_requests(requests, period, penalty, times)->0;
    if prior.len() > 0 {
        assert(prior.last() <= now && prior[0] == times[0]);
        lemma_level_after_passes(requests, period, penalty, prior);
        let p = before->0;
        let level = refilled_level(p, requests, period, now);
        lemma_mul_nonnegative(p.whole as int, d);
        lemma_mul_nonnegative(now - prior.last(), requests as int);
        lemma_mul_nonnegative(requests as int, d);
        lemma_fundamental_div_mod(level, d);
        lemma_mod_bound(level, d);
        law_bucket_holds_at_most_its_capacity(before, requests, period, now);
        lemma_div_pos_is_pos(level, d);
        lemma_full_level(requests as int, d);
        lemma_div_is_ordered(level, requests * d, d);
        assert(b.whole as int == level / d);
        assert(b.part as int == level % d);
        assert(d * (level / d) == b.whole * d) by (nonlinear_arith)
            requires
                b.whole as int == level / d,
        ;
        assert(b.whole * d + b.part == level);
        assert((now - prior.last()) * requests + (prior.last() - times[0]) * requests == (now
            - times[0]) * requests) by (nonlinear_arith);
        assert(after.whole * d == b.whole * d - d) by (nonlinear_arith)
            requires
                after.whole == b.whole - 1,
        ;
        assert(times.len() * d == prior.len() * d + d) by (nonlinear_arith)
            requires
                times.len() == prior.len() + 1,
        ;
    } else {
        assert(before is None);
        assert(after.whole * d == requests * d - d) by (nonlinear_arith)
            requires
                after.whole == requests - 1,
        ;
        assert(times.len() * d == d) by (nonlinear_arith)
            requires
                times.len() == 1,
        ;
        assert((times.last() - times[0]) * requests == 0) by (nonlinear_arith)
            requires
                times.last() == times[0],
        ;
    }
}

/// A client makes no more requests than the bucket holds and than come in while it makes them: as
/// long as all pass, their number is at most the capacity and `requests` for each period that
/// went by.
pub proof fn law_rate_is_limited(requests: u64, period: u64, penalty: u64, times: Seq<u64>)
    requires
        period > 0,
        times.len() > 0,
        forall|i: int, j: int| 0 <= i <= j < times.len() ==> times[i] <= times[j],
        all_pass(requests, period, penalty, times),
    ensures
        times.len() * span(period) <= requests * span(period) + (times.last() - times[0])
            * requests,
{
    lemma_level_after_passes(requests, period, penalty, times);
    let b = after_requests(requests, period, penalty, times)->0;
    lemma_mul_nonnegative(b.whole as int, span(period));
}

/// What is known of a source that failed to authenticate: until when each failure counts, and
/// until when the source is locked out.
pub struct AuthRecord {
    pub failures: Vec<u128>,
    pub locked_until: Option<u128>,
}

/// What an [`AuthRecord`] stands for.
pub struct AuthRecordView {
    pub failures: Seq<u128>,
    pub locked_until: Option<u128>,
}

impl View for AuthRecord {
    type V = AuthRecordView;

    open spec fn view(&self) -> AuthRecordView {
        AuthRecordView { failures: self.failures@, locked_until: self.locked_until }
    }
}

/// Whether a source is locked out.
pub open spec fn is_locked(r: AuthRecordView, now: u64) -> bool {
    match r.locked_until {
        Some(t) => now < t,
        None => false,
    }
}

/// The failures that still count.
pub open spec fn live_failures(v: Seq<u128>, now: u64) -> Seq<u128> {
    v.filter(|t: u128| now <= t)
}

/// What another failure does: whether it locks the source out, and the record afterwards. While a
/// source is locked out its failures are not counted.
pub open spec fn failure(
    prior: Option<AuthRecordView>,
    max: u32,
    window: u64,
    lockout: u64,
    now: u64,
) -> (bool, AuthRecordView) {
    if prior is Some && is_locked(prior->0, now) {
        (false, prior->0)
    } else {
        let earlier = match prior {
            Some(r) => live_failures(r.failures, now),
            None => Seq::empty(),
        };
        let failures = earlier.push((now + span(window)) as u128);
        if failures.len() >= max {
            (
                true,
                AuthRecordView {
                    failures: Seq::empty(),
                    locked_until: Some((now + span(lockout)) as u128),
                },
            )
        } else {
            (false, AuthRecordView { failures, locked_until: None })
        }
    }
}

/// Whether a record says no more than that there is none: no failure counts and no lockout lasts.
pub open spec fn is_forgotten(r: AuthRecordView, now: u64) -> bool {
    !is_locked(r, now) && live_failures(r.failures, now).len() == 0
}

/// Lockouts by source.
pub struct AuthLimiter {
    records: Table<AuthRecord>,
}

/// What a table of records stands for.
pub open spec fn auth_records(m: Map<Seq<char>, AuthRecord>) -> Map<Seq<char>, AuthRecordView> {
    m.map_values(|r: AuthRecord| r@)
}

impl View for AuthLimiter {
    type V = Map<Seq<char>, AuthRecordView>;

    closed spec fn view(&self) -> Map<Seq<char>, AuthRecordView> {
        auth_records(self.records@)
    }
}

/// The record of a source.
pub open spec fn auth_record_of(m: Map<Seq<char>, AuthRecordView>, key: Seq<char>) -> Option<
    AuthRecordView,
> {
    if m.contains_key(key) {
        Some(m[key])
    } else {
        None
    }
}

/// Whether a source is locked out.
pub open spec fn source_locked(m: Map<Seq<char>, AuthRecordView>, key: Seq<char>, now: u64) -> bool {
    m.contains_key(key) && is_locked(m[key], now)
}

/// What a failure of a source does to the records. A source without a record gets none while the
/// limiter is full.
pub open spec fn recorded_failure(
    m: Map<Seq<char>, AuthRecordView>,
    key: Seq<char>,
    max: u32,
    window: u64,
    lockout: u64,
    now: u64,
) -> (bool, Map<Seq<char>, AuthRecordView>) {
    if !m.contains_key(key) && m.dom().len() >= MAX_AUTH_KEYS {
        (false, m)
    } else {
        let r = failure(auth_record_of(m, key), max, window, lockout, now);
        (r.0, m.insert(key, r.1))
    }
}

/// The records that still say something.
pub open spec fn without_forgotten(
    m: Map<Seq<char>, AuthRecordView>,
    now: u64,
) -> Map<Seq<char>, AuthRecordView> {
    m.remove_keys(m.dom().filter(|k: Seq<char>| is_forgotten(m[k], now)))
}

fn keep_live(v: &Vec<u128>, now: u64) -> (r: Vec<u128>)
    ensures
        r@ == live_failures(v@, now),
{
    let mut out: Vec<u128> = Vec::new();
    let mut i: usize = 0;
    proof {
        reveal(Seq::filter);
    }
    while i < v.len()
        invariant
            i <= v@.len(),
            out@ == live_failures(v@.take(i as int), now),
        decreases v@.len() - i,
    {
        proof {
            reveal(Seq::filter);
            assert(v@.take(i + 1).drop_last() =~= v@.take(i as int));
            assert(v@.take(i + 1).last() == v@[i as int]);
        }
        if now as u128 <= v[i] {
            out.push(v[i]);
        }
        i += 1;
    }
    assert(v@.take(i as int) =~= v@);
    out
}

fn fail_once(prior: Option<&AuthRecord>, max: u32, window: u64, lockout: u64, now: u64) -> (r: Option<
    (bool, AuthRecord),
>)
    ensures
        match r {
            Some(x) => (x.0, x.1@) == failure(
                match prior {
                    Some(p) => Some(p@),
                    None => None,
                },
                max,
                window,
                lockout,
                now,
            ),
            None => prior is Some && is_locked(prior->0@, now),
        },
{
    let mut failures: Vec<u128> = match prior {
        Some(p) => {
            if let Some(t) = p.locked_until {
                if (now as u128) < t {
                    return None;
                }
            }
            keep_live(&p.failures, now)
        },
        None => Vec::new(),
    };
    failures.push(after_secs(now, window));
    if failures.len() as u64 >= max as u64 {
        let none: Vec<u128> = Vec::new();
        assert(none@ =~= Seq::<u128>::empty());
        Some((true, AuthRecord { failures: none, locked_until: Some(after_secs(now, lockout)) }))
    } else {
        Some((false, AuthRecord { failures, locked_until: None }))
    }
}

proof fn lemma_same_domain(m: Map<Seq<char>, AuthRecord>)
    ensures
        auth_records(m).dom() == m.dom(),
{
    assert(auth_records(m).dom() =~= m.dom());
}

impl AuthLimiter {
    /// Each source has one record.
    pub closed spec fn wf(&self) -> bool {
        self.records.wf()
    }

    /// A limiter without records.
    pub fn new() -> (r: AuthLimiter)
        ensures
            r.wf(),
            r@ == Map::<Seq<char>, AuthRecordView>::empty(),
    {
        let r = AuthLimiter { records: Table::new() };
        assert(r@ =~= Map::<Seq<char>, AuthRecordView>::empty());
        r
    }

    /// Whether a source is locked out.
    pub fn is_blocked(&self, key: &str, now: u64) -> (r: bool)
        requires
            self.wf(),
        ensures
            r == source_locked(self@, key@, now),
    {
        match self.records.position(key) {
            Some(i) => match self.records.entries[i].value.locked_until {
                Some(t) => (now as u128) < t,
                None => false,
            },
            None => false,
        }
    }

    /// Counts a failure of a source, for `window_secs`. The `max`-th that counts locks the source
    /// out for `lockout_secs`; the result tells whether this one did.
    pub fn record_failure(
        &mut self,
        key: &str,
        max: u32,
        window_secs: u64,
        lockout_secs: u64,
        now: u64,
    ) -> (r: bool)
        requires
            old(self).wf(),
        ensures
            final(self).wf(),
            (r, final(self)@) == recorded_failure(
                old(self)@,
                key@,
                max,
                window_secs,
                lockout_secs,
                now,
            ),
    {
        let ghost before = self.records@;
        proof {
            lemma_same_domain(before);
        }
        match self.records.position(key) {
            Some(i) => match fail_once(
                Some(&self.records.entries[i].value),
                max,
                window_secs,
                lockout_secs,
                now,
            ) {
                Some((locked, next)) => {
                    self.records.replace_at(i, next);
                    assert(self@ =~= auth_records(before).insert(key@, next@));
                    locked
                },
                None => {
                    assert(self@ =~= auth_records(before).insert(key@, before[key@]@));
                    false
                },
            },
            None => {
                if self.records.len() >= MAX_AUTH_KEYS {
                    return false;
                }
                match fail_once(None, max, window_secs, lockout_secs, now) {
                    Some((locked, next)) => {
                        self.records.add(key.to_string(), next);
                        assert(self@ =~= auth_records(before).insert(key@, next@));
                        locked
                    },
                    None => false,
                }
            },
        }
    }

    /// Clears what is known of a source.
    pub fn record_success(&mut self, key: &str)
        requires
            old(self).wf(),
        ensures
            final(self).wf(),
            final(self)@ == old(self)@.remove(key@),
    {
        let ghost before = self.records@;
        if let Some(i) = self.records.position(key) {
            self.records.remove_at(i);
        }
        assert(self@ =~= auth_records(before).remove(key@));
    }

    /// Forgets the records that say no more than that there is none.
    pub fn cleanup(&mut self, now: u64)
        requires
            old(self).wf(),
        ensures
            final(self).wf(),
            final(self)@ == without_forgotten(old(self)@, now),
    {
        let ghost before = self.records@;
        let mut i: usize = 0;
        while i < self.records.entries.len()
            invariant
                i <= self.records.entries@.len(),
                self.records.wf(),
                auth_records(before) == old(self)@,
                forall|k: Seq<char>| #[trigger]
                    self.records@.contains_key(k) ==> before.contains_key(k) && self.records@[k]
                        == before[k],
                forall|k: Seq<char>| #[trigger]
                    before.contains_key(k) && !is_forgotten(before[k]@, now)
                        ==> self.records@.contains_key(k),
                forall|j: int|
                    0 <= j < i ==> !is_forgotten((#[trigger] self.records.entries@[j]).value@, now),
            decreases self.records.entries@.len() - i,
        {
            proof {
                table::lemma_record_at(self.records, i as int);
            }
            let live = keep_live(&self.records.entries[i].value.failures, now);
            let locked = match self.records.entries[i].value.locked_until {
                Some(t) => (now as u128) < t,
                None => false,
            };
            if !locked && live.len() == 0 {
                self.records.remove_at(i);
            } else {
                i += 1;
            }
        }
        proof {
            assert forall|k: Seq<char>| #[trigger]
                self.records@.contains_key(k) implies !is_forgotten(before[k]@, now) by {
                let j = table::entry_index(self.records.entries@, k);
                assert(0 <= j < self.records.entries@.len() && self.records.entries@[j].key@ == k);
                table::lemma_record_at(self.records, j);
            }
            let m = auth_records(before);
            assert forall|k: Seq<char>| #[trigger]
                self@.contains_key(k) == without_forgotten(m, now).contains_key(k) by {
                if m.contains_key(k) {
                    assert(before.contains_key(k));
                }
                assert(self@.contains_key(k) == self.records@.contains_key(k));
            }
            assert(self@ =~= without_forgotten(m, now));
        }
    }
}

/// A failure of one source leaves the records of the others.
pub proof fn law_sources_are_independent(
    m: Map<Seq<char>, AuthRecordView>,
    key: Seq<char>,
    other: Seq<char>,
    max: u32,
    window: u64,
    lockout: u64,
    now: u64,
)
    requires
        other != key,
    ensures
        auth_record_of(recorded_failure(m, key, max, window, lockout, now).1, other)
            == auth_record_of(m, other),
        auth_record_of(m.remove(key), other) == auth_record_of(m, other),
{
}

/// A success clears what is known of a source: it is not locked out, and its next failure is its
/// first.
pub proof fn law_success_clears_failures(
    m: Map<Seq<char>, AuthRecordView>,
    key: Seq<char>,
    now: u64,
)
    ensures
        !source_locked(m.remove(key), key, now),
        auth_record_of(m.remove(key), key) is None,
{
}

/// A failure that locks a source out does so for as long as the lockout lasts, and no longer.
pub proof fn law_lockout_lasts(
    prior: Option<AuthRecordView>,
    max: u32,
    window: u64,
    lockout: u64,
    now: u64,
    later: u64,
)
    requires
        failure(prior, max, window, lockout, now).0,
    ensures
        is_locked(failure(prior, max, window, lockout, now).1, later) <==> later < now + span(
            lockout,
        ),
{
}

proof fn lemma_all_live(v: Seq<u128>, now: u64)
    requires
        forall|i: int| 0 <= i < v.len() ==> now <= #[trigger] v[i],
    ensures
        live_failures(v, now) == v,
    decreases v.len(),
{
    reveal(Seq::filter);
    if v.len() > 0 {
        assert forall|i: int| 0 <= i < v.drop_last().len() implies now <= #[trigger] v.drop_last()[
        i] by {
            assert(v.drop_last()[i] == v[i]);
        }
        lemma_all_live(v.drop_last(), now);
        assert(v.drop_last().push(v.last()) =~= v);
    } else {
        assert(v =~= Seq::<u128>::empty());
    }
}

proof fn lemma_none_live(v: Seq<u128>, now: u64, later: u64)
    requires
        live_failures(v, now).len() == 0,
        now <= later,
    ensures
        live_failures(v, later) == Seq::<u128>::empty(),
    decreases v.len(),
{
    reveal(Seq::filter);
    if v.len() > 0 {
        lemma_none_live(v.drop_last(), now, later);
    }
}

/// What is known of a source after failures at these times.
pub open spec fn after_failures(
    times: Seq<u64>,
    max: u32,
    window: u64,
    lockout: u64,
) -> Option<AuthRecordView>
    decreases times.len(),
{
    if times.len() == 0 {
        None
    } else {
        Some(
            failure(
                after_failures(times.drop_last(), max, window, lockout),
                max,
                window,
                lockout,
                times.last(),
            ).1,
        )
    }
}

proof fn lemma_counted(times: Seq<u64>, max: u32, window: u64, lockout: u64)
    requires
        0 < times.len() < max,
        forall|i: int, j: int| 0 <= i <= j < times.len() ==> times[i] <= times[j],
        times.last() <= times[0] + span(window),
    ensures
        after_failures(times, max, window, lockout) == Some(
            AuthRecordView {
                failures: Seq::new(times.len(), |i: int| (times[i] + span(window)) as u128),
                locked_until: None,
            },
        ),
    decreases times.len(),
{
    let prior = times.drop_last();
    let expiries = Seq::new(times.len(), |i: int| (times[i] + span(window)) as u128);
    if prior.len() > 0 {
        assert(prior.last() <= times.last());
        lemma_counted(prior, max, window, lockout);
        let earlier = after_failures(prior, max, window, lockout)->0.failures;
        assert forall|i: int| 0 <= i < earlier.len() implies times.last() <= #[trigger] earlier[i] by {
            assert(times[0] <= times[i]);
        }
        lemma_all_live(earlier, times.last());
        assert(earlier.push((times.last() + span(window)) as u128) =~= expiries);
    } else {
        assert(Seq::<u128>::empty().push((times.last() + span(window)) as u128) =~= expiries);
    }
}

/// The `max`-th failure of a source within the window locks it out; none before it does.
pub proof fn law_failures_within_the_window_lock_out(
    times: Seq<u64>,
    max: u32,
    window: u64,
    lockout: u64,
)
    requires
        0 < times.len() <= max,
        forall|i: int, j: int| 0 <= i <= j < times.len() ==> times[i] <= times[j],
        times.last() <= times[0] + span(window),
    ensures
        failure(
            after_failures(times.drop_last(), max, window, lockout),
            max,
            window,
            lockout,
            times.last(),
        ).0 <==> times.len() == max,
{
    let prior = times.drop_last();
    if prior.len() > 0 {
        assert(prior.last() <= times.last());
        lemma_counted(prior, max, window, lockout);
        let earlier = after_failures(prior, max, window, lockout)->0.failures;
        assert forall|i: int| 0 <= i < earlier.len() implies times.last() <= #[trigger] earlier[i] by {
            assert(times[0] <= times[i]);
        }
        lemma_all_live(earlier, times.last());
    }
}

proof fn lemma_no_more_live(v: Seq<u128>, now: u64)
    ensures
        live_failures(v, now).len() <= v.len(),
    decreases v.len(),
{
    reveal(Seq::filter);
    if v.len() > 0 {
        lemma_no_more_live(v.drop_last(), now);
    }
}

/// Fewer failures than `max`, whenever they come, leave a source free.
pub proof fn law_too_few_failures_do_not_lock_out(
    times: Seq<u64>,
    max: u32,
    window: u64,
    lockout: u64,
)
    requires
        0 < times.len() < max,
    ensures
        after_failures(times, max, window, lockout) is Some,
        after_failures(times, max, window, lockout)->0.locked_until is None,
        after_failures(times, max, window, lockout)->0.failures.len() <= times.len(),
    decreases times.len(),
{
    let prior = times.drop_last();
    if prior.len() > 0 {
        law_too_few_failures_do_not_lock_out(prior, max, window, lockout);
        lemma_no_more_live(
            after_failures(prior, max, window, lockout)->0.failures,
            times.last(),
        );
    }
}

/// A record that says nothing any more never says anything again.
pub proof fn law_forgotten_stays_forgotten(r: AuthRecordView, now: u64, later: u64)
    requires
        is_forgotten(r, now),
        now <= later,
    ensures
        is_forgotten(r, later),
{
    lemma_none_live(r.failures, now, later);
}

/// Forgetting a record that says nothing any more changes nothing for later failures.
pub proof fn law_forgetting_is_not_noticed(
    r: AuthRecordView,
    max: u32,
    window: u64,
    lockout: u64,
    now: u64,
    later: u64,
)
    requires
        is_forgotten(r, now),
        now <= later,
    ensures
        !is_locked(r, later),
        failure(Some(r), max, window, lockout, later) == failure(
            None,
            max,
            window,
            lockout,
            later,
        ),
{
    lemma_none_live(r.failures, now, later);
}

/// How a bucket fills with time, its level counted in billionths of a second times requests, so
/// that a token is `period` seconds' worth: it gains `requests` for each billionth of a second
/// since it was last used, up to `requests` tokens. A request is granted exactly where that makes
/// one token, and takes one; where it is refused the bucket keeps the level.
pub proof fn law_tokens_come_back_with_time(
    b: Bucket,
    requests: u64,
    period: u64,
    penalty: u64,
    now: u64,
)
    requires
        valid_bucket(b),
        b.blocked_until is None,
        b.period == period,
        period > 0,
        b.last <= now,
    ensures
        ({
            let token = period * 1_000_000_000;
            let gained = b.whole * token + b.part + (now - b.last) * requests;
            let level = if gained < requests * token {
                gained
            } else {
                requests * token
            };
            let (granted, after) = request(Some(b), requests, period, penalty, now);
            &&& granted <==> level >= token
            &&& granted ==> after.whole * token + after.part == level - token
            &&& !granted ==> after.whole * token + after.part == level
            &&& after.part < token
            &&& after.last == now && after.period == period
            &&& granted ==> after.blocked_until is None
            &&& !granted ==> after.blocked_until == Some(
                (now + penalty * 1_000_000_000) as u128,
            )
        }),
{
    let token = span(period);
    let level = refilled_level(b, requests, period, now);
    law_bucket_holds_at_most_its_capacity(Some(b), requests, period, now);
    lemma_mul_nonnegative(b.whole as int, token);
    lemma_mul_nonnegative(elapsed(b.last, now), requests as int);
    lemma_mul_nonnegative(requests as int, token);
    lemma_full_level(requests as int, token);
    lemma_div_pos_is_pos(level, token);
    lemma_div_is_ordered(level, requests * token, token);
    lemma_fundamental_div_mod(level, token);
    lemma_mul_is_commutative(token, level / token);
    let q = level / token;
    let r = level % token;
    let found = found_bucket(Some(b), requests, period, now);
    assert(found.whole == q);
    assert(0 <= r < token);
    assert(token <= 18_446_744_073_709_551_615 * 1_000_000_000);
    assert(found.part == r);
    assert(q * token + r == level);
    if q >= 1 {
        lemma_mul_inequality(1, q, token);
        lemma_mul_is_distributive_sub_other_way(token, q, 1);
    } else {
        assert(q * token == 0) by (nonlinear_arith)
            requires
                q == 0,
        ;
    }
}

/// A clock that goes back fills no bucket, and one that asks with another period carries over the
/// part of a token that there was, up to less than a billionth of a second's worth.
pub proof fn law_clock_and_period_changes(b: Bucket, period: u64, now: u64)
    requires
        valid_bucket(b),
        period > 0,
        b.part > 0,
        b.part * (period * 1_000_000_000) <= u128::MAX,
    ensures
        now <= b.last ==> elapsed(b.last, now) == 0,
        b.last <= now ==> elapsed(b.last, now) == now - b.last,
        b.period == period ==> carried(b, period) == b.part,
        carried(b, period) * (b.period * 1_000_000_000) <= b.part * (period * 1_000_000_000),
        b.part * (period * 1_000_000_000) < (carried(b, period) + 1) * (b.period * 1_000_000_000),
{
    let old_span = span(b.period);
    let new_span = span(period);
    let x = b.part * new_span;
    if b.period != period {
        lemma_fundamental_div_mod(x, old_span);
        lemma_mul_is_commutative(old_span, x / old_span);
        lemma_mul_is_distributive_add_other_way(old_span, x / old_span, 1);
    } else {
        lemma_mul_is_distributive_add_other_way(old_span, b.part as int, 1);
    }
}

/// A request of a source that has no bucket, or whose bucket was shut and is open again, finds a
/// full one: it is granted where there is anything to grant, and leaves one token less.
pub proof fn law_fresh_buckets_are_full(
    prior: Option<Bucket>,
    requests: u64,
    period: u64,
    penalty: u64,
    now: u64,
)
    requires
        match prior {
            Some(b) => b.blocked_until matches Some(t) && t <= now,
            None => true,
        },
    ensures
        ({
            let (granted, after) = request(prior, requests, period, penalty, now);
            &&& granted <==> requests > 0
            &&& granted ==> after.whole == requests - 1 && after.part == 0 && after.blocked_until
                is None
            &&& !granted ==> after.whole == 0 && after.blocked_until == Some(
                (now + penalty * 1_000_000_000) as u128,
            )
            &&& after.last == now && after.requests == requests && after.period == period
        }),
{
}

/// A limit without a period fills the bucket at every request.
pub proof fn law_limits_without_a_period(b: Bucket, requests: u64, penalty: u64, now: u64)
    requires
        b.blocked_until is None,
    ensures
        request(Some(b), requests, 0, penalty, now) == request(None, requests, 0, penalty, now),
{
}

/// A request is answered by the bucket of its key, which is kept as the request left it. Where
/// 16384 keys have one, a key that has none is refused and gets none.
pub proof fn law_buckets_of_keys(
    m: Map<Seq<char>, Bucket>,
    key: Seq<char>,
    requests: u64,
    period: u64,
    penalty: u64,
    now: u64,
)
    ensures
        m.contains_key(key) || m.dom().len() < 16384 ==> {
            let prior = if m.contains_key(key) {
                Some(m[key])
            } else {
                None
            };
            let (granted, after) = limited_request(m, key, requests, period, penalty, now);
            &&& granted == request(prior, requests, period, penalty, now).0
            &&& after.contains_key(key) && after[key] == request(
                prior,
                requests,
                period,
                penalty,
                now,
            ).1
            &&& after.remove(key) == m.remove(key)
        },
        !m.contains_key(key) && m.dom().len() >= 16384 ==> limited_request(
            m,
            key,
            requests,
            period,
            penalty,
            now,
        ) == (false, m),
{
    if m.contains_key(key) || m.dom().len() < 16384 {
        let after = limited_request(m, key, requests, period, penalty, now).1;
        assert(after.remove(key) =~= m.remove(key));
    }
}

/// A bucket is cleared away once it would be full, or its penalty has ended: certainly when a
/// whole period has passed since it was last used. The others are kept as they are.
pub proof fn law_which_buckets_are_cleared_away(
    m: Map<Seq<char>, Bucket>,
    key: Seq<char>,
    now: u64,
)
    requires
        m.contains_key(key),
        valid_bucket(m[key]),
    ensures
        (m[key].blocked_until matches Some(t) && t <= now) ==> !without_idle(m, now).contains_key(
            key,
        ),
        m[key].blocked_until is None && m[key].last + m[key].period * 1_000_000_000 <= now
            ==> !without_idle(m, now).contains_key(key),
        (m[key].blocked_until matches Some(t) && now < t) ==> without_idle(m, now).contains_key(
            key,
        ),
        m[key].blocked_until is None && m[key].period > 0 && m[key].whole < m[key].requests && now
            <= m[key].last ==> without_idle(m, now).contains_key(key),
        without_idle(m, now).contains_key(key) ==> without_idle(m, now)[key] == m[key],
{
    let b = m[key];
    let token = span(b.period);
    lemma_full_level(b.requests as int, if token > 0 {
        token
    } else {
        1
    });
    lemma_mul_nonnegative(b.whole as int, token);
    if b.blocked_until is None && b.period > 0 {
        let level = refilled_level(b, b.requests, b.period, now);
        if b.last + token <= now {
            lemma_mul_inequality(token, elapsed(b.last, now), b.requests as int);
            lemma_mul_is_commutative(token, b.requests as int);
            assert(level == b.requests * token);
        } else if b.whole < b.requests && now <= b.last {
            assert(elapsed(b.last, now) * b.requests == 0) by (nonlinear_arith)
                requires
                    elapsed(b.last, now) == 0,
            ;
            assert(level == b.whole * token + b.part) by {
                lemma_mul_inequality(b.whole + 1, b.requests as int, token);
                lemma_mul_is_distributive_add_other_way(token, b.whole as int, 1);
            }
            lemma_fundamental_div_mod_converse(level, token, b.whole as int, b.part as int);
            assert(refilled(b, b.requests, b.period, now).whole == b.whole);
        }
    }
}

/// The failures of a source that count are those whose time has not passed; each counts for the
/// window, that many seconds after it.
pub proof fn law_failures_count_for_the_window(
    v: Seq<u128>,
    t: u128,
    max: u32,
    window: u64,
    lockout: u64,
    now: u64,
    later: u64,
)
    requires
        max > 1,
    ensures
        live_failures(v, now).contains(t) <==> v.contains(t) && now <= t,
        failure(None, max, window, lockout, now) == (
            false,
            AuthRecordView {
                failures: seq![(now + window * 1_000_000_000) as u128],
                locked_until: None,
            },
        ),
        is_forgotten(failure(None, max, window, lockout, now).1, later) <==> later > now + window
            * 1_000_000_000,
{
    let p = |x: u128| now <= x;
    if v.contains(t) && now <= t {
        let i = choose|i: int| 0 <= i < v.len() && v[i] == t;
        v.lemma_filter_contains(p, i);
    }
    if live_failures(v, now).contains(t) {
        v.lemma_filter_contains_rev(p, t);
        let i = choose|i: int| 0 <= i < v.filter(p).len() && v.filter(p)[i] == t;
        v.lemma_filter_pred(p, i);
    }
    let until = (now + span(window)) as u128;
    assert(Seq::<u128>::empty().push(until) =~= seq![until]);
    let r = failure(None, max, window, lockout, now).1;
    lemma_one_live(until, later);
}

proof fn lemma_one_live(until: u128, now: u64)
    ensures
        now <= until ==> live_failures(seq![until], now) == seq![until],
        now > until ==> live_failures(seq![until], now) == Seq::<u128>::empty(),
{
    reveal(Seq::filter);
    let none = Seq::<u128>::empty();
    let p = |x: u128| now <= x;
    assert(seq![until].drop_last() =~= none);
    assert(none.filter(p) =~= none);
    assert(none.push(until) =~= seq![until]);
}

/// A failure locks its source out exactly where those that count, and it with them, are as many as
/// are allowed; the source then starts over. One that does not is added to those that count. A
/// failure of a source that is locked out changes nothing.
pub proof fn law_failures_add_up(
    r: AuthRecordView,
    max: u32,
    window: u64,
    lockout: u64,
    now: u64,
)
    ensures
        (r.locked_until matches Some(t) && now < t) ==> failure(
            Some(r),
            max,
            window,
            lockout,
            now,
        ) == (false, r),
        !(r.locked_until matches Some(t) && now < t) ==> {
            let (locked, after) = failure(Some(r), max, window, lockout, now);
            let live = live_failures(r.failures, now);
            &&& locked <==> live.len() + 1 >= max
            &&& locked ==> after.failures.len() == 0 && after.locked_until == Some(
                (now + lockout * 1_000_000_000) as u128,
            )
            &&& !locked ==> after.locked_until is None && after.failures == live.push(
                (now + window * 1_000_000_000) as u128,
            )
        },
{
}

/// A failure is put down to the record of its source. Where 16384 sources have one, that of a
/// source that has none is not recorded.
pub proof fn law_records_of_sources(
    m: Map<Seq<char>, AuthRecordView>,
    key: Seq<char>,
    max: u32,
    window: u64,
    lockout: u64,
    now: u64,
)
    ensures
        m.contains_key(key) || m.dom().len() < 16384 ==> {
            let prior = if m.contains_key(key) {
                Some(m[key])
            } else {
                None
            };
            let (locked, after) = recorded_failure(m, key, max, window, lockout, now);
            &&& locked == failure(prior, max, window, lockout, now).0
            &&& after.contains_key(key) && after[key] == failure(
                prior,
                max,
                window,
                lockout,
                now,
            ).1
            &&& after.remove(key) == m.remove(key)
        },
        !m.contains_key(key) && m.dom().len() >= 16384 ==> recorded_failure(
            m,
            key,
            max,
            window,
            lockout,
            now,
        ) == (false, m),
        source_locked(m, key, now) <==> m.contains_key(key) && (m[key].locked_until matches Some(t)
            && now < t),
{
    if m.contains_key(key) || m.dom().len() < 16384 {
        let after = recorded_failure(m, key, max, window, lockout, now).1;
        assert(after.remove(key) =~= m.remove(key));
    }
}

/// The records that are cleared away are those of sources that are not locked out and have no
/// failure that counts. The others are kept as they are.
pub proof fn law_which_records_are_cleared_away(
    m: Map<Seq<char>, AuthRecordView>,
    key: Seq<char>,
    now: u64,
)
    requires
        m.contains_key(key),
    ensures
        without_forgotten(m, now).contains_key(key) <==> (m[key].locked_until matches Some(t) && now
            < t) || exists|i: int| 0 <= i < m[key].failures.len() && now <= #[trigger] m[key].failures[i],
        without_forgotten(m, now).contains_key(key) ==> without_forgotten(m, now)[key] == m[key],
{
    let v = m[key].failures;
    let p = |x: u128| now <= x;
    if exists|i: int| 0 <= i < v.len() && now <= #[trigger] v[i] {
        let i = choose|i: int| 0 <= i < v.len() && now <= #[trigger] v[i];
        v.lemma_filter_contains(p, i);
        assert(v.filter(p).contains(v[i]));
    } else if live_failures(v, now).len() > 0 {
        let t = live_failures(v, now)[0];
        v.lemma_filter_pred(p, 0);
        v.lemma_filter_contains_rev(p, t);
        let i = choose|i: int| 0 <= i < v.len() && v[i] == t;
        assert(now <= v[i]);
    }
}

} // verus!
