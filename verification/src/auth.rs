//! Who sends a request, and with which role.
use crate::addresses;
use crate::addresses::IpAddress;
use crate::config;
use crate::config::{AuthView, ProxyConfig, ProxyConfigView, TokenEntry, TokenView};
use crate::headers;
use crate::headers::{HeaderEntry, HeaderView};
use crate::limits;
use crate::limits::{AuthLimiter, AuthRecordView};
use crate::loading;
use crate::metrics;
use crate::metrics::{Metrics, MetricsView};
use crate::text;
use crate::tls;
use crate::tls::{CertIdentity, IdentityView};
use vstd::prelude::*;
use vstd::slice::slice_subrange;
use vstd::utf8::*;

verus! {

/// The longest token, in bytes.
pub const MAX_TOKEN_LEN: usize = 4096;

/// The failures of a source that lock it out.
pub const AUTH_FAIL_MAX: u32 = 10;

/// The seconds for which a failure counts.
pub const AUTH_FAIL_WINDOW_SECS: u64 = 60;

/// The seconds for which a source is locked out.
pub const AUTH_FAIL_LOCKOUT_SECS: u64 = 300;

/// Whether two byte strings are equal, found by looking at every byte of the longer one.
pub fn constant_time_eq(a: &[u8], b: &[u8]) -> (r: bool)
    ensures
        r == (a@ == b@),
{
    let longest: usize = if a.len() > b.len() {
        a.len()
    } else {
        b.len()
    };
    let mut diff: u8 = if a.len() == b.len() {
        0
    } else {
        1
    };
    let mut i: usize = 0;
    assert(a@.take(0) =~= b@.take(0));
    while i < longest
        invariant
            i <= longest,
            longest == a@.len() || longest == b@.len(),
            a@.len() == b@.len() ==> (diff == 0 <==> a@.take(i as int) == b@.take(i as int)),
            a@.len() != b@.len() ==> diff != 0,
        decreases longest - i,
    {
        let x: u8 = if i < a.len() {
            a[i]
        } else {
            0
        };
        let y: u8 = if i < b.len() {
            b[i]
        } else {
            0
        };
        assert((diff | (x ^ y)) == 0 <==> diff == 0 && x == y) by (bit_vector);
        proof {
            if a@.len() == b@.len() {
                assert(a@.take(i + 1) =~= a@.take(i as int).push(a@[i as int]));
                assert(b@.take(i + 1) =~= b@.take(i as int).push(b@[i as int]));
                assert(a@.take(i + 1).drop_last() =~= a@.take(i as int));
                assert(b@.take(i + 1).drop_last() =~= b@.take(i as int));
                assert(a@.take(i + 1).last() == a@[i as int]);
                assert(b@.take(i + 1).last() == b@[i as int]);
            }
        }
        diff = diff | (x ^ y);
        i += 1;
    }
    proof {
        if a@.len() == b@.len() {
            assert(a@.take(i as int) =~= a@);
            assert(b@.take(i as int) =~= b@);
        }
    }
    diff == 0
}

fn secret_equals(secret: &str, token: &str) -> (r: bool)
    ensures
        r == (secret@ == token@),
{
    proof {
        if encode_utf8(secret@) == encode_utf8(token@) {
            text::lemma_encoding_injective(secret@, token@);
        }
    }
    constant_time_eq(secret.as_bytes(), token.as_bytes())
}

/// The bearer token in the text of an authorization header, where it is not empty and not too
/// long.
pub open spec fn bearer_token(v: Seq<char>) -> Option<Seq<char>> {
    if text::begins_with(v, "Bearer "@) && v.len() > 7 && v.len() - 7 <= MAX_TOKEN_LEN {
        Some(v.skip(7))
    } else {
        None
    }
}

/// The token of a request: none where there is no authorization header, and an error where there
/// are several or where the one holds no token.
pub open spec fn request_token(h: Seq<HeaderView>) -> Result<Option<Seq<char>>, ()> {
    let values = headers::values_of(h, "authorization"@);
    if values.len() == 0 {
        Ok(None)
    } else if values.len() > 1 {
        Err(())
    } else {
        match headers::value_text(values[0]) {
            Some(v) => match bearer_token(v) {
                Some(t) => Ok(Some(t)),
                None => Err(()),
            },
            None => Err(()),
        }
    }
}

fn token_of_entries(h: &Vec<HeaderEntry>) -> (r: Result<Option<String>, ()>)
    ensures
        match r {
            Ok(o) => request_token(headers::header_list(h@)) == Ok::<Option<Seq<char>>, ()>(
                text::opt_text(o),
            ),
            Err(_) => request_token(headers::header_list(h@)) is Err,
        },
{
    let found = headers::positions_of(h, "authorization");
    if found.len() == 0 {
        return Ok(None);
    }
    if found.len() > 1 {
        return Err(());
    }
    assert(found@[0] < h@.len());
    let v = match headers::text_of_value(h[found[0]].value.as_slice()) {
        Some(v) => v,
        None => {
            return Err(());
        },
    };
    let scheme = text::chars_of("Bearer ");
    proof {
        reveal_strlit("Bearer ");
    }
    if text::has_prefix(v.as_slice(), scheme.as_slice()) && v.len() > 7 && v.len() - 7
        <= MAX_TOKEN_LEN {
        let t = slice_subrange(v.as_slice(), 7, v.len());
        assert(t@ =~= v@.skip(7));
        Ok(Some(text::string_of(t)))
    } else {
        Err(())
    }
}

/// The token of a request.
pub fn extract_bearer_token(h: &hyper::HeaderMap) -> (r: Result<Option<String>, ()>)
    ensures
        match r {
            Ok(o) => request_token(headers::header_contents(*h)) == Ok::<Option<Seq<char>>, ()>(
                text::opt_text(o),
            ),
            Err(_) => request_token(headers::header_contents(*h)) is Err,
        },
{
    token_of_entries(&headers::header_entries(h))
}

/// The role of the first entry with this token; one without a role gives `user`.
pub open spec fn listed_role(tokens: Seq<TokenView>, token: Seq<char>) -> Option<Seq<char>>
    decreases tokens.len(),
{
    if tokens.len() == 0 {
        None
    } else if tokens[0].token == token {
        Some(
            match tokens[0].role {
                Some(r) => r,
                None => "user"@,
            },
        )
    } else {
        listed_role(tokens.skip(1), token)
    }
}

/// The role that a token gives: that of its entry, else `admin` where it is the shared secret.
pub open spec fn token_role(
    auth: Option<AuthView>,
    env_secret: Seq<char>,
    token: Seq<char>,
) -> Option<Seq<char>> {
    match auth {
        Some(a) => {
            let listed = match a.tokens {
                Some(v) => listed_role(v, token),
                None => None,
            };
            if listed is Some {
                listed
            } else if a.secret is Some && a.secret->0.len() > 0 && a.secret->0 == token {
                Some("admin"@)
            } else {
                None
            }
        },
        None => if env_secret.len() > 0 && env_secret == token {
            Some("admin"@)
        } else {
            None
        },
    }
}

/// Looks at every token, so that the time taken does not tell which one matched.
fn find_listed_role(tokens: &Vec<TokenEntry>, token: &str) -> (r: Option<String>)
    ensures
        text::opt_text(r) == listed_role(config::token_list(tokens@), token@),
{
    let ghost list = config::token_list(tokens@);
    let mut matched: Option<String> = None;
    let mut i: usize = 0;
    assert(list.skip(0) =~= list);
    while i < tokens.len()
        invariant
            i <= tokens@.len(),
            list == config::token_list(tokens@),
            match matched {
                Some(m) => listed_role(list, token@) == Some(m@),
                None => listed_role(list, token@) == listed_role(list.skip(i as int), token@),
            },
        decreases tokens@.len() - i,
    {
        assert(list.skip(i as int)[0] == tokens@[i as int]@);
        assert(list.skip(i as int).skip(1) =~= list.skip(i + 1));
        let equal = secret_equals(tokens[i].token.expose_secret(), token);
        if equal && matched.is_none() {
            matched =
            match &tokens[i].role {
                Some(r) => Some(r.clone()),
                None => Some("user".to_string()),
            };
        }
        i += 1;
    }
    matched
}

/// The role that a token gives.
pub fn resolve_token_role(config: &ProxyConfig, env_secret: &str, token: &str) -> (r: Option<
    String,
>)
    ensures
        text::opt_text(r) == token_role(config@.auth, env_secret@, token@),
{
    match &config.auth {
        Some(a) => {
            if let Some(v) = &a.tokens {
                if let Some(role) = find_listed_role(v, token) {
                    return Some(role);
                }
            }
            if let Some(s) = &a.secret {
                if !s.expose_secret().is_empty() && secret_equals(s.expose_secret(), token) {
                    return Some("admin".to_string());
                }
            }
            None
        },
        None => {
            if !env_secret.is_empty() && secret_equals(env_secret, token) {
                Some("admin".to_string())
            } else {
                None
            }
        },
    }
}

/// Whether some request can be authenticated, or none need be: a token that is not empty is
/// listed, or a secret is set.
pub open spec fn strictly_configured(auth: Option<AuthView>, env_secret: Seq<char>) -> bool {
    match auth {
        Some(a) => {
            ||| a.auth_type == Some("none"@)
            ||| a.auth_type == Some("mtls"@)
            ||| a.tokens is Some && exists|i: int|
                0 <= i < a.tokens->0.len() && (#[trigger] a.tokens->0[i]).token.len() > 0
            ||| a.secret is Some && a.secret->0.len() > 0
        },
        None => env_secret.len() > 0,
    }
}

fn has_token(tokens: &Vec<TokenEntry>) -> (r: bool)
    ensures
        r == exists|i: int|
            0 <= i < config::token_list(tokens@).len() && (#[trigger] config::token_list(
                tokens@,
            )[i]).token.len() > 0,
{
    let mut i: usize = 0;
    while i < tokens.len()
        invariant
            i <= tokens@.len(),
            forall|j: int|
                0 <= j < i ==> (#[trigger] config::token_list(tokens@)[j]).token.len() == 0,
        decreases tokens@.len() - i,
    {
        if !tokens[i].token.expose_secret().is_empty() {
            assert(config::token_list(tokens@)[i as int].token.len() > 0);
            return true;
        }
        i += 1;
    }
    false
}

/// Whether some request can be authenticated, or none need be.
pub fn is_auth_strictly_configured(config: &ProxyConfig, env_secret: &str) -> (r: bool)
    ensures
        r == strictly_configured(config@.auth, env_secret@),
{
    match &config.auth {
        Some(a) => {
            if loading::opt_is(&a.auth_type, "none") || loading::opt_is(&a.auth_type, "mtls") {
                return true;
            }
            if let Some(v) = &a.tokens {
                if has_token(v) {
                    return true;
                }
            }
            match &a.secret {
                Some(s) => !s.expose_secret().is_empty(),
                None => false,
            }
        },
        None => !env_secret.is_empty(),
    }
}

/// Whether a request was authenticated: with which role and as whom, or with which answer it is
/// refused.
#[derive(Debug)]
pub enum AuthOutcome {
    Allowed { role: Option<String>, identity: Option<String> },
    Denied { status: u16, message: &'static str },
}

/// What an [`AuthOutcome`] stands for.
pub enum OutcomeView {
    Allowed { role: Option<Seq<char>>, identity: Option<Seq<char>> },
    Denied { status: u16, message: Seq<char> },
}

impl View for AuthOutcome {
    type V = OutcomeView;

    open spec fn view(&self) -> OutcomeView {
        match self {
            AuthOutcome::Allowed { role, identity } => OutcomeView::Allowed {
                role: text::opt_text(*role),
                identity: text::opt_text(*identity),
            },
            AuthOutcome::Denied { status, message } => OutcomeView::Denied {
                status: *status,
                message: message@,
            },
        }
    }
}

/// What authentication keeps between requests: the failures of each source, and the counters.
pub struct AuthState {
    pub limiter: Map<Seq<char>, AuthRecordView>,
    pub metrics: MetricsView,
}

/// The state after a failure of a source.
pub open spec fn after_failure(s: AuthState, key: Seq<char>, now: u64) -> AuthState {
    let r = limits::recorded_failure(
        s.limiter,
        key,
        AUTH_FAIL_MAX,
        AUTH_FAIL_WINDOW_SECS,
        AUTH_FAIL_LOCKOUT_SECS,
        now,
    );
    AuthState {
        limiter: r.1,
        metrics: MetricsView {
            auth_failures_total: metrics::bumped(s.metrics.auth_failures_total),
            auth_lockouts_total: if r.0 {
                metrics::bumped(s.metrics.auth_lockouts_total)
            } else {
                s.metrics.auth_lockouts_total
            },
            ..s.metrics
        },
    }
}

/// The state after a success of a source.
pub open spec fn after_success(s: AuthState, key: Seq<char>) -> AuthState {
    AuthState { limiter: s.limiter.remove(key), metrics: s.metrics }
}

/// The name by which an identity is known: its common name, else its first alternative name.
pub open spec fn identity_name(id: IdentityView) -> Option<Seq<char>> {
    if id.common_name is Some {
        id.common_name
    } else if id.sans.len() > 0 {
        Some(id.sans[0])
    } else {
        None
    }
}

/// The authentication scheme.
pub open spec fn scheme_of(c: ProxyConfigView) -> Option<Seq<char>> {
    match c.auth {
        Some(a) => a.auth_type,
        None => None,
    }
}

/// The certificate settings.
pub open spec fn mtls_of(c: ProxyConfigView) -> Option<config::MtlsView> {
    match c.auth {
        Some(a) => a.mtls,
        None => None,
    }
}

/// The answer to a request that is not authenticated.
pub open spec fn unauthorized(message: Seq<char>) -> OutcomeView {
    OutcomeView::Denied { status: 401, message }
}

/// How a client with a certificate, or without one, is authenticated by it.
pub open spec fn certificate_outcome(
    c: ProxyConfigView,
    cert: Option<IdentityView>,
    key: Seq<char>,
    s: AuthState,
    now: u64,
) -> (OutcomeView, AuthState) {
    match cert {
        Some(id) => match tls::mtls_role(id, mtls_of(c)) {
            Some(role) => (
                OutcomeView::Allowed { role: Some(role), identity: identity_name(id) },
                after_success(s, key),
            ),
            None => (
                unauthorized("Client certificate not authorized"@),
                after_failure(s, key, now),
            ),
        },
        None => (unauthorized("mTLS required but no client certificate presented"@), s),
    }
}

/// How a request is authenticated by its token.
pub open spec fn token_outcome(
    c: ProxyConfigView,
    env_secret: Seq<char>,
    h: Seq<HeaderView>,
    key: Seq<char>,
    s: AuthState,
    now: u64,
) -> (OutcomeView, AuthState) {
    if !strictly_configured(c.auth, env_secret) {
        (unauthorized("Authentication is not configured"@), s)
    } else {
        match request_token(h) {
            Ok(Some(t)) => match token_role(c.auth, env_secret, t) {
                Some(role) => (
                    OutcomeView::Allowed { role: Some(role), identity: None },
                    after_success(s, key),
                ),
                None => (unauthorized("Invalid token"@), after_failure(s, key, now)),
            },
            Ok(None) => (unauthorized("Missing authorization"@), after_failure(s, key, now)),
            Err(_) => (unauthorized("Malformed authorization"@), after_failure(s, key, now)),
        }
    }
}

/// How a request is authenticated, and the state afterwards. A source that is locked out is
/// refused before anything else.
pub open spec fn auth_outcome(
    c: ProxyConfigView,
    env_secret: Seq<char>,
    h: Seq<HeaderView>,
    peer: IpAddress,
    cert: Option<IdentityView>,
    s: AuthState,
    now: u64,
) -> (OutcomeView, AuthState) {
    let key = addresses::ip_text(peer);
    if limits::source_locked(s.limiter, key, now) {
        (
            OutcomeView::Denied { status: 429, message: "Too many authentication failures"@ },
            s,
        )
    } else if scheme_of(c) == Some("none"@) {
        (OutcomeView::Allowed { role: None, identity: None }, s)
    } else if scheme_of(c) == Some("mtls"@) {
        certificate_outcome(c, cert, key, s, now)
    } else {
        token_outcome(c, env_secret, h, key, s, now)
    }
}

fn count_failure(key: &str, limiter: &mut AuthLimiter, metrics: &mut Metrics, now: u64)
    requires
        old(limiter).wf(),
        old(metrics).wf(),
    ensures
        final(limiter).wf(),
        final(metrics).wf(),
        (AuthState { limiter: final(limiter)@, metrics: final(metrics)@ }) == after_failure(
            AuthState { limiter: old(limiter)@, metrics: old(metrics)@ },
            key@,
            now,
        ),
{
    metrics.auth_failures_total.increment();
    if limiter.record_failure(
        key,
        AUTH_FAIL_MAX,
        AUTH_FAIL_WINDOW_SECS,
        AUTH_FAIL_LOCKOUT_SECS,
        now,
    ) {
        metrics.auth_lockouts_total.increment();
    }
}

fn known_as(id: &CertIdentity) -> (r: Option<String>)
    ensures
        text::opt_text(r) == identity_name(id@),
{
    match &id.common_name {
        Some(n) => Some(n.clone()),
        None => {
            if id.sans.len() > 0 {
                Some(id.sans[0].clone())
            } else {
                None
            }
        },
    }
}

fn deny(message: &'static str) -> (r: AuthOutcome)
    ensures
        r@ == unauthorized(message@),
{
    AuthOutcome::Denied { status: 401, message }
}

/// Authenticates a request of a peer, counting its failures.
pub fn authenticate(
    config: &ProxyConfig,
    env_secret: &str,
    h: &Vec<HeaderEntry>,
    peer: IpAddress,
    cert: Option<&CertIdentity>,
    limiter: &mut AuthLimiter,
    metrics: &mut Metrics,
    now: u64,
) -> (r: AuthOutcome)
    requires
        old(limiter).wf(),
        old(metrics).wf(),
    ensures
        final(limiter).wf(),
        final(metrics).wf(),
        (r@, AuthState { limiter: final(limiter)@, metrics: final(metrics)@ }) == auth_outcome(
            config@,
            env_secret@,
            headers::header_list(h@),
            peer,
            match cert {
                Some(id) => Some(id@),
                None => None,
            },
            AuthState { limiter: old(limiter)@, metrics: old(metrics)@ },
            now,
        ),
{
    let key = addresses::ip_to_string(peer);
    if limiter.is_blocked(key.as_str(), now) {
        return AuthOutcome::Denied { status: 429, message: "Too many authentication failures" };
    }
    let (off, by_certificate) = match &config.auth {
        Some(a) => (loading::opt_is(&a.auth_type, "none"), loading::opt_is(&a.auth_type, "mtls")),
        None => (false, false),
    };
    if off {
        return AuthOutcome::Allowed { role: None, identity: None };
    }
    if by_certificate {
        let id = match cert {
            Some(id) => id,
            None => {
                return deny("mTLS required but no client certificate presented");
            },
        };
        let mtls = match &config.auth {
            Some(a) => match &a.mtls {
                Some(m) => Some(m),
                None => None,
            },
            None => None,
        };
        return match tls::resolve_mtls_role(id, mtls) {
            Some(role) => {
                limiter.record_success(key.as_str());
                AuthOutcome::Allowed { role: Some(role), identity: known_as(id) }
            },
            None => {
                count_failure(key.as_str(), limiter, metrics, now);
                deny("Client certificate not authorized")
            },
        };
    }
    if !is_auth_strictly_configured(config, env_secret) {
        return deny("Authentication is not configured");
    }
    match token_of_entries(h) {
        Ok(Some(token)) => match resolve_token_role(config, env_secret, token.as_str()) {
            Some(role) => {
                limiter.record_success(key.as_str());
                AuthOutcome::Allowed { role: Some(role), identity: None }
            },
            None => {
                count_failure(key.as_str(), limiter, metrics, now);
                deny("Invalid token")
            },
        },
        Ok(None) => {
            count_failure(key.as_str(), limiter, metrics, now);
            deny("Missing authorization")
        },
        Err(_) => {
            count_failure(key.as_str(), limiter, metrics, now);
            deny("Malformed authorization")
        },
    }
}

/// A source that is locked out is refused, whatever it presents, and nothing changes.
pub proof fn law_locked_out_source_is_refused(
    c: ProxyConfigView,
    env_secret: Seq<char>,
    h: Seq<HeaderView>,
    peer: IpAddress,
    cert: Option<IdentityView>,
    s: AuthState,
    now: u64,
)
    requires
        limits::source_locked(s.limiter, addresses::ip_text(peer), now),
    ensures
        auth_outcome(c, env_secret, h, peer, cert, s, now) == (
            OutcomeView::Denied { status: 429, message: "Too many authentication failures"@ },
            s,
        ),
{
}

/// Where authentication is not configured, every request is refused.
pub proof fn law_unconfigured_authentication_refuses(
    c: ProxyConfigView,
    env_secret: Seq<char>,
    h: Seq<HeaderView>,
    peer: IpAddress,
    cert: Option<IdentityView>,
    s: AuthState,
    now: u64,
)
    requires
        !strictly_configured(c.auth, env_secret),
        !limits::source_locked(s.limiter, addresses::ip_text(peer), now),
    ensures
        auth_outcome(c, env_secret, h, peer, cert, s, now).0 == unauthorized(
            "Authentication is not configured"@,
        ),
{
}

/// A request passes with a role only where its certificate has it or its token gives it, and
/// then the failures of its source are cleared.
pub proof fn law_roles_are_earned(
    c: ProxyConfigView,
    env_secret: Seq<char>,
    h: Seq<HeaderView>,
    peer: IpAddress,
    cert: Option<IdentityView>,
    s: AuthState,
    now: u64,
)
    ensures
        match auth_outcome(c, env_secret, h, peer, cert, s, now) {
            (OutcomeView::Allowed { role, identity }, after) => {
                ||| scheme_of(c) == Some("none"@) && role is None && after == s
                ||| scheme_of(c) == Some("mtls"@) && cert is Some && role is Some && role
                    == tls::mtls_role(cert->0, mtls_of(c)) && after == after_success(
                    s,
                    addresses::ip_text(peer),
                )
                ||| role is Some && request_token(h) is Ok && request_token(h)->Ok_0 is Some && role
                    == token_role(c.auth, env_secret, request_token(h)->Ok_0->0) && after
                    == after_success(s, addresses::ip_text(peer))
            },
            _ => true,
        },
{
}

/// Several authorization headers are never a token.
pub proof fn law_several_authorization_headers_are_malformed(h: Seq<HeaderView>)
    requires
        headers::values_of(h, "authorization"@).len() > 1,
    ensures
        request_token(h) is Err,
{
}

/// A token is never empty, and never longer than the limit.
pub proof fn law_tokens_are_bounded(h: Seq<HeaderView>)
    ensures
        match request_token(h) {
            Ok(Some(t)) => 0 < t.len() <= MAX_TOKEN_LEN,
            _ => true,
        },
{
}

/// The role of a token's entry takes precedence over that of the shared secret.
pub proof fn law_listed_tokens_take_precedence(
    a: AuthView,
    env_secret: Seq<char>,
    token: Seq<char>,
)
    requires
        a.tokens is Some,
        listed_role(a.tokens->0, token) is Some,
    ensures
        token_role(Some(a), env_secret, token) == listed_role(a.tokens->0, token),
{
}

/// The state after failures of a source at these times.
pub open spec fn state_after_failures(s: AuthState, key: Seq<char>, times: Seq<u64>) -> AuthState
    decreases times.len(),
{
    if times.len() == 0 {
        s
    } else {
        after_failure(state_after_failures(s, key, times.drop_last()), key, times.last())
    }
}

/// Whether nothing counts against a source: it has no record, or one of which no failure counts
/// any more and no lockout lasts.
pub open spec fn is_free(m: Map<Seq<char>, AuthRecordView>, key: Seq<char>, now: u64) -> bool {
    match limits::auth_record_of(m, key) {
        Some(r) => limits::is_forgotten(r, now),
        None => true,
    }
}

/// Whether failures of a source are recorded: it has a record, or there is room for one more.
pub open spec fn is_tracked(m: Map<Seq<char>, AuthRecordView>, key: Seq<char>) -> bool {
    m.contains_key(key) || m.dom().len() < limits::MAX_AUTH_KEYS
}

proof fn lemma_failures_recorded(s: AuthState, key: Seq<char>, times: Seq<u64>)
    requires
        times.len() > 0,
        is_free(s.limiter, key, times[0]),
    ensures
        limits::auth_record_of(state_after_failures(s, key, times).limiter, key) == if is_tracked(
            s.limiter,
            key,
        ) {
            limits::after_failures(
                times,
                AUTH_FAIL_MAX,
                AUTH_FAIL_WINDOW_SECS,
                AUTH_FAIL_LOCKOUT_SECS,
            )
        } else {
            None
        },
        !is_tracked(s.limiter, key) ==> state_after_failures(s, key, times).limiter == s.limiter,
    decreases times.len(),
{
    let prior = times.drop_last();
    if prior.len() > 0 {
        lemma_failures_recorded(s, key, prior);
    } else {
        assert(state_after_failures(s, key, prior) == s);
        assert(limits::after_failures(
            prior,
            AUTH_FAIL_MAX,
            AUTH_FAIL_WINDOW_SECS,
            AUTH_FAIL_LOCKOUT_SECS,
        ) is None);
        if let Some(r) = limits::auth_record_of(s.limiter, key) {
            limits::law_forgetting_is_not_noticed(
                r,
                AUTH_FAIL_MAX,
                AUTH_FAIL_WINDOW_SECS,
                AUTH_FAIL_LOCKOUT_SECS,
                times[0],
                times[0],
            );
        }
    }
}

/// Ten failures of a source within sixty seconds lock it out for five minutes from the last one;
/// fewer do not lock it out. Nothing counted against the source before, and its failures are
/// recorded.
pub proof fn law_ten_failures_within_a_minute_lock_out(
    s: AuthState,
    key: Seq<char>,
    times: Seq<u64>,
    later: u64,
)
    requires
        0 < times.len() <= 10,
        is_free(s.limiter, key, times[0]),
        is_tracked(s.limiter, key),
        forall|i: int, j: int| 0 <= i <= j < times.len() ==> times[i] <= times[j],
        times.last() <= times[0] + 60_000_000_000,
    ensures
        limits::source_locked(state_after_failures(s, key, times).limiter, key, later) <==> (
        times.len() == 10 && later < times.last() + 300_000_000_000),
{
    lemma_failures_recorded(s, key, times);
    let prior = limits::after_failures(
        times.drop_last(),
        AUTH_FAIL_MAX,
        AUTH_FAIL_WINDOW_SECS,
        AUTH_FAIL_LOCKOUT_SECS,
    );
    limits::law_failures_within_the_window_lock_out(
        times,
        AUTH_FAIL_MAX,
        AUTH_FAIL_WINDOW_SECS,
        AUTH_FAIL_LOCKOUT_SECS,
    );
    if times.len() == 10 {
        limits::law_lockout_lasts(
            prior,
            AUTH_FAIL_MAX,
            AUTH_FAIL_WINDOW_SECS,
            AUTH_FAIL_LOCKOUT_SECS,
            times.last(),
            later,
        );
    } else {
        limits::law_too_few_failures_do_not_lock_out(
            times,
            AUTH_FAIL_MAX,
            AUTH_FAIL_WINDOW_SECS,
            AUTH_FAIL_LOCKOUT_SECS,
        );
    }
}

/// At most nine failures leave a source free against which nothing counted before, whenever they
/// come and whether or not they are recorded.
pub proof fn law_nine_failures_leave_a_source_free(
    s: AuthState,
    key: Seq<char>,
    times: Seq<u64>,
    start: u64,
    later: u64,
)
    requires
        times.len() <= 9,
        is_free(s.limiter, key, start),
        start <= later,
        times.len() > 0 ==> start <= times[0],
    ensures
        !limits::source_locked(state_after_failures(s, key, times).limiter, key, later),
{
    if times.len() > 0 {
        if let Some(r) = limits::auth_record_of(s.limiter, key) {
            limits::law_forgotten_stays_forgotten(r, start, times[0]);
        }
        lemma_failures_recorded(s, key, times);
        limits::law_too_few_failures_do_not_lock_out(
            times,
            AUTH_FAIL_MAX,
            AUTH_FAIL_WINDOW_SECS,
            AUTH_FAIL_LOCKOUT_SECS,
        );
    } else if let Some(r) = limits::auth_record_of(s.limiter, key) {
        limits::law_forgotten_stays_forgotten(r, start, later);
    }
}

/// A request that is to be authenticated, and when it comes.
pub struct Attempt {
    pub headers: Seq<HeaderView>,
    pub cert: Option<IdentityView>,
    pub now: u64,
}

/// The role that a token in the headers gives, where requests are authenticated by their tokens.
pub open spec fn role_by_token(
    c: ProxyConfigView,
    env_secret: Seq<char>,
    h: Seq<HeaderView>,
) -> Option<Seq<char>> {
    match request_token(h) {
        Ok(Some(t)) => token_role(c.auth, env_secret, t),
        _ => None,
    }
}

/// Whether requests are authenticated by their tokens.
pub open spec fn is_by_token(c: ProxyConfigView, env_secret: Seq<char>) -> bool {
    &&& scheme_of(c) != Some("none"@) && scheme_of(c) != Some("mtls"@)
    &&& strictly_configured(c.auth, env_secret)
}

/// The state after a peer's attempts.
pub open spec fn after_attempts(
    c: ProxyConfigView,
    env_secret: Seq<char>,
    peer: IpAddress,
    s: AuthState,
    attempts: Seq<Attempt>,
) -> AuthState
    decreases attempts.len(),
{
    if attempts.len() == 0 {
        s
    } else {
        let a = attempts.last();
        auth_outcome(
            c,
            env_secret,
            a.headers,
            peer,
            a.cert,
            after_attempts(c, env_secret, peer, s, attempts.drop_last()),
            a.now,
        ).1
    }
}

/// Whether each of the attempts brings a wrong token, none, or a malformed one.
pub open spec fn all_fail(
    c: ProxyConfigView,
    env_secret: Seq<char>,
    attempts: Seq<Attempt>,
) -> bool {
    forall|i: int|
        0 <= i < attempts.len() ==> role_by_token(c, env_secret, (#[trigger] attempts[i]).headers)
            is None
}

/// When the attempts come.
pub open spec fn times_of(attempts: Seq<Attempt>) -> Seq<u64> {
    Seq::new(attempts.len(), |i: int| attempts[i].now)
}

proof fn lemma_failed_attempts(
    c: ProxyConfigView,
    env_secret: Seq<char>,
    peer: IpAddress,
    s: AuthState,
    attempts: Seq<Attempt>,
)
    requires
        is_by_token(c, env_secret),
        all_fail(c, env_secret, attempts),
    ensures
        after_attempts(c, env_secret, peer, s, attempts).limiter == state_after_failures(
            s,
            addresses::ip_text(peer),
            times_of(attempts),
        ).limiter,
    decreases attempts.len(),
{
    let key = addresses::ip_text(peer);
    if attempts.len() > 0 {
        let prior = attempts.drop_last();
        assert(attempts.last() == attempts[attempts.len() - 1]);
        assert forall|i: int| 0 <= i < prior.len() implies role_by_token(
            c,
            env_secret,
            (#[trigger] prior[i]).headers,
        ) is None by {
            assert(prior[i] == attempts[i]);
        }
        lemma_failed_attempts(c, env_secret, peer, s, prior);
        assert(times_of(attempts).drop_last() =~= times_of(prior));
        assert(times_of(attempts).last() == attempts.last().now);
        let m = after_attempts(c, env_secret, peer, s, prior).limiter;
        if limits::source_locked(m, key, attempts.last().now) {
            assert(m.insert(key, m[key]) =~= m);
        }
    } else {
        assert(times_of(attempts).len() == 0);
    }
}

/// A valid token from a source that is not locked out is let in with its role.
pub proof fn law_valid_tokens_are_let_in(
    c: ProxyConfigView,
    env_secret: Seq<char>,
    h: Seq<HeaderView>,
    peer: IpAddress,
    cert: Option<IdentityView>,
    s: AuthState,
    now: u64,
)
    requires
        is_by_token(c, env_secret),
        role_by_token(c, env_secret, h) is Some,
        !limits::source_locked(s.limiter, addresses::ip_text(peer), now),
    ensures
        auth_outcome(c, env_secret, h, peer, cert, s, now) == (
            OutcomeView::Allowed { role: role_by_token(c, env_secret, h), identity: None },
            after_success(s, addresses::ip_text(peer)),
        ),
{
}

/// After ten attempts of a peer within sixty seconds that all fail, whatever it presents within
/// five minutes of the last one is refused, a valid token too, and nothing changes. Nothing
/// counted against the peer before, and its failures are recorded.
pub proof fn law_ten_failed_attempts_shut_a_peer_out(
    c: ProxyConfigView,
    env_secret: Seq<char>,
    peer: IpAddress,
    s: AuthState,
    attempts: Seq<Attempt>,
    next: Attempt,
)
    requires
        is_by_token(c, env_secret),
        attempts.len() == 10,
        all_fail(c, env_secret, attempts),
        forall|i: int, j: int|
            0 <= i <= j < attempts.len() ==> (#[trigger] attempts[i]).now <= (
            #[trigger] attempts[j]).now,
        attempts.last().now <= attempts[0].now + 60_000_000_000,
        next.now < attempts.last().now + 300_000_000_000,
        is_free(s.limiter, addresses::ip_text(peer), attempts[0].now),
        is_tracked(s.limiter, addresses::ip_text(peer)),
    ensures
        ({
            let after = after_attempts(c, env_secret, peer, s, attempts);
            auth_outcome(c, env_secret, next.headers, peer, next.cert, after, next.now) == (
                OutcomeView::Denied { status: 429, message: "Too many authentication failures"@ },
                after,
            )
        }),
{
    let times = times_of(attempts);
    lemma_failed_attempts(c, env_secret, peer, s, attempts);
    assert forall|i: int, j: int| 0 <= i <= j < times.len() implies times[i] <= times[j] by {
        assert(attempts[i].now <= attempts[j].now);
    }
    law_ten_failures_within_a_minute_lock_out(s, addresses::ip_text(peer), times, next.now);
}

/// A success clears the failures before it: after at most nine attempts of a peer that fail, one
/// with a valid token and at most nine more that fail, a valid token is let in.
pub proof fn law_success_starts_over(
    c: ProxyConfigView,
    env_secret: Seq<char>,
    peer: IpAddress,
    s: AuthState,
    start: u64,
    before: Seq<Attempt>,
    success: Attempt,
    after: Seq<Attempt>,
    next: Attempt,
)
    requires
        is_by_token(c, env_secret),
        is_free(s.limiter, addresses::ip_text(peer), start),
        before.len() <= 9,
        all_fail(c, env_secret, before),
        before.len() > 0 ==> start <= before[0].now,
        start <= success.now,
        role_by_token(c, env_secret, success.headers) is Some,
        after.len() <= 9,
        all_fail(c, env_secret, after),
        role_by_token(c, env_secret, next.headers) is Some,
    ensures
        ({
            let failed = after_attempts(c, env_secret, peer, s, before);
            let (first, cleared) = auth_outcome(
                c,
                env_secret,
                success.headers,
                peer,
                success.cert,
                failed,
                success.now,
            );
            let failed_again = after_attempts(c, env_secret, peer, cleared, after);
            let last = auth_outcome(
                c,
                env_secret,
                next.headers,
                peer,
                next.cert,
                failed_again,
                next.now,
            ).0;
            &&& first == OutcomeView::Allowed {
                role: role_by_token(c, env_secret, success.headers),
                identity: None,
            }
            &&& last == OutcomeView::Allowed {
                role: role_by_token(c, env_secret, next.headers),
                identity: None,
            }
        }),
{
    let key = addresses::ip_text(peer);
    let failed = after_attempts(c, env_secret, peer, s, before);
    lemma_failed_attempts(c, env_secret, peer, s, before);
    law_nine_failures_leave_a_source_free(s, key, times_of(before), start, success.now);
    law_valid_tokens_are_let_in(
        c,
        env_secret,
        success.headers,
        peer,
        success.cert,
        failed,
        success.now,
    );
    let cleared = after_success(failed, key);
    lemma_failed_attempts(c, env_secret, peer, cleared, after);
    law_nine_failures_leave_a_source_free(cleared, key, times_of(after), 0, next.now);
    law_valid_tokens_are_let_in(
        c,
        env_secret,
        next.headers,
        peer,
        next.cert,
        after_attempts(c, env_secret, peer, cleared, after),
        next.now,
    );
}

/// What a peer does leaves what is known of other sources.
pub proof fn law_peers_do_not_affect_each_other(
    c: ProxyConfigView,
    env_secret: Seq<char>,
    h: Seq<HeaderView>,
    peer: IpAddress,
    cert: Option<IdentityView>,
    s: AuthState,
    now: u64,
    other: Seq<char>,
)
    requires
        other != addresses::ip_text(peer),
    ensures
        limits::auth_record_of(
            auth_outcome(c, env_secret, h, peer, cert, s, now).1.limiter,
            other,
        ) == limits::auth_record_of(s.limiter, other),
{
}

/// The token of an authorization value is what follows `Bearer` and a space, from one to 4096
/// characters; no other value has one.
pub proof fn law_bearer_tokens(v: Seq<char>, t: Seq<char>)
    ensures
        bearer_token(v) == Some(t) <==> v == "Bearer "@ + t && 0 < t.len() <= 4096,
{
    reveal_strlit("Bearer ");
    text::law_beginning(v, "Bearer "@);
    if v == "Bearer "@ + t {
        assert(v.take(7) =~= "Bearer "@);
        assert(v.skip(7) =~= t);
    }
    if bearer_token(v) == Some(t) {
        assert(v =~= v.take(7) + v.skip(7));
    }
}

/// The token of a request is that of its one authorization header; a request without one has no
/// token, and one whose header is no bearer token is malformed.
pub proof fn law_token_of_a_request(
    before: Seq<HeaderView>,
    e: HeaderView,
    after: Seq<HeaderView>,
    t: Seq<char>,
)
    requires
        e.name == "authorization"@,
        forall|i: int| 0 <= i < before.len() ==> #[trigger] before[i].name != e.name,
        forall|i: int| 0 <= i < after.len() ==> #[trigger] after[i].name != e.name,
    ensures
        request_token(before) == Ok::<Option<Seq<char>>, ()>(None),
        ({
            let all = before + seq![e] + after;
            &&& headers::value_text(e.value) == Some("Bearer "@ + t) && 0 < t.len() <= 4096
                ==> request_token(all) == Ok::<Option<Seq<char>>, ()>(Some(t))
            &&& headers::value_text(e.value) is None ==> request_token(all) is Err
            &&& request_token(all) is Ok ==> request_token(all)->Ok_0 is Some
                && headers::value_text(e.value) == Some(
                "Bearer "@ + request_token(all)->Ok_0->0,
            )
        }),
{
    let all = before + seq![e] + after;
    headers::law_first_value_of_a_name(before, e, after);
    headers::law_first_value_of_a_name(after, e, before);
    headers::law_values_of_a_name(before, seq![e], e, e.name);
    headers::law_values_of_a_name(before + seq![e], after, e, e.name);
    assert(headers::values_of(all, e.name) =~= seq![e.value]);
    law_bearer_tokens("Bearer "@ + t, t);
    if request_token(all) is Ok {
        law_bearer_tokens(headers::value_text(e.value)->0, request_token(all)->Ok_0->0);
    }
}

/// The role of a listed token is that of its first entry, `user` where the entry has none; a
/// token that is not listed has no role from the list.
pub proof fn law_first_listing_of_a_token_counts(tokens: Seq<TokenView>, token: Seq<char>, i: int)
    requires
        0 <= i <= tokens.len(),
        forall|k: int| 0 <= k < i ==> #[trigger] tokens[k].token != token,
    ensures
        i == tokens.len() ==> listed_role(tokens, token) is None,
        i < tokens.len() && tokens[i].token == token ==> {
            &&& tokens[i].role is Some ==> listed_role(tokens, token) == tokens[i].role
            &&& tokens[i].role is None ==> listed_role(tokens, token) == Some("user"@)
        },
    decreases tokens.len(),
{
    if i > 0 {
        assert(tokens[0].token != token);
        let rest = tokens.skip(1);
        assert forall|k: int| 0 <= k < i - 1 implies #[trigger] rest[k].token != token by {
            assert(rest[k] == tokens[k + 1]);
        }
        law_first_listing_of_a_token_counts(rest, token, i - 1);
        if i < tokens.len() {
            assert(rest[i - 1] == tokens[i]);
        }
    }
}

/// A token that the configuration does not list has the role `admin` where it is the configured
/// secret, and none otherwise; without an authentication section it is the secret of the
/// environment that counts, and only there. An empty secret lets nobody in.
pub proof fn law_secrets_make_an_admin(a: AuthView, env_secret: Seq<char>, token: Seq<char>)
    ensures
        a.tokens is None || listed_role(a.tokens->0, token) is None ==> {
            &&& a.secret == Some(token) && token.len() > 0 ==> token_role(
                Some(a),
                env_secret,
                token,
            ) == Some("admin"@)
            &&& a.secret != Some(token) || token.len() == 0 ==> token_role(
                Some(a),
                env_secret,
                token,
            ) is None
        },
        env_secret == token && token.len() > 0 ==> token_role(None, env_secret, token) == Some(
            "admin"@,
        ),
        env_secret != token || token.len() == 0 ==> token_role(None, env_secret, token) is None,
{
}

/// Authentication is configured where its kind is `none` or `mtls`, where a token that is not
/// empty is listed, or where a secret that is not empty is set; without an authentication section,
/// where the environment has a secret. Otherwise it is not.
pub proof fn law_configured_authentication(a: AuthView, env_secret: Seq<char>, i: int)
    ensures
        strictly_configured(None, env_secret) <==> env_secret.len() > 0,
        a.auth_type == Some("none"@) || a.auth_type == Some("mtls"@) ==> strictly_configured(
            Some(a),
            env_secret,
        ),
        a.secret is Some && a.secret->0.len() > 0 ==> strictly_configured(Some(a), env_secret),
        a.tokens is Some && 0 <= i < a.tokens->0.len() && a.tokens->0[i].token.len() > 0
            ==> strictly_configured(Some(a), env_secret),
        a.auth_type != Some("none"@) && a.auth_type != Some("mtls"@) && (a.secret is None
            || a.secret->0.len() == 0) && (a.tokens is None || forall|k: int|
            0 <= k < a.tokens->0.len() ==> (#[trigger] a.tokens->0[k]).token.len() == 0)
            ==> !strictly_configured(Some(a), env_secret),
{
}

/// What a refused request by token is told, and what becomes of its source: one without a token,
/// with a malformed header or with an unknown token counts as a failure, of which the counter
/// gains one, and the counter of lockouts too where the failure locks the source out.
pub proof fn law_refused_tokens_are_failures(
    c: ProxyConfigView,
    env_secret: Seq<char>,
    h: Seq<HeaderView>,
    peer: IpAddress,
    cert: Option<IdentityView>,
    s: AuthState,
    now: u64,
)
    requires
        is_by_token(c, env_secret),
        role_by_token(c, env_secret, h) is None,
        !limits::source_locked(s.limiter, addresses::ip_text(peer), now),
    ensures
        ({
            let (o, after) = auth_outcome(c, env_secret, h, peer, cert, s, now);
            let (locked, limiter) = limits::recorded_failure(
                s.limiter,
                addresses::ip_text(peer),
                10,
                60,
                300,
                now,
            );
            &&& o is Denied && o->status == 401
            &&& request_token(h) is Err ==> o->message == "Malformed authorization"@
            &&& request_token(h) == Ok::<Option<Seq<char>>, ()>(None) ==> o->message
                == "Missing authorization"@
            &&& request_token(h) is Ok && request_token(h)->Ok_0 is Some ==> o->message
                == "Invalid token"@
            &&& after.limiter == limiter
            &&& s.metrics.auth_failures_total < u64::MAX ==> after.metrics.auth_failures_total
                == s.metrics.auth_failures_total + 1
            &&& !locked ==> after.metrics.auth_lockouts_total == s.metrics.auth_lockouts_total
            &&& locked && s.metrics.auth_lockouts_total < u64::MAX
                ==> after.metrics.auth_lockouts_total == s.metrics.auth_lockouts_total + 1
            &&& after.metrics == MetricsView {
                auth_failures_total: after.metrics.auth_failures_total,
                auth_lockouts_total: after.metrics.auth_lockouts_total,
                ..s.metrics
            }
        }),
{
}

/// Authentication by certificate: one that has a role is let in with it, under the certificate's
/// common name or else its first other name; one that has none is a failure; a client without a
/// certificate is refused, which is no failure.
pub proof fn law_certificates_decide(
    c: ProxyConfigView,
    env_secret: Seq<char>,
    h: Seq<HeaderView>,
    peer: IpAddress,
    id: IdentityView,
    s: AuthState,
    now: u64,
)
    requires
        c.auth is Some,
        c.auth->0.auth_type == Some("mtls"@),
        !limits::source_locked(s.limiter, addresses::ip_text(peer), now),
    ensures
        auth_outcome(c, env_secret, h, peer, None, s, now) == (
            OutcomeView::Denied {
                status: 401,
                message: "mTLS required but no client certificate presented"@,
            },
            s,
        ),
        ({
            let (o, after) = auth_outcome(c, env_secret, h, peer, Some(id), s, now);
            match tls::mtls_role(id, c.auth->0.mtls) {
                Some(role) => {
                    &&& o is Allowed && o->role == Some(role)
                    &&& id.common_name is Some ==> o->identity == id.common_name
                    &&& id.common_name is None && id.sans.len() > 0 ==> o->identity == Some(
                        id.sans[0],
                    )
                    &&& id.common_name is None && id.sans.len() == 0 ==> o->identity is None
                    &&& after.metrics == s.metrics
                    &&& after.limiter == s.limiter.remove(addresses::ip_text(peer))
                },
                None => {
                    &&& o == OutcomeView::Denied {
                        status: 401,
                        message: "Client certificate not authorized"@,
                    }
                    &&& after.limiter == limits::recorded_failure(
                        s.limiter,
                        addresses::ip_text(peer),
                        10,
                        60,
                        300,
                        now,
                    ).1
                },
            }
        }),
{
    reveal_strlit("none");
    reveal_strlit("mtls");
    assert("none"@[0] == 'n' && "mtls"@[0] == 'm');
}

/// Where authentication is switched off, every request from a source that is not locked out is let
/// in, without a role, and nothing is recorded.
pub proof fn law_switched_off_authentication_lets_in(
    c: ProxyConfigView,
    env_secret: Seq<char>,
    h: Seq<HeaderView>,
    peer: IpAddress,
    cert: Option<IdentityView>,
    s: AuthState,
    now: u64,
)
    requires
        c.auth is Some,
        c.auth->0.auth_type == Some("none"@),
        !limits::source_locked(s.limiter, addresses::ip_text(peer), now),
    ensures
        auth_outcome(c, env_secret, h, peer, cert, s, now) == (
            OutcomeView::Allowed { role: None, identity: None },
            s,
        ),
{
}

/// What an outcome stands for, field by field.
pub proof fn law_what_an_outcome_stands_for(o: AuthOutcome)
    ensures
        o is Allowed ==> o@ is Allowed && o@->role == text::opt_text(o->role) && o@->identity
            == text::opt_text(o->identity),
        o is Denied ==> o@ is Denied && o@->status == o->status && o@->message == o->message@,
{
}

} // verus!
