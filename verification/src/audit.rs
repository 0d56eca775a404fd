//! The records of the audit log.
use crate::addresses;
use crate::addresses::IpAddress;
use crate::json;
use crate::json::JsonValue;
use crate::text;
use vstd::prelude::*;

verus! {

/// One event: a request that was denied, one that a rule only watched, or one that could not be
/// authenticated.
#[derive(Debug, Clone)]
pub struct AuditEvent {
    pub timestamp: String,
    pub event: &'static str,
    pub peer_ip: String,
    pub method: String,
    pub path: String,
    pub user_agent: String,
    pub user_role: Option<String>,
    pub identity: Option<String>,
    pub rule_name: Option<String>,
    pub rule_action: Option<String>,
    pub status: u16,
    pub dry_run: bool,
    pub message: Option<String>,
}

/// What an [`AuditEvent`] stands for.
pub struct AuditView {
    pub timestamp: Seq<char>,
    pub event: Seq<char>,
    pub peer_ip: Seq<char>,
    pub method: Seq<char>,
    pub path: Seq<char>,
    pub user_agent: Seq<char>,
    pub user_role: Option<Seq<char>>,
    pub identity: Option<Seq<char>>,
    pub rule_name: Option<Seq<char>>,
    pub rule_action: Option<Seq<char>>,
    pub status: u16,
    pub dry_run: bool,
    pub message: Option<Seq<char>>,
}

impl View for AuditEvent {
    type V = AuditView;

    open spec fn view(&self) -> AuditView {
        AuditView {
            timestamp: self.timestamp@,
            event: self.event@,
            peer_ip: self.peer_ip@,
            method: self.method@,
            path: self.path@,
            user_agent: self.user_agent@,
            user_role: text::opt_text(self.user_role),
            identity: text::opt_text(self.identity),
            rule_name: text::opt_text(self.rule_name),
            rule_action: text::opt_text(self.rule_action),
            status: self.status,
            dry_run: self.dry_run,
            message: text::opt_text(self.message),
        }
    }
}

/// Whether two digits that write a number from `low` to `high` stand at a position.
pub open spec fn is_field(t: Seq<char>, i: int, low: int, high: int) -> bool {
    &&& text::is_digit(t[i]) && text::is_digit(t[i + 1])
    &&& low <= 10 * (t[i] as int - '0' as int) + (t[i + 1] as int - '0' as int) <= high
}

/// Whether a text writes a time as `YYYY-MM-DDThh:mm:ssZ`: in UTC and to the second, with a year of
/// four digits or of a sign and more. The second may be a leap second.
pub open spec fn is_timestamp(t: Seq<char>) -> bool {
    let n = t.len() as int;
    &&& n >= 20
    &&& forall|i: int|
        0 <= i < n - 16 ==> text::is_digit(#[trigger] t[i]) || i == 0 && n > 20 && (t[i] == '+'
            || t[i] == '-')
    &&& t[n - 16] == '-' && is_field(t, n - 15, 1, 12)
    &&& t[n - 13] == '-' && is_field(t, n - 12, 1, 31)
    &&& t[n - 10] == 'T' && is_field(t, n - 9, 0, 23)
    &&& t[n - 7] == ':' && is_field(t, n - 6, 0, 59)
    &&& t[n - 4] == ':' && is_field(t, n - 3, 0, 60)
    &&& t.last() == 'Z'
}

/// `chrono::Utc::now` reads the clock, and `to_rfc3339_opts` writes the time in UTC, to the second
/// and with a `Z` at its end. Which time it is depends on the clock.
#[verifier::external_body]
fn utc_timestamp() -> (r: String)
    ensures
        is_timestamp(r@),
{
    chrono::Utc::now().to_rfc3339_opts(chrono::SecondsFormat::Secs, true)
}

/// The time now, as records show it.
pub fn current_timestamp() -> (r: String)
    ensures
        is_timestamp(r@),
{
    utc_timestamp()
}

/// An event of which no more is known than the request.
pub open spec fn plain_event(
    timestamp: Seq<char>,
    event: Seq<char>,
    peer: IpAddress,
    method: Seq<char>,
    path: Seq<char>,
    user_agent: Seq<char>,
) -> AuditView {
    AuditView {
        timestamp,
        event,
        peer_ip: addresses::ip_text(peer),
        method,
        path,
        user_agent,
        user_role: None,
        identity: None,
        rule_name: None,
        rule_action: None,
        status: 0,
        dry_run: false,
        message: None,
    }
}

impl AuditEvent {
    /// An event at a time.
    pub fn at(
        timestamp: String,
        event: &'static str,
        peer_ip: IpAddress,
        method: &str,
        path: &str,
        user_agent: &str,
    ) -> (r: AuditEvent)
        ensures
            r@ == plain_event(timestamp@, event@, peer_ip, method@, path@, user_agent@),
    {
        AuditEvent {
            timestamp,
            event,
            peer_ip: addresses::ip_to_string(peer_ip),
            method: method.to_string(),
            path: path.to_string(),
            user_agent: user_agent.to_string(),
            user_role: None,
            identity: None,
            rule_name: None,
            rule_action: None,
            status: 0,
            dry_run: false,
            message: None,
        }
    }

    /// An event of now.
    pub fn new(
        event: &'static str,
        peer_ip: IpAddress,
        method: &str,
        path: &str,
        user_agent: &str,
    ) -> (r: AuditEvent)
        ensures
            is_timestamp(r@.timestamp),
            r@ == plain_event(r@.timestamp, event@, peer_ip, method@, path@, user_agent@),
    {
        AuditEvent::at(current_timestamp(), event, peer_ip, method, path, user_agent)
    }
}

/// The JSON text of an optional string.
pub open spec fn quoted_opt(o: Option<Seq<char>>) -> Seq<char> {
    match o {
        Some(s) => json::quoted(s),
        None => "null"@,
    }
}

/// The JSON record of an event, its members in a fixed order.
pub open spec fn record(e: AuditView) -> Seq<char> {
    "{\"timestamp\":"@ + json::quoted(e.timestamp) + ",\"event\":"@ + json::quoted(e.event)
        + ",\"peer_ip\":"@ + json::quoted(e.peer_ip) + ",\"method\":"@ + json::quoted(e.method)
        + ",\"path\":"@ + json::quoted(e.path) + ",\"user_agent\":"@ + json::quoted(e.user_agent)
        + ",\"user_role\":"@ + quoted_opt(e.user_role)
        + ",\"identity\":"@ + quoted_opt(e.identity) + ",\"rule_name\":"@ + quoted_opt(e.rule_name)
        + ",\"rule_action\":"@ + quoted_opt(e.rule_action) + ",\"status\":"@ + text::decimal(
        e.status as nat,
    ) + ",\"dry_run\":"@ + text::bool_chars(e.dry_run) + ",\"message\":"@ + quoted_opt(e.message)
        + "}"@
}

fn quote(s: &str) -> (r: String)
    ensures
        r@ == json::quoted(s@),
        !r@.contains('\n'),
{
    json::json_to_string(&JsonValue::String(s.to_string()))
}

fn quote_opt(o: &Option<String>) -> (r: String)
    ensures
        r@ == quoted_opt(text::opt_text(*o)),
        !r@.contains('\n'),
{
    match o {
        Some(s) => quote(s.as_str()),
        None => {
            proof {
                reveal_strlit("null");
            }
            "null".to_string()
        },
    }
}

fn write_member(out: &mut String, key: &str, value: &str)
    requires
        !old(out)@.contains('\n'),
        !key@.contains('\n'),
        !value@.contains('\n'),
    ensures
        final(out)@ == old(out)@ + key@ + value@,
        !final(out)@.contains('\n'),
{
    let ghost before = out@;
    out.append(key);
    out.append(value);
    assert forall|i: int| 0 <= i < out@.len() implies out@[i] != '\n' by {
        if i < before.len() {
            assert(before.contains(before[i]));
        } else if i < before.len() + key@.len() {
            assert(key@.contains(key@[i - before.len()]));
        } else {
            assert(value@.contains(value@[i - before.len() - key@.len()]));
        }
    }
}

impl AuditEvent {
    /// The line of the log for this event: its record, which holds no line end, and a line end.
    pub fn to_line(&self) -> (r: String)
        ensures
            r@ == record(self@).push('\n'),
            !record(self@).contains('\n'),
    {
        let mut out = String::new();
        proof {
            reveal_strlit("{\"timestamp\":");
            reveal_strlit(",\"event\":");
            reveal_strlit(",\"peer_ip\":");
            reveal_strlit(",\"method\":");
            reveal_strlit(",\"path\":");
            reveal_strlit(",\"user_agent\":");
            reveal_strlit(",\"user_role\":");
            reveal_strlit(",\"identity\":");
            reveal_strlit(",\"rule_name\":");
            reveal_strlit(",\"rule_action\":");
            reveal_strlit(",\"status\":");
            reveal_strlit(",\"dry_run\":");
            reveal_strlit(",\"message\":");
            reveal_strlit("}");
            reveal_strlit("");
            reveal_strlit("true");
            reveal_strlit("false");
            text::lemma_decimal_digits(self.status as nat);
        }
        write_member(&mut out, "{\"timestamp\":", quote(self.timestamp.as_str()).as_str());
        assert(out@ =~= "{\"timestamp\":"@ + json::quoted(self@.timestamp));
        write_member(&mut out, ",\"event\":", quote(self.event).as_str());
        write_member(&mut out, ",\"peer_ip\":", quote(self.peer_ip.as_str()).as_str());
        write_member(&mut out, ",\"method\":", quote(self.method.as_str()).as_str());
        write_member(&mut out, ",\"path\":", quote(self.path.as_str()).as_str());
        write_member(&mut out, ",\"user_agent\":", quote(self.user_agent.as_str()).as_str());
        write_member(&mut out, ",\"user_role\":", quote_opt(&self.user_role).as_str());
        write_member(&mut out, ",\"identity\":", quote_opt(&self.identity).as_str());
        write_member(&mut out, ",\"rule_name\":", quote_opt(&self.rule_name).as_str());
        write_member(&mut out, ",\"rule_action\":", quote_opt(&self.rule_action).as_str());
        write_member(&mut out, ",\"status\":", text::decimal_text(self.status as u128).as_str());
        write_member(&mut out, ",\"dry_run\":", text::bool_text(self.dry_run).as_str());
        write_member(&mut out, ",\"message\":", quote_opt(&self.message).as_str());
        let ghost members = out@;
        write_member(&mut out, "}", "");
        assert(out@ =~= members + "}"@);
        assert(out@ == record(self@));
        out.push('\n');
        out
    }
}

/// An event starts out with what is known of the request, with no status, no rule and no message.
pub proof fn law_plain_events(
    timestamp: Seq<char>,
    event: Seq<char>,
    peer: IpAddress,
    method: Seq<char>,
    path: Seq<char>,
    user_agent: Seq<char>,
)
    ensures
        ({
            let e = plain_event(timestamp, event, peer, method, path, user_agent);
            &&& e.timestamp == timestamp && e.event == event && e.peer_ip == addresses::ip_text(peer)
            &&& e.method == method && e.path == path && e.user_agent == user_agent
            &&& e.user_role is None && e.identity is None && e.rule_name is None
            &&& e.rule_action is None && e.message is None && e.status == 0 && !e.dry_run
        }),
{
}

/// A record is a JSON object with a member for each field of the event, text in quotes and what is
/// missing as `null`.
pub proof fn law_records_show_every_field(e: AuditView, s: Seq<char>)
    ensures
        quoted_opt(None) == "null"@,
        quoted_opt(Some(s)) == json::quoted(s),
        ({
            let t = record(e);
            &&& text::begins_with(t, "{\"timestamp\":"@ + json::quoted(e.timestamp))
            &&& text::contains_text(t, ",\"event\":"@ + json::quoted(e.event))
            &&& text::contains_text(t, ",\"peer_ip\":"@ + json::quoted(e.peer_ip))
            &&& text::contains_text(t, ",\"method\":"@ + json::quoted(e.method))
            &&& text::contains_text(t, ",\"path\":"@ + json::quoted(e.path))
            &&& text::contains_text(t, ",\"user_agent\":"@ + json::quoted(e.user_agent))
            &&& text::contains_text(t, ",\"user_role\":"@ + quoted_opt(e.user_role))
            &&& text::contains_text(t, ",\"identity\":"@ + quoted_opt(e.identity))
            &&& text::contains_text(t, ",\"rule_name\":"@ + quoted_opt(e.rule_name))
            &&& text::contains_text(t, ",\"rule_action\":"@ + quoted_opt(e.rule_action))
            &&& text::contains_text(t, ",\"status\":"@ + text::decimal(e.status as nat))
            &&& e.dry_run ==> text::contains_text(t, ",\"dry_run\":true"@)
            &&& !e.dry_run ==> text::contains_text(t, ",\"dry_run\":false"@)
            &&& text::finishes_with(t, ",\"message\":"@ + quoted_opt(e.message) + "}"@)
        }),
{
    assert forall|x: Seq<char>, y: Seq<char>, p: Seq<char>|
        #![trigger text::contains_text(x + y, p)]
        text::contains_text(x, p) implies text::contains_text(x + y, p) by {
        text::law_longer_texts_contain_as_much(Seq::empty(), x, y, p);
    }
    let t = record(e);
    let start = "{\"timestamp\":"@ + json::quoted(e.timestamp);
    let to_event = start + ",\"event\":"@ + json::quoted(e.event);
    lemma_member_held(start, ",\"event\":"@, json::quoted(e.event));
    let to_peer_ip = to_event + ",\"peer_ip\":"@ + json::quoted(e.peer_ip);
    lemma_member_held(to_event, ",\"peer_ip\":"@, json::quoted(e.peer_ip));
    let to_method = to_peer_ip + ",\"method\":"@ + json::quoted(e.method);
    lemma_member_held(to_peer_ip, ",\"method\":"@, json::quoted(e.method));
    let to_path = to_method + ",\"path\":"@ + json::quoted(e.path);
    lemma_member_held(to_method, ",\"path\":"@, json::quoted(e.path));
    let to_user_agent = to_path + ",\"user_agent\":"@ + json::quoted(e.user_agent);
    lemma_member_held(to_path, ",\"user_agent\":"@, json::quoted(e.user_agent));
    let to_user_role = to_user_agent + ",\"user_role\":"@ + quoted_opt(e.user_role);
    lemma_member_held(to_user_agent, ",\"user_role\":"@, quoted_opt(e.user_role));
    let to_identity = to_user_role + ",\"identity\":"@ + quoted_opt(e.identity);
    lemma_member_held(to_user_role, ",\"identity\":"@, quoted_opt(e.identity));
    let to_rule_name = to_identity + ",\"rule_name\":"@ + quoted_opt(e.rule_name);
    lemma_member_held(to_identity, ",\"rule_name\":"@, quoted_opt(e.rule_name));
    let to_rule_action = to_rule_name + ",\"rule_action\":"@ + quoted_opt(e.rule_action);
    lemma_member_held(to_rule_name, ",\"rule_action\":"@, quoted_opt(e.rule_action));
    let to_status = to_rule_action + ",\"status\":"@ + text::decimal(e.status as nat);
    lemma_member_held(to_rule_action, ",\"status\":"@, text::decimal(e.status as nat));
    let to_dry_run = to_status + ",\"dry_run\":"@ + text::bool_chars(e.dry_run);
    lemma_member_held(to_status, ",\"dry_run\":"@, text::bool_chars(e.dry_run));
    let message = ",\"message\":"@ + quoted_opt(e.message) + "}"@;
    assert(t == to_dry_run + ",\"message\":"@ + quoted_opt(e.message) + "}"@);
    assert(t =~= to_dry_run + message);
    assert(t.subrange(t.len() - message.len(), t.len() as int) =~= message);
    reveal_strlit(",\"dry_run\":");
    reveal_strlit(",\"dry_run\":true");
    reveal_strlit(",\"dry_run\":false");
    reveal_strlit("true");
    reveal_strlit("false");
    if e.dry_run {
        assert(",\"dry_run\":"@ + text::bool_chars(e.dry_run) =~= ",\"dry_run\":true"@);
    } else {
        assert(",\"dry_run\":"@ + text::bool_chars(e.dry_run) =~= ",\"dry_run\":false"@);
    }
    lemma_record_start(e);
}

proof fn lemma_member_held(before: Seq<char>, key: Seq<char>, value: Seq<char>)
    ensures
        text::contains_text(before + key + value, key + value),
{
    assert(before + key + value =~= before + (key + value) + Seq::<char>::empty());
    text::law_texts_contain_themselves(before, key + value, Seq::empty());
}

proof fn lemma_record_start(e: AuditView)
    ensures
        text::begins_with(record(e), "{\"timestamp\":"@ + json::quoted(e.timestamp)),
{
    let start = "{\"timestamp\":"@ + json::quoted(e.timestamp);
    assert forall|x: Seq<char>, y: Seq<char>|
        #![trigger text::begins_with(x + y, start)]
        text::begins_with(x, start) implies text::begins_with(x + y, start) by {
        assert((x + y).subrange(0, start.len() as int) =~= x.subrange(0, start.len() as int));
    }
    assert(start.subrange(0, start.len() as int) =~= start);
    assert(text::begins_with(start, start));
}

/// What an event stands for, field by field.
pub proof fn law_what_an_event_stands_for(e: AuditEvent)
    ensures
        e@.timestamp == e.timestamp@,
        e@.event == e.event@,
        e@.peer_ip == e.peer_ip@,
        e@.method == e.method@,
        e@.path == e.path@,
        e@.user_agent == e.user_agent@,
        e@.user_role == text::opt_text(e.user_role),
        e@.identity == text::opt_text(e.identity),
        e@.rule_name == text::opt_text(e.rule_name),
        e@.rule_action == text::opt_text(e.rule_action),
        e@.status == e.status,
        e@.dry_run == e.dry_run,
        e@.message == text::opt_text(e.message),
{
}

} // verus!
