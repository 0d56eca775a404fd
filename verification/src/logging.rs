//! The lines of the request log.
use crate::text;
use vstd::prelude::*;

verus! {

/// The most characters of a text that are logged.
pub const MAX_LOGGED: usize = 256;

/// Whether a character could break a line of the log: a control character, a quotation mark or a
/// backslash.
pub open spec fn is_unsafe_in_log(c: char) -> bool {
    c as u32 <= 0x1f || 0x7f <= c as u32 <= 0x9f || c == '"' || c == '\\'
}

/// A text as it is logged: its first characters, with question marks in place of those that could
/// break the line.
pub open spec fn sanitized(s: Seq<char>) -> Seq<char> {
    Seq::new(
        if s.len() < MAX_LOGGED {
            s.len()
        } else {
            MAX_LOGGED as nat
        },
        |i: int|
            if is_unsafe_in_log(s[i]) {
                '?'
            } else {
                s[i]
            },
    )
}

/// A text as it is logged.
pub fn sanitize_for_log(s: &str) -> (r: String)
    ensures
        r@ == sanitized(s@),
{
    let c = text::chars_of(s);
    let n: usize = if c.len() < MAX_LOGGED {
        c.len()
    } else {
        MAX_LOGGED
    };
    let mut out = String::new();
    let mut i: usize = 0;
    while i < n
        invariant
            i <= n <= c@.len(),
            n <= MAX_LOGGED,
            c@ == s@,
            sanitized(s@).len() == n,
            out@ == sanitized(s@).take(i as int),
        decreases n - i,
    {
        let x = c[i];
        let code: u32 = x as u32;
        if code <= 0x1f || (0x7f <= code && code <= 0x9f) || x == '"' || x == '\\' {
            out.push('?');
        } else {
            out.push(x);
        }
        assert(sanitized(s@).take(i + 1) =~= sanitized(s@).take(i as int).push(
            sanitized(s@)[i as int],
        ));
        i += 1;
    }
    assert(sanitized(s@).take(i as int) =~= sanitized(s@));
    out
}

/// The line of the log for a request: when it was answered, from where it came, what it asked for
/// and how it was answered.
pub open spec fn log_text(
    time: Seq<char>,
    peer: Seq<char>,
    method: Seq<char>,
    path: Seq<char>,
    user_agent: Seq<char>,
    status: u16,
) -> Seq<char> {
    "["@ + time + "] "@ + peer + " "@ + method + " "@ + sanitized(path) + " - "@ + text::decimal(
        status as nat,
    ) + " - \""@ + sanitized(user_agent) + "\""@
}

/// The line of the log for a request.
pub fn log_line(
    time: &str,
    peer: &str,
    method: &str,
    path: &str,
    user_agent: &str,
    status: u16,
) -> (r: String)
    ensures
        r@ == log_text(time@, peer@, method@, path@, user_agent@, status),
{
    let mut out = "[".to_string();
    out.append(time);
    out.append("] ");
    out.append(peer);
    out.append(" ");
    out.append(method);
    out.append(" ");
    out.append(sanitize_for_log(path).as_str());
    out.append(" - ");
    out.append(text::decimal_text(status as u128).as_str());
    out.append(" - \"");
    out.append(sanitize_for_log(user_agent).as_str());
    out.append("\"");
    out
}

/// A logged text is short and holds no character that could break its line, and logging it again
/// changes nothing.
pub proof fn law_logged_text_is_safe(s: Seq<char>)
    ensures
        sanitized(s).len() <= MAX_LOGGED,
        forall|i: int| 0 <= i < sanitized(s).len() ==> !is_unsafe_in_log(#[trigger] sanitized(s)[i]),
        sanitized(sanitized(s)) == sanitized(s),
{
    assert(sanitized(sanitized(s)) =~= sanitized(s));
}

/// What is logged of a text: its first 256 characters, each as it is, but for control characters,
/// quotes and backslashes, in the place of which a `?` stands.
pub proof fn law_logged_characters(s: Seq<char>, i: int)
    ensures
        sanitized(s).len() == (if s.len() < 256 {
            s.len()
        } else {
            256
        }),
        0 <= i < sanitized(s).len() && (s[i] as u32 <= 0x1f || 0x7f <= s[i] as u32 <= 0x9f || s[i]
            == '"' || s[i] == '\\') ==> sanitized(s)[i] == '?',
        0 <= i < sanitized(s).len() && !(s[i] as u32 <= 0x1f || 0x7f <= s[i] as u32 <= 0x9f || s[i]
            == '"' || s[i] == '\\') ==> sanitized(s)[i] == s[i],
{
}

/// The line of a request whose path and user agent are short and hold nothing unsafe shows them
/// as they are, after the time in brackets, the peer and the method, with the status between them.
pub proof fn law_log_line(
    time: Seq<char>,
    peer: Seq<char>,
    method: Seq<char>,
    path: Seq<char>,
    user_agent: Seq<char>,
    status: u16,
)
    requires
        path.len() <= 256,
        user_agent.len() <= 256,
        forall|i: int| 0 <= i < path.len() ==> !is_unsafe_in_log(#[trigger] path[i]),
        forall|i: int| 0 <= i < user_agent.len() ==> !is_unsafe_in_log(#[trigger] user_agent[i]),
    ensures
        log_text(time, peer, method, path, user_agent, status) == "["@ + time + "] "@ + peer + " "@
            + method + " "@ + path + " - "@ + text::decimal(status as nat) + " - \""@ + user_agent
            + "\""@,
{
    assert(sanitized(path) =~= path);
    assert(sanitized(user_agent) =~= user_agent);
}

/// Of two requests that differ in what is unsafe or too long to log, the lines are those of what
/// is logged of them.
pub proof fn law_log_line_shows_what_is_safe(
    time: Seq<char>,
    peer: Seq<char>,
    method: Seq<char>,
    path: Seq<char>,
    user_agent: Seq<char>,
    status: u16,
)
    ensures
        log_text(time, peer, method, path, user_agent, status) == log_text(
            time,
            peer,
            method,
            sanitized(path),
            sanitized(user_agent),
            status,
        ),
{
    law_logged_text_is_safe(path);
    law_logged_text_is_safe(user_agent);
}

} // verus!
