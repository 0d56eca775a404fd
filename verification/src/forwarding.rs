//! Which headers pass between the client and Docker.
use crate::conditions;
use crate::conditions::RequestHeader;
use crate::headers;
use crate::headers::{HeaderEntry, HeaderView};
use crate::text;
use vstd::prelude::*;
use vstd::utf8::*;

verus! {

/// Whether a header speaks of one connection and passes in neither direction.
pub open spec fn is_hop_by_hop(name: Seq<char>) -> bool {
    ||| name == "connection"@
    ||| name == "keep-alive"@
    ||| name == "proxy-authenticate"@
    ||| name == "proxy-authorization"@
    ||| name == "te"@
    ||| name == "trailer"@
    ||| name == "transfer-encoding"@
    ||| name == "content-length"@
}

/// Whether a header of a client is kept from Docker: its credentials, and what names hosts and
/// addresses.
pub open spec fn is_client_only(name: Seq<char>) -> bool {
    ||| name == "authorization"@
    ||| name == "host"@
    ||| name == "x-forwarded-for"@
    ||| name == "x-forwarded-host"@
    ||| name == "x-forwarded-proto"@
    ||| name == "x-forwarded-port"@
    ||| name == "x-real-ip"@
    ||| name == "forwarded"@
    ||| name == "via"@
}

/// Whether a header of a client passes to Docker.
pub open spec fn passes_to_docker(name: Seq<char>) -> bool {
    !is_hop_by_hop(name) && !is_client_only(name) && name != "upgrade"@
}

/// Whether a header of Docker passes to the client.
pub open spec fn passes_to_client(name: Seq<char>) -> bool {
    !is_hop_by_hop(name)
}

/// Whether a header of Docker passes to the client when both switch protocols.
pub open spec fn passes_on_upgrade(name: Seq<char>) -> bool {
    name == "connection"@ || !is_hop_by_hop(name)
}

fn hop_by_hop(name: &str) -> (r: bool)
    ensures
        r == is_hop_by_hop(name@),
{
    text::same(name, "connection") || text::same(name, "keep-alive") || text::same(
        name,
        "proxy-authenticate",
    ) || text::same(name, "proxy-authorization") || text::same(name, "te") || text::same(
        name,
        "trailer",
    ) || text::same(name, "transfer-encoding") || text::same(name, "content-length")
}

fn client_only(name: &str) -> (r: bool)
    ensures
        r == is_client_only(name@),
{
    text::same(name, "authorization") || text::same(name, "host") || text::same(
        name,
        "x-forwarded-for",
    ) || text::same(name, "x-forwarded-host") || text::same(name, "x-forwarded-proto")
        || text::same(name, "x-forwarded-port") || text::same(name, "x-real-ip") || text::same(
        name,
        "forwarded",
    ) || text::same(name, "via")
}

/// The ways in which headers pass.
#[derive(Debug, Clone, Copy, PartialEq, Eq, Structural)]
pub enum Passage {
    ToDocker,
    ToClient,
    OnUpgrade,
}

/// Whether a header passes.
pub open spec fn passes(p: Passage, name: Seq<char>) -> bool {
    match p {
        Passage::ToDocker => passes_to_docker(name),
        Passage::ToClient => passes_to_client(name),
        Passage::OnUpgrade => passes_on_upgrade(name),
    }
}

/// The headers that pass, in order.
pub open spec fn passing(p: Passage, h: Seq<HeaderView>) -> Seq<HeaderView> {
    h.filter(|e: HeaderView| passes(p, e.name))
}

fn header_passes(p: Passage, name: &str) -> (r: bool)
    ensures
        r == passes(p, name@),
{
    match p {
        Passage::ToDocker => !hop_by_hop(name) && !client_only(name) && !text::same(
            name,
            "upgrade",
        ),
        Passage::ToClient => !hop_by_hop(name),
        Passage::OnUpgrade => text::same(name, "connection") || !hop_by_hop(name),
    }
}

/// The headers that pass, in order.
pub fn passing_headers(p: Passage, h: &Vec<HeaderEntry>) -> (r: Vec<HeaderEntry>)
    ensures
        headers::header_list(r@) == passing(p, headers::header_list(h@)),
{
    let ghost list = headers::header_list(h@);
    let mut out: Vec<HeaderEntry> = Vec::new();
    let mut i: usize = 0;
    proof {
        reveal(Seq::filter);
        assert(headers::header_list(out@) =~= passing(p, list.take(0)));
    }
    while i < h.len()
        invariant
            i <= h@.len(),
            list == headers::header_list(h@),
            headers::header_list(out@) == passing(p, list.take(i as int)),
        decreases h@.len() - i,
    {
        proof {
            reveal(Seq::filter);
            assert(list.take(i + 1).drop_last() =~= list.take(i as int));
            assert(list.take(i + 1).last() == h@[i as int]@);
        }
        if header_passes(p, h[i].name.as_str()) {
            let ghost before = out@;
            let copy = HeaderEntry { name: h[i].name.clone(), value: h[i].value.clone() };
            assert(copy.value@ =~= h@[i as int].value@);
            out.push(copy);
            assert(headers::header_list(out@) =~= headers::header_list(before).push(
                h@[i as int]@,
            ));
        }
        i += 1;
    }
    assert(list.take(i as int) =~= list);
    out
}

/// A header with a text as its value.
pub open spec fn text_header(name: Seq<char>, value: Seq<char>) -> HeaderView {
    HeaderView { name, value: encode_utf8(value) }
}

/// The headers of a request to Docker: the proxy's own, which name it and say what becomes of the
/// connection, then those of the client that pass.
pub open spec fn docker_headers(h: Seq<HeaderView>, upgrade: Option<Option<Seq<char>>>) -> Seq<
    HeaderView,
> {
    let own = match upgrade {
        None => seq![text_header("host"@, "docker.proxy"@), text_header("connection"@, "close"@)],
        Some(None) => seq![
            text_header("host"@, "docker.proxy"@),
            text_header("connection"@, "upgrade"@),
        ],
        Some(Some(u)) => seq![
            text_header("host"@, "docker.proxy"@),
            text_header("connection"@, "upgrade"@),
            text_header("upgrade"@, u),
        ],
    };
    own + passing(Passage::ToDocker, h)
}

/// A header with a text as its value.
pub fn make_header(name: &str, value: &str) -> (r: HeaderEntry)
    ensures
        r@ == text_header(name@, value@),
{
    HeaderEntry { name: name.to_string(), value: value.as_bytes_vec() }
}

/// The headers of a request to Docker. `upgrade` is `None` for a plain request, else it holds the
/// text of the client's `Upgrade` header.
pub fn request_headers_for_docker(h: &Vec<HeaderEntry>, upgrade: &Option<Option<String>>) -> (r: Vec<
    HeaderEntry,
>)
    ensures
        headers::header_list(r@) == docker_headers(
            headers::header_list(h@),
            match upgrade {
                Some(u) => Some(text::opt_text(*u)),
                None => None,
            },
        ),
{
    let mut out: Vec<HeaderEntry> = Vec::new();
    out.push(make_header("host", "docker.proxy"));
    match upgrade {
        None => {
            out.push(make_header("connection", "close"));
        },
        Some(u) => {
            out.push(make_header("connection", "upgrade"));
            if let Some(s) = u {
                out.push(make_header("upgrade", s.as_str()));
            }
        },
    }
    append_headers(&mut out, passing_headers(Passage::ToDocker, h));
    assert(headers::header_list(out@) =~= docker_headers(
        headers::header_list(h@),
        match upgrade {
            Some(u) => Some(text::opt_text(*u)),
            None => None,
        },
    ));
    out
}

fn append_headers(out: &mut Vec<HeaderEntry>, more: Vec<HeaderEntry>)
    ensures
        headers::header_list(final(out)@) == headers::header_list(old(out)@) + headers::header_list(
            more@,
        ),
{
    let ghost start = out@;
    let ghost added = more@;
    let mut rest = more;
    out.append(&mut rest);
    assert(headers::header_list(out@) =~= headers::header_list(start) + headers::header_list(
        added,
    ));
}

/// The headers whose value is text, for the rules to look at.
pub open spec fn text_headers(h: Seq<HeaderView>) -> Seq<(Seq<char>, Seq<char>)>
    decreases h.len(),
{
    if h.len() == 0 {
        Seq::empty()
    } else {
        let earlier = text_headers(h.drop_last());
        match headers::value_text(h.last().value) {
            Some(t) => earlier.push((h.last().name, t)),
            None => earlier,
        }
    }
}

/// The headers whose value is text, for the rules to look at.
pub fn headers_for_rules(h: &Vec<HeaderEntry>) -> (r: Vec<RequestHeader>)
    ensures
        conditions::request_headers(r@) == text_headers(headers::header_list(h@)),
{
    let ghost list = headers::header_list(h@);
    let mut out: Vec<RequestHeader> = Vec::new();
    let mut i: usize = 0;
    assert(conditions::request_headers(out@) =~= text_headers(list.take(0)));
    while i < h.len()
        invariant
            i <= h@.len(),
            list == headers::header_list(h@),
            conditions::request_headers(out@) == text_headers(list.take(i as int)),
        decreases h@.len() - i,
    {
        assert(list.take(i + 1).drop_last() =~= list.take(i as int));
        assert(list.take(i + 1).last() == h@[i as int]@);
        if let Some(t) = headers::string_of_value(h[i].value.as_slice()) {
            let ghost before = out@;
            out.push(RequestHeader { name: h[i].name.clone(), value: t });
            assert(conditions::request_headers(out@) =~= conditions::request_headers(before).push(
                (h@[i as int].name@, t@),
            ));
        }
        i += 1;
    }
    assert(list.take(i as int) =~= list);
    out
}

/// Credentials, forwarding headers and those of one connection never reach Docker from a client.
pub proof fn law_client_headers_are_stripped(h: Seq<HeaderView>, e: HeaderView)
    requires
        passing(Passage::ToDocker, h).contains(e),
    ensures
        h.contains(e),
        !is_hop_by_hop(e.name),
        !is_client_only(e.name),
        e.name != "upgrade"@,
{
    h.lemma_filter_contains_rev(|x: HeaderView| passes(Passage::ToDocker, x.name), e);
    let p = |x: HeaderView| passes(Passage::ToDocker, x.name);
    let i = choose|i: int| 0 <= i < h.filter(p).len() && h.filter(p)[i] == e;
    h.lemma_filter_pred(p, i);
}

/// Headers of one connection never reach a client from Docker.
pub proof fn law_docker_headers_are_stripped(h: Seq<HeaderView>, e: HeaderView)
    requires
        passing(Passage::ToClient, h).contains(e),
    ensures
        h.contains(e),
        !is_hop_by_hop(e.name),
{
    reveal(Seq::filter);
    h.lemma_filter_contains_rev(|e: HeaderView| passes(Passage::ToClient, e.name), e);
}

/// Headers pass one by one: what passes of two lists, one after the other, is what passes of each.
pub proof fn law_headers_pass_one_by_one(p: Passage, a: Seq<HeaderView>, b: Seq<HeaderView>)
    ensures
        passing(p, Seq::empty()) == Seq::<HeaderView>::empty(),
        passing(p, a + b) == passing(p, a) + passing(p, b),
{
    reveal(Seq::filter);
    Seq::filter_distributes_over_add(a, b, |e: HeaderView| passes(p, e.name));
}

proof fn lemma_passing_one(p: Passage, e: HeaderView)
    ensures
        passes(p, e.name) ==> passing(p, seq![e]) == seq![e],
        !passes(p, e.name) ==> passing(p, seq![e]) == Seq::<HeaderView>::empty(),
{
    let f = |x: HeaderView| passes(p, x.name);
    let none = Seq::<HeaderView>::empty();
    reveal(Seq::filter);
    assert(seq![e].drop_last() =~= none);
    assert(none.filter(f) =~= none);
    assert(seq![e].last() == e);
    assert(f(e) == passes(p, e.name));
    assert(none.push(e) =~= seq![e]);
}

/// Every header of a client reaches Docker as it is and in its place, but for those of one
/// connection, the client's credentials, what names hosts and addresses, and `upgrade`, none of
/// which does.
pub proof fn law_other_client_headers_reach_docker(
    before: Seq<HeaderView>,
    e: HeaderView,
    after: Seq<HeaderView>,
)
    ensures
        ({
            let kept = e.name != "connection"@ && e.name != "keep-alive"@ && e.name
                != "proxy-authenticate"@ && e.name != "proxy-authorization"@ && e.name != "te"@
                && e.name != "trailer"@ && e.name != "transfer-encoding"@ && e.name
                != "content-length"@ && e.name != "authorization"@ && e.name != "host"@ && e.name
                != "x-forwarded-for"@ && e.name != "x-forwarded-host"@ && e.name
                != "x-forwarded-proto"@ && e.name != "x-forwarded-port"@ && e.name
                != "x-real-ip"@ && e.name != "forwarded"@ && e.name != "via"@ && e.name
                != "upgrade"@;
            let all = before + seq![e] + after;
            let sent = passing(Passage::ToDocker, all);
            let head = passing(Passage::ToDocker, before);
            let tail = passing(Passage::ToDocker, after);
            &&& kept ==> sent == head + seq![e] + tail && sent.contains(e)
            &&& !kept ==> sent == head + tail
        }),
{
    let all = before + seq![e] + after;
    law_headers_pass_one_by_one(Passage::ToDocker, before, seq![e]);
    law_headers_pass_one_by_one(Passage::ToDocker, before + seq![e], after);
    lemma_passing_one(Passage::ToDocker, e);
    let head = passing(Passage::ToDocker, before);
    let tail = passing(Passage::ToDocker, after);
    assert((head + seq![e] + tail)[head.len() as int] == e);
    assert(head + Seq::<HeaderView>::empty() =~= head);
}

/// A client's header whose name is none of those that are kept back is among the headers that
/// Docker gets, with its value.
pub proof fn law_client_header_is_among_those_sent(h: Seq<HeaderView>, e: HeaderView)
    requires
        h.contains(e),
        e.name != "connection"@ && e.name != "keep-alive"@ && e.name != "proxy-authenticate"@,
        e.name != "proxy-authorization"@ && e.name != "te"@ && e.name != "trailer"@,
        e.name != "transfer-encoding"@ && e.name != "content-length"@,
        e.name != "authorization"@ && e.name != "host"@ && e.name != "x-forwarded-for"@,
        e.name != "x-forwarded-host"@ && e.name != "x-forwarded-proto"@,
        e.name != "x-forwarded-port"@ && e.name != "x-real-ip"@ && e.name != "forwarded"@,
        e.name != "via"@ && e.name != "upgrade"@,
    ensures
        passing(Passage::ToDocker, h).contains(e),
        forall|u: Option<Option<Seq<char>>>| (#[trigger] docker_headers(h, u)).contains(e),
{
    let i = choose|i: int| 0 <= i < h.len() && h[i] == e;
    assert(h =~= h.take(i) + seq![e] + h.skip(i + 1));
    law_other_client_headers_reach_docker(h.take(i), e, h.skip(i + 1));
    let sent = passing(Passage::ToDocker, h);
    let k = choose|k: int| 0 <= k < sent.len() && sent[k] == e;
    assert forall|u: Option<Option<Seq<char>>>| (#[trigger] docker_headers(h, u)).contains(e) by {
        let all = docker_headers(h, u);
        assert(all[all.len() - sent.len() + k] == e);
    }
}

/// Every header of Docker reaches the client as it is and in its place, but for those of one
/// connection; where both switch protocols, `connection` does too.
pub proof fn law_other_docker_headers_reach_the_client(
    before: Seq<HeaderView>,
    e: HeaderView,
    after: Seq<HeaderView>,
)
    ensures
        ({
            let kept = e.name != "keep-alive"@ && e.name != "proxy-authenticate"@ && e.name
                != "proxy-authorization"@ && e.name != "te"@ && e.name != "trailer"@ && e.name
                != "transfer-encoding"@ && e.name != "content-length"@;
            let all = before + seq![e] + after;
            let plain = passing(Passage::ToClient, all);
            let switched = passing(Passage::OnUpgrade, all);
            &&& kept && e.name != "connection"@ ==> plain == passing(Passage::ToClient, before)
                + seq![e] + passing(Passage::ToClient, after)
            &&& !(kept && e.name != "connection"@) ==> plain == passing(Passage::ToClient, before)
                + passing(Passage::ToClient, after)
            &&& kept ==> switched == passing(Passage::OnUpgrade, before) + seq![e] + passing(
                Passage::OnUpgrade,
                after,
            )
            &&& !kept ==> switched == passing(Passage::OnUpgrade, before) + passing(
                Passage::OnUpgrade,
                after,
            )
        }),
{
    reveal_strlit("connection");
    reveal_strlit("keep-alive");
    reveal_strlit("proxy-authenticate");
    reveal_strlit("proxy-authorization");
    reveal_strlit("te");
    reveal_strlit("trailer");
    reveal_strlit("transfer-encoding");
    reveal_strlit("content-length");
    assert("connection"@[0] == 'c' && "connection"@.len() == 10);
    assert("keep-alive"@[0] == 'k' && "proxy-authenticate"@[0] == 'p');
    assert("proxy-authorization"@[0] == 'p' && "te"@[0] == 't' && "trailer"@[0] == 't');
    assert("transfer-encoding"@[0] == 't' && "content-length"@.len() == 14);
    let none = Seq::<HeaderView>::empty();
    law_headers_pass_one_by_one(Passage::ToClient, before, seq![e]);
    law_headers_pass_one_by_one(Passage::ToClient, before + seq![e], after);
    lemma_passing_one(Passage::ToClient, e);
    assert(passing(Passage::ToClient, before) + none =~= passing(Passage::ToClient, before));
    law_headers_pass_one_by_one(Passage::OnUpgrade, before, seq![e]);
    law_headers_pass_one_by_one(Passage::OnUpgrade, before + seq![e], after);
    lemma_passing_one(Passage::OnUpgrade, e);
    assert(passing(Passage::OnUpgrade, before) + none =~= passing(Passage::OnUpgrade, before));
}

/// What Docker gets before the client's headers: a fixed host, and a connection that is closed
/// afterwards, or switched, and then to the protocol that the client named.
pub proof fn law_headers_of_the_proxy(h: Seq<HeaderView>, u: Seq<char>)
    ensures
        ({
            let sent = passing(Passage::ToDocker, h);
            let host = HeaderView { name: "host"@, value: encode_utf8("docker.proxy"@) };
            let closed = HeaderView { name: "connection"@, value: encode_utf8("close"@) };
            let switched = HeaderView { name: "connection"@, value: encode_utf8("upgrade"@) };
            let named = HeaderView { name: "upgrade"@, value: encode_utf8(u) };
            &&& docker_headers(h, None) == seq![host, closed] + sent
            &&& docker_headers(h, Some(None)) == seq![host, switched] + sent
            &&& docker_headers(h, Some(Some(u))) == seq![host, switched, named] + sent
        }),
{
}

/// The rules see the headers one by one: each with its name and its value as text, but for those
/// whose value is no text.
pub proof fn law_rules_see_the_text_headers(
    a: Seq<HeaderView>,
    b: Seq<HeaderView>,
    e: HeaderView,
    t: Seq<char>,
)
    ensures
        text_headers(Seq::empty()) == Seq::<(Seq<char>, Seq<char>)>::empty(),
        text_headers(a + b) == text_headers(a) + text_headers(b),
        headers::value_text(e.value) == Some(t) ==> text_headers(seq![e]) == seq![(e.name, t)],
        headers::value_text(e.value) is None ==> text_headers(seq![e]) == Seq::<
            (Seq<char>, Seq<char>),
        >::empty(),
    decreases b.len(),
{
    let none = Seq::<HeaderView>::empty();
    assert(seq![e].drop_last() =~= none);
    assert(text_headers(none) == Seq::<(Seq<char>, Seq<char>)>::empty());
    if b.len() == 0 {
        assert(a + b =~= a);
        assert(text_headers(a) + text_headers(b) =~= text_headers(a));
    } else {
        law_rules_see_the_text_headers(a, b.drop_last(), e, t);
        assert((a + b).drop_last() =~= a + b.drop_last());
        assert((a + b).last() == b.last());
        assert(text_headers(a + b) =~= text_headers(a) + text_headers(b));
    }
}

} // verus!
