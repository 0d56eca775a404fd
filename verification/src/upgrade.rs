//! Requests that ask to switch protocols.
use crate::headers;
use crate::headers::{HeaderEntry, HeaderView};
use crate::text;
use vstd::prelude::*;

verus! {

/// Whether a list separated by commas holds a token, in whatever case.
pub open spec fn list_has_token(list: Seq<char>, token: Seq<char>) -> bool {
    exists|i: int|
        0 <= i < text::split(list, ',').len() && text::same_ignoring_case(
            text::trim(#[trigger] text::split(list, ',')[i]),
            token,
        )
}

/// Whether a header's value is text and holds a token.
pub open spec fn value_has_token(value: Seq<u8>, token: Seq<char>) -> bool {
    match headers::value_text(value) {
        Some(t) => list_has_token(t, token),
        None => false,
    }
}

/// Whether the headers ask for an upgrade: a `Connection` header holds the token and an `Upgrade`
/// header is there.
pub open spec fn asks_upgrade(h: Seq<HeaderView>) -> bool {
    let connections = headers::values_of(h, "connection"@);
    &&& exists|i: int|
        0 <= i < connections.len() && value_has_token(#[trigger] connections[i], "upgrade"@)
    &&& headers::values_of(h, "upgrade"@).len() > 0
}

fn bytes_have_token(value: &[u8], token: &str) -> (r: bool)
    ensures
        r == value_has_token(value@, token@),
{
    let list = match headers::text_of_value(value) {
        Some(t) => t,
        None => {
            return false;
        },
    };
    let wanted = text::chars_of(token);
    let parts = text::split_chars(list.as_slice(), ',');
    let ghost all = text::split(list@, ',');
    let mut i: usize = 0;
    while i < parts.len()
        invariant
            i <= parts@.len(),
            wanted@ == token@,
            all == text::texts(parts@),
            all == text::split(list@, ','),
            headers::value_text(value@) == Some(list@),
            forall|j: int|
                0 <= j < i ==> !text::same_ignoring_case(text::trim(#[trigger] all[j]), token@),
        decreases parts@.len() - i,
    {
        assert(all[i as int] == parts@[i as int]@);
        if text::eq_ignoring_case(text::trimmed(parts[i].as_slice()), wanted.as_slice()) {
            return true;
        }
        i += 1;
    }
    false
}

/// Whether a header's value is text and holds a token, in whatever case.
pub fn header_has_token(value: &hyper::header::HeaderValue, token: &str) -> (r: bool)
    ensures
        r == value_has_token(headers::header_bytes(*value), token@),
{
    bytes_have_token(headers::value_bytes(value), token)
}

/// Whether the headers ask for an upgrade.
pub fn entries_ask_upgrade(h: &Vec<HeaderEntry>) -> (r: bool)
    ensures
        r == asks_upgrade(headers::header_list(h@)),
{
    let found = headers::positions_of(h, "connection");
    let upgrades = headers::positions_of(h, "upgrade");
    if upgrades.len() == 0 {
        return false;
    }
    let ghost connections = headers::values_of(headers::header_list(h@), "connection"@);
    let mut i: usize = 0;
    while i < found.len()
        invariant
            i <= found@.len(),
            found@.len() == connections.len(),
            connections == headers::values_of(headers::header_list(h@), "connection"@),
            headers::values_of(headers::header_list(h@), "upgrade"@).len() > 0,
            forall|k: int|
                0 <= k < found@.len() ==> (#[trigger] found@[k]) < h@.len()
                    && h@[found@[k] as int].value@ == connections[k],
            forall|j: int|
                0 <= j < i ==> !value_has_token(#[trigger] connections[j], "upgrade"@),
        decreases found@.len() - i,
    {
        assert(found@[i as int] < h@.len());
        if bytes_have_token(h[found[i]].value.as_slice(), "upgrade") {
            assert(value_has_token(connections[i as int], "upgrade"@));
            return true;
        }
        i += 1;
    }
    false
}

/// Whether a request asks for an upgrade.
pub fn is_upgrade_request(h: &hyper::HeaderMap) -> (r: bool)
    ensures
        r == asks_upgrade(headers::header_contents(*h)),
{
    entries_ask_upgrade(&headers::header_entries(h))
}

/// A request asks for an upgrade exactly where one of its `connection` headers has a text that
/// names `upgrade` between its commas, in any case and with spaces or tabs round it, and one of
/// its headers is `upgrade`.
pub proof fn law_requests_that_ask_for_an_upgrade(h: Seq<HeaderView>)
    ensures
        asks_upgrade(h) <==> (exists|i: int|
            0 <= i < h.len() && #[trigger] h[i].name == "connection"@ && value_has_token(
                h[i].value,
                "upgrade"@,
            )) && (exists|i: int| 0 <= i < h.len() && #[trigger] h[i].name == "upgrade"@),
{
    let connections = headers::values_of(h, "connection"@);
    let upgrades = headers::values_of(h, "upgrade"@);
    if asks_upgrade(h) {
        let k = choose|k: int|
            0 <= k < connections.len() && value_has_token(#[trigger] connections[k], "upgrade"@);
        headers::law_values_come_from_headers(h, "connection"@, connections[k]);
        assert(connections.contains(connections[k]));
        headers::law_values_come_from_headers(h, "upgrade"@, upgrades[0]);
        assert(upgrades.contains(upgrades[0]));
    }
    if (exists|i: int|
        0 <= i < h.len() && #[trigger] h[i].name == "connection"@ && value_has_token(
            h[i].value,
            "upgrade"@,
        )) && (exists|i: int| 0 <= i < h.len() && #[trigger] h[i].name == "upgrade"@) {
        let i = choose|i: int|
            0 <= i < h.len() && #[trigger] h[i].name == "connection"@ && value_has_token(
                h[i].value,
                "upgrade"@,
            );
        headers::law_values_come_from_headers(h, "connection"@, h[i].value);
        let k = choose|k: int| 0 <= k < connections.len() && connections[k] == h[i].value;
        assert(value_has_token(connections[k], "upgrade"@));
        let j = choose|j: int| 0 <= j < h.len() && #[trigger] h[j].name == "upgrade"@;
        headers::law_values_come_from_headers(h, "upgrade"@, h[j].value);
        assert(upgrades.contains(h[j].value));
    }
}

/// A token is looked for between the commas of a list: one list after another holds what either
/// holds, and an item holds a token where, without the spaces and tabs round it, it is that token
/// in any case. A value that is no text holds none.
pub proof fn law_tokens_of_a_list(
    a: Seq<char>,
    b: Seq<char>,
    item: Seq<char>,
    token: Seq<char>,
    value: Seq<u8>,
)
    requires
        !item.contains(','),
    ensures
        list_has_token(a + seq![','] + b, token) == (list_has_token(a, token) || list_has_token(
            b,
            token,
        )),
        list_has_token(item, token) == text::same_ignoring_case(text::trim(item), token),
        headers::value_text(value) is None ==> !value_has_token(value, token),
        headers::value_text(value) is Some ==> value_has_token(value, token) == list_has_token(
            headers::value_text(value)->0,
            token,
        ),
{
    text::law_splitting_at_a_separator(a, b, ',');
    text::law_splitting_at_a_separator(item, item, ',');
    let all = text::split(a + seq![','] + b, ',');
    let x = text::split(a, ',');
    let y = text::split(b, ',');
    if list_has_token(a + seq![','] + b, token) {
        let i = choose|i: int|
            0 <= i < all.len() && text::same_ignoring_case(text::trim(#[trigger] all[i]), token);
        if i < x.len() {
            assert(x[i] == all[i]);
        } else {
            assert(y[i - x.len()] == all[i]);
        }
    }
    if list_has_token(a, token) {
        let i = choose|i: int|
            0 <= i < x.len() && text::same_ignoring_case(text::trim(#[trigger] x[i]), token);
        assert(all[i] == x[i]);
    }
    if list_has_token(b, token) {
        let i = choose|i: int|
            0 <= i < y.len() && text::same_ignoring_case(text::trim(#[trigger] y[i]), token);
        assert(all[x.len() + i] == y[i]);
    }
    assert(text::split(item, ',')[0] == item);
}

} // verus!
