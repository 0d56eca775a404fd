//! The headers of a request or a response.
use crate::text;
use vstd::prelude::*;

verus! {

/// The headers of a message, as `hyper` holds them.
#[verifier::external_type_specification]
#[verifier::external_body]
#[verifier::reject_recursive_types(T)]
pub struct ExHeaderMap<T>(hyper::HeaderMap<T>);

/// The value of one header, as `hyper` holds it.
#[verifier::external_type_specification]
#[verifier::external_body]
pub struct ExHeaderValue(hyper::header::HeaderValue);

/// One header: its name in lower case, and the bytes of its value.
#[derive(Debug)]
pub struct HeaderEntry {
    pub name: String,
    pub value: Vec<u8>,
}

/// What a [`HeaderEntry`] stands for.
pub struct HeaderView {
    pub name: Seq<char>,
    pub value: Seq<u8>,
}

impl View for HeaderEntry {
    type V = HeaderView;

    open spec fn view(&self) -> HeaderView {
        HeaderView { name: self.name@, value: self.value@ }
    }
}

/// What a list of headers stands for.
pub open spec fn header_list(v: Seq<HeaderEntry>) -> Seq<HeaderView> {
    Seq::new(v.len(), |i: int| v[i]@)
}

/// The headers that a map holds, in the order in which it hands them out.
pub uninterp spec fn header_contents(h: hyper::HeaderMap) -> Seq<HeaderView>;

/// The bytes of a header's value.
pub uninterp spec fn header_bytes(v: hyper::header::HeaderValue) -> Seq<u8>;

/// `hyper::HeaderMap::iter` hands out each header of the map, those of one name in the order in
/// which they were added.
#[verifier::external_body]
pub(crate) fn header_entries(h: &hyper::HeaderMap) -> (r: Vec<HeaderEntry>)
    ensures
        header_list(r@) == header_contents(*h),
{
    h.iter()
        .map(|(k, v)| HeaderEntry { name: k.as_str().to_string(), value: v.as_bytes().to_vec() })
        .collect()
}

/// The headers of a message.
pub fn read_headers(h: &hyper::HeaderMap) -> (r: Vec<HeaderEntry>)
    ensures
        header_list(r@) == header_contents(*h),
{
    header_entries(h)
}

/// `hyper::header::HeaderValue::as_bytes` gives the bytes of a value.
#[verifier::external_body]
pub(crate) fn value_bytes(v: &hyper::header::HeaderValue) -> (r: &[u8])
    ensures
        r@ == header_bytes(*v),
{
    v.as_bytes()
}

/// Whether a byte is a visible ASCII character, a space or a tab.
pub open spec fn is_visible(b: u8) -> bool {
    32 <= b < 127 || b == 9
}

/// The text of a header's value: `None` where a byte is no visible ASCII character.
pub open spec fn value_text(v: Seq<u8>) -> Option<Seq<char>> {
    if forall|i: int| 0 <= i < v.len() ==> is_visible(#[trigger] v[i]) {
        Some(Seq::new(v.len(), |i: int| v[i] as char))
    } else {
        None
    }
}

/// The text of a header's value.
pub fn text_of_value(v: &[u8]) -> (r: Option<Vec<char>>)
    ensures
        match r {
            Some(t) => value_text(v@) == Some(t@),
            None => value_text(v@) is None,
        },
{
    let mut out: Vec<char> = Vec::new();
    let mut i: usize = 0;
    while i < v.len()
        invariant
            i <= v@.len(),
            out@ == Seq::new(i as nat, |j: int| v@[j] as char),
            forall|j: int| 0 <= j < i ==> is_visible(#[trigger] v@[j]),
        decreases v@.len() - i,
    {
        if !((32 <= v[i] && v[i] < 127) || v[i] == 9) {
            return None;
        }
        out.push(v[i] as char);
        i += 1;
    }
    Some(out)
}

/// The text of a header's value, as a string.
pub fn string_of_value(v: &[u8]) -> (r: Option<String>)
    ensures
        text::opt_text(r) == value_text(v@),
{
    match text_of_value(v) {
        Some(t) => Some(text::string_of(t.as_slice())),
        None => None,
    }
}

/// The values of the headers of a name, in order.
pub open spec fn values_of(h: Seq<HeaderView>, name: Seq<char>) -> Seq<Seq<u8>>
    decreases h.len(),
{
    if h.len() == 0 {
        Seq::empty()
    } else if h[0].name == name {
        seq![h[0].value] + values_of(h.skip(1), name)
    } else {
        values_of(h.skip(1), name)
    }
}

/// The value of the first header of a name.
pub open spec fn first_value(h: Seq<HeaderView>, name: Seq<char>) -> Option<Seq<u8>> {
    if values_of(h, name).len() > 0 {
        Some(values_of(h, name)[0])
    } else {
        None
    }
}

/// The text of the first header of a name, where it is one.
pub open spec fn first_text(h: Seq<HeaderView>, name: Seq<char>) -> Option<Seq<char>> {
    match first_value(h, name) {
        Some(v) => value_text(v),
        None => None,
    }
}

/// The positions of the headers of a name.
pub fn positions_of(h: &Vec<HeaderEntry>, name: &str) -> (r: Vec<usize>)
    ensures
        r@.len() == values_of(header_list(h@), name@).len(),
        forall|k: int|
            0 <= k < r@.len() ==> (#[trigger] r@[k]) < h@.len() && h@[r@[k] as int].value@
                == values_of(header_list(h@), name@)[k],
{
    let ghost list = header_list(h@);
    let mut out: Vec<usize> = Vec::new();
    let mut i: usize = 0;
    assert(list.skip(0) =~= list);
    let ghost mut found: Seq<Seq<u8>> = Seq::empty();
    assert(found + values_of(list, name@) =~= values_of(list, name@));
    while i < h.len()
        invariant
            i <= h@.len(),
            list == header_list(h@),
            found + values_of(list.skip(i as int), name@) == values_of(list, name@),
            out@.len() == found.len(),
            forall|k: int|
                0 <= k < out@.len() ==> (#[trigger] out@[k]) < h@.len() && h@[out@[k] as int].value@
                    == found[k],
        decreases h@.len() - i,
    {
        assert(list.skip(i as int).skip(1) =~= list.skip(i + 1));
        if text::same(h[i].name.as_str(), name) {
            out.push(i);
            proof {
                let rest = values_of(list.skip(i + 1), name@);
                assert(found + (seq![h@[i as int].value@] + rest) =~= found.push(
                    h@[i as int].value@,
                ) + rest);
                found = found.push(h@[i as int].value@);
            }
        }
        i += 1;
    }
    assert(found + values_of(list.skip(i as int), name@) =~= found);
    out
}

/// The text of the first header of a name, where it is one.
pub fn first_header_text(h: &Vec<HeaderEntry>, name: &str) -> (r: Option<Vec<char>>)
    ensures
        match r {
            Some(t) => first_text(header_list(h@), name@) == Some(t@),
            None => first_text(header_list(h@), name@) is None,
        },
{
    let found = positions_of(h, name);
    if found.len() == 0 {
        return None;
    }
    assert(found@[0] < h@.len());
    text_of_value(h[found[0]].value.as_slice())
}

/// The text of the first header of a name, as a string.
pub fn first_header_string(h: &Vec<HeaderEntry>, name: &str) -> (r: Option<String>)
    ensures
        text::opt_text(r) == first_text(header_list(h@), name@),
{
    match first_header_text(h, name) {
        Some(t) => Some(text::string_of(t.as_slice())),
        None => None,
    }
}

/// The value of a header is text exactly where each of its bytes is a visible ASCII character, a
/// space or a tab; the text then has the character of each byte in its place.
pub proof fn law_text_of_a_value(v: Seq<u8>)
    ensures
        value_text(v) is Some <==> forall|i: int|
            0 <= i < v.len() ==> (#[trigger] v[i] == 9 || 32 <= v[i] <= 126),
        value_text(v) matches Some(t) ==> t.len() == v.len() && forall|i: int|
            0 <= i < v.len() ==> (#[trigger] t[i]) as int == v[i] as int,
{
    if value_text(v) is Some {
        assert forall|i: int| 0 <= i < v.len() implies #[trigger] v[i] == 9 || 32 <= v[i]
            <= 126 by {
            assert(is_visible(v[i]));
        }
        let t = value_text(v)->0;
        assert forall|i: int| 0 <= i < v.len() implies (#[trigger] t[i]) as int == v[i] as int by {
            assert(t[i] == v[i] as char);
        }
    }
}

/// The values of a name are those of the headers that have it, in their order.
pub proof fn law_values_of_a_name(
    a: Seq<HeaderView>,
    b: Seq<HeaderView>,
    e: HeaderView,
    name: Seq<char>,
)
    ensures
        values_of(Seq::empty(), name) == Seq::<Seq<u8>>::empty(),
        e.name == name ==> values_of(seq![e], name) == seq![e.value],
        e.name != name ==> values_of(seq![e], name) == Seq::<Seq<u8>>::empty(),
        values_of(a + b, name) == values_of(a, name) + values_of(b, name),
    decreases a.len(),
{
    let none = Seq::<HeaderView>::empty();
    assert(seq![e].skip(1) =~= none);
    assert(values_of(none, name) == Seq::<Seq<u8>>::empty());
    assert(seq![e.value] + Seq::<Seq<u8>>::empty() =~= seq![e.value]);
    if a.len() == 0 {
        assert(a + b =~= b);
        assert(values_of(a, name) + values_of(b, name) =~= values_of(b, name));
    } else {
        law_values_of_a_name(a.skip(1), b, e, name);
        assert((a + b)[0] == a[0]);
        assert((a + b).skip(1) =~= a.skip(1) + b);
        if a[0].name == name {
            assert(seq![a[0].value] + (values_of(a.skip(1), name) + values_of(b, name)) =~= (seq![
                a[0].value,
            ] + values_of(a.skip(1), name)) + values_of(b, name));
        }
    }
}

/// The first header of a name is the one that counts, and its text is that of its value.
pub proof fn law_first_value_of_a_name(
    before: Seq<HeaderView>,
    e: HeaderView,
    after: Seq<HeaderView>,
)
    requires
        forall|i: int| 0 <= i < before.len() ==> #[trigger] before[i].name != e.name,
    ensures
        first_value(before, e.name) is None,
        first_text(before, e.name) is None,
        first_value(before + seq![e] + after, e.name) == Some(e.value),
        first_text(before + seq![e] + after, e.name) == value_text(e.value),
{
    lemma_no_values(before, e.name);
    law_values_of_a_name(before, seq![e], e, e.name);
    law_values_of_a_name(before + seq![e], after, e, e.name);
    let all = values_of(before + seq![e] + after, e.name);
    assert(all[0] == e.value);
}

proof fn lemma_no_values(h: Seq<HeaderView>, name: Seq<char>)
    requires
        forall|i: int| 0 <= i < h.len() ==> #[trigger] h[i].name != name,
    ensures
        values_of(h, name) == Seq::<Seq<u8>>::empty(),
    decreases h.len(),
{
    if h.len() > 0 {
        assert(h[0].name != name);
        let rest = h.skip(1);
        assert forall|i: int| 0 <= i < rest.len() implies #[trigger] rest[i].name != name by {
            assert(rest[i] == h[i + 1]);
        }
        lemma_no_values(rest, name);
    }
}

/// What is among the values of a name is the value of a header that has it.
pub proof fn law_values_come_from_headers(h: Seq<HeaderView>, name: Seq<char>, v: Seq<u8>)
    ensures
        values_of(h, name).contains(v) <==> exists|i: int|
            0 <= i < h.len() && #[trigger] h[i].name == name && h[i].value == v,
{
    if exists|i: int| 0 <= i < h.len() && #[trigger] h[i].name == name && h[i].value == v {
        let i = choose|i: int| 0 <= i < h.len() && #[trigger] h[i].name == name && h[i].value == v;
        let e = h[i];
        assert(h =~= h.take(i) + seq![e] + h.skip(i + 1));
        law_values_of_a_name(h.take(i), seq![e], e, name);
        law_values_of_a_name(h.take(i) + seq![e], h.skip(i + 1), e, name);
        assert(values_of(h, name)[values_of(h.take(i), name).len() as int] == v);
    } else {
        lemma_values_found(h, name, v);
    }
}

proof fn lemma_values_found(h: Seq<HeaderView>, name: Seq<char>, v: Seq<u8>)
    requires
        forall|i: int| 0 <= i < h.len() && #[trigger] h[i].name == name ==> h[i].value != v,
    ensures
        !values_of(h, name).contains(v),
    decreases h.len(),
{
    if h.len() > 0 {
        let rest = h.skip(1);
        assert forall|i: int| 0 <= i < rest.len() && #[trigger] rest[i].name == name implies
            rest[i].value != v by {
            assert(rest[i] == h[i + 1]);
        }
        lemma_values_found(rest, name, v);
        if h[0].name == name && values_of(h, name).contains(v) {
            let k = choose|k: int| 0 <= k < values_of(h, name).len() && values_of(h, name)[k] == v;
            assert(h[0].name == name);
            assert(k > 0);
            assert(values_of(rest, name)[k - 1] == v);
        }
    }
}

/// What headers stand for: each by its name and the bytes of its value, in their order.
pub proof fn law_what_headers_stand_for(e: HeaderEntry, v: Seq<HeaderEntry>, i: int)
    ensures
        e@.name == e.name@,
        e@.value == e.value@,
        header_list(v).len() == v.len(),
        0 <= i < v.len() ==> header_list(v)[i] == v[i]@,
{
}

} // verus!
