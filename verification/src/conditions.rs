//! The tests of a request that a rule's conditions make.
use crate::addresses;
use crate::addresses::{Cidr, IpAddress};
use crate::config;
use crate::config::{Condition, ConditionNode, ConditionView, NodeView};
use crate::json;
use crate::json::{JsonValue, JsonView};
use crate::pattern;
use crate::text;
use crate::yaml;
use crate::yaml::{YamlNumberView, YamlValue, YamlView};
use vstd::prelude::*;
use vstd::slice::slice_subrange;

verus! {

/// One header of a request that is being evaluated.
#[derive(Debug)]
pub struct RequestHeader {
    pub name: String,
    pub value: String,
}

/// What a request is evaluated by.
pub struct EvaluationContext {
    pub path: String,
    pub method: String,
    pub headers: Vec<RequestHeader>,
    pub client_ip: String,
    pub body_json: Option<JsonValue>,
    pub user_role: Option<String>,
}

/// What an [`EvaluationContext`] stands for.
pub struct ContextView {
    pub path: Seq<char>,
    pub method: Seq<char>,
    pub headers: Seq<(Seq<char>, Seq<char>)>,
    pub client_ip: Seq<char>,
    pub body_json: Option<JsonView>,
    pub user_role: Option<Seq<char>>,
}

/// What a list of request headers stands for.
pub open spec fn request_headers(v: Seq<RequestHeader>) -> Seq<(Seq<char>, Seq<char>)> {
    Seq::new(v.len(), |i: int| (v[i].name@, v[i].value@))
}

impl View for EvaluationContext {
    type V = ContextView;

    open spec fn view(&self) -> ContextView {
        ContextView {
            path: self.path@,
            method: self.method@,
            headers: request_headers(self.headers@),
            client_ip: self.client_ip@,
            body_json: json::opt_json(self.body_json),
            user_role: text::opt_text(self.user_role),
        }
    }
}

/// The items of a value that is a list.
pub open spec fn list_of(v: Option<YamlView>) -> Option<Seq<YamlView>> {
    match v {
        Some(YamlView::Sequence(s)) => Some(s),
        _ => None,
    }
}

/// Whether a value is a list with a scalar of this text.
pub open spec fn lists_text(v: Option<YamlView>, subject: Seq<char>) -> bool {
    match list_of(v) {
        Some(s) => exists|i: int|
            0 <= i < s.len() && yaml::yaml_text(#[trigger] s[i]) == Some(subject),
        None => false,
    }
}

/// Whether a value is a scalar of this text.
pub open spec fn equals_text(v: Option<YamlView>, subject: Seq<char>) -> bool {
    yaml::opt_yaml_text(v) == Some(subject)
}

/// Whether a value is a scalar whose text occurs in the subject.
pub open spec fn text_contains(v: Option<YamlView>, subject: Seq<char>) -> bool {
    match yaml::opt_yaml_text(v) {
        Some(t) => text::contains_text(subject, t),
        None => false,
    }
}

/// Whether a value is a scalar with whose text the subject begins.
pub open spec fn text_starts(v: Option<YamlView>, subject: Seq<char>) -> bool {
    match yaml::opt_yaml_text(v) {
        Some(t) => text::begins_with(subject, t),
        None => false,
    }
}

/// Whether a value is a scalar with whose text the subject ends.
pub open spec fn text_ends(v: Option<YamlView>, subject: Seq<char>) -> bool {
    match yaml::opt_yaml_text(v) {
        Some(t) => text::finishes_with(subject, t),
        None => false,
    }
}

/// Whether a value is a scalar whose text is a regular expression that is found in the subject.
pub open spec fn text_matches(v: Option<YamlView>, subject: Seq<char>) -> bool {
    match yaml::opt_yaml_text(v) {
        Some(t) => pattern::found(t, subject),
        None => false,
    }
}

fn value_lists_text(v: &Option<YamlValue>, subject: &str) -> (r: bool)
    ensures
        r == lists_text(yaml::opt_yaml(*v), subject@),
{
    if let Some(YamlValue::Sequence(s)) = v {
        proof {
            yaml::lemma_yaml_list(v->0);
        }
        let mut i: usize = 0;
        while i < s.len()
            invariant
                i <= s@.len(),
                list_of(yaml::opt_yaml(*v)) == Some(yaml::yaml_list(s@)),
                forall|j: int|
                    0 <= j < i ==> yaml::yaml_text(#[trigger] yaml::yaml_list(s@)[j]) != Some(
                        subject@,
                    ),
            decreases s@.len() - i,
        {
            if let Some(t) = yaml::yaml_value_to_string(&s[i]) {
                if text::same(t.as_str(), subject) {
                    assert(yaml::yaml_text(yaml::yaml_list(s@)[i as int]) == Some(subject@));
                    return true;
                }
            }
            i += 1;
        }
        false
    } else {
        false
    }
}

fn value_equals_text(v: &Option<YamlValue>, subject: &str) -> (r: bool)
    ensures
        r == equals_text(yaml::opt_yaml(*v), subject@),
{
    match yaml::opt_yaml_to_string(v) {
        Some(t) => text::same(t.as_str(), subject),
        None => false,
    }
}

fn value_in_text(v: &Option<YamlValue>, subject: &str) -> (r: bool)
    ensures
        r == text_contains(yaml::opt_yaml(*v), subject@),
{
    match yaml::opt_yaml_to_string(v) {
        Some(t) => text::has_text(
            text::chars_of(subject).as_slice(),
            text::chars_of(t.as_str()).as_slice(),
        ),
        None => false,
    }
}

fn value_starts_text(v: &Option<YamlValue>, subject: &str) -> (r: bool)
    ensures
        r == text_starts(yaml::opt_yaml(*v), subject@),
{
    match yaml::opt_yaml_to_string(v) {
        Some(t) => text::has_prefix(
            text::chars_of(subject).as_slice(),
            text::chars_of(t.as_str()).as_slice(),
        ),
        None => false,
    }
}

fn value_ends_text(v: &Option<YamlValue>, subject: &str) -> (r: bool)
    ensures
        r == text_ends(yaml::opt_yaml(*v), subject@),
{
    match yaml::opt_yaml_to_string(v) {
        Some(t) => text::has_suffix(
            text::chars_of(subject).as_slice(),
            text::chars_of(t.as_str()).as_slice(),
        ),
        None => false,
    }
}

fn value_matches_text(v: &Option<YamlValue>, subject: &str) -> (r: bool)
    ensures
        r == text_matches(yaml::opt_yaml(*v), subject@),
{
    match yaml::opt_yaml_to_string(v) {
        Some(t) => pattern::is_found(t.as_str(), subject),
        None => false,
    }
}

/// Whether a condition on the path holds; `matched` tells whether its expression is found there.
pub open spec fn path_holds(c: ConditionView, path: Seq<char>, matched: bool) -> bool {
    if c.operator == "equals"@ {
        equals_text(c.value, path)
    } else if c.operator == "not_equals"@ {
        !equals_text(c.value, path)
    } else if c.operator == "contains"@ {
        text_contains(c.value, path)
    } else if c.operator == "not_contains"@ {
        !text_contains(c.value, path)
    } else if c.operator == "starts_with"@ {
        text_starts(c.value, path)
    } else if c.operator == "ends_with"@ {
        text_ends(c.value, path)
    } else if c.operator == "matches"@ {
        matched
    } else if c.operator == "not_matches"@ {
        !matched
    } else if c.operator == "in"@ {
        lists_text(c.value, path)
    } else if c.operator == "not_in"@ {
        !lists_text(c.value, path)
    } else {
        false
    }
}

fn match_path_condition(c: &Condition, path: &str, matched: bool) -> (r: bool)
    ensures
        r == path_holds(c@, path@, matched),
{
    let op = c.operator.as_str();
    if text::same(op, "equals") {
        value_equals_text(&c.value, path)
    } else if text::same(op, "not_equals") {
        !value_equals_text(&c.value, path)
    } else if text::same(op, "contains") {
        value_in_text(&c.value, path)
    } else if text::same(op, "not_contains") {
        !value_in_text(&c.value, path)
    } else if text::same(op, "starts_with") {
        value_starts_text(&c.value, path)
    } else if text::same(op, "ends_with") {
        value_ends_text(&c.value, path)
    } else if text::same(op, "matches") {
        matched
    } else if text::same(op, "not_matches") {
        !matched
    } else if text::same(op, "in") {
        value_lists_text(&c.value, path)
    } else if text::same(op, "not_in") {
        !value_lists_text(&c.value, path)
    } else {
        false
    }
}

/// Whether a value is a scalar of the method's name, in whatever case.
pub open spec fn equals_method(v: Option<YamlView>, method: Seq<char>) -> bool {
    names_method(yaml::opt_yaml_text(v), method)
}

/// Whether a text is the method's name, in whatever case.
pub open spec fn names_method(t: Option<Seq<char>>, method: Seq<char>) -> bool {
    t is Some && text::same_ignoring_case(method, t->0)
}

/// Whether a value is a list with the method's name, in whatever case.
pub open spec fn lists_method(v: Option<YamlView>, method: Seq<char>) -> bool {
    match list_of(v) {
        Some(s) => exists|i: int|
            0 <= i < s.len() && names_method(yaml::yaml_text(#[trigger] s[i]), method),
        None => false,
    }
}

/// Whether a condition on the method holds.
pub open spec fn method_holds(c: ConditionView, method: Seq<char>) -> bool {
    if c.operator == "equals"@ {
        equals_method(c.value, method)
    } else if c.operator == "not_equals"@ {
        !equals_method(c.value, method)
    } else if c.operator == "in"@ {
        lists_method(c.value, method)
    } else if c.operator == "not_in"@ {
        !lists_method(c.value, method)
    } else {
        false
    }
}

fn value_equals_method(v: &Option<YamlValue>, method: &str) -> (r: bool)
    ensures
        r == equals_method(yaml::opt_yaml(*v), method@),
{
    match yaml::opt_yaml_to_string(v) {
        Some(t) => text::str_eq_ignoring_case(method, t.as_str()),
        None => false,
    }
}

fn value_lists_method(v: &Option<YamlValue>, method: &str) -> (r: bool)
    ensures
        r == lists_method(yaml::opt_yaml(*v), method@),
{
    if let Some(YamlValue::Sequence(s)) = v {
        proof {
            yaml::lemma_yaml_list(v->0);
        }
        let mut i: usize = 0;
        while i < s.len()
            invariant
                i <= s@.len(),
                list_of(yaml::opt_yaml(*v)) == Some(yaml::yaml_list(s@)),
                forall|j: int|
                    0 <= j < i ==> !names_method(
                        yaml::yaml_text(#[trigger] yaml::yaml_list(s@)[j]),
                        method@,
                    ),
            decreases s@.len() - i,
        {
            if let Some(t) = yaml::yaml_value_to_string(&s[i]) {
                if text::str_eq_ignoring_case(method, t.as_str()) {
                    assert(names_method(
                        yaml::yaml_text(yaml::yaml_list(s@)[i as int]),
                        method@,
                    ));
                    return true;
                }
            }
            i += 1;
        }
        false
    } else {
        false
    }
}

fn match_method_condition(c: &Condition, method: &str) -> (r: bool)
    ensures
        r == method_holds(c@, method@),
{
    let op = c.operator.as_str();
    if text::same(op, "equals") {
        value_equals_method(&c.value, method)
    } else if text::same(op, "not_equals") {
        !value_equals_method(&c.value, method)
    } else if text::same(op, "in") {
        value_lists_method(&c.value, method)
    } else if text::same(op, "not_in") {
        !value_lists_method(&c.value, method)
    } else {
        false
    }
}

/// The value of the first header of a name, in whatever case.
pub open spec fn header_value(h: Seq<(Seq<char>, Seq<char>)>, name: Seq<char>) -> Option<Seq<char>>
    decreases h.len(),
{
    if h.len() == 0 {
        None
    } else if text::same_ignoring_case(h[0].0, name) {
        Some(h[0].1)
    } else {
        header_value(h.skip(1), name)
    }
}

/// Whether a condition on a header holds; a header that is missing meets the negated operators
/// only. `matched` tells whether the condition's expression is found in the header.
pub open spec fn header_holds(c: ConditionView, v: Option<Seq<char>>, matched: bool) -> bool {
    if c.operator == "equals"@ {
        v is Some && equals_text(c.value, v->0)
    } else if c.operator == "not_equals"@ {
        !(v is Some && equals_text(c.value, v->0))
    } else if c.operator == "contains"@ {
        v is Some && text_contains(c.value, v->0)
    } else if c.operator == "not_contains"@ {
        !(v is Some && text_contains(c.value, v->0))
    } else if c.operator == "starts_with"@ {
        v is Some && text_starts(c.value, v->0)
    } else if c.operator == "ends_with"@ {
        v is Some && text_ends(c.value, v->0)
    } else if c.operator == "matches"@ {
        v is Some && matched
    } else if c.operator == "not_matches"@ {
        !(v is Some && matched)
    } else if c.operator == "exists"@ {
        v is Some
    } else if c.operator == "not_exists"@ {
        v is None
    } else if c.operator == "in"@ {
        v is Some && lists_text(c.value, v->0)
    } else if c.operator == "not_in"@ {
        !(v is Some && lists_text(c.value, v->0))
    } else {
        false
    }
}

fn find_header<'a>(h: &'a Vec<RequestHeader>, name: &str) -> (r: Option<&'a str>)
    ensures
        match r {
            Some(v) => header_value(request_headers(h@), name@) == Some(v@),
            None => header_value(request_headers(h@), name@) is None,
        },
{
    let ghost all = request_headers(h@);
    let mut i: usize = 0;
    assert(all.skip(0) =~= all);
    while i < h.len()
        invariant
            i <= h@.len(),
            all == request_headers(h@),
            header_value(all, name@) == header_value(all.skip(i as int), name@),
        decreases h@.len() - i,
    {
        assert(all.skip(i as int).skip(1) =~= all.skip(i + 1));
        if text::str_eq_ignoring_case(h[i].name.as_str(), name) {
            return Some(h[i].value.as_str());
        }
        i += 1;
    }
    None
}

fn match_header_condition(c: &Condition, found: Option<&str>, matched: bool) -> (r: bool)
    ensures
        r == header_holds(
            c@,
            match found {
                Some(v) => Some(v@),
                None => None,
            },
            matched,
        ),
{
    let op = c.operator.as_str();
    if text::same(op, "equals") {
        match found {
            Some(v) => value_equals_text(&c.value, v),
            None => false,
        }
    } else if text::same(op, "not_equals") {
        match found {
            Some(v) => !value_equals_text(&c.value, v),
            None => true,
        }
    } else if text::same(op, "contains") {
        match found {
            Some(v) => value_in_text(&c.value, v),
            None => false,
        }
    } else if text::same(op, "not_contains") {
        match found {
            Some(v) => !value_in_text(&c.value, v),
            None => true,
        }
    } else if text::same(op, "starts_with") {
        match found {
            Some(v) => value_starts_text(&c.value, v),
            None => false,
        }
    } else if text::same(op, "ends_with") {
        match found {
            Some(v) => value_ends_text(&c.value, v),
            None => false,
        }
    } else if text::same(op, "matches") {
        found.is_some() && matched
    } else if text::same(op, "not_matches") {
        !(found.is_some() && matched)
    } else if text::same(op, "exists") {
        found.is_some()
    } else if text::same(op, "not_exists") {
        found.is_none()
    } else if text::same(op, "in") {
        match found {
            Some(v) => value_lists_text(&c.value, v),
            None => false,
        }
    } else if text::same(op, "not_in") {
        match found {
            Some(v) => !value_lists_text(&c.value, v),
            None => true,
        }
    } else {
        false
    }
}

/// The texts of the scalars in a list.
pub open spec fn scalar_texts(v: Seq<YamlView>) -> Seq<Seq<char>>
    decreases v.len(),
{
    if v.len() == 0 {
        Seq::empty()
    } else {
        match yaml::yaml_text(v.last()) {
            Some(t) => scalar_texts(v.drop_last()).push(t),
            None => scalar_texts(v.drop_last()),
        }
    }
}

/// The texts that a condition on the client's address lists: those of a list's scalars, or the
/// one of a scalar.
pub open spec fn listed_texts(v: Option<YamlView>) -> Seq<Seq<char>> {
    match v {
        Some(YamlView::Sequence(s)) => scalar_texts(s),
        Some(x) => match yaml::yaml_text(x) {
            Some(t) => seq![t],
            None => Seq::empty(),
        },
        None => Seq::empty(),
    }
}

/// Whether a client's address, with the text that it is written in, is in one of the networks
/// that a value lists, or, where it lists none, is itself listed.
pub open spec fn lists_ip(
    v: Option<YamlView>,
    client: Option<(IpAddress, Seq<char>)>,
    nets: Seq<Cidr>,
) -> bool {
    match client {
        Some((a, t)) => if nets.len() == 0 {
            listed_texts(v).contains(t)
        } else {
            addresses::in_any(nets, a)
        },
        None => false,
    }
}

/// Whether a client's address is the one that a value writes.
pub open spec fn equals_ip(v: Option<YamlView>, client: Option<(IpAddress, Seq<char>)>) -> bool {
    match client {
        Some((_, t)) => equals_text(v, t),
        None => false,
    }
}

/// Whether a condition on the client's address holds; the networks are those that its value lists.
pub open spec fn ip_holds(
    c: ConditionView,
    client: Option<(IpAddress, Seq<char>)>,
    nets: Seq<Cidr>,
) -> bool {
    if c.operator == "equals"@ {
        equals_ip(c.value, client)
    } else if c.operator == "not_equals"@ {
        !equals_ip(c.value, client)
    } else if c.operator == "in"@ {
        lists_ip(c.value, client, nets)
    } else if c.operator == "not_in"@ {
        !lists_ip(c.value, client, nets)
    } else {
        false
    }
}

/// The address of a client, and the text that it is written in.
#[derive(Debug)]
pub struct ClientAddress {
    pub ip: IpAddress,
    pub written: String,
}

/// What an optional [`ClientAddress`] stands for.
pub open spec fn client_view(c: Option<ClientAddress>) -> Option<(IpAddress, Seq<char>)> {
    match c {
        Some(a) => Some((a.ip, a.written@)),
        None => None,
    }
}

fn read_texts(v: &Option<YamlValue>) -> (r: Vec<String>)
    ensures
        text::strings(r@) == listed_texts(yaml::opt_yaml(*v)),
{
    let mut out: Vec<String> = Vec::new();
    match v {
        Some(YamlValue::Sequence(s)) => {
            proof {
                yaml::lemma_yaml_list(v->0);
            }
            let ghost list = yaml::yaml_list(s@);
            let mut i: usize = 0;
            assert(text::strings(out@) =~= scalar_texts(list.take(0)));
            while i < s.len()
                invariant
                    i <= s@.len(),
                    list == yaml::yaml_list(s@),
                    text::strings(out@) == scalar_texts(list.take(i as int)),
                decreases s@.len() - i,
            {
                assert(list.take(i + 1).drop_last() =~= list.take(i as int));
                assert(list.take(i + 1).last() == s@[i as int]@);
                if let Some(t) = yaml::yaml_value_to_string(&s[i]) {
                    let ghost before = out@;
                    out.push(t);
                    assert(text::strings(out@) =~= text::strings(before).push(t@));
                }
                i += 1;
            }
            assert(list.take(i as int) =~= list);
        },
        Some(x) => {
            if let Some(t) = yaml::yaml_value_to_string(x) {
                out.push(t);
                assert(text::strings(out@) =~= seq![t@]);
            } else {
                assert(text::strings(out@) =~= Seq::<Seq<char>>::empty());
            }
        },
        None => {
            assert(text::strings(out@) =~= Seq::<Seq<char>>::empty());
        },
    }
    out
}

fn texts_contain(v: &Vec<String>, s: &str) -> (r: bool)
    ensures
        r == text::strings(v@).contains(s@),
{
    let mut i: usize = 0;
    while i < v.len()
        invariant
            i <= v@.len(),
            forall|j: int| 0 <= j < i ==> text::strings(v@)[j] != s@,
        decreases v@.len() - i,
    {
        if text::same(v[i].as_str(), s) {
            assert(text::strings(v@)[i as int] == s@);
            return true;
        }
        i += 1;
    }
    false
}

fn value_lists_ip(v: &Option<YamlValue>, client: &Option<ClientAddress>, nets: &Vec<Cidr>) -> (r:
    bool)
    requires
        addresses::valid_cidrs(nets@),
    ensures
        r == lists_ip(yaml::opt_yaml(*v), client_view(*client), nets@),
{
    match client {
        Some(a) => if nets.len() == 0 {
            texts_contain(&read_texts(v), a.written.as_str())
        } else {
            addresses::any_contains(nets, &a.ip)
        },
        None => false,
    }
}

fn value_equals_ip(v: &Option<YamlValue>, client: &Option<ClientAddress>) -> (r: bool)
    ensures
        r == equals_ip(yaml::opt_yaml(*v), client_view(*client)),
{
    match client {
        Some(a) => value_equals_text(v, a.written.as_str()),
        None => false,
    }
}

fn match_ip_condition(c: &Condition, client: &Option<ClientAddress>, nets: &Vec<Cidr>) -> (r: bool)
    requires
        addresses::valid_cidrs(nets@),
    ensures
        r == ip_holds(c@, client_view(*client), nets@),
{
    let op = c.operator.as_str();
    if text::same(op, "equals") {
        value_equals_ip(&c.value, client)
    } else if text::same(op, "not_equals") {
        !value_equals_ip(&c.value, client)
    } else if text::same(op, "in") {
        value_lists_ip(&c.value, client, nets)
    } else if text::same(op, "not_in") {
        !value_lists_ip(&c.value, client, nets)
    } else {
        false
    }
}

/// The bits of a floating-point number without its sign.
pub open spec fn magnitude(bits: u64) -> u64 {
    if bits >= 0x8000_0000_0000_0000 {
        (bits - 0x8000_0000_0000_0000) as u64
    } else {
        bits
    }
}

/// Whether the bits are those of no number.
pub open spec fn is_nan(bits: u64) -> bool {
    magnitude(bits) > 0x7ff0_0000_0000_0000
}

/// Whether two floating-point numbers are equal: their bits are, or both are zero, and neither is
/// no number.
pub open spec fn float_equal(a: u64, b: u64) -> bool {
    &&& !is_nan(a) && !is_nan(b)
    &&& a == b || magnitude(a) == 0 && magnitude(b) == 0
}

/// Whether a YAML value and a JSON value are equal: as texts, as booleans, as numbers, or both
/// null.
pub open spec fn values_equal(y: YamlView, j: JsonView) -> bool {
    match (y, j) {
        (YamlView::String(a), JsonView::String(b)) => a == b,
        (YamlView::Bool(a), JsonView::Bool(b)) => a == b,
        (YamlView::Number(a), JsonView::Number(b)) => if b.int is Some {
            a.int == b.int
        } else if b.uint is Some {
            a.uint == b.uint
        } else {
            a.float_bits is Some && b.float_bits is Some && float_equal(
                a.float_bits->0,
                b.float_bits->0,
            )
        },
        (YamlView::Null, JsonView::Null) => true,
        _ => false,
    }
}

fn magnitude_of(bits: u64) -> (r: u64)
    ensures
        r == magnitude(bits),
{
    if bits >= 0x8000_0000_0000_0000 {
        bits - 0x8000_0000_0000_0000
    } else {
        bits
    }
}

fn floats_equal(a: u64, b: u64) -> (r: bool)
    ensures
        r == float_equal(a, b),
{
    let ma: u64 = magnitude_of(a);
    let mb: u64 = magnitude_of(b);
    ma <= 0x7ff0_0000_0000_0000 && mb <= 0x7ff0_0000_0000_0000 && (a == b || (ma == 0 && mb == 0))
}

fn value_equal(y: &YamlValue, j: &JsonValue) -> (r: bool)
    ensures
        r == values_equal(y@, j@),
{
    match (y, j) {
        (YamlValue::String(a), JsonValue::String(b)) => text::same(a.as_str(), b.as_str()),
        (YamlValue::Bool(a), JsonValue::Bool(b)) => *a == *b,
        (YamlValue::Number(a), JsonValue::Number(b)) => {
            if let Some(n) = b.as_i64() {
                match a.int {
                    Some(m) => m == n,
                    None => false,
                }
            } else if let Some(n) = b.as_u64() {
                match a.uint {
                    Some(m) => m == n,
                    None => false,
                }
            } else {
                match (a.float_bits, b.float_bits()) {
                    (Some(m), Some(n)) => floats_equal(m, n),
                    _ => false,
                }
            }
        },
        (YamlValue::Null, JsonValue::Null) => true,
        _ => false,
    }
}

/// The text that a field of the body is compared by: a string's own, else the JSON text.
pub open spec fn field_text(j: JsonView) -> Seq<char> {
    match j {
        JsonView::String(s) => s,
        _ => json::json_text(j),
    }
}

fn text_of_field(j: &JsonValue) -> (r: String)
    ensures
        r@ == field_text(j@),
{
    match j {
        JsonValue::String(s) => s.clone(),
        _ => json::json_to_string(j),
    }
}

/// Whether a value is a list with an item that equals a field.
pub open spec fn lists_value(v: Option<YamlView>, j: JsonView) -> bool {
    match list_of(v) {
        Some(s) => exists|i: int| 0 <= i < s.len() && values_equal(#[trigger] s[i], j),
        None => false,
    }
}

/// Whether a value equals a field.
pub open spec fn equals_value(v: Option<YamlView>, j: JsonView) -> bool {
    match v {
        Some(y) => values_equal(y, j),
        None => false,
    }
}

/// Whether a condition on a field of the body holds; a field that is missing meets the negated
/// operators only. `matched` tells whether the condition's expression is found in the field.
pub open spec fn body_holds(c: ConditionView, j: Option<JsonView>, matched: bool) -> bool {
    if c.operator == "exists"@ {
        j is Some
    } else if c.operator == "not_exists"@ {
        j is None
    } else if c.operator == "equals"@ {
        j is Some && equals_value(c.value, j->0)
    } else if c.operator == "not_equals"@ {
        !(j is Some && equals_value(c.value, j->0))
    } else if c.operator == "contains"@ {
        j is Some && text_contains(c.value, field_text(j->0))
    } else if c.operator == "not_contains"@ {
        !(j is Some && text_contains(c.value, field_text(j->0)))
    } else if c.operator == "in"@ {
        j is Some && lists_value(c.value, j->0)
    } else if c.operator == "not_in"@ {
        !(j is Some && lists_value(c.value, j->0))
    } else if c.operator == "starts_with"@ {
        j is Some && text_starts(c.value, field_text(j->0))
    } else if c.operator == "matches"@ {
        j is Some && matched
    } else {
        false
    }
}

fn value_lists_value(v: &Option<YamlValue>, j: &JsonValue) -> (r: bool)
    ensures
        r == lists_value(yaml::opt_yaml(*v), j@),
{
    if let Some(YamlValue::Sequence(s)) = v {
        proof {
            yaml::lemma_yaml_list(v->0);
        }
        let mut i: usize = 0;
        while i < s.len()
            invariant
                i <= s@.len(),
                list_of(yaml::opt_yaml(*v)) == Some(yaml::yaml_list(s@)),
                forall|k: int|
                    0 <= k < i ==> !values_equal(#[trigger] yaml::yaml_list(s@)[k], j@),
            decreases s@.len() - i,
        {
            if value_equal(&s[i], j) {
                assert(values_equal(list_of(yaml::opt_yaml(*v))->0[i as int], j@));
                return true;
            }
            i += 1;
        }
        false
    } else {
        false
    }
}

fn value_equals_value(v: &Option<YamlValue>, j: &JsonValue) -> (r: bool)
    ensures
        r == equals_value(yaml::opt_yaml(*v), j@),
{
    match v {
        Some(y) => value_equal(y, j),
        None => false,
    }
}

fn match_body_condition(c: &Condition, field: Option<&JsonValue>, matched: bool) -> (r: bool)
    ensures
        r == body_holds(
            c@,
            match field {
                Some(j) => Some(j@),
                None => None,
            },
            matched,
        ),
{
    let op = c.operator.as_str();
    if text::same(op, "exists") {
        field.is_some()
    } else if text::same(op, "not_exists") {
        field.is_none()
    } else if text::same(op, "equals") {
        match field {
            Some(j) => value_equals_value(&c.value, j),
            None => false,
        }
    } else if text::same(op, "not_equals") {
        match field {
            Some(j) => !value_equals_value(&c.value, j),
            None => true,
        }
    } else if text::same(op, "contains") {
        match field {
            Some(j) => value_in_text(&c.value, text_of_field(j).as_str()),
            None => false,
        }
    } else if text::same(op, "not_contains") {
        match field {
            Some(j) => !value_in_text(&c.value, text_of_field(j).as_str()),
            None => true,
        }
    } else if text::same(op, "in") {
        match field {
            Some(j) => value_lists_value(&c.value, j),
            None => false,
        }
    } else if text::same(op, "not_in") {
        match field {
            Some(j) => !value_lists_value(&c.value, j),
            None => true,
        }
    } else if text::same(op, "starts_with") {
        match field {
            Some(j) => value_starts_text(&c.value, text_of_field(j).as_str()),
            None => false,
        }
    } else if text::same(op, "matches") {
        field.is_some() && matched
    } else {
        false
    }
}

/// The field of the body at the end of a dotted path.
pub open spec fn body_field(body: Option<JsonView>, path: Seq<char>) -> Option<JsonView> {
    match body {
        Some(b) => json::lookup(b, text::split(path, '.')),
        None => None,
    }
}

/// The name of the header that a condition looks at.
pub open spec fn header_name(field: Seq<char>) -> Option<Seq<char>> {
    if text::begins_with(field, "header."@) {
        Some(field.skip(7))
    } else {
        None
    }
}

/// The dotted path of the body's field that a condition looks at.
pub open spec fn body_path(field: Seq<char>) -> Option<Seq<char>> {
    if text::begins_with(field, "body."@) {
        Some(field.skip(5))
    } else {
        None
    }
}

fn read_header_name(field: &str) -> (r: Option<String>)
    ensures
        text::opt_text(r) == header_name(field@),
{
    proof {
        reveal_strlit("header.");
    }
    let chars = text::chars_of(field);
    if !text::has_prefix(chars.as_slice(), text::chars_of("header.").as_slice()) {
        return None;
    }
    let name = text::string_of(slice_subrange(chars.as_slice(), 7, chars.len()));
    assert(name@ =~= field@.skip(7));
    Some(name)
}

fn read_body_path(field: &str) -> (r: Option<String>)
    ensures
        text::opt_text(r) == body_path(field@),
{
    proof {
        reveal_strlit("body.");
    }
    let chars = text::chars_of(field);
    if !text::has_prefix(chars.as_slice(), text::chars_of("body.").as_slice()) {
        return None;
    }
    let path = text::string_of(slice_subrange(chars.as_slice(), 5, chars.len()));
    assert(path@ =~= field@.skip(5));
    Some(path)
}

fn find_field<'a>(body: &'a Option<JsonValue>, path: &str) -> (r: Option<&'a JsonValue>)
    ensures
        match r {
            Some(j) => body_field(json::opt_json(*body), path@) == Some(j@),
            None => body_field(json::opt_json(*body), path@) is None,
        },
{
    match body {
        Some(b) => json::json_get(b, path),
        None => None,
    }
}

/// What it takes to evaluate a condition beyond the request: whether its expression is found in
/// what it looks at, the client's address, and the networks that its value lists.
#[derive(Debug)]
pub struct Findings {
    pub matched: bool,
    pub client: Option<ClientAddress>,
    pub networks: Vec<Cidr>,
}

/// What [`Findings`] stand for.
pub struct FindingsView {
    pub matched: bool,
    pub client: Option<(IpAddress, Seq<char>)>,
    pub networks: Seq<Cidr>,
}

impl View for Findings {
    type V = FindingsView;

    open spec fn view(&self) -> FindingsView {
        FindingsView {
            matched: self.matched,
            client: client_view(self.client),
            networks: self.networks@,
        }
    }
}

/// Whether a condition holds of a request, given the findings.
pub open spec fn holds_given(c: ConditionView, ctx: ContextView, f: FindingsView) -> bool {
    if c.field == "method"@ {
        method_holds(c, ctx.method)
    } else if c.field == "path"@ {
        path_holds(c, ctx.path, f.matched)
    } else if c.field == "client_ip"@ {
        ip_holds(c, f.client, f.networks)
    } else if header_name(c.field) is Some {
        header_holds(c, header_value(ctx.headers, header_name(c.field)->0), f.matched)
    } else if body_path(c.field) is Some {
        body_holds(c, body_field(ctx.body_json, body_path(c.field)->0), f.matched)
    } else {
        false
    }
}

/// The text in which a condition looks for its expression.
pub open spec fn searched_text(c: ConditionView, ctx: ContextView) -> Option<Seq<char>> {
    if c.field == "path"@ {
        Some(ctx.path)
    } else if header_name(c.field) is Some {
        header_value(ctx.headers, header_name(c.field)->0)
    } else if body_path(c.field) is Some {
        match body_field(ctx.body_json, body_path(c.field)->0) {
            Some(j) => Some(field_text(j)),
            None => None,
        }
    } else {
        None
    }
}

/// What is found of a condition and a request.
pub open spec fn findings_of(c: ConditionView, ctx: ContextView) -> FindingsView {
    FindingsView {
        matched: match searched_text(c, ctx) {
            Some(t) => text_matches(c.value, t),
            None => false,
        },
        client: match addresses::ip_parse(ctx.client_ip) {
            Some(a) => Some((a, addresses::ip_text(a))),
            None => None,
        },
        networks: addresses::cidrs_of(listed_texts(c.value)),
    }
}

/// Whether a condition holds of a request.
pub open spec fn condition_holds(c: ConditionView, ctx: ContextView) -> bool {
    holds_given(c, ctx, findings_of(c, ctx))
}

/// Whether a condition holds of a request, given the findings.
pub fn evaluate_given(condition: &Condition, ctx: &EvaluationContext, findings: &Findings) -> (r:
    bool)
    requires
        addresses::valid_cidrs(findings.networks@),
    ensures
        r == holds_given(condition@, ctx@, findings@),
{
    let field = condition.field.as_str();
    if text::same(field, "method") {
        return match_method_condition(condition, ctx.method.as_str());
    }
    if text::same(field, "path") {
        return match_path_condition(condition, ctx.path.as_str(), findings.matched);
    }
    if text::same(field, "client_ip") {
        return match_ip_condition(condition, &findings.client, &findings.networks);
    }
    if let Some(name) = read_header_name(field) {
        let found = find_header(&ctx.headers, name.as_str());
        return match_header_condition(condition, found, findings.matched);
    }
    if let Some(path) = read_body_path(field) {
        let found = find_field(&ctx.body_json, path.as_str());
        return match_body_condition(condition, found, findings.matched);
    }
    false
}

/// Whether the expression of a condition is found in what it looks at.
fn search_expression(condition: &Condition, ctx: &EvaluationContext) -> (r: bool)
    ensures
        r == findings_of(condition@, ctx@).matched,
{
    let field = condition.field.as_str();
    if text::same(field, "path") {
        return value_matches_text(&condition.value, ctx.path.as_str());
    }
    if let Some(name) = read_header_name(field) {
        return match find_header(&ctx.headers, name.as_str()) {
            Some(v) => value_matches_text(&condition.value, v),
            None => false,
        };
    }
    if let Some(path) = read_body_path(field) {
        return match find_field(&ctx.body_json, path.as_str()) {
            Some(j) => value_matches_text(&condition.value, text_of_field(j).as_str()),
            None => false,
        };
    }
    false
}

/// Whether a condition holds of a request. An expression is searched for, and addresses are read,
/// only where the condition asks for it.
pub fn evaluate_condition(condition: &Condition, ctx: &EvaluationContext) -> (r: bool)
    ensures
        r == condition_holds(condition@, ctx@),
{
    let op = condition.operator.as_str();
    let searches = text::same(op, "matches") || text::same(op, "not_matches");
    let matched = searches && search_expression(condition, ctx);
    let mut client: Option<ClientAddress> = None;
    let mut networks: Vec<Cidr> = Vec::new();
    if text::same(condition.field.as_str(), "client_ip") {
        if let Some(ip) = addresses::parse_ip(ctx.client_ip.as_str()) {
            client = Some(ClientAddress { ip, written: addresses::ip_to_string(ip) });
        }
        networks = addresses::parse_trusted_proxies(&read_texts(&condition.value));
    }
    let findings = Findings { matched, client, networks };
    evaluate_given(condition, ctx, &findings)
}

/// Whether a tree of conditions holds of a request: all of an `and`, one of an `or`.
pub open spec fn node_holds(n: NodeView, ctx: ContextView) -> bool
    decreases n,
{
    match n {
        NodeView::Leaf(c) => condition_holds(c, ctx),
        NodeView::And(v) => forall|i: int| 0 <= i < v.len() ==> node_holds(#[trigger] v[i], ctx),
        NodeView::Or(v) => exists|i: int| 0 <= i < v.len() && node_holds(#[trigger] v[i], ctx),
    }
}

/// Whether all of the trees hold of a request.
pub open spec fn all_hold(v: Seq<NodeView>, ctx: ContextView) -> bool {
    forall|i: int| 0 <= i < v.len() ==> node_holds(#[trigger] v[i], ctx)
}

/// Whether a tree of conditions holds of a request.
pub fn evaluate_node(node: &ConditionNode, ctx: &EvaluationContext) -> (r: bool)
    ensures
        r == node_holds(node@, ctx@),
    decreases node,
{
    proof {
        config::lemma_node_view(*node);
    }
    match node {
        ConditionNode::Leaf(c) => evaluate_condition(c, ctx),
        ConditionNode::And { and } => {
            let ghost list = config::node_list(and@);
            let mut i: usize = 0;
            while i < and.len()
                invariant
                    i <= and@.len(),
                    *node is And,
                    node->and == *and,
                    list == config::node_list(and@),
                    node@ == NodeView::And(list),
                    forall|j: int| 0 <= j < i ==> node_holds(#[trigger] list[j], ctx@),
                decreases and@.len() - i,
            {
                assert(decreases_to!(node => node->and@[i as int]));
                assert(list[i as int] == and@[i as int]@);
                if !evaluate_node(&and[i], ctx) {
                    assert(!node_holds(node@->And_0[i as int], ctx@));
                    return false;
                }
                i += 1;
            }
            true
        },
        ConditionNode::Or { or } => {
            let ghost list = config::node_list(or@);
            let mut i: usize = 0;
            while i < or.len()
                invariant
                    i <= or@.len(),
                    *node is Or,
                    node->or == *or,
                    list == config::node_list(or@),
                    node@ == NodeView::Or(list),
                    forall|j: int| 0 <= j < i ==> !node_holds(#[trigger] list[j], ctx@),
                decreases or@.len() - i,
            {
                assert(decreases_to!(node => node->or@[i as int]));
                assert(list[i as int] == or@[i as int]@);
                if evaluate_node(&or[i], ctx) {
                    assert(node_holds(node@->Or_0[i as int], ctx@));
                    return true;
                }
                i += 1;
            }
            false
        },
    }
}

/// Whether all of the trees hold of a request.
pub fn evaluate_all(nodes: &Vec<ConditionNode>, ctx: &EvaluationContext) -> (r: bool)
    ensures
        r == all_hold(config::node_list(nodes@), ctx@),
{
    let ghost list = config::node_list(nodes@);
    let mut i: usize = 0;
    while i < nodes.len()
        invariant
            i <= nodes@.len(),
            list == config::node_list(nodes@),
            forall|j: int| 0 <= j < i ==> node_holds(#[trigger] list[j], ctx@),
        decreases nodes@.len() - i,
    {
        assert(list[i as int] == nodes@[i as int]@);
        if !evaluate_node(&nodes[i], ctx) {
            return false;
        }
        i += 1;
    }
    true
}

/// A condition with this field, operator and value.
pub open spec fn condition_with(
    field: Seq<char>,
    operator: Seq<char>,
    value: Option<YamlView>,
) -> ConditionView {
    ConditionView { field, operator, value, compiled: None }
}

/// Whether a field is the path.
pub open spec fn is_path_field(field: Seq<char>) -> bool {
    field == "path"@
}

/// Whether a field is a header.
pub open spec fn is_header_field(field: Seq<char>) -> bool {
    text::begins_with(field, "header."@)
}

/// Whether a field is one of the body.
pub open spec fn is_body_field(field: Seq<char>) -> bool {
    text::begins_with(field, "body."@)
}

/// Whether a condition can look at a field.
pub open spec fn is_known_field(field: Seq<char>) -> bool {
    ||| field == "method"@
    ||| is_path_field(field)
    ||| field == "client_ip"@
    ||| is_header_field(field)
    ||| is_body_field(field)
}

proof fn lemma_operators()
    ensures
        "equals"@.len() == 6 && "equals"@[0] == 'e' && "equals"@[1] == 'q',
        "exists"@.len() == 6 && "exists"@[0] == 'e' && "exists"@[1] == 'x',
        "not_in"@.len() == 6 && "not_in"@[0] == 'n',
        "not_equals"@.len() == 10 && "not_equals"@[5] == 'q',
        "not_exists"@.len() == 10 && "not_exists"@[5] == 'x',
        "contains"@.len() == 8,
        "not_contains"@.len() == 12,
        "starts_with"@.len() == 11 && "starts_with"@[0] == 's',
        "not_matches"@.len() == 11 && "not_matches"@[0] == 'n',
        "ends_with"@.len() == 9,
        "matches"@.len() == 7,
        "in"@.len() == 2,
{
    reveal_strlit("equals");
    reveal_strlit("exists");
    reveal_strlit("not_in");
    reveal_strlit("not_equals");
    reveal_strlit("not_exists");
    reveal_strlit("contains");
    reveal_strlit("not_contains");
    reveal_strlit("starts_with");
    reveal_strlit("not_matches");
    reveal_strlit("ends_with");
    reveal_strlit("matches");
    reveal_strlit("in");
}

proof fn lemma_fields(field: Seq<char>)
    ensures
        is_path_field(field) ==> field != "method"@ && field != "client_ip"@ && !is_header_field(
            field,
        ) && !is_body_field(field),
        is_header_field(field) ==> field != "method"@ && field != "client_ip"@ && !is_body_field(
            field,
        ),
        is_body_field(field) ==> field != "method"@ && field != "client_ip"@,
{
    reveal_strlit("method");
    reveal_strlit("client_ip");
    reveal_strlit("path");
    reveal_strlit("header.");
    reveal_strlit("body.");
    if is_header_field(field) {
        assert(field[0] == "header."@[0]);
    }
    if is_body_field(field) {
        assert(field[0] == "body."@[0]);
    }
}

/// Each negated operator holds exactly where the other does not, on the fields to which it
/// applies.
pub proof fn law_negated_operators(field: Seq<char>, value: Option<YamlView>, ctx: ContextView)
    requires
        is_known_field(field),
    ensures
        condition_holds(condition_with(field, "not_equals"@, value), ctx) == !condition_holds(
            condition_with(field, "equals"@, value),
            ctx,
        ),
        condition_holds(condition_with(field, "not_in"@, value), ctx) == !condition_holds(
            condition_with(field, "in"@, value),
            ctx,
        ),
        is_path_field(field) || is_header_field(field) || is_body_field(field) ==> condition_holds(
            condition_with(field, "not_contains"@, value),
            ctx,
        ) == !condition_holds(condition_with(field, "contains"@, value), ctx),
        is_path_field(field) || is_header_field(field) ==> condition_holds(
            condition_with(field, "not_matches"@, value),
            ctx,
        ) == !condition_holds(condition_with(field, "matches"@, value), ctx),
        is_header_field(field) || is_body_field(field) ==> condition_holds(
            condition_with(field, "not_exists"@, value),
            ctx,
        ) == !condition_holds(condition_with(field, "exists"@, value), ctx),
{
    lemma_operators();
    lemma_fields(field);
}

/// A list of condition trees holds exactly where an `and` group of them does.
pub proof fn law_conditions_are_joined_by_and(v: Seq<NodeView>, ctx: ContextView)
    ensures
        all_hold(v, ctx) == node_holds(NodeView::And(v), ctx),
{
    let n = NodeView::And(v);
    assert(n->And_0 == v);
    if node_holds(n, ctx) {
        assert forall|i: int| 0 <= i < v.len() implies node_holds(#[trigger] v[i], ctx) by {
            assert(node_holds(n->And_0[i], ctx));
        }
    }
}

/// A condition that a field of the body contains a text looks into lists: it holds where one of
/// the list's strings contains the text and nothing in the text needs escaping.
pub proof fn law_contains_looks_into_lists(
    c: ConditionView,
    a: Seq<JsonView>,
    i: int,
    s: Seq<char>,
    part: Seq<char>,
    matched: bool,
)
    requires
        c.operator == "contains"@,
        c.value == Some(YamlView::String(part)),
        0 <= i < a.len(),
        a[i] == JsonView::String(s),
        text::contains_text(s, part),
        json::quoted_chars(part) == part,
    ensures
        body_holds(c, Some(JsonView::Array(a)), matched),
{
    lemma_operators();
    let stored = json::json_stored(JsonView::Array(a))->Array_0;
    assert(stored[i] == a[i]) by {
        reveal_with_fuel(json::json_stored, 2);
    }
    json::law_array_text_holds_its_strings(stored, i, s, part);
}

/// The name of a header may be written in any case.
pub proof fn law_header_names_ignore_case(
    h: Seq<(Seq<char>, Seq<char>)>,
    a: Seq<char>,
    b: Seq<char>,
)
    requires
        text::same_ignoring_case(a, b),
    ensures
        header_value(h, a) == header_value(h, b),
    decreases h.len(),
{
    if h.len() > 0 {
        law_header_names_ignore_case(h.skip(1), a, b);
    }
}

/// A condition that the path starts with a text holds exactly where that text is what the path's
/// first characters are: not where the path is shorter, and not where one of them differs.
pub proof fn law_path_starts_with(c: ConditionView, ctx: ContextView, v: YamlView, t: Seq<char>)
    requires
        c.field == "path"@,
        c.operator == "starts_with"@,
        c.value == Some(v),
        yaml::yaml_text(v) == Some(t),
    ensures
        condition_holds(c, ctx) <==> t.len() <= ctx.path.len() && ctx.path.take(t.len() as int)
            == t,
        forall|i: int|
            0 <= i < t.len() && (i >= ctx.path.len() || ctx.path[i] != #[trigger] t[i])
                ==> !condition_holds(c, ctx),
{
    lemma_operators();
    lemma_fields(c.field);
    text::law_beginning(ctx.path, t);
    assert forall|i: int|
        0 <= i < t.len() && (i >= ctx.path.len() || ctx.path[i] != #[trigger] t[i]) implies
        !condition_holds(c, ctx) by {
        if condition_holds(c, ctx) {
            assert(ctx.path.take(t.len() as int)[i] == ctx.path[i]);
        }
    }
}

/// The operators on the path, with a scalar of text `t`: `equals` holds where the path is `t`,
/// `contains` where something before and something after `t` make up the path, `ends_with` where
/// the path is something and then `t`, and `matches` where the expression `t` is found in it.
pub proof fn law_path_and_a_text(c: ConditionView, ctx: ContextView, v: YamlView, t: Seq<char>)
    requires
        c.field == "path"@,
        c.value == Some(v),
        yaml::yaml_text(v) == Some(t),
    ensures
        c.operator == "equals"@ ==> (condition_holds(c, ctx) <==> ctx.path == t),
        c.operator == "contains"@ ==> (condition_holds(c, ctx) <==> exists|a: Seq<char>, b: Seq<char>|
            ctx.path == #[trigger] (a + t + b)),
        c.operator == "ends_with"@ ==> (condition_holds(c, ctx) <==> t.len() <= ctx.path.len()
            && ctx.path.skip(ctx.path.len() - t.len()) == t),
        c.operator == "matches"@ ==> (condition_holds(c, ctx) <==> pattern::found(t, ctx.path)),
{
    lemma_operators();
    lemma_fields(c.field);
    text::law_containing(ctx.path, t);
    text::law_end(ctx.path, t);
}

/// The path is in a list exactly where one of the list's scalars has its text.
pub proof fn law_path_in_a_list(c: ConditionView, ctx: ContextView, list: Seq<YamlView>)
    requires
        c.field == "path"@,
        c.operator == "in"@,
        c.value == Some(YamlView::Sequence(list)),
    ensures
        condition_holds(c, ctx) <==> exists|i: int|
            0 <= i < list.len() && yaml::yaml_text(#[trigger] list[i]) == Some(ctx.path),
{
    lemma_operators();
    lemma_fields(c.field);
}

/// A condition on the path, a header or the method whose value is no scalar, or is missing, is
/// met by no text: `equals`, `contains`, `starts_with`, `ends_with` and `matches` all fail. One
/// that asks for a list fails where the value is none.
pub proof fn law_conditions_without_a_usable_value_fail(c: ConditionView, ctx: ContextView)
    requires
        c.field == "path"@ || c.field == "method"@ || is_header_field(c.field),
    ensures
        (c.value is None || yaml::yaml_text(c.value->0) is None) && (c.operator == "equals"@
            || c.operator == "contains"@ || c.operator == "starts_with"@ || c.operator
            == "ends_with"@ || c.operator == "matches"@) ==> !condition_holds(c, ctx),
        !(c.value matches Some(YamlView::Sequence(_))) && c.operator == "in"@ ==> !condition_holds(
            c,
            ctx,
        ),
{
    lemma_operators();
    lemma_fields(c.field);
}

/// The method's name is compared without regard to case: with a scalar's text, or with the texts
/// in a list.
pub proof fn law_method_conditions(
    c: ConditionView,
    ctx: ContextView,
    v: YamlView,
    t: Seq<char>,
    list: Seq<YamlView>,
)
    requires
        c.field == "method"@,
    ensures
        c.operator == "equals"@ && c.value == Some(v) && yaml::yaml_text(v) == Some(t) ==> (
        condition_holds(c, ctx) <==> text::same_ignoring_case(ctx.method, t)),
        c.operator == "in"@ && c.value == Some(YamlView::Sequence(list)) ==> (condition_holds(
            c,
            ctx,
        ) <==> exists|i: int|
            0 <= i < list.len() && yaml::yaml_text(#[trigger] list[i]) is Some
                && text::same_ignoring_case(ctx.method, yaml::yaml_text(list[i])->0)),
{
    lemma_operators();
    if c.operator == "in"@ && c.value == Some(YamlView::Sequence(list)) {
        if condition_holds(c, ctx) {
            let i = choose|i: int|
                0 <= i < list.len() && names_method(
                    yaml::yaml_text(#[trigger] list[i]),
                    ctx.method,
                );
            assert(yaml::yaml_text(list[i]) is Some);
        }
    }
}

/// The value of a header is that of the first one of the name.
pub proof fn law_first_header_of_a_name_counts(
    h: Seq<(Seq<char>, Seq<char>)>,
    name: Seq<char>,
    i: int,
)
    requires
        0 <= i <= h.len(),
        forall|k: int| 0 <= k < i ==> !text::same_ignoring_case(#[trigger] h[k].0, name),
    ensures
        i < h.len() && text::same_ignoring_case(h[i].0, name) ==> header_value(h, name) == Some(
            h[i].1,
        ),
        i == h.len() ==> header_value(h, name) is None,
    decreases h.len(),
{
    if i > 0 {
        assert(!text::same_ignoring_case(h[0].0, name));
        let rest = h.skip(1);
        assert forall|k: int| 0 <= k < i - 1 implies !text::same_ignoring_case(
            #[trigger] rest[k].0,
            name,
        ) by {
            assert(rest[k] == h[k + 1]);
        }
        law_first_header_of_a_name_counts(rest, name, i - 1);
        if i < h.len() {
            assert(rest[i - 1] == h[i]);
        }
    }
}

proof fn lemma_header_field(field: Seq<char>, name: Seq<char>)
    requires
        field == "header."@ + name,
    ensures
        is_header_field(field),
        header_name(field) == Some(name),
{
    reveal_strlit("header.");
    assert(field.subrange(0, 7) =~= "header."@);
    assert(field.skip(7) =~= name);
}

proof fn lemma_body_field(field: Seq<char>, path: Seq<char>)
    requires
        field == "body."@ + path,
    ensures
        is_body_field(field),
        body_path(field) == Some(path),
{
    reveal_strlit("body.");
    assert(field.subrange(0, 5) =~= "body."@);
    assert(field.skip(5) =~= path);
}

/// The operators on a header that is there and has the value `s`, with a scalar of text `t`:
/// `equals` holds where `s` is `t`, `contains` where something before and something after `t` make
/// up `s`, `starts_with` and `ends_with` where `t` is what the first or the last characters of `s`
/// are, and `matches` where the expression `t` is found in `s`.
pub proof fn law_header_and_a_text(
    c: ConditionView,
    ctx: ContextView,
    name: Seq<char>,
    s: Seq<char>,
    v: YamlView,
    t: Seq<char>,
)
    requires
        c.field == "header."@ + name,
        header_value(ctx.headers, name) == Some(s),
        c.value == Some(v),
        yaml::yaml_text(v) == Some(t),
    ensures
        c.operator == "equals"@ ==> (condition_holds(c, ctx) <==> s == t),
        c.operator == "contains"@ ==> (condition_holds(c, ctx) <==> exists|a: Seq<char>, b: Seq<char>|
            s == #[trigger] (a + t + b)),
        c.operator == "starts_with"@ ==> (condition_holds(c, ctx) <==> t.len() <= s.len() && s.take(
            t.len() as int,
        ) == t),
        c.operator == "ends_with"@ ==> (condition_holds(c, ctx) <==> t.len() <= s.len() && s.skip(
            s.len() - t.len(),
        ) == t),
        c.operator == "matches"@ ==> (condition_holds(c, ctx) <==> pattern::found(t, s)),
{
    lemma_operators();
    lemma_header_field(c.field, name);
    lemma_fields(c.field);
    text::law_containing(s, t);
    text::law_beginning(s, t);
    text::law_end(s, t);
}

/// A header that is there is in a list exactly where one of the list's scalars has its text.
pub proof fn law_header_in_a_list(
    c: ConditionView,
    ctx: ContextView,
    name: Seq<char>,
    s: Seq<char>,
    list: Seq<YamlView>,
)
    requires
        c.field == "header."@ + name,
        header_value(ctx.headers, name) == Some(s),
        c.operator == "in"@,
        c.value == Some(YamlView::Sequence(list)),
    ensures
        condition_holds(c, ctx) <==> exists|i: int|
            0 <= i < list.len() && yaml::yaml_text(#[trigger] list[i]) == Some(s),
{
    lemma_operators();
    lemma_header_field(c.field, name);
    lemma_fields(c.field);
}

/// A header that is missing, whatever the condition's value: `exists` and the operators that ask
/// for a text fail, and their negations hold. Of one that is there, `exists` holds.
pub proof fn law_missing_and_present_headers(c: ConditionView, ctx: ContextView, name: Seq<char>)
    requires
        c.field == "header."@ + name,
    ensures
        c.operator == "exists"@ ==> (condition_holds(c, ctx) <==> header_value(
            ctx.headers,
            name,
        ) is Some),
        header_value(ctx.headers, name) is None ==> {
            &&& c.operator == "equals"@ || c.operator == "contains"@ || c.operator
                == "starts_with"@ || c.operator == "ends_with"@ || c.operator == "matches"@
                || c.operator == "in"@ ==> !condition_holds(c, ctx)
            &&& c.operator == "not_equals"@ || c.operator == "not_contains"@ || c.operator
                == "not_matches"@ || c.operator == "not_in"@ || c.operator == "not_exists"@
                ==> condition_holds(c, ctx)
        },
{
    lemma_operators();
    lemma_header_field(c.field, name);
    lemma_fields(c.field);
}

/// The operators on a field of the body that is there, with a scalar of text `t`. The field is
/// compared by its text, a string's own and that of any other value as JSON: `contains` holds where
/// something before and something after `t` make it up, `starts_with` where `t` is what its first
/// characters are, and `matches` where the expression `t` is found in it.
pub proof fn law_body_field_and_a_text(
    c: ConditionView,
    ctx: ContextView,
    path: Seq<char>,
    b: JsonView,
    j: JsonView,
    s: Seq<char>,
    v: YamlView,
    t: Seq<char>,
)
    requires
        c.field == "body."@ + path,
        ctx.body_json == Some(b),
        json::lookup(b, text::split(path, '.')) == Some(j),
        s == (if j is String {
            j->String_0
        } else {
            json::json_text(j)
        }),
        c.value == Some(v),
        yaml::yaml_text(v) == Some(t),
    ensures
        c.operator == "contains"@ ==> (condition_holds(c, ctx) <==> exists|x: Seq<char>, y: Seq<char>|
            s == #[trigger] (x + t + y)),
        c.operator == "starts_with"@ ==> (condition_holds(c, ctx) <==> t.len() <= s.len() && s.take(
            t.len() as int,
        ) == t),
        c.operator == "matches"@ ==> (condition_holds(c, ctx) <==> pattern::found(t, s)),
{
    lemma_operators();
    lemma_body_field(c.field, path);
    lemma_fields(c.field);
    text::law_containing(s, t);
    text::law_beginning(s, t);
}

/// A field of the body equals a string, a boolean or a null exactly where it is that string, that
/// boolean or a null.
pub proof fn law_body_field_equals_a_value(
    c: ConditionView,
    ctx: ContextView,
    path: Seq<char>,
    b: JsonView,
    j: JsonView,
    t: Seq<char>,
    flag: bool,
)
    requires
        c.field == "body."@ + path,
        ctx.body_json == Some(b),
        json::lookup(b, text::split(path, '.')) == Some(j),
        c.operator == "equals"@,
    ensures
        c.value == Some(YamlView::String(t)) ==> (condition_holds(c, ctx) <==> j == JsonView::String(
            t,
        )),
        c.value == Some(YamlView::Bool(flag)) ==> (condition_holds(c, ctx) <==> j == JsonView::Bool(
            flag,
        )),
        c.value == Some(YamlView::Null) ==> (condition_holds(c, ctx) <==> j == JsonView::Null),
        c.value is None || c.value->0 is Sequence || c.value->0 is Other ==> !condition_holds(
            c,
            ctx,
        ),
{
    lemma_operators();
    lemma_body_field(c.field, path);
    lemma_fields(c.field);
}

/// A number of the body equals a number of a condition: a signed integer where the other is the
/// same signed integer, a larger one where the other is the same unsigned integer, and any other
/// where both have a floating-point value and these are equal. A number equals nothing else.
pub proof fn law_body_number_equals_a_number(
    c: ConditionView,
    ctx: ContextView,
    path: Seq<char>,
    b: JsonView,
    j: JsonView,
    n: YamlNumberView,
)
    requires
        c.field == "body."@ + path,
        ctx.body_json == Some(b),
        json::lookup(b, text::split(path, '.')) == Some(j),
        c.operator == "equals"@,
        c.value == Some(YamlView::Number(n)),
    ensures
        condition_holds(c, ctx) ==> j is Number,
        j is Number && j->Number_0.int is Some ==> (condition_holds(c, ctx) <==> n.int
            == j->Number_0.int),
        j is Number && j->Number_0.int is None && j->Number_0.uint is Some ==> (condition_holds(
            c,
            ctx,
        ) <==> n.uint == j->Number_0.uint),
        j is Number && j->Number_0.int is None && j->Number_0.uint is None ==> {
            &&& condition_holds(c, ctx) ==> n.float_bits is Some && j->Number_0.float_bits is Some
            &&& n.float_bits is Some && j->Number_0.float_bits is Some ==> (condition_holds(c, ctx)
                <==> float_equal(n.float_bits->0, j->Number_0.float_bits->0))
        },
{
    lemma_operators();
    lemma_body_field(c.field, path);
    lemma_fields(c.field);
}

/// Equality of floating-point numbers, by their bits: a number equals itself and nothing but
/// itself, except that the zeros of either sign are equal; what is no number equals nothing.
pub proof fn law_equality_of_floats(a: u64, b: u64)
    ensures
        float_equal(0, 0x8000_0000_0000_0000),
        float_equal(a, b) == float_equal(b, a),
        float_equal(a, a) <==> a <= 0x7ff0_0000_0000_0000 || 0x8000_0000_0000_0000 <= a
            <= 0xfff0_0000_0000_0000,
        float_equal(a, b) && a != b ==> (a == 0 || a == 0x8000_0000_0000_0000) && (b == 0 || b
            == 0x8000_0000_0000_0000),
        float_equal(a, b) ==> float_equal(a, a),
{
}

/// A field of the body is in a list exactly where it equals one of the list's items.
pub proof fn law_body_field_in_a_list(
    c: ConditionView,
    ctx: ContextView,
    path: Seq<char>,
    list: Seq<YamlView>,
)
    requires
        c.field == "body."@ + path,
        c.operator == "in"@,
        c.value == Some(YamlView::Sequence(list)),
    ensures
        condition_holds(c, ctx) <==> exists|i: int|
            0 <= i < list.len() && condition_holds(
                condition_with(c.field, "equals"@, Some(#[trigger] list[i])),
                ctx,
            ),
{
    lemma_operators();
    lemma_body_field(c.field, path);
    lemma_fields(c.field);
    let j = body_field(ctx.body_json, path);
    assert forall|i: int| 0 <= i < list.len() implies condition_holds(
        condition_with(c.field, "equals"@, Some(#[trigger] list[i])),
        ctx,
    ) == (j is Some && values_equal(list[i], j->0)) by {}
    if condition_holds(c, ctx) {
        let i = choose|i: int| 0 <= i < list.len() && values_equal(#[trigger] list[i], j->0);
        assert(condition_holds(condition_with(c.field, "equals"@, Some(list[i])), ctx));
    }
    if exists|i: int|
        0 <= i < list.len() && condition_holds(
            condition_with(c.field, "equals"@, Some(#[trigger] list[i])),
            ctx,
        ) {
        let i = choose|i: int|
            0 <= i < list.len() && condition_holds(
                condition_with(c.field, "equals"@, Some(#[trigger] list[i])),
                ctx,
            );
        assert(j is Some && values_equal(list_of(c.value)->0[i], j->0));
    }
}

/// A field of the body that is missing, because there is no body or nothing at the end of its
/// path: `exists` and the operators that ask for a value fail, and their negations hold. Of one
/// that is there, `exists` holds.
pub proof fn law_missing_and_present_body_fields(
    c: ConditionView,
    ctx: ContextView,
    path: Seq<char>,
    b: JsonView,
)
    requires
        c.field == "body."@ + path,
    ensures
        ctx.body_json is None || (ctx.body_json == Some(b) && json::lookup(b, text::split(path, '.'))
            is None) ==> {
            &&& c.operator == "exists"@ || c.operator == "equals"@ || c.operator == "contains"@
                || c.operator == "starts_with"@ || c.operator == "matches"@ || c.operator == "in"@
                ==> !condition_holds(c, ctx)
            &&& c.operator == "not_exists"@ || c.operator == "not_equals"@ || c.operator
                == "not_contains"@ || c.operator == "not_in"@ ==> condition_holds(c, ctx)
        },
        ctx.body_json == Some(b) && json::lookup(b, text::split(path, '.')) is Some ==> {
            &&& c.operator == "exists"@ ==> condition_holds(c, ctx)
            &&& c.operator == "not_exists"@ ==> !condition_holds(c, ctx)
        },
{
    lemma_operators();
    lemma_body_field(c.field, path);
    lemma_fields(c.field);
}

/// The client's address is compared as it is written in its usual form; a text that is no address
/// equals nothing.
pub proof fn law_client_address_equals_a_text(
    c: ConditionView,
    ctx: ContextView,
    v: YamlView,
    t: Seq<char>,
)
    requires
        c.field == "client_ip"@,
        c.operator == "equals"@,
        c.value == Some(v),
        yaml::yaml_text(v) == Some(t),
    ensures
        match addresses::ip_parse(ctx.client_ip) {
            Some(a) => condition_holds(c, ctx) <==> addresses::ip_text(a) == t,
            None => !condition_holds(c, ctx),
        },
{
    lemma_operators();
    reveal_strlit("method");
    reveal_strlit("client_ip");
    reveal_strlit("path");
}

/// The client's address is in a list exactly where it is in one of the networks that the list's
/// scalars name; where they name none, exactly where one of them is the address as it is written.
/// What is no address is in no list.
pub proof fn law_client_address_in_a_list(c: ConditionView, ctx: ContextView, a: IpAddress, i: int)
    requires
        c.field == "client_ip"@,
        c.operator == "in"@,
    ensures
        addresses::ip_parse(ctx.client_ip) is None ==> !condition_holds(c, ctx),
        addresses::ip_parse(ctx.client_ip) == Some(a) && addresses::cidrs_of(
            listed_texts(c.value),
        ).len() == 0 ==> (condition_holds(c, ctx) <==> listed_texts(c.value).contains(
            addresses::ip_text(a),
        )),
        addresses::ip_parse(ctx.client_ip) == Some(a) && 0 <= i < addresses::cidrs_of(
            listed_texts(c.value),
        ).len() && addresses::in_cidr(addresses::cidrs_of(listed_texts(c.value))[i], a)
            ==> condition_holds(c, ctx),
        addresses::ip_parse(ctx.client_ip) == Some(a) && condition_holds(c, ctx)
            && addresses::cidrs_of(listed_texts(c.value)).len() > 0 ==> exists|k: int|
            0 <= k < addresses::cidrs_of(listed_texts(c.value)).len() && addresses::in_cidr(
                #[trigger] addresses::cidrs_of(listed_texts(c.value))[k],
                a,
            ),
{
    lemma_operators();
    reveal_strlit("method");
    reveal_strlit("client_ip");
    reveal_strlit("path");
}

/// What a condition on the client's address lists: the text of a scalar, or those of a list's
/// scalars, each in its place, and nothing for what is no scalar.
pub proof fn law_listed_texts(v: YamlView, list: Seq<YamlView>, more: Seq<YamlView>)
    ensures
        listed_texts(None) == Seq::<Seq<char>>::empty(),
        yaml::yaml_text(v) is Some ==> listed_texts(Some(v)) == seq![yaml::yaml_text(v)->0],
        yaml::yaml_text(v) is Some ==> listed_texts(Some(YamlView::Sequence(seq![v]))) == seq![
            yaml::yaml_text(v)->0,
        ],
        yaml::yaml_text(v) is None ==> listed_texts(Some(YamlView::Sequence(seq![v]))) == Seq::<
            Seq<char>,
        >::empty(),
        listed_texts(Some(YamlView::Sequence(Seq::empty()))) == Seq::<Seq<char>>::empty(),
        listed_texts(Some(YamlView::Sequence(list + more))) == listed_texts(
            Some(YamlView::Sequence(list)),
        ) + listed_texts(Some(YamlView::Sequence(more))),
{
    lemma_scalar_texts(list, more);
    let none = Seq::<YamlView>::empty();
    assert(seq![v].drop_last() =~= none);
    assert(scalar_texts(none) == Seq::<Seq<char>>::empty());
    if yaml::yaml_text(v) is Some {
        assert(scalar_texts(seq![v]) =~= seq![yaml::yaml_text(v)->0]);
    }
}

proof fn lemma_scalar_texts(a: Seq<YamlView>, b: Seq<YamlView>)
    ensures
        scalar_texts(a + b) == scalar_texts(a) + scalar_texts(b),
    decreases b.len(),
{
    if b.len() == 0 {
        assert(a + b =~= a);
        assert(scalar_texts(a) + scalar_texts(b) =~= scalar_texts(a));
    } else {
        lemma_scalar_texts(a, b.drop_last());
        assert((a + b).drop_last() =~= a + b.drop_last());
        assert((a + b).last() == b.last());
        if yaml::yaml_text(b.last()) is Some {
            let t = yaml::yaml_text(b.last())->0;
            assert((scalar_texts(a) + scalar_texts(b.drop_last())).push(t) =~= scalar_texts(a)
                + scalar_texts(b.drop_last()).push(t));
        }
    }
}

/// A condition on a field or with an operator that there is not never holds: the method and the
/// client's address know `equals`, `in` and their negations; the path knows no `exists`; a field
/// of the body knows no `ends_with` and no `not_matches`.
pub proof fn law_unknown_fields_and_operators_never_hold(c: ConditionView, ctx: ContextView)
    ensures
        c.field != "method"@ && c.field != "path"@ && c.field != "client_ip"@ && !(c.field.len()
            >= 7 && c.field.take(7) == "header."@) && !(c.field.len() >= 5 && c.field.take(5)
            == "body."@) ==> !condition_holds(c, ctx),
        c.operator != "equals"@ && c.operator != "not_equals"@ && c.operator != "contains"@
            && c.operator != "not_contains"@ && c.operator != "starts_with"@ && c.operator
            != "ends_with"@ && c.operator != "matches"@ && c.operator != "not_matches"@
            && c.operator != "exists"@ && c.operator != "not_exists"@ && c.operator != "in"@
            && c.operator != "not_in"@ ==> !condition_holds(c, ctx),
        (c.field == "method"@ || c.field == "client_ip"@) && condition_holds(c, ctx) ==> c.operator
            == "equals"@ || c.operator == "not_equals"@ || c.operator == "in"@ || c.operator
            == "not_in"@,
        c.field == "path"@ && (c.operator == "exists"@ || c.operator == "not_exists"@)
            ==> !condition_holds(c, ctx),
        c.field.len() >= 5 && c.field.take(5) == "body."@ && (c.operator == "ends_with"@
            || c.operator == "not_matches"@) ==> !condition_holds(c, ctx),
{
    lemma_operators();
    lemma_fields(c.field);
    reveal_strlit("header.");
    reveal_strlit("body.");
    reveal_strlit("method");
    reveal_strlit("client_ip");
    reveal_strlit("path");
    text::law_beginning(c.field, "header."@);
    text::law_beginning(c.field, "body."@);
}

/// How groups of conditions are put together: a group of one holds where its member does, an
/// `and` group of two parts where both do, an `or` group of two parts where one does. An `and`
/// group of none holds, an `or` group of none does not. A leaf holds where its condition does.
pub proof fn law_groups_of_conditions(
    c: ConditionView,
    n: NodeView,
    a: Seq<NodeView>,
    b: Seq<NodeView>,
    ctx: ContextView,
)
    ensures
        node_holds(NodeView::Leaf(c), ctx) == condition_holds(c, ctx),
        node_holds(NodeView::And(Seq::empty()), ctx),
        !node_holds(NodeView::Or(Seq::empty()), ctx),
        node_holds(NodeView::And(seq![n]), ctx) == node_holds(n, ctx),
        node_holds(NodeView::Or(seq![n]), ctx) == node_holds(n, ctx),
        node_holds(NodeView::And(a + b), ctx) == (node_holds(NodeView::And(a), ctx) && node_holds(
            NodeView::And(b),
            ctx,
        )),
        node_holds(NodeView::Or(a + b), ctx) == (node_holds(NodeView::Or(a), ctx) || node_holds(
            NodeView::Or(b),
            ctx,
        )),
{
    lemma_groups(seq![n], ctx);
    lemma_groups(a, ctx);
    lemma_groups(b, ctx);
    lemma_groups(a + b, ctx);
    lemma_groups(Seq::empty(), ctx);
    assert(seq![n][0] == n);
    let s = a + b;
    if all_hold(s, ctx) {
        assert forall|i: int| 0 <= i < a.len() implies node_holds(#[trigger] a[i], ctx) by {
            assert(s[i] == a[i]);
        }
        assert forall|i: int| 0 <= i < b.len() implies node_holds(#[trigger] b[i], ctx) by {
            assert(s[a.len() + i] == b[i]);
        }
    }
    if all_hold(a, ctx) && all_hold(b, ctx) {
        assert forall|i: int| 0 <= i < s.len() implies node_holds(#[trigger] s[i], ctx) by {
            if i < a.len() {
                assert(s[i] == a[i]);
            } else {
                assert(s[i] == b[i - a.len()]);
            }
        }
    }
    if one_holds(s, ctx) {
        let i = choose|i: int| 0 <= i < s.len() && node_holds(#[trigger] s[i], ctx);
        if i < a.len() {
            assert(node_holds(a[i], ctx));
        } else {
            assert(node_holds(b[i - a.len()], ctx));
        }
    }
    if one_holds(a, ctx) {
        let i = choose|i: int| 0 <= i < a.len() && node_holds(#[trigger] a[i], ctx);
        assert(node_holds(s[i], ctx));
    }
    if one_holds(b, ctx) {
        let i = choose|i: int| 0 <= i < b.len() && node_holds(#[trigger] b[i], ctx);
        assert(node_holds(s[a.len() + i], ctx));
    }
}

spec fn one_holds(v: Seq<NodeView>, ctx: ContextView) -> bool {
    exists|i: int| 0 <= i < v.len() && node_holds(#[trigger] v[i], ctx)
}

proof fn lemma_groups(v: Seq<NodeView>, ctx: ContextView)
    ensures
        node_holds(NodeView::And(v), ctx) == all_hold(v, ctx),
        node_holds(NodeView::Or(v), ctx) == one_holds(v, ctx),
{
    law_conditions_are_joined_by_and(v, ctx);
    let n = NodeView::Or(v);
    assert(n->Or_0 == v);
    if node_holds(n, ctx) {
        let i = choose|i: int| 0 <= i < v.len() && node_holds(#[trigger] n->Or_0[i], ctx);
        assert(node_holds(v[i], ctx));
    }
    if one_holds(v, ctx) {
        let i = choose|i: int| 0 <= i < v.len() && node_holds(#[trigger] v[i], ctx);
        assert(node_holds(n->Or_0[i], ctx));
    }
}

/// What a request that is evaluated stands for, field by field.
pub proof fn law_what_a_request_stands_for(ctx: EvaluationContext, i: int)
    ensures
        ctx@.path == ctx.path@,
        ctx@.method == ctx.method@,
        ctx@.client_ip == ctx.client_ip@,
        ctx@.user_role == text::opt_text(ctx.user_role),
        ctx@.body_json is Some <==> ctx.body_json is Some,
        ctx.body_json is Some ==> ctx@.body_json->0 == ctx.body_json->0@,
        ctx@.headers.len() == ctx.headers@.len(),
        0 <= i < ctx.headers@.len() ==> ctx@.headers[i] == (
            ctx.headers@[i].name@,
            ctx.headers@[i].value@,
        ),
{
}

} // verus!
