//! JSON values, and reading, replacing and removing the field that a dotted path names.
use crate::text;
use vstd::prelude::*;
use vstd::utf8::*;

verus! {

/// A parsed JSON value. `serde_json` reads and prints these; the library looks inside.
#[verifier::external_type_specification]
#[verifier::external_body]
pub struct ExSerdeValue(serde_json::Value);

/// A number as `serde_json` holds it.
#[verifier::external_type_specification]
#[verifier::external_body]
pub struct ExSerdeNumber(serde_json::Number);

/// A JSON number: what it is as a signed and as an unsigned integer, where it is one, and the
/// bits of its floating-point value.
pub struct JsonNumber {
    number: serde_json::Number,
    int: Option<i64>,
    uint: Option<u64>,
    float_bits: Option<u64>,
}

/// One member of a JSON object.
pub struct JsonMember {
    pub name: String,
    pub value: JsonValue,
}

/// A JSON value.
pub enum JsonValue {
    Null,
    Bool(bool),
    Number(JsonNumber),
    String(String),
    Array(Vec<JsonValue>),
    Object(Vec<JsonMember>),
}

/// What a [`JsonNumber`] stands for.
pub struct JsonNumberView {
    pub int: Option<i64>,
    pub uint: Option<u64>,
    pub float_bits: Option<u64>,
}

/// What a [`JsonValue`] stands for.
pub enum JsonView {
    Null,
    Bool(bool),
    Number(JsonNumberView),
    String(Seq<char>),
    Array(Seq<JsonView>),
    Object(Seq<(Seq<char>, JsonView)>),
}

impl View for JsonNumber {
    type V = JsonNumberView;

    closed spec fn view(&self) -> JsonNumberView {
        JsonNumberView { int: self.int, uint: self.uint, float_bits: self.float_bits }
    }
}

impl JsonNumber {
    /// The number as a signed integer, where it is one.
    pub fn as_i64(&self) -> (r: Option<i64>)
        ensures
            r == self@.int,
    {
        self.int
    }

    /// The number as an unsigned integer, where it is one.
    pub fn as_u64(&self) -> (r: Option<u64>)
        ensures
            r == self@.uint,
    {
        self.uint
    }

    /// The bits of the number's floating-point value.
    pub fn float_bits(&self) -> (r: Option<u64>)
        ensures
            r == self@.float_bits,
    {
        self.float_bits
    }
}

/// What a JSON value stands for.
pub open spec fn json_view(v: JsonValue) -> JsonView
    decreases v,
{
    match v {
        JsonValue::Null => JsonView::Null,
        JsonValue::Bool(b) => JsonView::Bool(b),
        JsonValue::Number(n) => JsonView::Number(n@),
        JsonValue::String(s) => JsonView::String(s@),
        JsonValue::Array(a) => JsonView::Array(
            Seq::new(
                a@.len(),
                |i: int|
                    if 0 <= i < a@.len() {
                        json_view(a@[i])
                    } else {
                        arbitrary()
                    },
            ),
        ),
        JsonValue::Object(m) => JsonView::Object(
            Seq::new(
                m@.len(),
                |i: int|
                    if 0 <= i < m@.len() {
                        (m@[i].name@, json_view(m@[i].value))
                    } else {
                        arbitrary()
                    },
            ),
        ),
    }
}

impl View for JsonValue {
    type V = JsonView;

    open spec fn view(&self) -> JsonView {
        json_view(*self)
    }
}

/// What the members of an object stand for.
pub open spec fn members(m: Seq<JsonMember>) -> Seq<(Seq<char>, JsonView)> {
    Seq::new(m.len(), |i: int| (m[i].name@, m[i].value@))
}

/// What the items of an array stand for.
pub open spec fn items(a: Seq<JsonValue>) -> Seq<JsonView> {
    Seq::new(a.len(), |i: int| a[i]@)
}

proof fn lemma_view(v: JsonValue)
    ensures
        v is Object ==> v@ == JsonView::Object(members(v->Object_0@)),
        v is Array ==> v@ == JsonView::Array(items(v->Array_0@)),
{
    if v is Object {
        assert(v@->Object_0 =~= members(v->Object_0@));
    }
    if v is Array {
        assert(v@->Array_0 =~= items(v->Array_0@));
    }
}

/// What an optional JSON value stands for.
pub open spec fn opt_json(o: Option<JsonValue>) -> Option<JsonView> {
    match o {
        Some(v) => Some(v@),
        None => None,
    }
}

/// What reading a value gave.
pub open spec fn parsed_json(r: Result<JsonValue, String>) -> Result<JsonView, Seq<char>> {
    match r {
        Ok(v) => Ok(v@),
        Err(e) => Err(e@),
    }
}

/// What a value of `serde_json` holds.
pub uninterp spec fn json_contents(v: serde_json::Value) -> JsonView;

/// What `serde_json::from_slice` reads from these bytes: the value, or the text of its error.
pub uninterp spec fn json_parse(bytes: Seq<u8>) -> Result<JsonView, Seq<char>>;

/// The text in which `serde_json` prints the floating-point number of these bits.
pub uninterp spec fn float_print(bits: u64) -> Seq<char>;

/// A hexadecimal digit.
pub open spec fn hex_char(d: nat) -> char {
    if d < 10 {
        (d + 48) as char
    } else {
        (d + 87) as char
    }
}

/// A character in a JSON string: quotation marks, backslashes and control characters are escaped.
pub open spec fn quoted_char(c: char) -> Seq<char> {
    if c == '"' {
        seq!['\\', '"']
    } else if c == '\\' {
        seq!['\\', '\\']
    } else if c == '\x08' {
        seq!['\\', 'b']
    } else if c == '\t' {
        seq!['\\', 't']
    } else if c == '\n' {
        seq!['\\', 'n']
    } else if c == '\x0c' {
        seq!['\\', 'f']
    } else if c == '\r' {
        seq!['\\', 'r']
    } else if (c as u32) < 32 {
        seq!['\\', 'u', '0', '0', hex_char(c as nat / 16), hex_char(c as nat % 16)]
    } else {
        seq![c]
    }
}

/// The characters of a JSON string.
pub open spec fn quoted_chars(s: Seq<char>) -> Seq<char>
    decreases s.len(),
{
    if s.len() == 0 {
        Seq::empty()
    } else {
        quoted_chars(s.drop_last()) + quoted_char(s.last())
    }
}

/// A JSON string.
pub open spec fn quoted(s: Seq<char>) -> Seq<char> {
    seq!['"'] + quoted_chars(s) + seq!['"']
}

/// A JSON number.
pub open spec fn number_print(n: JsonNumberView) -> Seq<char> {
    if n.uint is Some {
        text::decimal(n.uint->0 as nat)
    } else if n.int is Some {
        seq!['-'] + text::decimal((-n.int->0) as nat)
    } else {
        float_print(n.float_bits->0)
    }
}

/// The texts of the items of an array, or of the members of an object.
pub open spec fn json_parts(v: JsonView) -> Seq<Seq<char>>
    decreases v, 0int,
{
    match v {
        JsonView::Array(a) => Seq::new(
            a.len(),
            |i: int|
                if 0 <= i < a.len() {
                    json_print(a[i])
                } else {
                    arbitrary()
                },
        ),
        JsonView::Object(m) => Seq::new(
            m.len(),
            |i: int|
                if 0 <= i < m.len() {
                    quoted(m[i].0) + seq![':'] + json_print(m[i].1)
                } else {
                    arbitrary()
                },
        ),
        _ => Seq::empty(),
    }
}

/// The compact JSON text of a value.
pub open spec fn json_print(v: JsonView) -> Seq<char>
    decreases v, 1int,
{
    match v {
        JsonView::Null => "null"@,
        JsonView::Bool(b) => text::bool_chars(b),
        JsonView::Number(n) => number_print(n),
        JsonView::String(s) => quoted(s),
        JsonView::Array(_) => seq!['['] + text::join(json_parts(v), seq![',']) + seq![']'],
        JsonView::Object(_) => seq!['{'] + text::join(json_parts(v), seq![',']) + seq!['}'],
    }
}

/// The deepest nesting that `serde_json` reads.
pub open spec fn max_depth() -> nat {
    127
}

/// Whether `a` comes before `b`: where they first differ its character is the lesser one, or it is
/// a start of `b`.
pub open spec fn text_before(a: Seq<char>, b: Seq<char>) -> bool
    decreases a.len(),
{
    b.len() > 0 && (a.len() == 0 || a[0] < b[0] || a[0] == b[0] && text_before(
        a.skip(1),
        b.skip(1),
    ))
}

/// Whether the members of an object stand in the order of their names, no name twice.
pub open spec fn in_name_order(m: Seq<(Seq<char>, JsonView)>) -> bool {
    forall|i: int, j: int|
        0 <= i < j < m.len() ==> text_before((#[trigger] m[i]).0, (#[trigger] m[j]).0)
}

/// Members in the order of their names, with one more put among them, in place of one of its name.
pub open spec fn with_member(
    m: Seq<(Seq<char>, JsonView)>,
    e: (Seq<char>, JsonView),
) -> Seq<(Seq<char>, JsonView)>
    decreases m.len(),
{
    if m.len() == 0 || text_before(e.0, m[0].0) {
        seq![e] + m
    } else if m[0].0 == e.0 {
        m.update(0, e)
    } else {
        seq![m[0]] + with_member(m.skip(1), e)
    }
}

/// The members in the order of their names, of several of one name the last.
pub open spec fn by_name(m: Seq<(Seq<char>, JsonView)>) -> Seq<(Seq<char>, JsonView)>
    decreases m.len(),
{
    if m.len() == 0 {
        Seq::empty()
    } else {
        with_member(by_name(m.drop_last()), m.last())
    }
}

/// The members of an object, each with its value as `serde_json` keeps it.
pub open spec fn stored_members(v: JsonView) -> Seq<(Seq<char>, JsonView)>
    decreases v, 0int,
{
    match v {
        JsonView::Object(m) => Seq::new(
            m.len(),
            |i: int|
                if 0 <= i < m.len() {
                    (m[i].0, json_stored(m[i].1))
                } else {
                    arbitrary()
                },
        ),
        _ => Seq::empty(),
    }
}

/// A value as `serde_json` keeps it: the members of each object by name.
pub open spec fn json_stored(v: JsonView) -> JsonView
    decreases v, 1int,
{
    match v {
        JsonView::Array(a) => JsonView::Array(
            Seq::new(
                a.len(),
                |i: int|
                    if 0 <= i < a.len() {
                        json_stored(a[i])
                    } else {
                        arbitrary()
                    },
            ),
        ),
        JsonView::Object(_) => JsonView::Object(by_name(stored_members(v))),
        _ => v,
    }
}

/// Whether a value is one as `serde_json` keeps it: nested no deeper than `depth`, the members of
/// each object in the order of their names, and, where `integers` is set, no number in it but
/// integers.
pub open spec fn is_kept(v: JsonView, depth: nat, integers: bool) -> bool
    decreases v,
{
    match v {
        JsonView::Number(n) => integers ==> n.int is Some || n.uint is Some,
        JsonView::Array(a) => depth > 0 && forall|i: int|
            0 <= i < a.len() ==> is_kept(#[trigger] a[i], (depth - 1) as nat, integers),
        JsonView::Object(m) => depth > 0 && in_name_order(m) && forall|i: int|
            0 <= i < m.len() ==> is_kept((#[trigger] m[i]).1, (depth - 1) as nat, integers),
        _ => true,
    }
}

/// Whether a value is a number that is no integer.
pub open spec fn is_fraction(v: JsonView) -> bool {
    match v {
        JsonView::Number(n) => n.int is None && n.uint is None,
        _ => false,
    }
}

/// The bits of a number.
pub open spec fn fraction_bits(v: JsonView) -> u64 {
    v->Number_0.float_bits->0
}

/// Whether a text is read as this value.
pub open spec fn reads_as(t: Seq<char>, v: JsonView) -> bool {
    json_parse(encode_utf8(t)) == Ok::<JsonView, Seq<char>>(v)
}

/// `serde_json::from_slice` reads a value from bytes: the result depends on the bytes alone. What
/// is nested too deeply is refused, and objects are held in a map that is ordered by name.
#[verifier::external_body]
fn json_from_slice(bytes: &[u8]) -> (r: Result<serde_json::Value, String>)
    ensures
        match r {
            Ok(v) => json_parse(bytes@) == Ok::<JsonView, Seq<char>>(json_contents(v)) && is_kept(
                json_contents(v),
                max_depth(),
                false,
            ),
            Err(e) => json_parse(bytes@) == Err::<JsonView, Seq<char>>(e@),
        },
{
    serde_json::from_slice(bytes).map_err(|e| e.to_string())
}

/// Takes a value of `serde_json` apart: the result holds what the value holds, an object's
/// members in the order in which `serde_json::Map` hands them out.
#[verifier::external_body]
fn plain_json(v: serde_json::Value) -> (r: JsonValue)
    ensures
        r@ == json_contents(v),
{
    match v {
        serde_json::Value::Null => JsonValue::Null,
        serde_json::Value::Bool(b) => JsonValue::Bool(b),
        serde_json::Value::Number(n) => JsonValue::Number(JsonNumber {
            int: n.as_i64(),
            uint: n.as_u64(),
            float_bits: n.as_f64().map(|f| f.to_bits()),
            number: n,
        }),
        serde_json::Value::String(s) => JsonValue::String(s),
        serde_json::Value::Array(a) => JsonValue::Array(a.into_iter().map(plain_json).collect()),
        serde_json::Value::Object(m) => JsonValue::Object(
            m.into_iter().map(|(name, value)| JsonMember { name, value: plain_json(value) }).collect()),
    }
}

/// Builds a value of `serde_json`, of whose objects `serde_json::Map` keeps the members. It orders
/// them by name, and of several of one name keeps the last.
#[verifier::external_body]
fn serde_json_value(v: &JsonValue) -> (r: serde_json::Value)
    ensures
        json_contents(r) == json_stored(v@),
{
    match v {
        JsonValue::Null => serde_json::Value::Null,
        JsonValue::Bool(b) => serde_json::Value::Bool(*b),
        JsonValue::Number(n) => serde_json::Value::Number(n.number.clone()),
        JsonValue::String(s) => serde_json::Value::String(s.clone()),
        JsonValue::Array(a) => serde_json::Value::Array(a.iter().map(serde_json_value).collect()),
        JsonValue::Object(m) => serde_json::Value::Object(
            m.iter().map(|e| (e.name.clone(), serde_json_value(&e.value))).collect()),
    }
}

/// The `Display` of `serde_json::Value` prints a value as compact JSON, integers in decimal and
/// the text of other numbers one that depends on their bits alone. The text has no line end. Read
/// again by `serde_json::from_slice`, it gives the value, unless it is nested too deeply or holds
/// a number that is no integer, whose last digits reading may change.
#[verifier::external_body]
fn print_value(v: &serde_json::Value) -> (r: String)
    ensures
        r@ == json_print(json_contents(*v)),
        is_fraction(json_contents(*v)) ==> r@ == float_print(fraction_bits(json_contents(*v))),
        !r@.contains('\n'),
        is_kept(json_contents(*v), max_depth(), true) ==> reads_as(r@, json_contents(*v)),
{
    v.to_string()
}

/// The JSON text of a value, the members of each object by name.
pub open spec fn json_text(v: JsonView) -> Seq<char> {
    json_print(json_stored(v))
}

/// The JSON text of a value, on one line. Where the value could have been read and holds no numbers
/// but integers, the text reads as the value.
pub fn json_to_string(v: &JsonValue) -> (r: String)
    ensures
        r@ == json_text(v@),
        !r@.contains('\n'),
        is_kept(v@, max_depth(), true) ==> reads_as(r@, v@),
{
    proof {
        if is_kept(v@, max_depth(), true) {
            law_kept_value_is_stored_as_it_is(v@, max_depth(), true);
        }
    }
    print_value(&serde_json_value(v))
}

/// The JSON value that the bytes write, or what is wrong with them.
pub fn parse_json(bytes: &[u8]) -> (r: Result<JsonValue, String>)
    ensures
        match r {
            Ok(v) => json_parse(bytes@) == Ok::<JsonView, Seq<char>>(v@) && is_kept(
                v@,
                max_depth(),
                false,
            ) && distinct_names(v@),
            Err(e) => json_parse(bytes@) == Err::<JsonView, Seq<char>>(e@),
        },
{
    match json_from_slice(bytes) {
        Ok(v) => {
            proof {
                lemma_kept_names_distinct(json_contents(v), max_depth(), false);
            }
            Ok(plain_json(v))
        },
        Err(e) => Err(e),
    }
}

/// The index of the first member of this name; the number of members where there is none.
pub open spec fn member_index(m: Seq<(Seq<char>, JsonView)>, name: Seq<char>) -> int
    decreases m.len(),
{
    if m.len() == 0 || m[0].0 == name {
        0
    } else {
        1 + member_index(m.skip(1), name)
    }
}

proof fn lemma_member_index(m: Seq<(Seq<char>, JsonView)>, name: Seq<char>)
    ensures
        0 <= member_index(m, name) <= m.len(),
        member_index(m, name) < m.len() ==> m[member_index(m, name)].0 == name,
        forall|j: int| 0 <= j < member_index(m, name) ==> (#[trigger] m[j]).0 != name,
    decreases m.len(),
{
    if m.len() > 0 && m[0].0 != name {
        let t = m.skip(1);
        lemma_member_index(t, name);
        assert forall|j: int| 0 <= j < member_index(m, name) implies (#[trigger] m[j]).0 != name by {
            if j > 0 {
                assert(m[j] == t[j - 1]);
            }
        }
    }
}

proof fn lemma_member_index_unique(m: Seq<(Seq<char>, JsonView)>, name: Seq<char>, i: int)
    requires
        0 <= i <= m.len(),
        i < m.len() ==> m[i].0 == name,
        forall|j: int| 0 <= j < i ==> (#[trigger] m[j]).0 != name,
    ensures
        member_index(m, name) == i,
{
    lemma_member_index(m, name);
    let k = member_index(m, name);
    if k < i {
        assert(m[k].0 != name);
    } else if i < k {
        assert(m[i].0 != name);
    }
}

/// Whether no object within `v` has two members of one name.
pub open spec fn distinct_names(v: JsonView) -> bool
    decreases v,
{
    match v {
        JsonView::Array(a) => forall|i: int| 0 <= i < a.len() ==> distinct_names(#[trigger] a[i]),
        JsonView::Object(m) => {
            &&& forall|i: int, j: int|
                0 <= i < j < m.len() ==> (#[trigger] m[i]).0 != (#[trigger] m[j]).0
            &&& forall|i: int| 0 <= i < m.len() ==> distinct_names((#[trigger] m[i]).1)
        },
        _ => true,
    }
}

proof fn lemma_not_before_itself(a: Seq<char>)
    ensures
        !text_before(a, a),
    decreases a.len(),
{
    if a.len() > 0 {
        lemma_not_before_itself(a.skip(1));
    }
}

proof fn lemma_kept_names_distinct(v: JsonView, depth: nat, integers: bool)
    requires
        is_kept(v, depth, integers),
    ensures
        distinct_names(v),
    decreases v,
{
    match v {
        JsonView::Array(a) => {
            assert forall|i: int| 0 <= i < a.len() implies distinct_names(#[trigger] a[i]) by {
                lemma_kept_names_distinct(a[i], (depth - 1) as nat, integers);
            }
        },
        JsonView::Object(m) => {
            assert forall|i: int, j: int| 0 <= i < j < m.len() implies (#[trigger] m[i]).0 != (
            #[trigger] m[j]).0 by {
                lemma_not_before_itself(m[i].0);
            }
            assert forall|i: int| 0 <= i < m.len() implies distinct_names((#[trigger] m[i]).1) by {
                lemma_kept_names_distinct(m[i].1, (depth - 1) as nat, integers);
            }
        },
        _ => {},
    }
}

proof fn lemma_before_one_way(a: Seq<char>, b: Seq<char>)
    requires
        text_before(a, b),
    ensures
        !text_before(b, a),
        a != b,
    decreases a.len(),
{
    lemma_not_before_itself(a);
    if a.len() > 0 && a[0] == b[0] {
        lemma_before_one_way(a.skip(1), b.skip(1));
    }
}

proof fn lemma_with_last_member(m: Seq<(Seq<char>, JsonView)>, e: (Seq<char>, JsonView))
    requires
        forall|i: int| 0 <= i < m.len() ==> text_before((#[trigger] m[i]).0, e.0),
    ensures
        with_member(m, e) == m.push(e),
    decreases m.len(),
{
    if m.len() > 0 {
        lemma_before_one_way(m[0].0, e.0);
        let rest = m.skip(1);
        assert forall|i: int| 0 <= i < rest.len() implies text_before((#[trigger] rest[i]).0, e.0) by {
            assert(rest[i] == m[i + 1]);
        }
        lemma_with_last_member(rest, e);
        assert(seq![m[0]] + rest.push(e) =~= m.push(e));
    } else {
        assert(seq![e] + m =~= m.push(e));
    }
}

proof fn lemma_by_name(m: Seq<(Seq<char>, JsonView)>)
    requires
        in_name_order(m),
    ensures
        by_name(m) == m,
    decreases m.len(),
{
    if m.len() > 0 {
        let head = m.drop_last();
        assert(in_name_order(head)) by {
            assert forall|i: int, j: int| 0 <= i < j < head.len() implies text_before(
                (#[trigger] head[i]).0,
                (#[trigger] head[j]).0,
            ) by {
                assert(head[i] == m[i] && head[j] == m[j]);
            }
        }
        lemma_by_name(head);
        assert forall|i: int| 0 <= i < head.len() implies text_before(
            (#[trigger] head[i]).0,
            m.last().0,
        ) by {
            assert(head[i] == m[i]);
        }
        lemma_with_last_member(head, m.last());
        assert(head.push(m.last()) =~= m);
    } else {
        assert(by_name(m) =~= m);
    }
}

/// A value that `serde_json` keeps as it is, is stored as it is.
pub proof fn law_kept_value_is_stored_as_it_is(v: JsonView, depth: nat, integers: bool)
    requires
        is_kept(v, depth, integers),
    ensures
        json_stored(v) == v,
        json_text(v) == json_print(v),
    decreases v,
{
    match v {
        JsonView::Array(a) => {
            let stored = json_stored(v)->Array_0;
            assert forall|i: int| 0 <= i < a.len() implies #[trigger] stored[i] == a[i] by {
                law_kept_value_is_stored_as_it_is(a[i], (depth - 1) as nat, integers);
            }
            assert(stored =~= a);
        },
        JsonView::Object(m) => {
            let members = stored_members(v);
            assert forall|i: int| 0 <= i < m.len() implies #[trigger] members[i] == m[i] by {
                law_kept_value_is_stored_as_it_is(m[i].1, (depth - 1) as nat, integers);
            }
            assert(members =~= m);
            lemma_by_name(m);
        },
        _ => {},
    }
}

/// The position of the child of `v` that a path segment names: a member of an object by its name,
/// an item of an array by its index.
pub open spec fn child_index(v: JsonView, seg: Seq<char>) -> Option<int> {
    match v {
        JsonView::Object(m) => if member_index(m, seg) < m.len() {
            Some(member_index(m, seg))
        } else {
            None
        },
        JsonView::Array(a) => match text::parse_nat(seg) {
            Some(n) => if n < a.len() {
                Some(n as int)
            } else {
                None
            },
            None => None,
        },
        _ => None,
    }
}

/// The child of `v` at a position.
pub open spec fn child_at(v: JsonView, i: int) -> JsonView {
    match v {
        JsonView::Object(m) => m[i].1,
        JsonView::Array(a) => a[i],
        _ => v,
    }
}

/// `v` with another value as its child at a position.
pub open spec fn with_child(v: JsonView, i: int, c: JsonView) -> JsonView {
    match v {
        JsonView::Object(m) => JsonView::Object(m.update(i, (m[i].0, c))),
        JsonView::Array(a) => JsonView::Array(a.update(i, c)),
        _ => v,
    }
}

/// The value at the end of a path of segments. A path with an empty segment leads nowhere.
pub open spec fn lookup(v: JsonView, segs: Seq<Seq<char>>) -> Option<JsonView>
    decreases segs.len(),
{
    if segs.len() == 0 {
        Some(v)
    } else if segs[0].len() == 0 {
        None
    } else {
        match child_index(v, segs[0]) {
            Some(i) => lookup(child_at(v, i), segs.skip(1)),
            None => None,
        }
    }
}

/// `v` with `new` in place of the value at the end of the path; `v` itself where the path leads
/// nowhere.
pub open spec fn replaced(v: JsonView, segs: Seq<Seq<char>>, new: JsonView) -> JsonView
    decreases segs.len(),
{
    if segs.len() == 0 {
        new
    } else if segs[0].len() == 0 {
        v
    } else {
        match child_index(v, segs[0]) {
            Some(i) => with_child(v, i, replaced(child_at(v, i), segs.skip(1), new)),
            None => v,
        }
    }
}

/// `v` without the child that a path segment names: the member of this name where it is an object
/// that has one, the item at this index where it is an array that has one.
pub open spec fn without_child(v: JsonView, seg: Seq<char>) -> JsonView {
    match v {
        JsonView::Object(m) => if member_index(m, seg) < m.len() {
            JsonView::Object(m.remove(member_index(m, seg)))
        } else {
            v
        },
        JsonView::Array(a) => match text::parse_nat(seg) {
            Some(n) => if n < a.len() {
                JsonView::Array(a.remove(n as int))
            } else {
                v
            },
            None => v,
        },
        _ => v,
    }
}

/// `v` without the member or item at the end of the path; `v` itself where the path leads to none.
pub open spec fn removed(v: JsonView, segs: Seq<Seq<char>>) -> JsonView
    decreases segs.len(),
{
    if segs.len() == 0 {
        v
    } else if segs.len() == 1 {
        without_child(v, segs[0])
    } else if segs[0].len() == 0 {
        v
    } else {
        match child_index(v, segs[0]) {
            Some(i) => with_child(v, i, removed(child_at(v, i), segs.skip(1))),
            None => v,
        }
    }
}

fn find_member(m: &Vec<JsonMember>, name: &str) -> (r: Option<usize>)
    ensures
        match r {
            Some(i) => i < m@.len() && child_index(JsonValue::Object(*m)@, name@) == Some(i as int),
            None => child_index(JsonValue::Object(*m)@, name@) is None,
        },
{
    let ghost view = JsonValue::Object(*m)@->Object_0;
    let mut i: usize = 0;
    while i < m.len()
        invariant
            i <= m@.len(),
            view == JsonValue::Object(*m)@->Object_0,
            forall|j: int| 0 <= j < i ==> (#[trigger] view[j]).0 != name@,
        decreases m@.len() - i,
    {
        if text::same(m[i].name.as_str(), name) {
            proof {
                lemma_member_index_unique(view, name@, i as int);
            }
            return Some(i);
        }
        i += 1;
    }
    proof {
        lemma_member_index_unique(view, name@, i as int);
    }
    None
}

/// The position of the child of `v` that a path segment names.
fn find_child(v: &JsonValue, seg: &Vec<char>) -> (r: Option<usize>)
    ensures
        match r {
            Some(i) => child_index(v@, seg@) == Some(i as int),
            None => child_index(v@, seg@) is None,
        },
{
    proof {
        lemma_view(*v);
    }
    match v {
        JsonValue::Object(m) => {
            let name = text::string_of(seg.as_slice());
            find_member(m, name.as_str())
        },
        JsonValue::Array(a) => {
            let count: u64 = a.len() as u64;
            match text::parse_number(seg.as_slice(), u64::MAX) {
                Some(n) => {
                    if n < count {
                        Some(n as usize)
                    } else {
                        None
                    }
                },
                None => None,
            }
        },
        _ => None,
    }
}

fn get_from<'a>(v: &'a JsonValue, segs: &Vec<Vec<char>>, k: usize) -> (r: Option<&'a JsonValue>)
    requires
        k <= segs@.len(),
    ensures
        match r {
            Some(x) => lookup(v@, text::texts(segs@).skip(k as int)) == Some(x@),
            None => lookup(v@, text::texts(segs@).skip(k as int)) is None,
        },
    decreases segs@.len() - k,
{
    let ghost rest = text::texts(segs@).skip(k as int);
    if k == segs.len() {
        return Some(v);
    }
    assert(rest[0] == segs@[k as int]@);
    assert(rest.skip(1) =~= text::texts(segs@).skip(k + 1));
    if segs[k].len() == 0 {
        return None;
    }
    match find_child(v, &segs[k]) {
        Some(i) => match v {
            JsonValue::Object(m) => get_from(&m[i].value, segs, k + 1),
            JsonValue::Array(a) => get_from(&a[i], segs, k + 1),
            _ => None,
        },
        None => None,
    }
}

/// The value at the end of a dotted path.
pub fn json_get<'a>(root: &'a JsonValue, path: &str) -> (r: Option<&'a JsonValue>)
    ensures
        match r {
            Some(x) => lookup(root@, text::split(path@, '.')) == Some(x@),
            None => lookup(root@, text::split(path@, '.')) is None,
        },
{
    let c = text::chars_of(path);
    let segs = text::split_chars(c.as_slice(), '.');
    assert(text::texts(segs@).skip(0) =~= text::texts(segs@));
    get_from(root, &segs, 0)
}

fn set_from(v: &mut JsonValue, segs: &Vec<Vec<char>>, k: usize, new: JsonValue)
    requires
        k <= segs@.len(),
    ensures
        final(v)@ == replaced(old(v)@, text::texts(segs@).skip(k as int), new@),
    decreases segs@.len() - k,
{
    let ghost rest = text::texts(segs@).skip(k as int);
    let ghost before = *v;
    if k == segs.len() {
        *v = new;
        return ;
    }
    assert(rest[0] == segs@[k as int]@);
    assert(rest.skip(1) =~= text::texts(segs@).skip(k + 1));
    if segs[k].len() == 0 {
        return ;
    }
    match find_child(v, &segs[k]) {
        Some(i) => {
            match v {
                JsonValue::Object(m) => {
                    set_from(&mut m[i].value, segs, k + 1, new);
                },
                JsonValue::Array(a) => {
                    set_from(&mut a[i], segs, k + 1, new);
                },
                _ => {},
            }
            proof {
                lemma_view(before);
                lemma_view(*v);
                let c = replaced(child_at(before@, i as int), rest.skip(1), new@);
                if before is Object {
                    assert(members(v->Object_0@) =~= members(before->Object_0@).update(
                        i as int,
                        (members(before->Object_0@)[i as int].0, c),
                    ));
                }
                if before is Array {
                    assert(items(v->Array_0@) =~= items(before->Array_0@).update(i as int, c));
                }
            }
        },
        None => {},
    }
}

/// Puts `new` in place of the value at the end of a dotted path, where the path leads to one.
pub fn json_set(root: &mut JsonValue, path: &str, new: JsonValue)
    ensures
        final(root)@ == replaced(old(root)@, text::split(path@, '.'), new@),
{
    let c = text::chars_of(path);
    let segs = text::split_chars(c.as_slice(), '.');
    assert(text::texts(segs@).skip(0) =~= text::texts(segs@));
    set_from(root, &segs, 0, new);
}

fn remove_child(v: &mut JsonValue, seg: &Vec<char>)
    ensures
        final(v)@ == without_child(old(v)@, seg@),
{
    let ghost before = *v;
    proof {
        lemma_view(before);
    }
    if let Some(i) = find_child(v, seg) {
        match v {
            JsonValue::Object(m) => {
                m.remove(i);
            },
            JsonValue::Array(a) => {
                a.remove(i);
            },
            _ => {},
        }
        proof {
            lemma_view(*v);
            if before is Object {
                assert(members(v->Object_0@) =~= members(before->Object_0@).remove(i as int));
            }
            if before is Array {
                assert(items(v->Array_0@) =~= items(before->Array_0@).remove(i as int));
            }
        }
    }
}

fn remove_from(v: &mut JsonValue, segs: &Vec<Vec<char>>, k: usize)
    requires
        k < segs@.len(),
    ensures
        final(v)@ == removed(old(v)@, text::texts(segs@).skip(k as int)),
    decreases segs@.len() - k,
{
    let ghost rest = text::texts(segs@).skip(k as int);
    let ghost before = *v;
    proof {
        lemma_view(before);
    }
    assert(rest[0] == segs@[k as int]@);
    if k == segs.len() - 1 {
        remove_child(v, &segs[k]);
        return ;
    }
    assert(rest.skip(1) =~= text::texts(segs@).skip(k + 1));
    if segs[k].len() == 0 {
        return ;
    }
    match find_child(v, &segs[k]) {
        Some(i) => {
            match v {
                JsonValue::Object(m) => {
                    remove_from(&mut m[i].value, segs, k + 1);
                },
                JsonValue::Array(a) => {
                    remove_from(&mut a[i], segs, k + 1);
                },
                _ => {},
            }
            proof {
                lemma_view(*v);
                let c = removed(child_at(before@, i as int), rest.skip(1));
                if before is Object {
                    assert(members(v->Object_0@) =~= members(before->Object_0@).update(
                        i as int,
                        (members(before->Object_0@)[i as int].0, c),
                    ));
                }
                if before is Array {
                    assert(items(v->Array_0@) =~= items(before->Array_0@).update(i as int, c));
                }
            }
        },
        None => {},
    }
}

/// Removes the member or the array item at the end of a dotted path, where the path leads to one.
pub fn json_remove(root: &mut JsonValue, path: &str)
    ensures
        final(root)@ == removed(old(root)@, text::split(path@, '.')),
{
    let c = text::chars_of(path);
    let segs = text::split_chars(c.as_slice(), '.');
    assert(text::texts(segs@).skip(0) =~= text::texts(segs@));
    proof {
        text::lemma_split_parts(path@, '.');
    }
    remove_from(root, &segs, 0);
}

proof fn lemma_with_child_index(v: JsonView, i: int, c: JsonView, seg: Seq<char>)
    requires
        v is Object ==> 0 <= i < v->Object_0.len(),
        v is Array ==> 0 <= i < v->Array_0.len(),
    ensures
        child_index(with_child(v, i, c), seg) == child_index(v, seg),
{
    if let JsonView::Object(m) = v {
        let w = m.update(i, (m[i].0, c));
        lemma_member_index(m, seg);
        lemma_member_index_unique(w, seg, member_index(m, seg));
    }
}

proof fn lemma_child_in_range(v: JsonView, seg: Seq<char>)
    ensures
        match child_index(v, seg) {
            Some(i) => {
                &&& v is Object || v is Array
                &&& v is Object ==> 0 <= i < v->Object_0.len() && v->Object_0[i].0 == seg
                &&& v is Array ==> 0 <= i < v->Array_0.len()
            },
            None => true,
        },
{
    if let JsonView::Object(m) = v {
        lemma_member_index(m, seg);
    }
}

/// Where a path leads to a value, it leads to the new value once that has been replaced.
pub proof fn law_replaced_value_is_found(v: JsonView, path: Seq<Seq<char>>, new: JsonView)
    requires
        lookup(v, path) is Some,
    ensures
        lookup(replaced(v, path, new), path) == Some(new),
    decreases path.len(),
{
    if path.len() > 0 {
        lemma_child_in_range(v, path[0]);
        let i = child_index(v, path[0])->0;
        let c = replaced(child_at(v, i), path.skip(1), new);
        law_replaced_value_is_found(child_at(v, i), path.skip(1), new);
        lemma_with_child_index(v, i, c, path[0]);
        assert(child_at(with_child(v, i, c), i) == c);
    }
}

/// Replacing a value changes nothing where the path leads nowhere.
pub proof fn law_replacing_nothing_changes_nothing(
    v: JsonView,
    path: Seq<Seq<char>>,
    new: JsonView,
)
    requires
        lookup(v, path) is None,
    ensures
        replaced(v, path, new) == v,
    decreases path.len(),
{
    if path.len() > 0 && path[0].len() > 0 && child_index(v, path[0]) is Some {
        lemma_child_in_range(v, path[0]);
        let i = child_index(v, path[0])->0;
        law_replacing_nothing_changes_nothing(child_at(v, i), path.skip(1), new);
        match v {
            JsonView::Object(m) => {
                assert(m.update(i, (m[i].0, m[i].1)) =~= m);
            },
            JsonView::Array(a) => {
                assert(a.update(i, a[i]) =~= a);
            },
            _ => {},
        }
    }
}

/// Whether the two paths part somewhere within `v`: they name different children of one value,
/// or one of them ends before it leads anywhere.
pub open spec fn paths_part(v: JsonView, p: Seq<Seq<char>>, q: Seq<Seq<char>>) -> bool
    decreases p.len(),
{
    p.len() > 0 && q.len() > 0 && match (child_index(v, p[0]), child_index(v, q[0])) {
        (Some(i), Some(j)) => i != j || paths_part(child_at(v, i), p.skip(1), q.skip(1)),
        _ => true,
    }
}

/// Replacing the value at one path leaves what stands at any path that parts from it.
pub proof fn law_replacing_keeps_other_fields(
    v: JsonView,
    p: Seq<Seq<char>>,
    q: Seq<Seq<char>>,
    new: JsonView,
)
    requires
        paths_part(v, p, q),
    ensures
        lookup(replaced(v, p, new), q) == lookup(v, q),
    decreases p.len(),
{
    if p[0].len() > 0 && child_index(v, p[0]) is Some {
        lemma_child_in_range(v, p[0]);
        lemma_child_in_range(v, q[0]);
        let i = child_index(v, p[0])->0;
        let c = replaced(child_at(v, i), p.skip(1), new);
        lemma_with_child_index(v, i, c, q[0]);
        if let Some(j) = child_index(v, q[0]) {
            if i == j {
                law_replacing_keeps_other_fields(child_at(v, i), p.skip(1), q.skip(1), new);
                assert(child_at(with_child(v, i, c), i) == c);
            } else {
                assert(child_at(with_child(v, i, c), j) == child_at(v, j));
            }
        }
    }
}

/// The items of `a` but the one at `n`: those before it stay, the later ones move up.
pub open spec fn is_closed_up(a: Seq<JsonView>, n: int, b: Seq<JsonView>) -> bool {
    &&& b.len() == a.len() - 1
    &&& forall|j: int| 0 <= j < n ==> #[trigger] b[j] == a[j]
    &&& forall|j: int| n <= j < b.len() ==> #[trigger] b[j] == a[j + 1]
}

/// Once a member has been removed, its path leads nowhere. Once an array item has been removed,
/// it is gone from the array and the later items have moved up. The object held no second member
/// of that name.
pub proof fn law_removed_field_is_gone(v: JsonView, path: Seq<Seq<char>>)
    requires
        distinct_names(v),
        path.len() > 0,
    ensures
        match (lookup(v, path.drop_last()), lookup(v, path)) {
            (Some(JsonView::Array(a)), Some(_)) => {
                let n = text::parse_nat(path.last())->0 as int;
                match lookup(removed(v, path), path.drop_last()) {
                    Some(JsonView::Array(b)) => n < a.len() && is_closed_up(a, n, b),
                    _ => false,
                }
            },
            _ => lookup(removed(v, path), path) is None,
        },
    decreases path.len(),
{
    lemma_child_in_range(v, path[0]);
    if path.len() == 1 {
        assert(path.drop_last() =~= Seq::<Seq<char>>::empty());
        if let JsonView::Object(m) = v {
            let i = member_index(m, path[0]);
            if i < m.len() {
                let w = m.remove(i);
                lemma_member_index(m, path[0]);
                assert forall|j: int| 0 <= j < w.len() implies (#[trigger] w[j]).0 != path[0] by {
                    if j < i {
                        assert(w[j] == m[j]);
                    } else {
                        assert(w[j] == m[j + 1]);
                        assert(m[i].0 != m[j + 1].0);
                    }
                }
                lemma_member_index_unique(w, path[0], w.len() as int);
            }
        }
    } else if path[0].len() > 0 && child_index(v, path[0]) is Some {
        let i = child_index(v, path[0])->0;
        let c = removed(child_at(v, i), path.skip(1));
        assert(path.drop_last().skip(1) =~= path.skip(1).drop_last());
        assert(distinct_names(child_at(v, i))) by {
            match v {
                JsonView::Object(m) => {
                    assert(distinct_names(m[i].1));
                },
                JsonView::Array(a) => {
                    assert(distinct_names(a[i]));
                },
                _ => {},
            }
        }
        assert(path.drop_last()[0] == path[0]);
        law_removed_field_is_gone(child_at(v, i), path.skip(1));
        lemma_with_child_index(v, i, c, path[0]);
        assert(child_at(with_child(v, i, c), i) == c);
    }
}

/// Whether removing what stands at `p` moves up the array item that `q` leads to or through.
pub open spec fn moves_up(v: JsonView, p: Seq<Seq<char>>, q: Seq<Seq<char>>) -> bool
    decreases p.len(),
{
    p.len() > 0 && q.len() > 0 && match (child_index(v, p[0]), child_index(v, q[0])) {
        (Some(i), Some(j)) => if p.len() == 1 {
            v is Array && i < j
        } else {
            i == j && moves_up(child_at(v, i), p.skip(1), q.skip(1))
        },
        _ => false,
    }
}

/// Removing a field leaves what stands at any path that parts from it, but for the later items of
/// an array that lost one: those move up.
pub proof fn law_removing_keeps_other_fields(v: JsonView, p: Seq<Seq<char>>, q: Seq<Seq<char>>)
    requires
        paths_part(v, p, q),
        !moves_up(v, p, q),
    ensures
        lookup(removed(v, p), q) == lookup(v, q),
    decreases p.len(),
{
    lemma_child_in_range(v, p[0]);
    lemma_child_in_range(v, q[0]);
    if p.len() == 1 {
        if let JsonView::Object(m) = v {
            let i = member_index(m, p[0]);
            if i < m.len() {
                let w = m.remove(i);
                let j = member_index(m, q[0]);
                lemma_member_index(m, p[0]);
                lemma_member_index(m, q[0]);
                let k = if j < i {
                    j
                } else {
                    j - 1
                };
                if i == j {
                    assert(p.skip(1).len() == 0);
                    assert(!paths_part(child_at(v, i), p.skip(1), q.skip(1)));
                }
                assert forall|x: int| 0 <= x < k implies (#[trigger] w[x]).0 != q[0] by {
                    if x < i {
                        assert(w[x] == m[x]);
                    } else {
                        assert(w[x] == m[x + 1]);
                    }
                }
                lemma_member_index_unique(w, q[0], k);
            }
        }
        if v is Array && child_index(v, p[0]) is Some {
            let i = child_index(v, p[0])->0;
            assert(!paths_part(child_at(v, i), p.skip(1), q.skip(1)));
        }
    } else if p[0].len() > 0 && child_index(v, p[0]) is Some {
        let i = child_index(v, p[0])->0;
        let c = removed(child_at(v, i), p.skip(1));
        lemma_with_child_index(v, i, c, q[0]);
        if let Some(j) = child_index(v, q[0]) {
            if i == j {
                law_removing_keeps_other_fields(child_at(v, i), p.skip(1), q.skip(1));
                assert(child_at(with_child(v, i, c), i) == c);
            } else {
                assert(child_at(with_child(v, i, c), j) == child_at(v, j));
            }
        }
    }
}

proof fn lemma_kept_with_child(v: JsonView, i: int, c: JsonView, depth: nat, integers: bool)
    requires
        is_kept(v, depth, integers),
        v is Object || v is Array,
        v is Object ==> 0 <= i < v->Object_0.len(),
        v is Array ==> 0 <= i < v->Array_0.len(),
        is_kept(c, (depth - 1) as nat, integers),
    ensures
        is_kept(with_child(v, i, c), depth, integers),
{
    match v {
        JsonView::Object(m) => {
            let n = m.update(i, (m[i].0, c));
            assert forall|a: int, b: int| 0 <= a < b < n.len() implies text_before(
                (#[trigger] n[a]).0,
                (#[trigger] n[b]).0,
            ) by {
                assert(n[a].0 == m[a].0 && n[b].0 == m[b].0);
            }
            assert forall|k: int| 0 <= k < n.len() implies is_kept(
                (#[trigger] n[k]).1,
                (depth - 1) as nat,
                integers,
            ) by {
                assert(k != i ==> n[k] == m[k]);
            }
        },
        JsonView::Array(a) => {
            let n = a.update(i, c);
            assert forall|k: int| 0 <= k < n.len() implies is_kept(
                #[trigger] n[k],
                (depth - 1) as nat,
                integers,
            ) by {
                assert(k != i ==> n[k] == a[k]);
            }
        },
        _ => {},
    }
}

/// Putting a string in place of a value keeps the value one that `serde_json` keeps as it is.
pub proof fn law_replaced_value_is_kept(
    v: JsonView,
    path: Seq<Seq<char>>,
    new: Seq<char>,
    depth: nat,
    integers: bool,
)
    requires
        is_kept(v, depth, integers),
    ensures
        is_kept(replaced(v, path, JsonView::String(new)), depth, integers),
    decreases path.len(),
{
    if path.len() > 0 && path[0].len() > 0 && child_index(v, path[0]) is Some {
        lemma_child_in_range(v, path[0]);
        let i = child_index(v, path[0])->0;
        let c = child_at(v, i);
        assert(is_kept(c, (depth - 1) as nat, integers));
        law_replaced_value_is_kept(c, path.skip(1), new, (depth - 1) as nat, integers);
        lemma_kept_with_child(
            v,
            i,
            replaced(c, path.skip(1), JsonView::String(new)),
            depth,
            integers,
        );
    }
}

/// Removing a field keeps the value one that `serde_json` keeps as it is.
pub proof fn law_value_with_a_field_removed_is_kept(
    v: JsonView,
    path: Seq<Seq<char>>,
    depth: nat,
    integers: bool,
)
    requires
        is_kept(v, depth, integers),
    ensures
        is_kept(removed(v, path), depth, integers),
    decreases path.len(),
{
    if path.len() == 1 {
        if let JsonView::Object(m) = v {
            lemma_member_index(m, path[0]);
            let k = member_index(m, path[0]);
            if k < m.len() {
                let n = m.remove(k);
                assert forall|a: int, b: int| 0 <= a < b < n.len() implies text_before(
                    (#[trigger] n[a]).0,
                    (#[trigger] n[b]).0,
                ) by {
                    let a0 = if a < k {
                        a
                    } else {
                        a + 1
                    };
                    let b0 = if b < k {
                        b
                    } else {
                        b + 1
                    };
                    assert(n[a] == m[a0] && n[b] == m[b0]);
                }
                assert forall|i: int| 0 <= i < n.len() implies is_kept(
                    (#[trigger] n[i]).1,
                    (depth - 1) as nat,
                    integers,
                ) by {
                    let i0 = if i < k {
                        i
                    } else {
                        i + 1
                    };
                    assert(n[i] == m[i0]);
                }
            }
        }
        if let JsonView::Array(a) = v {
            if let Some(k) = child_index(v, path[0]) {
                let n = a.remove(k);
                assert forall|i: int| 0 <= i < n.len() implies is_kept(
                    #[trigger] n[i],
                    (depth - 1) as nat,
                    integers,
                ) by {
                    let i0 = if i < k {
                        i
                    } else {
                        i + 1
                    };
                    assert(n[i] == a[i0]);
                }
            }
        }
    } else if path.len() > 1 && path[0].len() > 0 && child_index(v, path[0]) is Some {
        lemma_child_in_range(v, path[0]);
        let i = child_index(v, path[0])->0;
        let c = child_at(v, i);
        assert(is_kept(c, (depth - 1) as nat, integers));
        law_value_with_a_field_removed_is_kept(c, path.skip(1), (depth - 1) as nat, integers);
        lemma_kept_with_child(v, i, removed(c, path.skip(1)), depth, integers);
    }
}

proof fn lemma_quoted_chars_join(a: Seq<char>, b: Seq<char>)
    ensures
        quoted_chars(a + b) == quoted_chars(a) + quoted_chars(b),
    decreases b.len(),
{
    if b.len() == 0 {
        assert(a + b =~= a);
        assert(quoted_chars(a) + quoted_chars(b) =~= quoted_chars(a));
    } else {
        lemma_quoted_chars_join(a, b.drop_last());
        assert((a + b).drop_last() =~= a + b.drop_last());
        assert(quoted_chars(a) + (quoted_chars(b.drop_last()) + quoted_char(b.last())) =~= (
        quoted_chars(a) + quoted_chars(b.drop_last())) + quoted_char(b.last()));
    }
}

/// A text that needs no escaping stands in the text of an array wherever one of its strings holds
/// it.
pub proof fn law_array_text_holds_its_strings(
    a: Seq<JsonView>,
    i: int,
    s: Seq<char>,
    part: Seq<char>,
)
    requires
        0 <= i < a.len(),
        a[i] == JsonView::String(s),
        text::contains_text(s, part),
        quoted_chars(part) == part,
    ensures
        text::contains_text(json_print(JsonView::Array(a)), part),
{
    let k = choose|k: int| text::occurs_at(s, part, k);
    let x = s.take(k);
    let y = s.skip(k + part.len());
    assert(s =~= x + part + y);
    lemma_quoted_chars_join(x + part, y);
    lemma_quoted_chars_join(x, part);
    reveal_with_fuel(json_print, 2);
    let texts = json_parts(JsonView::Array(a));
    let (before, after) = text::lemma_join_holds_parts(texts, seq![','], i);
    let whole = json_print(JsonView::Array(a));
    let head = seq!['['] + before + seq!['"'] + quoted_chars(x);
    let tail = quoted_chars(y) + seq!['"'] + after + seq![']'];
    assert(texts[i] == quoted(s));
    assert(whole =~= head + part + tail);
    assert(whole.subrange(head.len() as int, head.len() as int + part.len()) =~= part);
    assert(text::occurs_at(whole, part, head.len() as int));
}

/// A path leads through a value step by step: the way of two paths, one after the other, is that
/// of the first and from there that of the second. The empty path leads to the value itself, and
/// an empty step leads nowhere.
pub proof fn law_paths_lead_step_by_step(
    v: JsonView,
    a: Seq<Seq<char>>,
    b: Seq<Seq<char>>,
)
    ensures
        lookup(v, Seq::empty()) == Some(v),
        lookup(v, seq![Seq::empty()]) is None,
        lookup(v, a) is None ==> lookup(v, a + b) is None,
        lookup(v, a) is Some ==> lookup(v, a + b) == lookup(lookup(v, a)->0, b),
    decreases a.len(),
{
    if a.len() == 0 {
        assert(a + b =~= b);
    } else {
        assert((a + b)[0] == a[0]);
        assert((a + b).skip(1) =~= a.skip(1) + b);
        if a[0].len() > 0 {
            if let Some(i) = child_index(v, a[0]) {
                law_paths_lead_step_by_step(child_at(v, i), a.skip(1), b);
            }
        }
    }
}

/// One step: the first member of that name in an object, the item at that index in an array, and
/// nothing in any other value.
pub proof fn law_one_step_of_a_path(v: JsonView, step: Seq<char>, i: int)
    requires
        step.len() > 0,
    ensures
        v matches JsonView::Object(m) ==> {
            &&& 0 <= i < m.len() && m[i].0 == step && (forall|k: int|
                0 <= k < i ==> (#[trigger] m[k]).0 != step) ==> lookup(v, seq![step]) == Some(
                m[i].1,
            )
            &&& (forall|k: int| 0 <= k < m.len() ==> (#[trigger] m[k]).0 != step) ==> lookup(
                v,
                seq![step],
            ) is None
        },
        v matches JsonView::Array(a) ==> {
            &&& 0 <= i < a.len() && text::parse_nat(step) == Some(i as nat) ==> lookup(
                v,
                seq![step],
            ) == Some(a[i])
            &&& text::parse_nat(step) is None || text::parse_nat(step)->0 >= a.len() ==> lookup(
                v,
                seq![step],
            ) is None
        },
        !(v is Object) && !(v is Array) ==> lookup(v, seq![step]) is None,
{
    assert(seq![step].skip(1) =~= Seq::<Seq<char>>::empty());
    assert(seq![step][0] == step);
    if let JsonView::Object(m) = v {
        lemma_member_index(m, step);
        if 0 <= i < m.len() && m[i].0 == step && (forall|k: int|
            0 <= k < i ==> (#[trigger] m[k]).0 != step) {
            lemma_member_index_unique(m, step, i);
        }
        if forall|k: int| 0 <= k < m.len() ==> (#[trigger] m[k]).0 != step {
            lemma_member_index_unique(m, step, m.len() as int);
        }
    }
    match child_index(v, step) {
        Some(k) => {
            assert(lookup(child_at(v, k), Seq::empty()) == Some(child_at(v, k)));
        },
        None => {},
    }
}

/// Removing what is not there changes nothing.
pub proof fn law_removing_nothing_changes_nothing(v: JsonView, path: Seq<Seq<char>>)
    requires
        lookup(v, path) is None,
        path.last().len() > 0,
    ensures
        removed(v, path) == v,
    decreases path.len(),
{
    if path.len() == 1 {
        law_paths_lead_step_by_step(v, path, Seq::empty());
        assert(path.skip(1) =~= Seq::<Seq<char>>::empty());
        if let Some(i) = child_index(v, path[0]) {
            assert(lookup(child_at(v, i), path.skip(1)) is Some);
        }
    } else if path.len() > 1 && path[0].len() > 0 {
        if let Some(i) = child_index(v, path[0]) {
            law_removing_nothing_changes_nothing(child_at(v, i), path.skip(1));
            lemma_child_in_range(v, path[0]);
            if let JsonView::Object(m) = v {
                assert(m.update(i, (m[i].0, m[i].1)) =~= m);
            }
            if let JsonView::Array(a) = v {
                assert(a.update(i, a[i]) =~= a);
            }
        }
    }
}

/// Removing a member takes it out of its object and leaves the others as they are, in their order.
pub proof fn law_removed_member_leaves_the_others(
    m: Seq<(Seq<char>, JsonView)>,
    name: Seq<char>,
    i: int,
)
    requires
        0 <= i < m.len(),
        m[i].0 == name,
        forall|k: int| 0 <= k < i ==> (#[trigger] m[k]).0 != name,
    ensures
        removed(JsonView::Object(m), seq![name]) == JsonView::Object(m.take(i) + m.skip(i + 1)),
{
    lemma_member_index_unique(m, name, i);
    assert(m.remove(i) =~= m.take(i) + m.skip(i + 1));
}

/// The JSON text of a value: `null`, `true` and `false`; a number in decimal, a negative one after
/// a minus sign; a string in quotes.
pub proof fn law_json_text_of_scalars(n: JsonNumberView, s: Seq<char>)
    ensures
        json_text(JsonView::Null) == "null"@,
        json_text(JsonView::Bool(true)) == "true"@,
        json_text(JsonView::Bool(false)) == "false"@,
        n.uint is Some ==> json_text(JsonView::Number(n)) == text::decimal(n.uint->0 as nat),
        n.uint is None && n.int is Some ==> json_text(JsonView::Number(n)) == seq!['-']
            + text::decimal((-n.int->0) as nat),
        json_text(JsonView::String(s)) == seq!['"'] + quoted_chars(s) + seq!['"'],
{
}

/// Text in quotes is escaped character by character: a quote and a backslash get a backslash before
/// them, the usual control characters become a backslash and a letter, the other ones the four
/// digits of their number, and every other character stays.
pub proof fn law_quoted_text(a: Seq<char>, b: Seq<char>, c: char)
    ensures
        quoted_chars(Seq::empty()) == Seq::<char>::empty(),
        quoted_chars(a + b) == quoted_chars(a) + quoted_chars(b),
        quoted_chars(seq!['"']) == seq!['\\', '"'],
        quoted_chars(seq!['\\']) == seq!['\\', '\\'],
        quoted_chars(seq!['\n']) == seq!['\\', 'n'],
        quoted_chars(seq!['\r']) == seq!['\\', 'r'],
        quoted_chars(seq!['\t']) == seq!['\\', 't'],
        quoted_chars(seq!['\x08']) == seq!['\\', 'b'],
        quoted_chars(seq!['\x0c']) == seq!['\\', 'f'],
        c as u32 >= 32 && c != '"' && c != '\\' ==> quoted_chars(seq![c]) == seq![c],
        (c as u32) < 32 && c != '\n' && c != '\r' && c != '\t' && c != '\x08' && c != '\x0c'
            ==> quoted_chars(seq![c]).len() == 6 && quoted_chars(seq![c]).take(4) == seq![
            '\\',
            'u',
            '0',
            '0',
        ],
{
    lemma_quoted_chars_join(a, b);
    lemma_quoted_one('"');
    lemma_quoted_one('\\');
    lemma_quoted_one('\n');
    lemma_quoted_one('\r');
    lemma_quoted_one('\t');
    lemma_quoted_one('\x08');
    lemma_quoted_one('\x0c');
    lemma_quoted_one(c);
    if (c as u32) < 32 && c != '\n' && c != '\r' && c != '\t' && c != '\x08' && c != '\x0c' {
        assert(quoted_char(c).take(4) =~= seq!['\\', 'u', '0', '0']);
    }
}

proof fn lemma_quoted_one(c: char)
    ensures
        quoted_chars(seq![c]) == quoted_char(c),
{
    let none = Seq::<char>::empty();
    assert(seq![c].drop_last() =~= none);
    assert(quoted_chars(none) =~= none);
    assert(none + quoted_char(c) =~= quoted_char(c));
}

/// The JSON text of an array is its items' texts between brackets, that of an object its members'
/// names and values between braces, with commas between them.
pub proof fn law_json_text_of_lists(
    a: Seq<JsonView>,
    m: Seq<(Seq<char>, JsonView)>,
    items: Seq<Seq<char>>,
    pairs: Seq<Seq<char>>,
)
    requires
        items.len() == a.len(),
        forall|i: int| 0 <= i < a.len() ==> #[trigger] items[i] == json_print(a[i]),
        pairs.len() == m.len(),
        forall|i: int|
            0 <= i < m.len() ==> #[trigger] pairs[i] == quoted(m[i].0) + seq![':'] + json_print(
                m[i].1,
            ),
    ensures
        json_print(JsonView::Array(a)) == seq!['['] + text::join(items, seq![',']) + seq![']'],
        json_print(JsonView::Object(m)) == seq!['{'] + text::join(pairs, seq![',']) + seq!['}'],
{
    reveal_with_fuel(json_print, 3);
    reveal_with_fuel(json_parts, 3);
    assert(json_parts(JsonView::Array(a)) =~= items);
    assert(json_parts(JsonView::Object(m)) =~= pairs);
}

} // verus!
