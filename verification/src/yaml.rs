//! The values that a rule's condition compares with, as a YAML file writes them.
use crate::text;
use vstd::prelude::*;

verus! {

/// A YAML number: what it is as a signed and as an unsigned integer, where it is one, the bits of
/// its floating-point value, and its text.
#[derive(Debug)]
pub struct YamlNumber {
    pub int: Option<i64>,
    pub uint: Option<u64>,
    pub float_bits: Option<u64>,
    pub text: String,
}

/// A YAML value. Mappings and tagged values are told apart from the others and no further.
#[derive(Debug)]
pub enum YamlValue {
    Null,
    Bool(bool),
    Number(YamlNumber),
    String(String),
    Sequence(Vec<YamlValue>),
    Other,
}

/// What a [`YamlNumber`] stands for.
pub struct YamlNumberView {
    pub int: Option<i64>,
    pub uint: Option<u64>,
    pub float_bits: Option<u64>,
    pub text: Seq<char>,
}

/// What a [`YamlValue`] stands for.
pub enum YamlView {
    Null,
    Bool(bool),
    Number(YamlNumberView),
    String(Seq<char>),
    Sequence(Seq<YamlView>),
    Other,
}

impl View for YamlNumber {
    type V = YamlNumberView;

    open spec fn view(&self) -> YamlNumberView {
        YamlNumberView {
            int: self.int,
            uint: self.uint,
            float_bits: self.float_bits,
            text: self.text@,
        }
    }
}

/// What a YAML value stands for.
pub open spec fn yaml_view(v: YamlValue) -> YamlView
    decreases v,
{
    match v {
        YamlValue::Null => YamlView::Null,
        YamlValue::Bool(b) => YamlView::Bool(b),
        YamlValue::Number(n) => YamlView::Number(n@),
        YamlValue::String(s) => YamlView::String(s@),
        YamlValue::Sequence(a) => YamlView::Sequence(
            Seq::new(
                a@.len(),
                |i: int|
                    if 0 <= i < a@.len() {
                        yaml_view(a@[i])
                    } else {
                        arbitrary()
                    },
            ),
        ),
        YamlValue::Other => YamlView::Other,
    }
}

impl View for YamlValue {
    type V = YamlView;

    open spec fn view(&self) -> YamlView {
        yaml_view(*self)
    }
}

/// What a list of YAML values stands for.
pub open spec fn yaml_list(v: Seq<YamlValue>) -> Seq<YamlView> {
    Seq::new(v.len(), |i: int| v[i]@)
}

/// What an optional YAML value stands for.
pub open spec fn opt_yaml(o: Option<YamlValue>) -> Option<YamlView> {
    match o {
        Some(v) => Some(v@),
        None => None,
    }
}

/// A sequence stands for the list of what its items stand for.
pub proof fn lemma_yaml_list(v: YamlValue)
    requires
        v is Sequence,
    ensures
        v@ == YamlView::Sequence(yaml_list(v->Sequence_0@)),
{
    assert(v@->Sequence_0 =~= yaml_list(v->Sequence_0@));
}

/// The text of a scalar; `None` for null, sequences and mappings.
pub open spec fn yaml_text(v: YamlView) -> Option<Seq<char>> {
    match v {
        YamlView::String(s) => Some(s),
        YamlView::Bool(b) => Some(text::bool_chars(b)),
        YamlView::Number(n) => Some(n.text),
        _ => None,
    }
}

/// The text of an optional value, where it is a scalar.
pub open spec fn opt_yaml_text(v: Option<YamlView>) -> Option<Seq<char>> {
    match v {
        Some(x) => yaml_text(x),
        None => None,
    }
}

/// The text of a scalar; `None` for null, sequences and mappings.
pub fn yaml_value_to_string(value: &YamlValue) -> (r: Option<String>)
    ensures
        text::opt_text(r) == yaml_text(value@),
{
    match value {
        YamlValue::String(s) => Some(s.clone()),
        YamlValue::Bool(b) => Some(text::bool_text(*b)),
        YamlValue::Number(n) => Some(n.text.clone()),
        _ => None,
    }
}

/// The text of an optional value, where it is a scalar.
pub fn opt_yaml_to_string(value: &Option<YamlValue>) -> (r: Option<String>)
    ensures
        text::opt_text(r) == opt_yaml_text(opt_yaml(*value)),
{
    match value {
        Some(v) => yaml_value_to_string(v),
        None => None,
    }
}

impl Clone for YamlNumber {
    fn clone(&self) -> (r: Self)
        ensures
            r@ == self@,
    {
        YamlNumber {
            int: self.int,
            uint: self.uint,
            float_bits: self.float_bits,
            text: self.text.clone(),
        }
    }
}

fn copy_yaml(v: &YamlValue) -> (r: YamlValue)
    ensures
        r@ == v@,
    decreases v,
{
    match v {
        YamlValue::Null => YamlValue::Null,
        YamlValue::Bool(b) => YamlValue::Bool(*b),
        YamlValue::Number(n) => YamlValue::Number(n.clone()),
        YamlValue::String(s) => YamlValue::String(s.clone()),
        YamlValue::Sequence(a) => {
            let mut out: Vec<YamlValue> = Vec::new();
            let mut i: usize = 0;
            while i < a.len()
                invariant
                    i <= a@.len(),
                    *v == YamlValue::Sequence(*a),
                    yaml_list(out@) == yaml_list(a@).take(i as int),
                decreases a@.len() - i,
            {
                let ghost before = out@;
                assert(decreases_to!(v => v->Sequence_0@[i as int]));
                out.push(copy_yaml(&a[i]));
                assert(yaml_list(out@) =~= yaml_list(before).push(a@[i as int]@));
                assert(yaml_list(a@).take(i + 1) =~= yaml_list(a@).take(i as int).push(
                    a@[i as int]@,
                ));
                i += 1;
            }
            assert(yaml_list(a@).take(i as int) =~= yaml_list(a@));
            let r = YamlValue::Sequence(out);
            proof {
                lemma_yaml_list(r);
                lemma_yaml_list(*v);
            }
            r
        },
        YamlValue::Other => YamlValue::Other,
    }
}

impl Clone for YamlValue {
    fn clone(&self) -> (r: Self)
        ensures
            r@ == self@,
    {
        copy_yaml(self)
    }
}

/// The text of a scalar is the string itself, `true` or `false`, or the number as it was written;
/// nothing else has one.
pub proof fn law_texts_of_values(s: Seq<char>, n: YamlNumberView, list: Seq<YamlView>)
    ensures
        yaml_text(YamlView::String(s)) == Some(s),
        yaml_text(YamlView::Bool(true)) == Some("true"@),
        yaml_text(YamlView::Bool(false)) == Some("false"@),
        yaml_text(YamlView::Number(n)) == Some(n.text),
        yaml_text(YamlView::Null) is None,
        yaml_text(YamlView::Sequence(list)) is None,
        yaml_text(YamlView::Other) is None,
{
}

} // verus!
