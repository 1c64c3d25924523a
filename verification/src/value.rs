//! Type-erased field values for cross-field comparison.
use vstd::prelude::*;
use vstd::utf8::encode_utf8;
use crate::rules::binary64::{canonical_zero, float_is_nan};

verus! {

/// Type-erased representation of a field value for cross-field comparison.
#[derive(Debug)]
pub enum FieldValue {
    /// No value (an absent optional field, or a field of a type that has no
    /// comparable representation).
    Null,
    Bool(bool),
    Int(i64),
    Uint(u64),
    /// A floating-point number, by its IEEE 754 binary64 bit pattern.
    Float(u64),
    String(String),
    List(Vec<FieldValue>),
}

/// The model of a [`FieldValue`].
pub enum ValueModel {
    Null,
    Bool(bool),
    Int(int),
    Uint(int),
    /// A binary64 bit pattern, negative zero read as zero.
    Float(u64),
    Str(Seq<char>),
    List(Seq<ValueModel>),
}

impl FieldValue {
    /// The mathematical value this field value stands for.
    pub open spec fn model(&self) -> ValueModel
        decreases self,
    {
        match self {
            FieldValue::Null => ValueModel::Null,
            FieldValue::Bool(b) => ValueModel::Bool(*b),
            FieldValue::Int(i) => ValueModel::Int(*i as int),
            FieldValue::Uint(u) => ValueModel::Uint(*u as int),
            FieldValue::Float(b) => ValueModel::Float(canonical_zero(*b)),
            FieldValue::String(s) => ValueModel::Str(s@),
            FieldValue::List(items) => ValueModel::List(list_model(items@)),
        }
    }
}

impl FieldValue {
    /// The value is `Null`.
    pub fn is_none(&self) -> (r: bool)
        ensures
            r == (self.model() is Null),
    {
        match self {
            FieldValue::Null => true,
            _ => false,
        }
    }

    /// `Null`, an empty string or an empty list.
    pub fn is_empty(&self) -> (r: bool)
        ensures
            r == spec_is_empty(self.model()),
    {
        proof {
            if let FieldValue::List(items) = self {
                lemma_list_model(items@);
            }
        }
        match self {
            FieldValue::Null => true,
            FieldValue::String(s) => s.as_str().unicode_len() == 0,
            FieldValue::List(l) => l.len() == 0,
            _ => false,
        }
    }

    /// The text of a string value.
    pub fn as_str(&self) -> (r: Option<&str>)
        ensures
            match self.model() {
                ValueModel::Str(s) => r matches Some(t) && t@ == s,
                _ => r is None,
            },
    {
        match self {
            FieldValue::String(s) => Some(s.as_str()),
            _ => None,
        }
    }

    /// The length of a string (in UTF-8 bytes) or of a list.
    pub fn len(&self) -> (r: Option<usize>)
        ensures
            match self {
                FieldValue::String(s) => r == Some(encode_utf8(s@).len() as usize),
                FieldValue::List(l) => r == Some(l@.len() as usize),
                _ => r is None,
            },
    {
        match self {
            FieldValue::String(s) => Some(s.as_str().len()),
            FieldValue::List(l) => Some(l.len()),
            _ => None,
        }
    }
}

/// Whether two values are equal as the comparison rules see them: numbers
/// of the same kind by value (a NaN equals nothing, and the two zeros are
/// equal), lists item by item, anything else structurally.
pub open spec fn same_value(a: ValueModel, b: ValueModel) -> bool
    decreases a, 0int, 0int,
{
    match (a, b) {
        (ValueModel::Float(x), ValueModel::Float(y)) => !float_is_nan(x) && x == y,
        (ValueModel::List(xs), ValueModel::List(ys)) => xs.len() == ys.len() && same_items(xs, ys, 0),
        _ => a == b,
    }
}

/// The items of `xs` from `i` on are the same as those of `ys`.
pub open spec fn same_items(xs: Seq<ValueModel>, ys: Seq<ValueModel>, i: int) -> bool
    decreases xs, 1int, xs.len() - i,
{
    if i < 0 || i >= xs.len() {
        true
    } else {
        same_value(xs[i], ys[i]) && same_items(xs, ys, i + 1)
    }
}

/// `Null`, an empty string or an empty list.
pub open spec fn spec_is_empty(v: ValueModel) -> bool {
    match v {
        ValueModel::Null => true,
        ValueModel::Str(s) => s.len() == 0,
        ValueModel::List(l) => l.len() == 0,
        _ => false,
    }
}

/// The models of a list of values.
pub open spec fn list_model(items: Seq<FieldValue>) -> Seq<ValueModel>
    decreases items,
{
    Seq::new(items.len(), |i: int| if 0 <= i < items.len() { items[i].model() } else { ValueModel::Null })
}

/// The model of a list holds the model of each item, in order.
pub proof fn lemma_list_model(items: Seq<FieldValue>)
    ensures
        list_model(items).len() == items.len(),
        forall|i: int| 0 <= i < items.len() ==> #[trigger] list_model(items)[i] == items[i].model(),
{
}

} // verus!
