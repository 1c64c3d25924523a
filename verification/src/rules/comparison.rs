//! Comparison rules: `in_list`, `not_in`, `same`, `different`,
//! `gt`/`gte`/`lt`/`lte`, `in_array`, `distinct`.
use vstd::prelude::*;
use crate::rules::binary64::{
    binary64_of_int, canonical_zero_bits, compare_float_int, compare_floats, int_as_binary64, float_is_nan, is_nan_bits, lemma_float_equal_iff_same_bits, float_int_order, float_order,
};
use crate::text::str_eq;
use crate::value::{lemma_list_model, list_model, same_items, same_value, FieldValue, ValueModel};

verus! {

/// Result of comparing two values.
#[derive(PartialEq, Eq, Structural, Clone, Copy, Debug)]
pub enum Order {
    Less,
    Equal,
    Greater,
}

/// Lexicographic order of two character sequences.
pub open spec fn lex_order(a: Seq<char>, b: Seq<char>) -> Order
    decreases a.len(),
{
    if a.len() == 0 {
        if b.len() == 0 {
            Order::Equal
        } else {
            Order::Less
        }
    } else if b.len() == 0 {
        Order::Greater
    } else if a[0] < b[0] {
        Order::Less
    } else if b[0] < a[0] {
        Order::Greater
    } else {
        lex_order(a.drop_first(), b.drop_first())
    }
}

/// Order of two integers.
pub open spec fn int_order(a: int, b: int) -> Order {
    if a < b {
        Order::Less
    } else if a == b {
        Order::Equal
    } else {
        Order::Greater
    }
}

/// How two values compare: integers (signed or not) by value, binary64
/// numbers by value, an integer against a binary64 number as the binary64
/// value nearest the integer, strings lexicographically; any other pair, and
/// a NaN, has no order.
pub open spec fn value_order(a: ValueModel, b: ValueModel) -> Option<Order> {
    match (a, b) {
        (ValueModel::Int(x), ValueModel::Int(y)) => Some(int_order(x, y)),
        (ValueModel::Uint(x), ValueModel::Uint(y)) => Some(int_order(x, y)),
        (ValueModel::Int(x), ValueModel::Uint(y)) => Some(int_order(x, y)),
        (ValueModel::Uint(x), ValueModel::Int(y)) => Some(int_order(x, y)),
        (ValueModel::Float(x), ValueModel::Float(y)) => float_order(x, y),
        (ValueModel::Float(x), ValueModel::Int(y)) => float_int_order(x, int_as_binary64(y)),
        (ValueModel::Float(x), ValueModel::Uint(y)) => float_int_order(x, int_as_binary64(y)),
        (ValueModel::Int(x), ValueModel::Float(y)) => reversed(float_int_order(y, int_as_binary64(x))),
        (ValueModel::Uint(x), ValueModel::Float(y)) => reversed(float_int_order(y, int_as_binary64(x))),
        (ValueModel::Str(x), ValueModel::Str(y)) => Some(lex_order(x, y)),
        _ => None,
    }
}

/// An order seen from the other side, if there is one.
pub open spec fn reversed(o: Option<Order>) -> Option<Order> {
    match o {
        Some(c) => Some(converse(c)),
        None => None,
    }
}

/// The order seen from the other side.
pub open spec fn converse(o: Order) -> Order {
    match o {
        Order::Less => Order::Greater,
        Order::Equal => Order::Equal,
        Order::Greater => Order::Less,
    }
}

/// Swapping two strings reverses their lexicographic order.
proof fn lemma_lex_order_converse(a: Seq<char>, b: Seq<char>)
    ensures
        lex_order(b, a) == converse(lex_order(a, b)),
    decreases a.len(),
{
    if a.len() > 0 && b.len() > 0 && a[0] == b[0] {
        lemma_lex_order_converse(a.drop_first(), b.drop_first());
    }
}

/// Two values compare the same way from either side: `gt(a, b)` exactly
/// when `lt(b, a)`, `gte(a, b)` exactly when `lte(b, a)`, and a pair with
/// no order has none either way round.
pub proof fn lemma_value_order_converse(a: ValueModel, b: ValueModel)
    ensures
        value_order(b, a) == reversed(value_order(a, b)),
{
    if let (ValueModel::Str(x), ValueModel::Str(y)) = (a, b) {
        lemma_lex_order_converse(x, y);
    }
    if let Some(o) = value_order(a, b) {
        assert(converse(converse(o)) == o);
    }
}

/// Lexicographic order is an order: equal exactly for equal strings.
proof fn lemma_lex_order_equal(a: Seq<char>, b: Seq<char>)
    ensures
        (lex_order(a, b) == Order::Equal) == (a == b),
    decreases a.len(),
{
    if a.len() > 0 && b.len() > 0 && a[0] == b[0] {
        lemma_lex_order_equal(a.drop_first(), b.drop_first());
        if a.drop_first() == b.drop_first() {
            assert(a =~= seq![a[0]] + a.drop_first());
            assert(b =~= seq![b[0]] + b.drop_first());
        }
    } else if a.len() > 0 && b.len() > 0 {
        assert(a[0] != b[0]);
    } else if a.len() == 0 && b.len() > 0 {
        assert(a != b);
    } else if a.len() > 0 && b.len() == 0 {
        assert(a != b);
    } else {
        assert(a =~= b);
    }
}

/// Two strings, two integers of the same kind, or two binary64 values as a
/// field holds them (negative zero read as zero) compare equal exactly when
/// `same` holds of them, so between such values `gte` and `lte` together
/// mean `same`.
pub proof fn lemma_value_order_equal(a: ValueModel, b: ValueModel)
    requires
        (a is Str && b is Str) || ((a is Int || a is Uint) && (b is Int || b is Uint) && (a is Int == b is Int)) || (
        a is Float && b is Float && a->Float_0 != 0x8000_0000_0000_0000u64 && b->Float_0
            != 0x8000_0000_0000_0000u64),
    ensures
        (value_order(a, b) == Some(Order::Equal)) == same_value(a, b),
{
    if let (ValueModel::Str(x), ValueModel::Str(y)) = (a, b) {
        lemma_lex_order_equal(x, y);
    }
    if let (ValueModel::Float(x), ValueModel::Float(y)) = (a, b) {
        if !float_is_nan(x) && !float_is_nan(y) {
            lemma_float_equal_iff_same_bits(x, y);
        }
    }
}

/// `value` is one of the entries of `list`.
pub open spec fn spec_is_in(value: Seq<char>, list: Seq<&str>) -> bool {
    exists|i: int| 0 <= i < list.len() && list[i]@ == value
}

/// Lexicographic comparison of two strings.
fn compare_str(a: &str, b: &str) -> (r: Order)
    ensures
        r == lex_order(a@, b@),
{
    let n = a.unicode_len();
    let m = b.unicode_len();
    let mut i: usize = 0;
    assert(a@.skip(0) =~= a@);
    assert(b@.skip(0) =~= b@);
    while i < n && i < m
        invariant
            n == a@.len(),
            m == b@.len(),
            i <= n,
            i <= m,
            lex_order(a@, b@) == lex_order(a@.skip(i as int), b@.skip(i as int)),
        decreases n - i,
    {
        let x = a.get_char(i);
        let y = b.get_char(i);
        assert(a@.skip(i as int)[0] == x);
        assert(b@.skip(i as int)[0] == y);
        if x < y {
            return Order::Less;
        }
        if y < x {
            return Order::Greater;
        }
        assert(a@.skip(i as int).drop_first() =~= a@.skip(i + 1));
        assert(b@.skip(i as int).drop_first() =~= b@.skip(i + 1));
        i = i + 1;
    }
    if i == n {
        if i == m {
            Order::Equal
        } else {
            Order::Less
        }
    } else {
        Order::Greater
    }
}

/// Order of two integers given as `i128`.
fn compare_int(a: i128, b: i128) -> (r: Order)
    ensures
        r == int_order(a as int, b as int),
{
    if a < b {
        Order::Less
    } else if a == b {
        Order::Equal
    } else {
        Order::Greater
    }
}

/// An order seen from the other side, if there is one.
fn reverse_order(o: Option<Order>) -> (r: Option<Order>)
    ensures
        r == reversed(o),
{
    match o {
        Some(Order::Less) => Some(Order::Greater),
        Some(Order::Equal) => Some(Order::Equal),
        Some(Order::Greater) => Some(Order::Less),
        None => None,
    }
}

/// How `a` compares to `b`, if the two are comparable.
pub fn compare_values(a: &FieldValue, b: &FieldValue) -> (r: Option<Order>)
    ensures
        r == value_order(a.model(), b.model()),
{
    match (a, b) {
        (FieldValue::Int(x), FieldValue::Int(y)) => Some(compare_int(*x as i128, *y as i128)),
        (FieldValue::Uint(x), FieldValue::Uint(y)) => Some(compare_int(*x as i128, *y as i128)),
        (FieldValue::Int(x), FieldValue::Uint(y)) => Some(compare_int(*x as i128, *y as i128)),
        (FieldValue::Uint(x), FieldValue::Int(y)) => Some(compare_int(*x as i128, *y as i128)),
        (FieldValue::Float(x), FieldValue::Float(y)) => compare_floats(canonical_zero_bits(*x), canonical_zero_bits(*y)),
        (FieldValue::Float(x), FieldValue::Int(y)) => compare_float_int(canonical_zero_bits(*x), binary64_of_int(*y as i128)),
        (FieldValue::Float(x), FieldValue::Uint(y)) => compare_float_int(canonical_zero_bits(*x), binary64_of_int(*y as i128)),
        (FieldValue::Int(x), FieldValue::Float(y)) => reverse_order(
            compare_float_int(canonical_zero_bits(*y), binary64_of_int(*x as i128)),
        ),
        (FieldValue::Uint(x), FieldValue::Float(y)) => reverse_order(
            compare_float_int(canonical_zero_bits(*y), binary64_of_int(*x as i128)),
        ),
        (FieldValue::String(x), FieldValue::String(y)) => Some(compare_str(x.as_str(), y.as_str())),
        _ => None,
    }
}

/// Equality of two values as the comparison rules see it.
#[verifier::loop_isolation(false)]
pub fn values_eq(a: &FieldValue, b: &FieldValue) -> (r: bool)
    ensures
        r == same_value(a.model(), b.model()),
    decreases a,
{
    match a {
        FieldValue::List(xs) => {
            let ys = match b {
                FieldValue::List(ys) => ys,
                _ => {
                    return false;
                },
            };
            proof {
                lemma_list_model(xs@);
                lemma_list_model(ys@);
                assert(a.model() == ValueModel::List(list_model(xs@)));
                assert(b.model() == ValueModel::List(list_model(ys@)));
            }
            if xs.len() != ys.len() {
                assert(list_model(xs@).len() != list_model(ys@).len());
                return false;
            }
            let ghost lx = list_model(xs@);
            let ghost ly = list_model(ys@);
            let mut i: usize = 0;
            while i < xs.len()
                invariant
                    xs@.len() == ys@.len(),
                    i <= xs@.len(),
                    lx == list_model(xs@),
                    ly == list_model(ys@),
                    same_items(lx, ly, 0) == same_items(lx, ly, i as int),
                decreases xs@.len() - i,
            {
                proof {
                    assert(decreases_to!(*a => *xs));
                    assert(decreases_to!(*xs => xs@));
                    assert(decreases_to!(xs@ => xs@[i as int]));
                }
                if !values_eq(&xs[i], &ys[i]) {
                    assert(!same_items(lx, ly, i as int));
                    return false;
                }
                i = i + 1;
            }
            true
        },
        FieldValue::Null => match b {
            FieldValue::Null => true,
            _ => false,
        },
        FieldValue::Bool(x) => match b {
            FieldValue::Bool(y) => *x == *y,
            _ => false,
        },
        FieldValue::Int(x) => match b {
            FieldValue::Int(y) => *x == *y,
            _ => false,
        },
        FieldValue::Uint(x) => match b {
            FieldValue::Uint(y) => *x == *y,
            _ => false,
        },
        FieldValue::Float(x) => match b {
            FieldValue::Float(y) => {
                let cx = canonical_zero_bits(*x);
                !is_nan_bits(cx) && cx == canonical_zero_bits(*y)
            },
            _ => false,
        },
        FieldValue::String(x) => match b {
            FieldValue::String(y) => str_eq(x.as_str(), y.as_str()),
            _ => false,
        },
    }
}

/// The value is one of the entries of `list`.
pub fn is_in(value: &str, list: &[&str]) -> (r: bool)
    ensures
        r == spec_is_in(value@, list@),
{
    let mut i: usize = 0;
    while i < list.len()
        invariant
            i <= list@.len(),
            forall|j: int| 0 <= j < i ==> list@[j]@ != value@,
        decreases list@.len() - i,
    {
        if str_eq(list[i], value) {
            return true;
        }
        i = i + 1;
    }
    false
}

/// The value is none of the entries of `list`.
pub fn is_not_in(value: &str, list: &[&str]) -> (r: bool)
    ensures
        r == !spec_is_in(value@, list@),
{
    !is_in(value, list)
}

/// The two values are equal.
pub fn is_same(a: &FieldValue, b: &FieldValue) -> (r: bool)
    ensures
        r == same_value(a.model(), b.model()),
{
    values_eq(a, b)
}

/// The two values differ.
pub fn is_different(a: &FieldValue, b: &FieldValue) -> (r: bool)
    ensures
        r == !same_value(a.model(), b.model()),
{
    !values_eq(a, b)
}

/// `a` is greater than `b`.
pub fn is_gt(a: &FieldValue, b: &FieldValue) -> (r: bool)
    ensures
        r == (value_order(a.model(), b.model()) == Some(Order::Greater)),
{
    match compare_values(a, b) {
        Some(Order::Greater) => true,
        _ => false,
    }
}

/// `a` is greater than or equal to `b`.
pub fn is_gte(a: &FieldValue, b: &FieldValue) -> (r: bool)
    ensures
        r == (value_order(a.model(), b.model()) matches Some(o) && o != Order::Less),
{
    match compare_values(a, b) {
        Some(Order::Less) => false,
        Some(_) => true,
        None => false,
    }
}

/// `a` is less than `b`.
pub fn is_lt(a: &FieldValue, b: &FieldValue) -> (r: bool)
    ensures
        r == (value_order(a.model(), b.model()) == Some(Order::Less)),
{
    match compare_values(a, b) {
        Some(Order::Less) => true,
        _ => false,
    }
}

/// `a` is less than or equal to `b`.
pub fn is_lte(a: &FieldValue, b: &FieldValue) -> (r: bool)
    ensures
        r == (value_order(a.model(), b.model()) matches Some(o) && o != Order::Greater),
{
    match compare_values(a, b) {
        Some(Order::Greater) => false,
        Some(_) => true,
        None => false,
    }
}

/// `array` is a list holding an item equal to `value`.
#[verifier::loop_isolation(false)]
pub fn is_in_array(value: &FieldValue, array: &FieldValue) -> (r: bool)
    ensures
        r == (array.model() matches ValueModel::List(items) && holds_same(items, value.model())),
{
    match array {
        FieldValue::List(items) => {
            proof {
                lemma_list_model(items@);
                assert(array.model() == ValueModel::List(list_model(items@)));
            }
            let mut i: usize = 0;
            while i < items.len()
                invariant
                    i <= items@.len(),
                    forall|j: int| 0 <= j < i ==> !#[trigger] same_value(items@[j].model(), value.model()),
                decreases items@.len() - i,
            {
                if values_eq(&items[i], value) {
                    assert(same_value(list_model(items@)[i as int], value.model()));
                    return true;
                }
                i = i + 1;
            }
            assert forall|j: int| 0 <= j < list_model(items@).len() implies !#[trigger] same_value(list_model(items@)[j], value.model()) by {
                assert(list_model(items@)[j] == items@[j].model());
            }
            false
        },
        _ => false,
    }
}

/// Some item of `items` is the same as `v`.
pub open spec fn holds_same(items: Seq<ValueModel>, v: ValueModel) -> bool {
    exists|j: int| 0 <= j < items.len() && #[trigger] same_value(items[j], v)
}

/// No two items of a list are equal (a value that is not a list passes).
pub open spec fn spec_is_distinct(v: ValueModel) -> bool {
    match v {
        ValueModel::List(items) => forall|i: int, j: int|
            #![trigger items[i], items[j]]
            0 <= i < j < items.len() ==> !same_value(items[i], items[j]),
        _ => true,
    }
}

/// All items of the list are distinct.
#[verifier::loop_isolation(false)]
pub fn is_distinct(values: &FieldValue) -> (r: bool)
    ensures
        r == spec_is_distinct(values.model()),
{
    match values {
        FieldValue::List(items) => {
            proof {
                lemma_list_model(items@);
                assert(values.model() == ValueModel::List(list_model(items@)));
            }
            let ghost m = list_model(items@);
            let n = items.len();
            let mut i: usize = 0;
            while i < n
                invariant
                    n == items@.len(),
                    m == list_model(items@),
                    i <= n,
                    forall|a: int, b: int| 0 <= a < i && a < b < n ==> !same_value(m[a], m[b]),
                decreases n - i,
            {
                let mut j: usize = i + 1;
                while j < n
                    invariant
                        n == items@.len(),
                        m == list_model(items@),
                        i < n,
                        i + 1 <= j <= n,
                        forall|a: int, b: int| 0 <= a < i && a < b < n ==> !same_value(m[a], m[b]),
                        forall|b: int| i < b < j ==> !same_value(m[i as int], m[b]),
                    decreases n - j,
                {
                    if values_eq(&items[i], &items[j]) {
                        assert(same_value(m[i as int], m[j as int]));
                        assert(values.model() == ValueModel::List(m));
                        assert(!spec_is_distinct(values.model())) by {
                            let x = i as int;
                            let y = j as int;
                            assert(0 <= x < y < m.len());
                            let lm = ValueModel::List(m);
                            assert(lm matches ValueModel::List(ms) && ms == m);
                            assert(spec_is_distinct(lm) ==> !same_value(m[x], m[y]));
                        }
                        return false;
                    }
                    j = j + 1;
                }
                i = i + 1;
            }
            true
        },
        _ => true,
    }
}

} // verus!
