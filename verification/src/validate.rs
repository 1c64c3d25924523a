//! Records and their validation against a compiled [`Schema`].
//!
//! A [`Record`] is an instance of a validated type: the variant it is (0 for
//! a struct) and the value of each declared field, in declaration order. A
//! nested value that is validated in turn is a record itself, carrying its
//! own schema.
//!
//! The result of validation is specified by [`spec_validate`]: the fields
//! are visited in order, and each field's checks in order; every failing
//! check records its message under the field's path, and a nested record's
//! errors are merged under the field's path (`address.city`,
//! `members.1.email`).
use vstd::prelude::*;
use vstd::utf8::is_ascii_chars;
use crate::compile::{field_kind, rule_kind, struct_rule, usize_literal, variant_rule, FieldKind, RuleKind};
use crate::schema::{FieldInfoM, FieldRuleM, ParamsM};
use crate::error::{errors_at, merged, ErrorModel, ErrorsModel, ValidationError, ValidationErrors};
use crate::plan::{
    plans_model, strings_model, Bound, Check, CheckM, CompiledRule, Cond, CondM, CountTest, FieldPlan, FieldPlanM, Guard, NumTest,
    Relation, RuleM, Schema, TextTest, TextTestM,
};
use crate::rules::binary64::{canonical_zero, compare_float_scaled, compare_int_scaled, float_scaled_order};
use crate::rules::comparison::int_order;
use vstd::arithmetic::power2::pow2;
use crate::rules::comparison::{holds_same, spec_is_distinct, value_order, Order};
use crate::rules::format::{
    datetime_format, datetime_fraction_format, date_format, email_ok, json_ok, naive_datetime_ok,
    parsed_date, regex_compiles, regex_finds, rfc3339_ok, spec_compare_dates, spec_is_hex_color,
    spec_is_mac_address, spec_is_web_scheme, timezone_ok, spec_is_ulid, url_scheme, uuid_ok,
};
use crate::rules::ip::{spec_is_ip, spec_is_ipv4, spec_is_ipv6};
use crate::rules::numeric::{digit_count, spec_check_decimal, spec_is_multiple_of};
use crate::rules::presence::{has_content, spec_is_accepted, spec_is_declined};
use crate::rules::string::{spec_is_alpha, spec_is_alpha_dash, spec_is_alpha_num, spec_is_integer, spec_is_numeric};
use crate::text::{has_infix, has_prefix, has_suffix, unicode_lower, unicode_upper};
use crate::value::{lemma_list_model, list_model, same_value, FieldValue, ValueModel};
use crate::rules::comparison::{is_different, is_distinct, is_gt, is_gte, is_in_array, is_lt, is_lte, is_same, values_eq};
use crate::rules::format::{
    is_after, is_after_or_equal, is_ascii, is_before, is_before_or_equal, is_date_equals, is_email,
    is_hex_color, is_iso_date, is_iso_datetime, is_json, is_mac_address, is_timezone, is_ulid, is_url,
    is_uuid, matches_regex, not_matches_regex,
};
use crate::rules::ip::{is_ip, is_ipv4, is_ipv6};
use crate::rules::numeric::{check_decimal, check_digits, check_digits_between, is_multiple_of};
use crate::rules::presence::{is_accepted, is_declined, is_filled};
use crate::rules::string::{
    check_between_length, check_max_length, check_min_length, check_size, contains, doesnt_contain,
    doesnt_end_with, doesnt_start_with, ends_with, is_alpha, is_alpha_dash, is_alpha_num, is_integer,
    is_lowercase, is_numeric, is_uppercase, starts_with,
};
use crate::text::str_eq;

verus! {

/// The value of one field of a record.
#[derive(Debug)]
pub enum Value {
    /// An absent optional value.
    Null,
    Bool(bool),
    Int(i64),
    Uint(u64),
    /// A floating-point number, by its IEEE 754 binary64 bit pattern.
    Float(u64),
    /// Text: a string, or the string form of a value that has one.
    Str(String),
    List(Vec<Value>),
    /// A value that is validated with its own schema.
    Record(Box<Record>),
}

/// An instance of a validated type.
#[derive(Debug)]
pub struct Record {
    pub schema: Schema,
    /// Which variant of an enum this is (0 for a struct).
    pub variant: usize,
    /// The value of each field of the variant, in declaration order.
    pub fields: Vec<Value>,
    /// What the custom check functions answered on this record where they
    /// failed (a function and field with no entry passed).
    pub custom: Vec<CustomFailure>,
}

/// A custom check function that failed on a field, and its message.
#[derive(Clone, Debug)]
pub struct CustomFailure {
    /// The field's path in its record.
    pub field: String,
    pub function: String,
    pub message: String,
}

/// The model of a [`CustomFailure`].
pub struct CustomFailureM {
    pub field: Seq<char>,
    pub function: Seq<char>,
    pub message: Seq<char>,
}

impl View for CustomFailure {
    type V = CustomFailureM;

    open spec fn view(&self) -> CustomFailureM {
        CustomFailureM { field: self.field@, function: self.function@, message: self.message@ }
    }
}

/// The models of a list of custom failures.
pub open spec fn customs_model(v: Seq<CustomFailure>) -> Seq<CustomFailureM> {
    v.map_values(|c: CustomFailure| c@)
}

/// The message of the first failure of `function` on `field`, if any.
pub open spec fn custom_message(cs: Seq<CustomFailureM>, field: Seq<char>, function: Seq<char>) -> Option<Seq<char>>
    decreases cs.len(),
{
    if cs.len() == 0 {
        None
    } else if cs[0].field == field && cs[0].function == function {
        Some(cs[0].message)
    } else {
        custom_message(cs.drop_first(), field, function)
    }
}

/// The message of the first failure of `function` on `field`, if any.
fn find_custom<'a>(cs: &'a Vec<CustomFailure>, field: &str, function: &str) -> (r: Option<&'a String>)
    ensures
        match r {
            Some(m) => custom_message(customs_model(cs@), field@, function@) == Some(m@),
            None => custom_message(customs_model(cs@), field@, function@) is None,
        },
{
    let mut i: usize = 0;
    let ghost cm = customs_model(cs@);
    assert(cm.skip(0) =~= cm);
    while i < cs.len()
        invariant
            i <= cs@.len(),
            cm == customs_model(cs@),
            custom_message(cm, field@, function@) == custom_message(cm.skip(i as int), field@, function@),
        decreases cs@.len() - i,
    {
        assert(cm.skip(i as int)[0] == cs@[i as int]@);
        assert(cm.skip(i as int).drop_first() =~= cm.skip(i + 1));
        if crate::text::str_eq(cs[i].field.as_str(), field) && crate::text::str_eq(cs[i].function.as_str(), function) {
            return Some(&cs[i].message);
        }
        i = i + 1;
    }
    None
}

/// What cross-field rules see of a value: its scalar content; a nested
/// record reads as `Null`.
pub open spec fn value_model(v: Value) -> ValueModel
    decreases v,
{
    match v {
        Value::Null => ValueModel::Null,
        Value::Bool(b) => ValueModel::Bool(b),
        Value::Int(i) => ValueModel::Int(i as int),
        Value::Uint(u) => ValueModel::Uint(u as int),
        Value::Float(b) => ValueModel::Float(canonical_zero(b)),
        Value::Str(s) => ValueModel::Str(s@),
        Value::List(items) => ValueModel::List(values_model(items@)),
        Value::Record(_) => ValueModel::Null,
    }
}

/// The models of a list of values.
pub open spec fn values_model(items: Seq<Value>) -> Seq<ValueModel>
    decreases items,
{
    Seq::new(items.len(), |i: int| if 0 <= i < items.len() { value_model(items[i]) } else { ValueModel::Null })
}

/// The models of a list of values hold the model of each value, in order.
pub proof fn lemma_values_model(items: Seq<Value>)
    ensures
        values_model(items).len() == items.len(),
        forall|i: int| 0 <= i < items.len() ==> #[trigger] values_model(items)[i] == value_model(items[i]),
{
}

/// A value counts as present: text with something other than white space,
/// a non-empty list, or any other value but `Null`.
pub open spec fn present(v: Value) -> bool {
    match v {
        Value::Null => false,
        Value::Str(s) => has_content(s@),
        Value::List(items) => items@.len() > 0,
        _ => true,
    }
}

/// What other fields' rules read of field `plan` holding `v`.
pub open spec fn field_read(plan: FieldPlanM, v: Value) -> ValueModel {
    if plan.convertible {
        value_model(v)
    } else {
        ValueModel::Null
    }
}

/// The value of the field at `idx` as cross-field rules read it (`Null`
/// for no field).
pub open spec fn other_read(idx: Option<usize>, plans: Seq<FieldPlanM>, vals: Seq<Value>) -> ValueModel {
    match idx {
        Some(j) => if j < plans.len() && j < vals.len() {
            field_read(plans[j as int], vals[j as int])
        } else {
            ValueModel::Null
        },
        None => ValueModel::Null,
    }
}

/// The field at `idx` is neither `Null` nor empty.
pub open spec fn filled_at(idx: Option<usize>, plans: Seq<FieldPlanM>, vals: Seq<Value>) -> bool {
    let o = other_read(idx, plans, vals);
    !(o is Null) && !crate::value::spec_is_empty(o)
}

/// Every field listed in `l` is neither `Null` nor empty.
pub open spec fn all_filled(l: Seq<Option<usize>>, plans: Seq<FieldPlanM>, vals: Seq<Value>) -> bool {
    forall|k: int| 0 <= k < l.len() ==> #[trigger] filled_at(l[k], plans, vals)
}

/// Every field listed in `l` is `Null` or empty.
pub open spec fn all_blank(l: Seq<Option<usize>>, plans: Seq<FieldPlanM>, vals: Seq<Value>) -> bool {
    forall|k: int| 0 <= k < l.len() ==> !#[trigger] filled_at(l[k], plans, vals)
}

/// Whether a condition holds in a record.
pub open spec fn cond_holds(c: CondM, plans: Seq<FieldPlanM>, vals: Seq<Value>) -> bool {
    match c {
        CondM::Always => true,
        CondM::Equals(i, s) => other_read(i, plans, vals) == ValueModel::Str(s),
        CondM::NotEquals(i, s) => other_read(i, plans, vals) != ValueModel::Str(s),
        CondM::Filled(i) => filled_at(i, plans, vals),
        CondM::Blank(i) => !filled_at(i, plans, vals),
        CondM::AllFilled(l) => all_filled(l, plans, vals),
        CondM::AllBlank(l) => all_blank(l, plans, vals),
    }
}

/// `true`, `false`, `1` or `0`.
pub open spec fn spec_is_boolean_text(s: Seq<char>) -> bool {
    s == "true"@ || s == "false"@ || s == "1"@ || s == "0"@
}

/// Whether text `s` passes test `t`.
pub open spec fn text_ok(t: TextTestM, s: Seq<char>) -> bool {
    match t {
        TextTestM::Email => email_ok(s),
        TextTestM::Url => url_scheme(s) matches Some(sc) && spec_is_web_scheme(sc),
        TextTestM::Alpha => spec_is_alpha(s),
        TextTestM::AlphaNum => spec_is_alpha_num(s),
        TextTestM::AlphaDash => spec_is_alpha_dash(s),
        TextTestM::Numeric => spec_is_numeric(s),
        TextTestM::Integer => spec_is_integer(s),
        TextTestM::Ascii => is_ascii_chars(s),
        TextTestM::Uuid => uuid_ok(s),
        TextTestM::Ulid => spec_is_ulid(s),
        TextTestM::Ip => spec_is_ip(s),
        TextTestM::Ipv4 => spec_is_ipv4(s),
        TextTestM::Ipv6 => spec_is_ipv6(s),
        TextTestM::Json => json_ok(s),
        TextTestM::MacAddress => spec_is_mac_address(s),
        TextTestM::HexColor => spec_is_hex_color(s),
        TextTestM::Timezone => timezone_ok(s),
        TextTestM::Uppercase => s.len() > 0 && s == unicode_upper(s),
        TextTestM::Lowercase => s.len() > 0 && s == unicode_lower(s),
        TextTestM::Date => parsed_date(s, date_format()) is Some,
        TextTestM::Datetime => rfc3339_ok(s) || naive_datetime_ok(s, datetime_format())
            || naive_datetime_ok(s, datetime_fraction_format()),
        TextTestM::Boolean => spec_is_boolean_text(s),
        TextTestM::Accepted => spec_is_accepted(s),
        TextTestM::Declined => spec_is_declined(s),
        TextTestM::Filled => has_content(s),
        TextTestM::Anything => true,
        TextTestM::Regex(p) => regex_compiles(p) && regex_finds(p, s),
        TextTestM::NotRegex(p) => !(regex_compiles(p) && regex_finds(p, s)),
        TextTestM::InList(l) => l.contains(s),
        TextTestM::NotIn(l) => !l.contains(s),
        TextTestM::StartsWith(p) => has_prefix(s, p),
        TextTestM::EndsWith(p) => has_suffix(s, p),
        TextTestM::DoesntStartWith(p) => !has_prefix(s, p),
        TextTestM::DoesntEndWith(p) => !has_suffix(s, p),
        TextTestM::Contains(p) => has_infix(s, p),
        TextTestM::DoesntContain(p) => !has_infix(s, p),
        TextTestM::MinLength(n) => s.len() >= n,
        TextTestM::MaxLength(n) => s.len() <= n,
        TextTestM::BetweenLength(a, b) => a <= s.len() <= b,
        TextTestM::ExactLength(n) => s.len() == n,
        TextTestM::Digits(n) => digit_count(s) == n,
        TextTestM::DigitsBetween(a, b) => a <= digit_count(s) <= b,
        TextTestM::Decimal(a, b) => spec_check_decimal(s, a, b),
        TextTestM::MultipleOf(n) => spec_is_multiple_of(s, n),
        TextTestM::DateEquals(o) => spec_compare_dates(s, o) == Some(Order::Equal),
        TextTestM::Before(o) => spec_compare_dates(s, o) == Some(Order::Less),
        TextTestM::After(o) => spec_compare_dates(s, o) == Some(Order::Greater),
        TextTestM::BeforeOrEqual(o) => spec_compare_dates(s, o) matches Some(c) && c != Order::Greater,
        TextTestM::AfterOrEqual(o) => spec_compare_dates(s, o) matches Some(c) && c != Order::Less,
    }
}

/// How the integer `x` compares with the bound `b`, by exact value.
pub open spec fn int_bound_order(x: int, b: Bound) -> Order {
    int_order(x * pow2(b.scale as nat), b.num as int)
}

/// Whether integer `x` satisfies bound `t`.
pub open spec fn num_ok(t: NumTest, x: int) -> bool {
    match t {
        NumTest::AtLeast(n) => int_bound_order(x, n) != Order::Less,
        NumTest::AtMost(n) => int_bound_order(x, n) != Order::Greater,
        NumTest::Between(a, b) => int_bound_order(x, a) != Order::Less && int_bound_order(x, b) != Order::Greater,
        NumTest::Exactly(n) => int_bound_order(x, n) == Order::Equal,
    }
}

/// How the binary64 number with bit pattern `bits` compares with the bound
/// `b`, by exact value (`None` for NaN).
pub open spec fn float_bound_order(bits: u64, b: Bound) -> Option<Order> {
    float_scaled_order(bits, b.num as int, b.scale as nat)
}

/// Whether the binary64 number with bit pattern `bits` satisfies bound `t`,
/// by exact value; a NaN satisfies none.
pub open spec fn float_num_ok(t: NumTest, bits: u64) -> bool {
    match t {
        NumTest::AtLeast(n) => float_bound_order(bits, n) matches Some(o) && o != Order::Less,
        NumTest::AtMost(n) => float_bound_order(bits, n) matches Some(o) && o != Order::Greater,
        NumTest::Between(a, b) => (float_bound_order(bits, a) matches Some(o) && o != Order::Less)
            && (float_bound_order(bits, b) matches Some(o) && o != Order::Greater),
        NumTest::Exactly(n) => float_bound_order(bits, n) == Some(Order::Equal),
    }
}

/// Whether a list of `n` items satisfies bound `t`.
pub open spec fn count_ok(t: CountTest, n: int) -> bool {
    match t {
        CountTest::AtLeast(m) => n >= m,
        CountTest::AtMost(m) => n <= m,
        CountTest::Between(a, b) => a <= n <= b,
        CountTest::Exactly(m) => n == m,
    }
}

/// Whether `a` stands in relation `rel` to `b`.
pub open spec fn relation_holds(rel: Relation, a: ValueModel, b: ValueModel) -> bool {
    match rel {
        Relation::Same => same_value(a, b),
        Relation::Different => !same_value(a, b),
        Relation::Greater => value_order(a, b) == Some(Order::Greater),
        Relation::GreaterOrEqual => value_order(a, b) matches Some(o) && o != Order::Less,
        Relation::Less => value_order(a, b) == Some(Order::Less),
        Relation::LessOrEqual => value_order(a, b) matches Some(o) && o != Order::Greater,
    }
}

/// The error a failing rule records.
pub open spec fn rule_error(r: RuleM) -> ErrorModel {
    ErrorModel { rule: r.rule, message: r.message, params: Seq::empty() }
}

/// `m` with the error of `r` recorded under `key`.
pub open spec fn add_error(m: ErrorsModel, key: Seq<char>, r: RuleM) -> ErrorsModel {
    m.insert(key, errors_at(m, key).push(rule_error(r)))
}

/// The content of an optional field (`None` when absent); a field that is
/// not optional always has its value.
pub open spec fn inner_value(plan: FieldPlanM, v: Value) -> Option<Value> {
    if plan.is_option && v is Null {
        None
    } else {
        Some(v)
    }
}

/// Whether the field is there for presence rules: a present content for an
/// optional field, a present value otherwise.
pub open spec fn field_present(plan: FieldPlanM, v: Value) -> bool {
    if plan.is_option {
        !(v is Null) && present(v)
    } else {
        present(v)
    }
}

/// Whether the field is set for `prohibited`: any content for an optional
/// field, a present value otherwise.
pub open spec fn field_set(plan: FieldPlanM, v: Value) -> bool {
    if plan.is_option {
        !(v is Null)
    } else {
        present(v)
    }
}

/// Whether a non-nested check fails on field `plan` holding `v`.
pub open spec fn check_fails(c: CheckM, plan: FieldPlanM, v: Value, plans: Seq<FieldPlanM>, vals: Seq<Value>) -> bool {
    match c {
        CheckM::Presence(cond) => cond_holds(cond, plans, vals) && !field_present(plan, v),
        CheckM::Prohibited(cond) => cond_holds(cond, plans, vals) && field_set(plan, v),
        CheckM::Text(cond, t) => cond_holds(cond, plans, vals) && match inner_value(plan, v) {
            Some(Value::Str(s)) => !text_ok(t, s@),
            _ => false,
        },
        CheckM::Number(t) => match inner_value(plan, v) {
            Some(Value::Int(i)) => !num_ok(t, i as int),
            Some(Value::Uint(u)) => !num_ok(t, u as int),
            Some(Value::Float(b)) => !float_num_ok(t, b),
            _ => false,
        },
        CheckM::Count(t) => match inner_value(plan, v) {
            Some(Value::List(items)) => !count_ok(t, items@.len() as int),
            _ => false,
        },
        CheckM::Compare(rel, idx) => !relation_holds(rel, field_read(plan, v), other_read(idx, plans, vals)),
        CheckM::InArray(idx) => !(other_read(idx, plans, vals) matches ValueModel::List(items)
            && holds_same(items, field_read(plan, v))),
        CheckM::Distinct => !spec_is_distinct(field_read(plan, v)),
        _ => false,
    }
}

/// Decimal digits of `n`.
pub open spec fn decimal(n: nat) -> Seq<char>
    decreases n,
{
    if n < 10 {
        seq![(n + '0' as nat) as char]
    } else {
        decimal(n / 10).push(((n % 10) + '0' as nat) as char)
    }
}

/// The path of item `k` of list field `name`: `name.k`.
pub open spec fn item_path(name: Seq<char>, k: nat) -> Seq<char> {
    name + seq!['.'] + decimal(k)
}

/// `m` after merging the errors of `e` under `prefix`, when there are any.
pub open spec fn merge_nonempty(m: ErrorsModel, prefix: Seq<char>, e: ErrorsModel) -> ErrorsModel {
    if e == Map::<Seq<char>, Seq<ErrorModel>>::empty() {
        m
    } else {
        merged(m, prefix, e)
    }
}

/// The errors of a record: its fields' checks applied in order to no errors.
pub open spec fn spec_validate(rec: Record) -> ErrorsModel
    decreases rec, 5int, 0int,
{
    if rec.variant < rec.schema.variants@.len() {
        fields_effect(Map::empty(), rec, plans_model(rec.schema.variants@[rec.variant as int]@), 0)
    } else {
        Map::empty()
    }
}

/// `m` after the checks of fields `i..` of `rec`.
pub open spec fn fields_effect(m: ErrorsModel, rec: Record, plans: Seq<FieldPlanM>, i: int) -> ErrorsModel
    decreases rec, 4int, plans.len() - i,
{
    if i < 0 || i >= plans.len() || i >= rec.fields@.len() {
        m
    } else {
        proof {
            assert(decreases_to!(rec => rec.fields));
            assert(decreases_to!(rec.fields => rec.fields@));
            assert(decreases_to!(rec.fields@ => rec.fields@[i]));
        }
        fields_effect(field_effect(m, plans[i], rec.fields@[i], plans, rec.fields@, customs_model(rec.custom@)), rec, plans, i + 1)
    }
}

/// `m` after the checks of field `plan` holding `v`.
pub open spec fn field_effect(m: ErrorsModel, plan: FieldPlanM, v: Value, plans: Seq<FieldPlanM>, vals: Seq<Value>, cs: Seq<CustomFailureM>) -> ErrorsModel
    decreases v, 3int, 0int,
{
    match plan.guard {
        Guard::Always => rules_effect(m, plan, v, plans, vals, cs, 0),
        Guard::IfPresent => if plan.is_option && v is Null {
            m
        } else {
            rules_effect(m, plan, v, plans, vals, cs, 0)
        },
        Guard::RequiredFirst => if plan.rules.len() == 0 {
            m
        } else {
            let m1 = rule_effect(m, plan.rules[0], plan, v, plans, vals, cs).0;
            if plan.is_option && v is Null {
                m1
            } else {
                rules_effect(m1, plan, v, plans, vals, cs, 1)
            }
        },
    }
}

/// `m` after checks `i..` of field `plan`; with `bail`, nothing after the
/// first check that fails.
pub open spec fn rules_effect(m: ErrorsModel, plan: FieldPlanM, v: Value, plans: Seq<FieldPlanM>, vals: Seq<Value>, cs: Seq<CustomFailureM>, i: int) -> ErrorsModel
    decreases v, 2int, plan.rules.len() - i,
{
    if i < 0 || i >= plan.rules.len() {
        m
    } else {
        let (m2, failed) = rule_effect(m, plan.rules[i], plan, v, plans, vals, cs);
        if plan.bail && failed {
            m2
        } else {
            rules_effect(m2, plan, v, plans, vals, cs, i + 1)
        }
    }
}

/// `m` after one check, and whether it failed. A failing check records its
/// error under the field's path; a nested record's errors are merged under
/// the field's path (a list's items under `path.index`, and a list never
/// counts as failed).
pub open spec fn rule_effect(m: ErrorsModel, r: RuleM, plan: FieldPlanM, v: Value, plans: Seq<FieldPlanM>, vals: Seq<Value>, cs: Seq<CustomFailureM>) -> (ErrorsModel, bool)
    decreases v, 1int, 0int,
{
    match r.check {
        CheckM::Nested => if plan.is_vec {
            match v {
                Value::List(items) => {
                    proof {
                        assert(decreases_to!(v => items));
                        assert(decreases_to!(items => items@));
                    }
                    (list_effect(m, plan.name, items@, 0), false)
                },
                _ => (m, false),
            }
        } else {
            match v {
                Value::Record(b) => {
                    proof {
                        assert(decreases_to!(v => b));
                    }
                    let e = spec_validate(*b);
                    if e == Map::<Seq<char>, Seq<ErrorModel>>::empty() {
                        (m, false)
                    } else {
                        (merged(m, plan.name, e), true)
                    }
                },
                _ => (m, false),
            }
        },
        CheckM::Custom(function) => match custom_message(cs, plan.name, function) {
            Some(message) => (
                m.insert(plan.name, errors_at(m, plan.name).push(ErrorModel { rule: r.rule, message, params: Seq::empty() })),
                true,
            ),
            None => (m, false),
        },
        CheckM::Nothing => (m, false),
        _ => if check_fails(r.check, plan, v, plans, vals) {
            (add_error(m, plan.name, r), true)
        } else {
            (m, false)
        },
    }
}

/// `m` after validating the records among `items[k..]`, each merged under
/// `name.index`.
pub open spec fn list_effect(m: ErrorsModel, name: Seq<char>, items: Seq<Value>, k: int) -> ErrorsModel
    decreases items, 0int, items.len() - k,
{
    if k < 0 || k >= items.len() {
        m
    } else {
        let m2 = match items[k] {
            Value::Record(b) => {
                proof {
                    assert(decreases_to!(items => items[k]));
                }
                merge_nonempty(m, item_path(name, k as nat), spec_validate(*b))
            },
            _ => m,
        };
        list_effect(m2, name, items, k + 1)
    }
}

/// The decimal digits of `n`.
pub fn decimal_string(n: usize) -> (r: String)
    ensures
        r@ == decimal(n as nat),
    decreases n,
{
    let d = n % 10;
    let digit = if d == 0 { "0" } else if d == 1 { "1" } else if d == 2 { "2" } else if d == 3 { "3" }
        else if d == 4 { "4" } else if d == 5 { "5" } else if d == 6 { "6" } else if d == 7 { "7" }
        else if d == 8 { "8" } else { "9" };
    proof {
        reveal_strlit("0");
        reveal_strlit("1");
        reveal_strlit("2");
        reveal_strlit("3");
        reveal_strlit("4");
        reveal_strlit("5");
        reveal_strlit("6");
        reveal_strlit("7");
        reveal_strlit("8");
        reveal_strlit("9");
        assert(digit@ =~= seq![((d as nat) + '0' as nat) as char]);
    }
    if n < 10 {
        digit.to_string()
    } else {
        let mut s = decimal_string(n / 10);
        s.append(digit);
        assert(s@ =~= decimal(n as nat));
        s
    }
}

/// What cross-field rules see of `v`.
#[verifier::loop_isolation(false)]
pub fn to_field_value(v: &Value) -> (r: FieldValue)
    ensures
        r.model() == value_model(*v),
    decreases v,
{
    match v {
        Value::Null => FieldValue::Null,
        Value::Bool(b) => FieldValue::Bool(*b),
        Value::Int(i) => FieldValue::Int(*i),
        Value::Uint(u) => FieldValue::Uint(*u),
        Value::Float(b) => FieldValue::Float(*b),
        Value::Str(s) => FieldValue::String(s.clone()),
        Value::Record(_) => FieldValue::Null,
        Value::List(items) => {
            let mut out: Vec<FieldValue> = Vec::new();
            let mut i: usize = 0;
            proof {
                lemma_values_model(items@);
            }
            while i < items.len()
                invariant
                    i <= items@.len(),
                    out@.len() == i,
                    forall|j: int| 0 <= j < i ==> #[trigger] out@[j].model() == value_model(items@[j]),
                decreases items@.len() - i,
            {
                proof {
                    assert(decreases_to!(*v => *items));
                    assert(decreases_to!(*items => items@));
                    assert(decreases_to!(items@ => items@[i as int]));
                }
                let x = to_field_value(&items[i]);
                out.push(x);
                i = i + 1;
            }
            proof {
                lemma_list_model(out@);
                lemma_values_model(items@);
                assert(list_model(out@) =~= values_model(items@));
            }
            FieldValue::List(out)
        },
    }
}

/// Is `v` present?
fn value_present(v: &Value) -> (r: bool)
    ensures
        r == present(*v),
{
    match v {
        Value::Null => false,
        Value::Str(s) => is_filled(s.as_str()),
        Value::List(items) => items.len() > 0,
        _ => true,
    }
}

/// What other fields' rules read of field `plan` holding `v`.
fn read_field(plan: &FieldPlan, v: &Value) -> (r: FieldValue)
    ensures
        r.model() == field_read(plan@, *v),
{
    if plan.convertible {
        to_field_value(v)
    } else {
        FieldValue::Null
    }
}

/// The value of the field at `idx`, as cross-field rules read it.
fn read_other(idx: Option<usize>, plans: &Vec<FieldPlan>, vals: &Vec<Value>) -> (r: FieldValue)
    ensures
        r.model() == other_read(idx, plans_model(plans@), vals@),
{
    match idx {
        Some(j) => if j < plans.len() && j < vals.len() {
            read_field(&plans[j], &vals[j])
        } else {
            FieldValue::Null
        },
        None => FieldValue::Null,
    }
}

/// Is the field at `idx` neither `Null` nor empty?
fn filled(idx: Option<usize>, plans: &Vec<FieldPlan>, vals: &Vec<Value>) -> (r: bool)
    ensures
        r == filled_at(idx, plans_model(plans@), vals@),
{
    let o = read_other(idx, plans, vals);
    !o.is_none() && !o.is_empty()
}

/// Does the condition hold in the record?
#[verifier::loop_isolation(false)]
fn cond_check(c: &Cond, plans: &Vec<FieldPlan>, vals: &Vec<Value>) -> (r: bool)
    ensures
        r == cond_holds(c@, plans_model(plans@), vals@),
{
    match c {
        Cond::Always => true,
        Cond::Equals(i, s) => {
            let o = read_other(*i, plans, vals);
            values_eq(&o, &FieldValue::String(s.clone()))
        },
        Cond::NotEquals(i, s) => {
            let o = read_other(*i, plans, vals);
            !values_eq(&o, &FieldValue::String(s.clone()))
        },
        Cond::Filled(i) => filled(*i, plans, vals),
        Cond::Blank(i) => !filled(*i, plans, vals),
        Cond::AllFilled(l) => {
            let mut k: usize = 0;
            while k < l.len()
                invariant
                    k <= l@.len(),
                    forall|j: int| 0 <= j < k ==> #[trigger] filled_at(l@[j], plans_model(plans@), vals@),
                decreases l@.len() - k,
            {
                if !filled(l[k], plans, vals) {
                    assert(c@ == CondM::AllFilled(l@));
                    assert(!filled_at(l@[k as int], plans_model(plans@), vals@));
                    return false;
                }
                k = k + 1;
            }
            true
        },
        Cond::AllBlank(l) => {
            let mut k: usize = 0;
            while k < l.len()
                invariant
                    k <= l@.len(),
                    forall|j: int| 0 <= j < k ==> !#[trigger] filled_at(l@[j], plans_model(plans@), vals@),
                decreases l@.len() - k,
            {
                if filled(l[k], plans, vals) {
                    assert(c@ == CondM::AllBlank(l@));
                    assert(filled_at(l@[k as int], plans_model(plans@), vals@));
                    return false;
                }
                k = k + 1;
            }
            true
        },
    }
}

/// Is `s` one of the strings of `l`?
fn in_strings(s: &str, l: &Vec<String>) -> (r: bool)
    ensures
        r == strings_model(l@).contains(s@),
{
    let mut k: usize = 0;
    while k < l.len()
        invariant
            k <= l@.len(),
            forall|j: int| 0 <= j < k ==> l@[j]@ != s@,
        decreases l@.len() - k,
    {
        if str_eq(l[k].as_str(), s) {
            assert(strings_model(l@)[k as int] == s@);
            return true;
        }
        k = k + 1;
    }
    assert forall|j: int| 0 <= j < strings_model(l@).len() implies strings_model(l@)[j] != s@ by {
        assert(strings_model(l@)[j] == l@[j]@);
    }
    false
}

/// `true`, `false`, `1` or `0`.
fn boolean_text(s: &str) -> (r: bool)
    ensures
        r == spec_is_boolean_text(s@),
{
    str_eq(s, "true") || str_eq(s, "false") || str_eq(s, "1") || str_eq(s, "0")
}

/// Does text `s` pass test `t`?
fn text_passes(t: &TextTest, s: &str) -> (r: bool)
    ensures
        r == text_ok(t@, s@),
{
    match t {
        TextTest::Email => is_email(s),
        TextTest::Url => is_url(s),
        TextTest::Alpha => is_alpha(s),
        TextTest::AlphaNum => is_alpha_num(s),
        TextTest::AlphaDash => is_alpha_dash(s),
        TextTest::Numeric => is_numeric(s),
        TextTest::Integer => is_integer(s),
        TextTest::Ascii => is_ascii(s),
        TextTest::Uuid => is_uuid(s),
        TextTest::Ulid => is_ulid(s),
        TextTest::Ip => is_ip(s),
        TextTest::Ipv4 => is_ipv4(s),
        TextTest::Ipv6 => is_ipv6(s),
        TextTest::Json => is_json(s),
        TextTest::MacAddress => is_mac_address(s),
        TextTest::HexColor => is_hex_color(s),
        TextTest::Timezone => is_timezone(s),
        TextTest::Uppercase => is_uppercase(s),
        TextTest::Lowercase => is_lowercase(s),
        TextTest::Date => is_iso_date(s),
        TextTest::Datetime => is_iso_datetime(s),
        TextTest::Boolean => boolean_text(s),
        TextTest::Accepted => is_accepted(s),
        TextTest::Declined => is_declined(s),
        TextTest::Filled => is_filled(s),
        TextTest::Anything => true,
        TextTest::Regex(p) => matches_regex(s, p.as_str()),
        TextTest::NotRegex(p) => not_matches_regex(s, p.as_str()),
        TextTest::InList(l) => in_strings(s, l),
        TextTest::NotIn(l) => !in_strings(s, l),
        TextTest::StartsWith(p) => starts_with(s, p.as_str()),
        TextTest::EndsWith(p) => ends_with(s, p.as_str()),
        TextTest::DoesntStartWith(p) => doesnt_start_with(s, p.as_str()),
        TextTest::DoesntEndWith(p) => doesnt_end_with(s, p.as_str()),
        TextTest::Contains(p) => contains(s, p.as_str()),
        TextTest::DoesntContain(p) => doesnt_contain(s, p.as_str()),
        TextTest::MinLength(n) => check_min_length(s, *n),
        TextTest::MaxLength(n) => check_max_length(s, *n),
        TextTest::BetweenLength(a, b) => check_between_length(s, *a, *b),
        TextTest::ExactLength(n) => check_size(s, *n),
        TextTest::Digits(n) => check_digits(s, *n),
        TextTest::DigitsBetween(a, b) => check_digits_between(s, *a, *b),
        TextTest::Decimal(a, b) => check_decimal(s, *a, *b),
        TextTest::MultipleOf(n) => is_multiple_of(s, n.as_str()),
        TextTest::DateEquals(o) => is_date_equals(s, o.as_str()),
        TextTest::Before(o) => is_before(s, o.as_str()),
        TextTest::After(o) => is_after(s, o.as_str()),
        TextTest::BeforeOrEqual(o) => is_before_or_equal(s, o.as_str()),
        TextTest::AfterOrEqual(o) => is_after_or_equal(s, o.as_str()),
    }
}

/// How integer `x` compares with bound `b`.
fn compare_int_bound(x: i128, b: Bound) -> (r: Order)
    requires
        -0x1_0000_0000_0000_0000 < x < 0x1_0000_0000_0000_0000,
    ensures
        r == int_bound_order(x as int, b),
{
    compare_int_scaled(x, b.num, b.scale)
}

/// Does integer `x` satisfy bound `t`?
fn num_passes(t: NumTest, x: i128) -> (r: bool)
    requires
        -0x1_0000_0000_0000_0000 < x < 0x1_0000_0000_0000_0000,
    ensures
        r == num_ok(t, x as int),
{
    match t {
        NumTest::AtLeast(n) => compare_int_bound(x, n) != Order::Less,
        NumTest::AtMost(n) => compare_int_bound(x, n) != Order::Greater,
        NumTest::Between(a, b) => compare_int_bound(x, a) != Order::Less && compare_int_bound(x, b) != Order::Greater,
        NumTest::Exactly(n) => compare_int_bound(x, n) == Order::Equal,
    }
}

/// Does the binary64 number with bit pattern `bits` satisfy bound `t`?
fn float_num_passes(t: NumTest, bits: u64) -> (r: bool)
    ensures
        r == float_num_ok(t, bits),
{
    match t {
        NumTest::AtLeast(n) => match compare_float_scaled(bits, n.num, n.scale) {
            Some(Order::Less) | None => false,
            _ => true,
        },
        NumTest::AtMost(n) => match compare_float_scaled(bits, n.num, n.scale) {
            Some(Order::Greater) | None => false,
            _ => true,
        },
        NumTest::Between(a, b) => {
            let lo = match compare_float_scaled(bits, a.num, a.scale) {
                Some(Order::Less) | None => false,
                _ => true,
            };
            let hi = match compare_float_scaled(bits, b.num, b.scale) {
                Some(Order::Greater) | None => false,
                _ => true,
            };
            lo && hi
        },
        NumTest::Exactly(n) => match compare_float_scaled(bits, n.num, n.scale) {
            Some(Order::Equal) => true,
            _ => false,
        },
    }
}

/// Does a list of `n` items satisfy bound `t`?
fn count_passes(t: CountTest, n: usize) -> (r: bool)
    ensures
        r == count_ok(t, n as int),
{
    match t {
        CountTest::AtLeast(m) => n >= m,
        CountTest::AtMost(m) => n <= m,
        CountTest::Between(a, b) => a <= n && n <= b,
        CountTest::Exactly(m) => n == m,
    }
}

/// Does `a` stand in relation `rel` to `b`?
fn relation_passes(rel: Relation, a: &FieldValue, b: &FieldValue) -> (r: bool)
    ensures
        r == relation_holds(rel, a.model(), b.model()),
{
    match rel {
        Relation::Same => is_same(a, b),
        Relation::Different => is_different(a, b),
        Relation::Greater => is_gt(a, b),
        Relation::GreaterOrEqual => is_gte(a, b),
        Relation::Less => is_lt(a, b),
        Relation::LessOrEqual => is_lte(a, b),
    }
}

/// Does the (non-nested) check fail on field `plan` holding `v`?
fn check_failed(c: &Check, plan: &FieldPlan, v: &Value, plans: &Vec<FieldPlan>, vals: &Vec<Value>) -> (r: bool)
    ensures
        r == check_fails(c@, plan@, *v, plans_model(plans@), vals@),
{
    let absent = plan.is_option && matches!(v, Value::Null);
    match c {
        Check::Presence(cond) => {
            if !cond_check(cond, plans, vals) {
                return false;
            }
            if plan.is_option {
                !(!matches!(v, Value::Null) && value_present(v))
            } else {
                !value_present(v)
            }
        },
        Check::Prohibited(cond) => {
            if !cond_check(cond, plans, vals) {
                return false;
            }
            if plan.is_option {
                !matches!(v, Value::Null)
            } else {
                value_present(v)
            }
        },
        Check::Text(cond, t) => {
            if !cond_check(cond, plans, vals) || absent {
                return false;
            }
            match v {
                Value::Str(s) => !text_passes(t, s.as_str()),
                _ => false,
            }
        },
        Check::Number(t) => {
            if absent {
                return false;
            }
            match v {
                Value::Int(i) => !num_passes(*t, *i as i128),
                Value::Uint(u) => !num_passes(*t, *u as i128),
                Value::Float(b) => !float_num_passes(*t, *b),
                _ => false,
            }
        },
        Check::Count(t) => {
            if absent {
                return false;
            }
            match v {
                Value::List(items) => !count_passes(*t, items.len()),
                _ => false,
            }
        },
        Check::Compare(rel, idx) => {
            let a = read_field(plan, v);
            let b = read_other(*idx, plans, vals);
            !relation_passes(*rel, &a, &b)
        },
        Check::InArray(idx) => {
            let a = read_field(plan, v);
            let b = read_other(*idx, plans, vals);
            !is_in_array(&a, &b)
        },
        Check::Distinct => {
            let a = read_field(plan, v);
            !is_distinct(&a)
        },
        Check::Nested => false,
        Check::Custom(_) => false,
        Check::Nothing => false,
    }
}

/// Records the outcome of one check of field `plan` holding `v`; returns
/// whether the check failed.
fn apply_rule(
    errors: &mut ValidationErrors,
    r: &CompiledRule,
    plan: &FieldPlan,
    v: &Value,
    plans: &Vec<FieldPlan>,
    vals: &Vec<Value>,
    cs: &Vec<CustomFailure>,
) -> (failed: bool)
    ensures
        (final(errors)@, failed) == rule_effect(old(errors)@, r@, plan@, *v, plans_model(plans@), vals@, customs_model(cs@)),
    decreases v, 1int, 0int,
{
    match &r.check {
        Check::Nested => {
            if plan.is_vec {
                match v {
                    Value::List(items) => {
                        proof {
                            assert(decreases_to!(*v => *items));
                        }
                        apply_list(errors, plan.name.as_str(), items);
                        false
                    },
                    _ => false,
                }
            } else {
                match v {
                    Value::Record(b) => {
                        proof {
                            assert(decreases_to!(*v => **b));
                        }
                        let e = validate_record(b);
                        if e.is_empty() {
                            false
                        } else {
                            errors.merge_with_prefix(plan.name.as_str(), e);
                            true
                        }
                    },
                    _ => false,
                }
            }
        },
        Check::Custom(function) => match find_custom(cs, plan.name.as_str(), function.as_str()) {
            Some(message) => {
                errors.add(plan.name.as_str(), ValidationError::new(r.rule.as_str(), message.as_str()));
                true
            },
            None => false,
        },
        Check::Nothing => false,
        _ => {
            if check_failed(&r.check, plan, v, plans, vals) {
                errors.add(plan.name.as_str(), ValidationError::new(r.rule.as_str(), r.message.as_str()));
                true
            } else {
                false
            }
        },
    }
}

/// Validates the records among `items`, merging the errors of item `k`
/// under `name.k`.
#[verifier::loop_isolation(false)]
fn apply_list(errors: &mut ValidationErrors, name: &str, items: &Vec<Value>)
    ensures
        final(errors)@ == list_effect(old(errors)@, name@, items@, 0),
    decreases *items, 0int, 0int,
{
    let ghost target = list_effect(errors@, name@, items@, 0);
    let mut k: usize = 0;
    while k < items.len()
        invariant
            k <= items@.len(),
            list_effect(errors@, name@, items@, k as int) == target,
        decreases items@.len() - k,
    {
        match &items[k] {
            Value::Record(b) => {
                proof {
                    assert(decreases_to!(*items => items@));
                    assert(decreases_to!(items@ => items@[k as int]));
                    assert(decreases_to!(items@[k as int] => **b));
                }
                let e = validate_record(b);
                if !e.is_empty() {
                    let mut prefix = name.to_string();
                    prefix.append(".");
                    let digits = decimal_string(k);
                    prefix.append(digits.as_str());
                    proof {
                        reveal_strlit(".");
                        assert(prefix@ =~= item_path(name@, k as nat));
                    }
                    errors.merge_with_prefix(prefix.as_str(), e);
                }
            },
            _ => {},
        }
        k = k + 1;
    }
}

/// Applies checks `start..` of field `plan`, stopping after the first
/// failure when the field bails.
#[verifier::loop_isolation(false)]
fn apply_rules(
    errors: &mut ValidationErrors,
    plan: &FieldPlan,
    v: &Value,
    plans: &Vec<FieldPlan>,
    vals: &Vec<Value>,
    cs: &Vec<CustomFailure>,
    start: usize,
)
    ensures
        final(errors)@ == rules_effect(old(errors)@, plan@, *v, plans_model(plans@), vals@, customs_model(cs@), start as int),
    decreases v, 2int, 0int,
{
    let ghost target = rules_effect(errors@, plan@, *v, plans_model(plans@), vals@, customs_model(cs@), start as int);
    let mut i: usize = start;
    if i >= plan.rules.len() {
        return;
    }
    while i < plan.rules.len()
        invariant
            rules_effect(errors@, plan@, *v, plans_model(plans@), vals@, customs_model(cs@), i as int) == target,
        decreases plan.rules@.len() - i,
    {
        assert(plan@.rules[i as int] == plan.rules@[i as int]@);
        let failed = apply_rule(errors, &plan.rules[i], plan, v, plans, vals, cs);
        if plan.bail && failed {
            return;
        }
        i = i + 1;
    }
}

/// Applies the checks of field `plan` holding `v`.
fn apply_field(
    errors: &mut ValidationErrors,
    plan: &FieldPlan,
    v: &Value,
    plans: &Vec<FieldPlan>,
    vals: &Vec<Value>,
    cs: &Vec<CustomFailure>,
)
    ensures
        final(errors)@ == field_effect(old(errors)@, plan@, *v, plans_model(plans@), vals@, customs_model(cs@)),
    decreases v, 3int, 0int,
{
    let absent = plan.is_option && matches!(v, Value::Null);
    match plan.guard {
        Guard::Always => apply_rules(errors, plan, v, plans, vals, cs, 0),
        Guard::IfPresent => {
            if !absent {
                apply_rules(errors, plan, v, plans, vals, cs, 0);
            }
        },
        Guard::RequiredFirst => {
            if plan.rules.len() > 0 {
                assert(plan@.rules[0] == plan.rules@[0]@);
                apply_rule(errors, &plan.rules[0], plan, v, plans, vals, cs);
                if !absent {
                    apply_rules(errors, plan, v, plans, vals, cs, 1);
                }
            }
        },
    }
}

/// The errors of a record.
#[verifier::loop_isolation(false)]
pub fn validate_record(rec: &Record) -> (r: ValidationErrors)
    ensures
        r@ == spec_validate(*rec),
    decreases *rec, 5int, 0int,
{
    let mut errors = ValidationErrors::new();
    if rec.variant >= rec.schema.variants.len() {
        return errors;
    }
    let plans = &rec.schema.variants[rec.variant];
    let ghost pm = plans_model(plans@);
    assert(pm == plans_model(rec.schema.variants@[rec.variant as int]@));
    let ghost target = fields_effect(errors@, *rec, pm, 0);
    let mut i: usize = 0;
    while i < plans.len() && i < rec.fields.len()
        invariant
            fields_effect(errors@, *rec, pm, i as int) == target,
        decreases plans@.len() - i,
    {
        proof {
            assert(decreases_to!(*rec => rec.fields));
            assert(decreases_to!(rec.fields => rec.fields@));
            assert(decreases_to!(rec.fields@ => rec.fields@[i as int]));
            assert(pm[i as int] == plans@[i as int]@);
        }
        apply_field(&mut errors, &plans[i], &rec.fields[i], plans, &rec.fields, &rec.custom);
        i = i + 1;
    }
    errors
}

impl Record {
    /// Validates the record: `Ok` exactly when no check fails, else the
    /// errors of every failing check, keyed by field path.
    pub fn validate(&self) -> (r: Result<(), ValidationErrors>)
        ensures
            match r {
                Ok(()) => spec_validate(*self) == Map::<Seq<char>, Seq<ErrorModel>>::empty(),
                Err(e) => e@ == spec_validate(*self) && e@ != Map::<Seq<char>, Seq<ErrorModel>>::empty(),
            },
    {
        let errors = validate_record(self);
        if errors.is_empty() {
            Ok(())
        } else {
            Err(errors)
        }
    }
}

/// Fields whose checks are all gone record nothing.
proof fn lemma_fields_no_rules(m: ErrorsModel, rec: Record, plans: Seq<FieldPlanM>, i: int)
    requires
        forall|j: int| 0 <= j < plans.len() ==> (#[trigger] plans[j]).rules.len() == 0,
    ensures
        fields_effect(m, rec, plans, i) == m,
    decreases plans.len() - i,
{
    if !(i < 0 || i >= plans.len() || i >= rec.fields@.len()) {
        let p = plans[i];
        assert(p.rules.len() == 0);
        assert(field_effect(m, p, rec.fields@[i], plans, rec.fields@, customs_model(rec.custom@)) == m);
        lemma_fields_no_rules(m, rec, plans, i + 1);
    }
}

/// A record whose variant has no checks on any field is valid, whatever its
/// values; in particular a unit variant always passes.
pub proof fn lemma_no_rules_valid(rec: Record)
    requires
        rec.variant < rec.schema.variants@.len(),
        forall|j: int| 0 <= j < rec.schema@.variants[rec.variant as int].len()
            ==> (#[trigger] rec.schema@.variants[rec.variant as int][j]).rules.len() == 0,
    ensures
        spec_validate(rec) == Map::<Seq<char>, Seq<ErrorModel>>::empty(),
{
    let plans = plans_model(rec.schema.variants@[rec.variant as int]@);
    assert(plans == rec.schema@.variants[rec.variant as int]);
    lemma_fields_no_rules(Map::empty(), rec, plans, 0);
}

/// An absent optional field whose checks run only when it is present
/// (`sometimes`, or `nullable` without `required`) records nothing.
pub proof fn lemma_absent_skipped(m: ErrorsModel, plan: FieldPlanM, plans: Seq<FieldPlanM>, vals: Seq<Value>, cs: Seq<CustomFailureM>)
    requires
        plan.guard == Guard::IfPresent,
        plan.is_option,
    ensures
        field_effect(m, plan, Value::Null, plans, vals, cs) == m,
{
}

/// The errors merged under `name.k` leave the errors of `name` alone.
proof fn lemma_list_effect_keeps(m: ErrorsModel, name: Seq<char>, items: Seq<Value>, k: int)
    ensures
        errors_at(list_effect(m, name, items, k), name) == errors_at(m, name),
    decreases items.len() - k,
{
    if !(k < 0 || k >= items.len()) {
        let m2 = match items[k] {
            Value::Record(b) => merge_nonempty(m, item_path(name, k as nat), spec_validate(*b)),
            _ => m,
        };
        if let Value::Record(b) = items[k] {
            let e = spec_validate(*b);
            if e != Map::<Seq<char>, Seq<ErrorModel>>::empty() {
                crate::error::lemma_merged_elsewhere(m, item_path(name, k as nat), e, name);
            }
        }
        assert(errors_at(m2, name) == errors_at(m, name));
        lemma_list_effect_keeps(m2, name, items, k + 1);
    }
}

/// One check adds at most one error under the field's own path, and none
/// when it does not fail.
proof fn lemma_rule_effect_own(m: ErrorsModel, r: RuleM, plan: FieldPlanM, v: Value, plans: Seq<FieldPlanM>, vals: Seq<Value>, cs: Seq<CustomFailureM>)
    requires
        plan.name.len() > 0,
    ensures
        ({
            let (m2, failed) = rule_effect(m, r, plan, v, plans, vals, cs);
            &&& errors_at(m2, plan.name).len() <= errors_at(m, plan.name).len() + 1
            &&& !failed ==> errors_at(m2, plan.name) == errors_at(m, plan.name)
        }),
{
    match r.check {
        CheckM::Nested => {
            if plan.is_vec {
                if let Value::List(items) = v {
                    lemma_list_effect_keeps(m, plan.name, items@, 0);
                }
            } else {
                if let Value::Record(b) = v {
                    crate::error::lemma_merged_elsewhere(m, plan.name, spec_validate(*b), plan.name);
                }
            }
        },
        _ => {},
    }
}

/// Checks from `i` on, with `bail`, add at most one error under the field's
/// own path.
proof fn lemma_rules_effect_bail(m: ErrorsModel, plan: FieldPlanM, v: Value, plans: Seq<FieldPlanM>, vals: Seq<Value>, cs: Seq<CustomFailureM>, i: int)
    requires
        plan.bail,
        plan.name.len() > 0,
    ensures
        errors_at(rules_effect(m, plan, v, plans, vals, cs, i), plan.name).len() <= errors_at(m, plan.name).len() + 1,
    decreases plan.rules.len() - i,
{
    if !(i < 0 || i >= plan.rules.len()) {
        lemma_rule_effect_own(m, plan.rules[i], plan, v, plans, vals, cs);
        let (m2, failed) = rule_effect(m, plan.rules[i], plan, v, plans, vals, cs);
        if !failed {
            lemma_rules_effect_bail(m2, plan, v, plans, vals, cs, i + 1);
        }
    }
}

/// With `bail`, validation stops at a field's first failing check: the
/// field records at most one error under its own path.
pub proof fn lemma_bail_at_most_one(m: ErrorsModel, plan: FieldPlanM, v: Value, plans: Seq<FieldPlanM>, vals: Seq<Value>, cs: Seq<CustomFailureM>)
    requires
        plan.bail,
        plan.guard != Guard::RequiredFirst,
        plan.name.len() > 0,
    ensures
        errors_at(field_effect(m, plan, v, plans, vals, cs), plan.name).len() <= errors_at(m, plan.name).len() + 1,
{
    lemma_rules_effect_bail(m, plan, v, plans, vals, cs, 0);
}

/// A nested record's errors appear under the field's path: its error on
/// `city` is recorded on `address.city`, after anything already there.
pub proof fn lemma_nested_prefixed(m: ErrorsModel, r: RuleM, plan: FieldPlanM, inner: Record, plans: Seq<FieldPlanM>, vals: Seq<Value>, cs: Seq<CustomFailureM>)
    requires
        r.check == CheckM::Nested,
        !plan.is_vec,
    ensures
        rule_effect(m, r, plan, Value::Record(Box::new(inner)), plans, vals, cs).0 == merged(m, plan.name, spec_validate(inner)),
{
    let e = spec_validate(inner);
    if e == Map::<Seq<char>, Seq<ErrorModel>>::empty() {
        crate::error::lemma_merge_empty(m, plan.name);
    }
}

/// `k` is the path `name` or a path below it (`name.…`).
pub open spec fn path_within(k: Seq<char>, name: Seq<char>) -> bool {
    k == name || (name.len() < k.len() && k.subrange(0, name.len() + 1 as int) == name + seq!['.'])
}

/// Every path of `m2` was a path of `m` or lies within `name`.
pub open spec fn grows_within(m: ErrorsModel, m2: ErrorsModel, name: Seq<char>) -> bool {
    forall|k: Seq<char>| #[trigger] m2.contains_key(k) ==> m.contains_key(k) || path_within(k, name)
}

/// Every path of `m` lies within the path of one of the plans.
pub open spec fn keys_within(m: ErrorsModel, plans: Seq<FieldPlanM>) -> bool {
    forall|k: Seq<char>| #[trigger] m.contains_key(k) ==> exists|j: int| 0 <= j < plans.len() && path_within(k, plans[j].name)
}

/// Merging under a path below `name` adds only paths within `name`.
proof fn lemma_merged_within(m: ErrorsModel, name: Seq<char>, prefix: Seq<char>, e: ErrorsModel)
    requires
        name.len() > 0,
        prefix == name || (name.len() < prefix.len() && prefix.subrange(0, name.len() + 1 as int) == name + seq!['.']),
    ensures
        grows_within(m, merged(m, prefix, e), name),
{
    assert forall|k: Seq<char>| #[trigger] merged(m, prefix, e).contains_key(k) implies m.contains_key(k) || path_within(k, name) by {
        if !m.contains_key(k) {
            let n = name.len() as int;
            let q = prefix.len() as int;
            assert(q + 1 <= k.len() && k.subrange(0, q + 1) == prefix + seq!['.']);
            if prefix == name {
                assert(path_within(k, name));
            } else {
                assert(k.subrange(0, n + 1) =~= k.subrange(0, q + 1).subrange(0, n + 1));
                assert((prefix + seq!['.']).subrange(0, n + 1) =~= prefix.subrange(0, n + 1));
                assert(path_within(k, name));
            }
        }
    }
}

/// The item paths of a list field lie within the field's path.
proof fn lemma_list_effect_within(m: ErrorsModel, name: Seq<char>, items: Seq<Value>, k: int)
    requires
        name.len() > 0,
    ensures
        grows_within(m, list_effect(m, name, items, k), name),
    decreases items.len() - k,
{
    if !(k < 0 || k >= items.len()) {
        let m2 = match items[k] {
            Value::Record(b) => merge_nonempty(m, item_path(name, k as nat), spec_validate(*b)),
            _ => m,
        };
        if let Value::Record(b) = items[k] {
            let e = spec_validate(*b);
            if e != Map::<Seq<char>, Seq<ErrorModel>>::empty() {
                let ip = item_path(name, k as nat);
                assert(ip.subrange(0, name.len() + 1 as int) =~= name + seq!['.']);
                lemma_merged_within(m, name, ip, e);
            }
        }
        lemma_list_effect_within(m2, name, items, k + 1);
    }
}

/// One check adds only paths within the field's own path.
proof fn lemma_rule_effect_within(m: ErrorsModel, r: RuleM, plan: FieldPlanM, v: Value, plans: Seq<FieldPlanM>, vals: Seq<Value>, cs: Seq<CustomFailureM>)
    requires
        plan.name.len() > 0,
    ensures
        grows_within(m, rule_effect(m, r, plan, v, plans, vals, cs).0, plan.name),
{
    match r.check {
        CheckM::Nested => {
            if plan.is_vec {
                if let Value::List(items) = v {
                    lemma_list_effect_within(m, plan.name, items@, 0);
                }
            } else {
                if let Value::Record(b) = v {
                    lemma_merged_within(m, plan.name, plan.name, spec_validate(*b));
                }
            }
        },
        _ => {},
    }
}

/// Checks from `i` on add only paths within the field's own path.
proof fn lemma_rules_effect_within(m: ErrorsModel, plan: FieldPlanM, v: Value, plans: Seq<FieldPlanM>, vals: Seq<Value>, cs: Seq<CustomFailureM>, i: int)
    requires
        plan.name.len() > 0,
    ensures
        grows_within(m, rules_effect(m, plan, v, plans, vals, cs, i), plan.name),
    decreases plan.rules.len() - i,
{
    if !(i < 0 || i >= plan.rules.len()) {
        lemma_rule_effect_within(m, plan.rules[i], plan, v, plans, vals, cs);
        let (m2, failed) = rule_effect(m, plan.rules[i], plan, v, plans, vals, cs);
        if !(plan.bail && failed) {
            lemma_rules_effect_within(m2, plan, v, plans, vals, cs, i + 1);
        }
    }
}

/// A field adds only paths within its own path.
proof fn lemma_field_effect_within(m: ErrorsModel, plan: FieldPlanM, v: Value, plans: Seq<FieldPlanM>, vals: Seq<Value>, cs: Seq<CustomFailureM>)
    requires
        plan.name.len() > 0,
    ensures
        grows_within(m, field_effect(m, plan, v, plans, vals, cs), plan.name),
{
    lemma_rules_effect_within(m, plan, v, plans, vals, cs, 0);
    if plan.guard == Guard::RequiredFirst && plan.rules.len() > 0 {
        lemma_rule_effect_within(m, plan.rules[0], plan, v, plans, vals, cs);
        let m1 = rule_effect(m, plan.rules[0], plan, v, plans, vals, cs).0;
        lemma_rules_effect_within(m1, plan, v, plans, vals, cs, 1);
    }
}

/// The fields from `i` on keep every path within some field's path.
proof fn lemma_fields_effect_within(m: ErrorsModel, rec: Record, plans: Seq<FieldPlanM>, i: int)
    requires
        keys_within(m, plans),
        forall|j: int| 0 <= j < plans.len() ==> (#[trigger] plans[j]).name.len() > 0,
    ensures
        keys_within(fields_effect(m, rec, plans, i), plans),
    decreases plans.len() - i,
{
    if !(i < 0 || i >= plans.len() || i >= rec.fields@.len()) {
        let p = plans[i];
        assert(p.name.len() > 0);
        lemma_field_effect_within(m, p, rec.fields@[i], plans, rec.fields@, customs_model(rec.custom@));
        let m2 = field_effect(m, p, rec.fields@[i], plans, rec.fields@, customs_model(rec.custom@));
        assert forall|k: Seq<char>| #[trigger] m2.contains_key(k) implies exists|j: int| 0 <= j < plans.len() && path_within(k, plans[j].name) by {
            if !m.contains_key(k) {
                assert(path_within(k, plans[i].name));
            }
        }
        lemma_fields_effect_within(m2, rec, plans, i + 1);
    }
}

/// Every error of a record is recorded under the path of one of its
/// variant's fields, or under a dot-separated path below it.
pub proof fn lemma_errors_within_fields(rec: Record)
    requires
        rec.variant < rec.schema.variants@.len(),
        forall|j: int| 0 <= j < rec.schema@.variants[rec.variant as int].len()
            ==> (#[trigger] rec.schema@.variants[rec.variant as int][j]).name.len() > 0,
    ensures
        keys_within(spec_validate(rec), rec.schema@.variants[rec.variant as int]),
{
    let plans = plans_model(rec.schema.variants@[rec.variant as int]@);
    assert(plans == rec.schema@.variants[rec.variant as int]);
    lemma_fields_effect_within(Map::empty(), rec, plans, 0);
}

/// A `not_in` rule fails on a text value exactly when the text is one of
/// the listed values, on a named struct field as on a tuple or variant field.
pub proof fn lemma_not_in_fails_when_listed(
    r: FieldRuleM,
    f: FieldInfoM,
    d: Seq<char>,
    fields: Seq<FieldInfoM>,
    l: Seq<Seq<char>>,
    plan: FieldPlanM,
    s: String,
    plans: Seq<FieldPlanM>,
    vals: Seq<Value>,
)
    requires
        rule_kind(r.name) == Some(RuleKind::NotIn),
        r.params == ParamsM::List(l),
    ensures
        struct_rule(r, f, d, fields) is Ok,
        variant_rule(r, f, d) is Ok,
        check_fails(struct_rule(r, f, d, fields)->Ok_0.check, plan, Value::Str(s), plans, vals) == l.contains(s@),
        check_fails(variant_rule(r, f, d)->Ok_0.check, plan, Value::Str(s), plans, vals) == l.contains(s@),
{
}

/// On a text field `min = n`, `max = n` and `size = n` count characters:
/// `min` fails exactly on fewer than `n`, `max` on more than `n`, `size` on
/// any other number, on a named struct field as on a tuple or variant field.
pub proof fn lemma_text_length_in_characters(
    r: FieldRuleM,
    f: FieldInfoM,
    d: Seq<char>,
    fields: Seq<FieldInfoM>,
    v: Seq<char>,
    n: usize,
    plan: FieldPlanM,
    s: String,
    plans: Seq<FieldPlanM>,
    vals: Seq<Value>,
)
    requires
        rule_kind(r.name) == Some(RuleKind::Min) || rule_kind(r.name) == Some(RuleKind::Max) || rule_kind(r.name)
            == Some(RuleKind::Size),
        r.params == ParamsM::Value(v),
        usize_literal(v) == Some(n),
        field_kind(f) == FieldKind::Text || field_kind(f) == FieldKind::Other,
    ensures
        struct_rule(r, f, d, fields) is Ok,
        variant_rule(r, f, d) is Ok,
        ({
            let a = check_fails(struct_rule(r, f, d, fields)->Ok_0.check, plan, Value::Str(s), plans, vals);
            let b = check_fails(variant_rule(r, f, d)->Ok_0.check, plan, Value::Str(s), plans, vals);
            &&& a == b
            &&& rule_kind(r.name) == Some(RuleKind::Min) ==> a == (s@.len() < n)
            &&& rule_kind(r.name) == Some(RuleKind::Max) ==> a == (s@.len() > n)
            &&& rule_kind(r.name) == Some(RuleKind::Size) ==> a == (s@.len() != n)
        }),
{
}

} // verus!
