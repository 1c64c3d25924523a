//! Compiling type definitions into validation plans.
//!
//! Each rule of each field becomes a compiled check with its message, as
//! the derive of the validated type would generate it: named struct fields
//! get the full rule set (cross-field rules included), tuple fields and
//! enum variant fields the reduced set that needs no other field. A rule
//! that cannot be compiled (unknown name, missing or malformed parameter)
//! makes compiling fail with a message.
use vstd::prelude::*;
use crate::error::param_lookup;
use crate::plan::{
    strings_model, Bound, Check, CheckM, CompiledRule, Cond, CondM, CountTest, NumTest, Relation, RuleM, TextTest,
    TextTestM,
};
use crate::rules::binary64::{decimal_rounded, round_bits, round_decimal, round_to_bits, with_sign};
use crate::rules::numeric::numeral_limit;
use vstd::arithmetic::power2::{lemma_pow2_unfold, pow2};
use crate::rules::string::{all_digits, digits_value, is_numeric, parse_digits, spec_is_numeric};
use crate::schema::{fields_model, pairs_model, FieldInfo, FieldInfoM, FieldRule, FieldRuleM, ParamsM, RuleParams};
use crate::text::{find_char, first_index_of, str_eq};

verus! {

/// The rules a field can carry.
#[derive(Clone, Copy, Debug, PartialEq, Eq, Structural)]
pub enum RuleKind {
    Required,
    Email,
    Url,
    Alpha,
    AlphaNum,
    AlphaDash,
    Numeric,
    Ascii,
    Uuid,
    Ulid,
    Ip,
    Ipv4,
    Ipv6,
    Json,
    MacAddress,
    Min,
    Max,
    Between,
    Regex,
    InList,
    NotIn,
    Confirmed,
    Same,
    Different,
    RequiredIf,
    RequiredUnless,
    RequiredWith,
    RequiredWithout,
    StartsWith,
    EndsWith,
    Nested,
    Dive,
    Custom,
    String,
    Integer,
    Boolean,
    Accepted,
    AcceptedIf,
    Declined,
    DeclinedIf,
    Filled,
    Prohibited,
    ProhibitedIf,
    ProhibitedUnless,
    RequiredWithAll,
    RequiredWithoutAll,
    NotRegex,
    Contains,
    DoesntContain,
    DoesntStartWith,
    DoesntEndWith,
    Uppercase,
    Lowercase,
    Gt,
    Gte,
    Lt,
    Lte,
    Size,
    Digits,
    DigitsBetween,
    MultipleOf,
    Decimal,
    Date,
    Datetime,
    DateEquals,
    Before,
    After,
    BeforeOrEqual,
    AfterOrEqual,
    HexColor,
    Timezone,
    InArray,
    Distinct,
    Bail,
    Nullable,
    Sometimes,
}

/// The rule a name stands for.
pub open spec fn rule_kind(name: Seq<char>) -> Option<RuleKind> {
    if name == "required"@ {
        Some(RuleKind::Required)
    } else if name == "email"@ {
        Some(RuleKind::Email)
    } else if name == "url"@ {
        Some(RuleKind::Url)
    } else if name == "alpha"@ {
        Some(RuleKind::Alpha)
    } else if name == "alpha_num"@ {
        Some(RuleKind::AlphaNum)
    } else if name == "alpha_dash"@ {
        Some(RuleKind::AlphaDash)
    } else if name == "numeric"@ {
        Some(RuleKind::Numeric)
    } else if name == "ascii"@ {
        Some(RuleKind::Ascii)
    } else if name == "uuid"@ {
        Some(RuleKind::Uuid)
    } else if name == "ulid"@ {
        Some(RuleKind::Ulid)
    } else if name == "ip"@ {
        Some(RuleKind::Ip)
    } else if name == "ipv4"@ {
        Some(RuleKind::Ipv4)
    } else if name == "ipv6"@ {
        Some(RuleKind::Ipv6)
    } else if name == "json"@ {
        Some(RuleKind::Json)
    } else if name == "mac_address"@ {
        Some(RuleKind::MacAddress)
    } else if name == "min"@ {
        Some(RuleKind::Min)
    } else if name == "max"@ {
        Some(RuleKind::Max)
    } else if name == "between"@ {
        Some(RuleKind::Between)
    } else if name == "regex"@ {
        Some(RuleKind::Regex)
    } else if name == "in_list"@ {
        Some(RuleKind::InList)
    } else if name == "not_in"@ {
        Some(RuleKind::NotIn)
    } else if name == "confirmed"@ {
        Some(RuleKind::Confirmed)
    } else if name == "same"@ {
        Some(RuleKind::Same)
    } else if name == "different"@ {
        Some(RuleKind::Different)
    } else if name == "required_if"@ {
        Some(RuleKind::RequiredIf)
    } else if name == "required_unless"@ {
        Some(RuleKind::RequiredUnless)
    } else if name == "required_with"@ {
        Some(RuleKind::RequiredWith)
    } else if name == "required_without"@ {
        Some(RuleKind::RequiredWithout)
    } else if name == "starts_with"@ {
        Some(RuleKind::StartsWith)
    } else if name == "ends_with"@ {
        Some(RuleKind::EndsWith)
    } else if name == "nested"@ {
        Some(RuleKind::Nested)
    } else if name == "dive"@ {
        Some(RuleKind::Dive)
    } else if name == "custom"@ {
        Some(RuleKind::Custom)
    } else if name == "string"@ {
        Some(RuleKind::String)
    } else if name == "integer"@ {
        Some(RuleKind::Integer)
    } else if name == "boolean"@ {
        Some(RuleKind::Boolean)
    } else if name == "accepted"@ {
        Some(RuleKind::Accepted)
    } else if name == "accepted_if"@ {
        Some(RuleKind::AcceptedIf)
    } else if name == "declined"@ {
        Some(RuleKind::Declined)
    } else if name == "declined_if"@ {
        Some(RuleKind::DeclinedIf)
    } else if name == "filled"@ {
        Some(RuleKind::Filled)
    } else if name == "prohibited"@ {
        Some(RuleKind::Prohibited)
    } else if name == "prohibited_if"@ {
        Some(RuleKind::ProhibitedIf)
    } else if name == "prohibited_unless"@ {
        Some(RuleKind::ProhibitedUnless)
    } else if name == "required_with_all"@ {
        Some(RuleKind::RequiredWithAll)
    } else if name == "required_without_all"@ {
        Some(RuleKind::RequiredWithoutAll)
    } else if name == "not_regex"@ {
        Some(RuleKind::NotRegex)
    } else if name == "contains"@ {
        Some(RuleKind::Contains)
    } else if name == "doesnt_contain"@ {
        Some(RuleKind::DoesntContain)
    } else if name == "doesnt_start_with"@ {
        Some(RuleKind::DoesntStartWith)
    } else if name == "doesnt_end_with"@ {
        Some(RuleKind::DoesntEndWith)
    } else if name == "uppercase"@ {
        Some(RuleKind::Uppercase)
    } else if name == "lowercase"@ {
        Some(RuleKind::Lowercase)
    } else if name == "gt"@ {
        Some(RuleKind::Gt)
    } else if name == "gte"@ {
        Some(RuleKind::Gte)
    } else if name == "lt"@ {
        Some(RuleKind::Lt)
    } else if name == "lte"@ {
        Some(RuleKind::Lte)
    } else if name == "size"@ {
        Some(RuleKind::Size)
    } else if name == "digits"@ {
        Some(RuleKind::Digits)
    } else if name == "digits_between"@ {
        Some(RuleKind::DigitsBetween)
    } else if name == "multiple_of"@ {
        Some(RuleKind::MultipleOf)
    } else if name == "decimal"@ {
        Some(RuleKind::Decimal)
    } else if name == "date"@ {
        Some(RuleKind::Date)
    } else if name == "datetime"@ {
        Some(RuleKind::Datetime)
    } else if name == "date_equals"@ {
        Some(RuleKind::DateEquals)
    } else if name == "before"@ {
        Some(RuleKind::Before)
    } else if name == "after"@ {
        Some(RuleKind::After)
    } else if name == "before_or_equal"@ {
        Some(RuleKind::BeforeOrEqual)
    } else if name == "after_or_equal"@ {
        Some(RuleKind::AfterOrEqual)
    } else if name == "hex_color"@ {
        Some(RuleKind::HexColor)
    } else if name == "timezone"@ {
        Some(RuleKind::Timezone)
    } else if name == "in_array"@ {
        Some(RuleKind::InArray)
    } else if name == "distinct"@ {
        Some(RuleKind::Distinct)
    } else if name == "bail"@ {
        Some(RuleKind::Bail)
    } else if name == "nullable"@ {
        Some(RuleKind::Nullable)
    } else if name == "sometimes"@ {
        Some(RuleKind::Sometimes)
    } else {
        None
    }
}

/// The rule a name stands for, if any.
pub fn rule_kind_of(name: &str) -> (r: Option<RuleKind>)
    ensures
        r == rule_kind(name@),
{
    if str_eq(name, "required") {
        Some(RuleKind::Required)
    } else if str_eq(name, "email") {
        Some(RuleKind::Email)
    } else if str_eq(name, "url") {
        Some(RuleKind::Url)
    } else if str_eq(name, "alpha") {
        Some(RuleKind::Alpha)
    } else if str_eq(name, "alpha_num") {
        Some(RuleKind::AlphaNum)
    } else if str_eq(name, "alpha_dash") {
        Some(RuleKind::AlphaDash)
    } else if str_eq(name, "numeric") {
        Some(RuleKind::Numeric)
    } else if str_eq(name, "ascii") {
        Some(RuleKind::Ascii)
    } else if str_eq(name, "uuid") {
        Some(RuleKind::Uuid)
    } else if str_eq(name, "ulid") {
        Some(RuleKind::Ulid)
    } else if str_eq(name, "ip") {
        Some(RuleKind::Ip)
    } else if str_eq(name, "ipv4") {
        Some(RuleKind::Ipv4)
    } else if str_eq(name, "ipv6") {
        Some(RuleKind::Ipv6)
    } else if str_eq(name, "json") {
        Some(RuleKind::Json)
    } else if str_eq(name, "mac_address") {
        Some(RuleKind::MacAddress)
    } else if str_eq(name, "min") {
        Some(RuleKind::Min)
    } else if str_eq(name, "max") {
        Some(RuleKind::Max)
    } else if str_eq(name, "between") {
        Some(RuleKind::Between)
    } else if str_eq(name, "regex") {
        Some(RuleKind::Regex)
    } else if str_eq(name, "in_list") {
        Some(RuleKind::InList)
    } else if str_eq(name, "not_in") {
        Some(RuleKind::NotIn)
    } else if str_eq(name, "confirmed") {
        Some(RuleKind::Confirmed)
    } else if str_eq(name, "same") {
        Some(RuleKind::Same)
    } else if str_eq(name, "different") {
        Some(RuleKind::Different)
    } else if str_eq(name, "required_if") {
        Some(RuleKind::RequiredIf)
    } else if str_eq(name, "required_unless") {
        Some(RuleKind::RequiredUnless)
    } else if str_eq(name, "required_with") {
        Some(RuleKind::RequiredWith)
    } else if str_eq(name, "required_without") {
        Some(RuleKind::RequiredWithout)
    } else if str_eq(name, "starts_with") {
        Some(RuleKind::StartsWith)
    } else if str_eq(name, "ends_with") {
        Some(RuleKind::EndsWith)
    } else if str_eq(name, "nested") {
        Some(RuleKind::Nested)
    } else if str_eq(name, "dive") {
        Some(RuleKind::Dive)
    } else if str_eq(name, "custom") {
        Some(RuleKind::Custom)
    } else if str_eq(name, "string") {
        Some(RuleKind::String)
    } else if str_eq(name, "integer") {
        Some(RuleKind::Integer)
    } else if str_eq(name, "boolean") {
        Some(RuleKind::Boolean)
    } else if str_eq(name, "accepted") {
        Some(RuleKind::Accepted)
    } else if str_eq(name, "accepted_if") {
        Some(RuleKind::AcceptedIf)
    } else if str_eq(name, "declined") {
        Some(RuleKind::Declined)
    } else if str_eq(name, "declined_if") {
        Some(RuleKind::DeclinedIf)
    } else if str_eq(name, "filled") {
        Some(RuleKind::Filled)
    } else if str_eq(name, "prohibited") {
        Some(RuleKind::Prohibited)
    } else if str_eq(name, "prohibited_if") {
        Some(RuleKind::ProhibitedIf)
    } else if str_eq(name, "prohibited_unless") {
        Some(RuleKind::ProhibitedUnless)
    } else if str_eq(name, "required_with_all") {
        Some(RuleKind::RequiredWithAll)
    } else if str_eq(name, "required_without_all") {
        Some(RuleKind::RequiredWithoutAll)
    } else if str_eq(name, "not_regex") {
        Some(RuleKind::NotRegex)
    } else if str_eq(name, "contains") {
        Some(RuleKind::Contains)
    } else if str_eq(name, "doesnt_contain") {
        Some(RuleKind::DoesntContain)
    } else if str_eq(name, "doesnt_start_with") {
        Some(RuleKind::DoesntStartWith)
    } else if str_eq(name, "doesnt_end_with") {
        Some(RuleKind::DoesntEndWith)
    } else if str_eq(name, "uppercase") {
        Some(RuleKind::Uppercase)
    } else if str_eq(name, "lowercase") {
        Some(RuleKind::Lowercase)
    } else if str_eq(name, "gt") {
        Some(RuleKind::Gt)
    } else if str_eq(name, "gte") {
        Some(RuleKind::Gte)
    } else if str_eq(name, "lt") {
        Some(RuleKind::Lt)
    } else if str_eq(name, "lte") {
        Some(RuleKind::Lte)
    } else if str_eq(name, "size") {
        Some(RuleKind::Size)
    } else if str_eq(name, "digits") {
        Some(RuleKind::Digits)
    } else if str_eq(name, "digits_between") {
        Some(RuleKind::DigitsBetween)
    } else if str_eq(name, "multiple_of") {
        Some(RuleKind::MultipleOf)
    } else if str_eq(name, "decimal") {
        Some(RuleKind::Decimal)
    } else if str_eq(name, "date") {
        Some(RuleKind::Date)
    } else if str_eq(name, "datetime") {
        Some(RuleKind::Datetime)
    } else if str_eq(name, "date_equals") {
        Some(RuleKind::DateEquals)
    } else if str_eq(name, "before") {
        Some(RuleKind::Before)
    } else if str_eq(name, "after") {
        Some(RuleKind::After)
    } else if str_eq(name, "before_or_equal") {
        Some(RuleKind::BeforeOrEqual)
    } else if str_eq(name, "after_or_equal") {
        Some(RuleKind::AfterOrEqual)
    } else if str_eq(name, "hex_color") {
        Some(RuleKind::HexColor)
    } else if str_eq(name, "timezone") {
        Some(RuleKind::Timezone)
    } else if str_eq(name, "in_array") {
        Some(RuleKind::InArray)
    } else if str_eq(name, "distinct") {
        Some(RuleKind::Distinct)
    } else if str_eq(name, "bail") {
        Some(RuleKind::Bail)
    } else if str_eq(name, "nullable") {
        Some(RuleKind::Nullable)
    } else if str_eq(name, "sometimes") {
        Some(RuleKind::Sometimes)
    } else {
        None
    }
}

/// How the size rules (`min`, `max`, `between`, `size`) read a field.
#[derive(Clone, Copy, Debug, PartialEq, Eq, Structural)]
pub enum FieldKind {
    /// By text length.
    Text,
    /// By integer value.
    Integer,
    /// By floating-point value.
    Float,
    /// By number of items.
    List,
    /// By text length of its string form.
    Other,
}

/// The kind of a type by its name.
pub open spec fn type_kind(name: Seq<char>) -> FieldKind {
    if name == "String"@ {
        FieldKind::Text
    } else if name == "i8"@ || name == "i16"@ || name == "i32"@ || name == "i64"@ || name == "u8"@
        || name == "u16"@ || name == "u32"@ || name == "u64"@ || name == "isize"@ || name == "usize"@ {
        FieldKind::Integer
    } else if name == "f32"@ || name == "f64"@ {
        FieldKind::Float
    } else {
        FieldKind::Other
    }
}

/// The kind of a field: a list, or the kind of its inner type.
pub open spec fn field_kind(f: FieldInfoM) -> FieldKind {
    if f.is_vec {
        FieldKind::List
    } else {
        type_kind(f.inner_type)
    }
}

/// Whether cross-field rules see the values of a type.
pub open spec fn is_convertible(name: Seq<char>) -> bool {
    name == "String"@ || name == "bool"@ || name == "i8"@ || name == "i16"@ || name == "i32"@
        || name == "i64"@ || name == "u8"@ || name == "u16"@ || name == "u32"@ || name == "u64"@
        || name == "f32"@ || name == "f64"@
}

/// The kind of a type by its name.
fn type_kind_of(name: &str) -> (r: FieldKind)
    ensures
        r == type_kind(name@),
{
    if str_eq(name, "String") {
        FieldKind::Text
    } else if str_eq(name, "i8") || str_eq(name, "i16") || str_eq(name, "i32") || str_eq(name, "i64")
        || str_eq(name, "u8") || str_eq(name, "u16") || str_eq(name, "u32") || str_eq(name, "u64")
        || str_eq(name, "isize") || str_eq(name, "usize") {
        FieldKind::Integer
    } else if str_eq(name, "f32") || str_eq(name, "f64") {
        FieldKind::Float
    } else {
        FieldKind::Other
    }
}

/// The kind of a field.
fn field_kind_of(f: &FieldInfo) -> (r: FieldKind)
    ensures
        r == field_kind(f@),
{
    if f.is_vec {
        FieldKind::List
    } else {
        type_kind_of(f.inner_type.as_str())
    }
}

/// Whether cross-field rules see the values of a type.
pub(crate) fn convertible_name(name: &str) -> (r: bool)
    ensures
        r == is_convertible(name@),
{
    str_eq(name, "String") || str_eq(name, "bool") || str_eq(name, "i8") || str_eq(name, "i16")
        || str_eq(name, "i32") || str_eq(name, "i64") || str_eq(name, "u8") || str_eq(name, "u16")
        || str_eq(name, "u32") || str_eq(name, "u64") || str_eq(name, "f32") || str_eq(name, "f64")
}

/// The message of a rule: its custom message, else `default`.
pub open spec fn message_for(r: FieldRuleM, default: Seq<char>) -> Seq<char> {
    match r.message {
        Some(m) => m,
        None => default,
    }
}

/// The message of a rule: its custom message, else `default`.
fn message_or(r: &FieldRule, default: String) -> (m: String)
    ensures
        m@ == message_for(r@, default@),
{
    match &r.message {
        Some(m) => m.clone(),
        None => default,
    }
}

/// `a` followed by `b` and `c`.
fn cat3(a: &str, b: &str, c: &str) -> (r: String)
    ensures
        r@ == a@ + b@ + c@,
{
    let mut s = a.to_string();
    s.append(b);
    s.append(c);
    s
}

/// `a`, `b`, `c`, `d` and `e` one after the other.
fn cat5(a: &str, b: &str, c: &str, d: &str, e: &str) -> (r: String)
    ensures
        r@ == a@ + b@ + c@ + d@ + e@,
{
    let mut s = a.to_string();
    s.append(b);
    s.append(c);
    s.append(d);
    s.append(e);
    s
}

/// `s` with every `_` turned into a space.
pub open spec fn spaced(s: Seq<char>) -> Seq<char> {
    s.map_values(|c: char| if c == '_' { ' ' } else { c })
}

/// `s` with every `_` turned into a space.
pub(crate) fn spaced_string(s: &str) -> (r: String)
    ensures
        r@ == spaced(s@),
{
    let mut out = String::new();
    let mut rest: &str = s;
    loop
        invariant
            spaced(s@) == out@ + spaced(rest@),
        decreases rest@.len(),
    {
        match find_char(rest, '_') {
            Some(k) => {
                let n = rest.unicode_len();
                let head = rest.substring_char(0, k);
                let tail = rest.substring_char(k + 1, n);
                proof {
                    reveal_strlit(" ");
                    assert(head@ =~= rest@.take(k as int));
                    assert(tail@ =~= rest@.skip(k + 1));
                    assert(spaced(head@) =~= head@);
                    assert(spaced(rest@) =~= head@ + " "@ + spaced(tail@));
                }
                out.append(head);
                out.append(" ");
                rest = tail;
                assert(spaced(s@) =~= out@ + spaced(rest@));
            },
            None => {
                assert(spaced(rest@) =~= rest@);
                out.append(rest);
                return out;
            },
        }
    }
}

/// The value under `key` in a list of named parameters.
pub(crate) fn lookup_param(ps: &Vec<(String, String)>, key: &str) -> (r: Option<String>)
    ensures
        match param_lookup(pairs_model(ps@), key@) {
            Some(v) => r matches Some(x) && x@ == v,
            None => r is None,
        },
{
    let ghost pm = pairs_model(ps@);
    let mut i: usize = 0;
    assert(pm.skip(0) =~= pm);
    while i < ps.len()
        invariant
            i <= ps@.len(),
            pm == pairs_model(ps@),
            param_lookup(pm, key@) == param_lookup(pm.skip(i as int), key@),
        decreases ps@.len() - i,
    {
        assert(pm.skip(i as int)[0] == pm[i as int]);
        assert(pm.skip(i as int).drop_first() =~= pm.skip(i + 1));
        if str_eq(ps[i].0.as_str(), key) {
            return Some(ps[i].1.clone());
        }
        i = i + 1;
    }
    assert(pm.skip(i as int) =~= Seq::<(Seq<char>, Seq<char>)>::empty());
    None
}

/// The position of the first of `names` equal to `n`.
pub open spec fn index_of_name(names: Seq<Seq<char>>, n: Seq<char>) -> Option<usize> {
    if exists|j: int| 0 <= j < names.len() && names[j] == n {
        Some((choose|j: int| 0 <= j < names.len() && names[j] == n && forall|k: int| 0 <= k < j ==> names[k] != n) as usize)
    } else {
        None
    }
}

/// The names of a list of fields.
pub open spec fn field_names(fields: Seq<FieldInfoM>) -> Seq<Seq<char>> {
    fields.map_values(|f: FieldInfoM| f.name)
}

/// The position of the first field named `n`.
fn field_index(fields: &Vec<FieldInfo>, n: &str) -> (r: Option<usize>)
    ensures
        r == index_of_name(field_names(fields_model(fields@)), n@),
{
    let ghost names = field_names(fields_model(fields@));
    let mut i: usize = 0;
    while i < fields.len()
        invariant
            i <= fields@.len(),
            names == field_names(fields_model(fields@)),
            names.len() == fields@.len(),
            forall|k: int| 0 <= k < i ==> names[k] != n@,
        decreases fields@.len() - i,
    {
        assert(names[i as int] == fields@[i as int].name@);
        if str_eq(fields[i].name.as_str(), n) {
            proof {
                let w = choose|j: int| 0 <= j < names.len() && names[j] == n@ && forall|k: int| 0 <= k < j ==> names[k] != n@;
                assert(0 <= i < names.len() && names[i as int] == n@ && forall|k: int| 0 <= k < i ==> names[k] != n@);
                if w < i {
                } else if w > i {
                    assert(names[i as int] != n@);
                }
            }
            return Some(i);
        }
        i = i + 1;
    }
    None
}

/// A size or count parameter as `usize` parses it: an optional `+`, then
/// digits, in range.
pub open spec fn usize_literal(s: Seq<char>) -> Option<usize> {
    let t = if s.len() > 0 && s[0] == '+' { s.drop_first() } else { s };
    if all_digits(t) && digits_value(t) <= usize::MAX {
        Some(digits_value(t) as usize)
    } else {
        None
    }
}

/// The largest magnitude of an integer bound.
pub open spec fn literal_limit() -> int {
    0x10_0000_0000_0000_0000_0000_0000
}

/// An integer bound: an optional `-`, then digits, of magnitude at most
/// 2^100.
pub open spec fn int_literal(s: Seq<char>) -> Option<int> {
    let neg = s.len() > 0 && s[0] == '-';
    let t = if neg { s.drop_first() } else { s };
    if all_digits(t) && digits_value(t) <= literal_limit() {
        Some(if neg { -digits_value(t) } else { digits_value(t) })
    } else {
        None
    }
}

/// Parses a size or count parameter.
fn parse_usize(s: &str) -> (r: Option<usize>)
    ensures
        r == usize_literal(s@),
{
    let start: usize = if s.unicode_len() > 0 && s.get_char(0) == '+' { 1 } else { 0 };
    assert(s@.skip(start as int) =~= (if s@.len() > 0 && s@[0] == '+' { s@.drop_first() } else { s@ }));
    match parse_digits(s, start, usize::MAX as u128) {
        Some(v) => Some(v as usize),
        None => None,
    }
}

/// Parses an integer bound.
fn parse_int(s: &str) -> (r: Option<i128>)
    ensures
        match int_literal(s@) {
            Some(v) => r matches Some(x) && x == v,
            None => r is None,
        },
        r matches Some(x) ==> -literal_limit() <= x <= literal_limit(),
{
    let neg = s.unicode_len() > 0 && s.get_char(0) == '-';
    let start: usize = if neg { 1 } else { 0 };
    assert(s@.skip(start as int) =~= (if neg { s@.drop_first() } else { s@ }));
    match parse_digits(s, start, 0x10_0000_0000_0000_0000_0000_0000u128) {
        Some(v) => {
            let x = v as i128;
            if neg {
                Some(-x)
            } else {
                Some(x)
            }
        },
        None => None,
    }
}

/// A decimal bound: an optional `-`, digits, a `.` and digits (perhaps
/// none), with at most 18 digits after the `.` and a digit value below
/// 10^20. Gives the sign, the value of all the digits, and the number of
/// digits after the `.`.
pub open spec fn decimal_literal(s: Seq<char>) -> Option<(bool, nat, nat)> {
    let neg = s.len() > 0 && s[0] == '-';
    let t = if neg {
        s.drop_first()
    } else {
        s
    };
    match first_index_of(t, '.') {
        Some(k) => {
            let ip = t.take(k);
            let fp = t.skip(k + 1);
            if k >= 1 && fp.len() <= 18 && all_digits(ip + fp) && digits_value(ip + fp) <= numeral_limit() {
                Some((neg, digits_value(ip + fp) as nat, fp.len()))
            } else {
                None
            }
        },
        None => None,
    }
}

/// Reads a decimal bound.
fn parse_decimal(s: &str) -> (r: Option<(bool, u128, usize)>)
    ensures
        match decimal_literal(s@) {
            Some((neg, a, k)) => r matches Some((n2, a2, k2)) && n2 == neg && a2 == a && k2 == k,
            None => r is None,
        },
        r matches Some((n2, a2, k2)) ==> a2 <= numeral_limit() && k2 <= 18,
{
    let n = s.unicode_len();
    let neg = n > 0 && s.get_char(0) == '-';
    let start: usize = if neg { 1 } else { 0 };
    let body = s.substring_char(start, n);
    assert(body@ =~= (if neg { s@.drop_first() } else { s@ }));
    let bl = body.unicode_len();
    let k = match find_char(body, '.') {
        Some(k) => k,
        None => {
            assert(first_index_of(body@, '.') is None);
            return None;
        },
    };
    if k == 0 {
        return None;
    }
    let ip = body.substring_char(0, k);
    let fp = body.substring_char(k + 1, bl);
    assert(ip@ =~= body@.take(k as int));
    assert(fp@ =~= body@.skip(k + 1));
    if fp.unicode_len() > 18 {
        return None;
    }
    let mut digits = ip.to_string();
    digits.append(fp);
    assert(digits@.skip(0) =~= digits@);
    match parse_digits(digits.as_str(), 0, 99_999_999_999_999_999_999) {
        Some(v) => Some((neg, v, fp.unicode_len())),
        None => None,
    }
}

/// The significand width of a float type: 24 bits for `f32`, 53 for `f64`.
pub open spec fn field_precision(f: FieldInfoM) -> nat {
    if f.inner_type == "f32"@ {
        24
    } else {
        53
    }
}

/// A bound on a float field, as the literal converts to the field's type:
/// rounded to the nearest number with the type's significand width, a tie
/// going to the even one.
pub open spec fn float_bound(v: Seq<char>, p: nat) -> Option<Bound> {
    match int_literal(v) {
        Some(n) => Some(
            Bound {
                num: with_sign(n < 0, round_to_bits((if n < 0 { -n } else { n }) as nat, p) as int) as i128,
                scale: 0,
            },
        ),
        None => match decimal_literal(v) {
            Some((neg, a, s)) => if a == 0 {
                Some(Bound { num: 0, scale: 0 })
            } else {
                Some(
                    Bound {
                        num: with_sign(neg, decimal_rounded(a, s, p).0 as int) as i128,
                        scale: decimal_rounded(a, s, p).1 as u32,
                    },
                )
            },
            None => None,
        },
    }
}

/// The range of an integer type by its name (`isize` and `usize` taken as
/// 64 bits wide).
pub open spec fn int_type_range(name: Seq<char>) -> (int, int) {
    if name == "i8"@ {
        (-0x80, 0x7f)
    } else if name == "i16"@ {
        (-0x8000, 0x7fff)
    } else if name == "i32"@ {
        (-0x8000_0000, 0x7fff_ffff)
    } else if name == "u8"@ {
        (0, 0xff)
    } else if name == "u16"@ {
        (0, 0xffff)
    } else if name == "u32"@ {
        (0, 0xffff_ffff)
    } else if name == "u64"@ || name == "usize"@ {
        (0, 0xffff_ffff_ffff_ffff)
    } else {
        (-0x8000_0000_0000_0000, 0x7fff_ffff_ffff_ffff)
    }
}

/// `x` brought into `[lo, hi]`.
pub open spec fn clamp(x: int, lo: int, hi: int) -> int {
    if x < lo {
        lo
    } else if x > hi {
        hi
    } else {
        x
    }
}

/// A decimal bound on an integer field of type `name`, as the literal
/// converts to it: the binary64 number nearest the literal, truncated
/// toward zero and saturated to the type's range.
pub open spec fn int_field_decimal(neg: bool, a: nat, s: nat, name: Seq<char>) -> int {
    if a == 0 {
        0
    } else {
        let r = decimal_rounded(a, s, 53);
        clamp(with_sign(neg, (r.0 / pow2(r.1)) as int), int_type_range(name).0, int_type_range(name).1)
    }
}

/// The bound a size rule reads from `v` on a number field: for a float
/// field, the literal rounded to the field's type; for an integer field, an
/// integer literal as it is, and a decimal one truncated and saturated.
pub open spec fn number_bound(f: FieldInfoM, v: Seq<char>) -> Option<Bound> {
    if field_kind(f) == FieldKind::Float {
        float_bound(v, field_precision(f))
    } else {
        match int_literal(v) {
            Some(n) => Some(Bound { num: n as i128, scale: 0 }),
            None => match decimal_literal(v) {
                Some((neg, a, s)) => Some(Bound { num: int_field_decimal(neg, a, s, f.inner_type) as i128, scale: 0 }),
                None => None,
            },
        }
    }
}

/// `m / 2^k`, rounded down.
fn halve_times(m: u128, k: u32) -> (r: u128)
    ensures
        r == (m as nat) / pow2(k as nat),
        r <= m,
{
    let mut q: u128 = m;
    let mut i: u32 = 0;
    proof {
        vstd::arithmetic::power2::lemma2_to64();
    }
    while i < k
        invariant
            i <= k,
            q == (m as nat) / pow2(i as nat),
            q <= m,
        decreases k - i,
    {
        proof {
            vstd::arithmetic::power2::lemma_pow2_pos(i as nat);
            lemma_pow2_unfold((i + 1) as nat);
            vstd::arithmetic::div_mod::lemma_div_denominator(m as int, pow2(i as nat) as int, 2);
        }
        q = q / 2;
        i = i + 1;
    }
    q
}

/// The range of an integer type, as `int_type_range` says.
fn int_type_range_of(name: &str) -> (r: (i128, i128))
    ensures
        r.0 == int_type_range(name@).0,
        r.1 == int_type_range(name@).1,
{
    if str_eq(name, "i8") {
        (-0x80, 0x7f)
    } else if str_eq(name, "i16") {
        (-0x8000, 0x7fff)
    } else if str_eq(name, "i32") {
        (-0x8000_0000, 0x7fff_ffff)
    } else if str_eq(name, "u8") {
        (0, 0xff)
    } else if str_eq(name, "u16") {
        (0, 0xffff)
    } else if str_eq(name, "u32") {
        (0, 0xffff_ffff)
    } else if str_eq(name, "u64") || str_eq(name, "usize") {
        (0, 0xffff_ffff_ffff_ffff)
    } else {
        (-0x8000_0000_0000_0000, 0x7fff_ffff_ffff_ffff)
    }
}

/// Reads a bound on a float field of significand width `p`, as
/// `float_bound` says.
fn float_bound_of(v: &str, p: u32) -> (r: Option<Bound>)
    requires
        p == 24 || p == 53,
    ensures
        r == float_bound(v@, p as nat),
{
    match parse_int(v) {
        Some(n) => {
            let mag: u128 = if n < 0 { (0 - n) as u128 } else { n as u128 };
            let m = round_bits(mag, p);
            let num: i128 = if n < 0 { 0 - (m as i128) } else { m as i128 };
            Some(Bound { num, scale: 0 })
        },
        None => match parse_decimal(v) {
            Some((neg, a, s)) => {
                if a == 0 {
                    Some(Bound { num: 0, scale: 0 })
                } else {
                    let (m, k) = round_decimal(a, s, p);
                    let num: i128 = if neg { 0 - (m as i128) } else { m as i128 };
                    Some(Bound { num, scale: k })
                }
            },
            None => None,
        },
    }
}

/// A decimal bound on an integer field of type `name`, as
/// `int_field_decimal` says.
fn int_decimal_of(neg: bool, a: u128, s: usize, name: &str) -> (r: i128)
    requires
        a <= numeral_limit(),
        s <= 18,
    ensures
        r == int_field_decimal(neg, a as nat, s as nat, name@),
{
    if a == 0 {
        return 0;
    }
    let (m, k) = round_decimal(a, s, 53);
    let q = halve_times(m, k);
    let x: i128 = if neg { 0 - (q as i128) } else { q as i128 };
    let (lo, hi) = int_type_range_of(name);
    if x < lo {
        lo
    } else if x > hi {
        hi
    } else {
        x
    }
}

/// Reads the bound of a size rule on a number field, as `number_bound`
/// says.
fn number_bound_of(f: &FieldInfo, v: &str) -> (r: Option<Bound>)
    ensures
        r == number_bound(f@, v@),
{
    if field_kind_of(f) == FieldKind::Float {
        let p: u32 = if str_eq(f.inner_type.as_str(), "f32") { 24 } else { 53 };
        float_bound_of(v, p)
    } else {
        match parse_int(v) {
            Some(n) => Some(Bound { num: n, scale: 0 }),
            None => match parse_decimal(v) {
                Some((neg, a, s)) => Some(Bound { num: int_decimal_of(neg, a, s, f.inner_type.as_str()), scale: 0 }),
                None => None,
            },
        }
    }
}

/// The parameterless text rules: their test and the end of their default message.
pub open spec fn simple_text(k: RuleKind) -> Option<(TextTestM, Seq<char>)> {
    match k {
        RuleKind::Email => Some((TextTestM::Email, " field must be a valid email address."@)),
        RuleKind::Url => Some((TextTestM::Url, " field must be a valid URL."@)),
        RuleKind::Alpha => Some((TextTestM::Alpha, " field must only contain letters."@)),
        RuleKind::AlphaNum => Some((TextTestM::AlphaNum, " field must only contain letters and numbers."@)),
        RuleKind::AlphaDash => Some((TextTestM::AlphaDash, " field must only contain letters, numbers, dashes, and underscores."@)),
        RuleKind::Numeric => Some((TextTestM::Numeric, " field must be a number."@)),
        RuleKind::Ascii => Some((TextTestM::Ascii, " field must only contain ASCII characters."@)),
        RuleKind::Uuid => Some((TextTestM::Uuid, " field must be a valid UUID."@)),
        RuleKind::Ulid => Some((TextTestM::Ulid, " field must be a valid ULID."@)),
        RuleKind::Ip => Some((TextTestM::Ip, " field must be a valid IP address."@)),
        RuleKind::Ipv4 => Some((TextTestM::Ipv4, " field must be a valid IPv4 address."@)),
        RuleKind::Ipv6 => Some((TextTestM::Ipv6, " field must be a valid IPv6 address."@)),
        RuleKind::Json => Some((TextTestM::Json, " field must be valid JSON."@)),
        RuleKind::MacAddress => Some((TextTestM::MacAddress, " field must be a valid MAC address."@)),
        RuleKind::Integer => Some((TextTestM::Integer, " field must be an integer."@)),
        RuleKind::Boolean => Some((TextTestM::Boolean, " field must be true or false."@)),
        RuleKind::Accepted => Some((TextTestM::Accepted, " field must be accepted."@)),
        RuleKind::Declined => Some((TextTestM::Declined, " field must be declined."@)),
        RuleKind::Filled => Some((TextTestM::Filled, " field must not be empty when present."@)),
        RuleKind::Uppercase => Some((TextTestM::Uppercase, " field must be uppercase."@)),
        RuleKind::Lowercase => Some((TextTestM::Lowercase, " field must be lowercase."@)),
        RuleKind::Date => Some((TextTestM::Date, " field must be a valid ISO 8601 date (YYYY-MM-DD)."@)),
        RuleKind::Datetime => Some((TextTestM::Datetime, " field must be a valid ISO 8601 datetime."@)),
        RuleKind::HexColor => Some((TextTestM::HexColor, " field must be a valid hex color."@)),
        RuleKind::Timezone => Some((TextTestM::Timezone, " field must be a valid timezone."@)),
        _ => None,
    }
}

/// The parameterless text rules: their test and the end of their default message.
fn simple_text_of(k: RuleKind) -> (r: Option<(TextTest, &'static str)>)
    ensures
        match simple_text(k) {
            Some((t, m)) => r matches Some((x, y)) && x@ == t && y@ == m,
            None => r is None,
        },
{
    match k {
        RuleKind::Email => Some((TextTest::Email, " field must be a valid email address.")),
        RuleKind::Url => Some((TextTest::Url, " field must be a valid URL.")),
        RuleKind::Alpha => Some((TextTest::Alpha, " field must only contain letters.")),
        RuleKind::AlphaNum => Some((TextTest::AlphaNum, " field must only contain letters and numbers.")),
        RuleKind::AlphaDash => Some((TextTest::AlphaDash, " field must only contain letters, numbers, dashes, and underscores.")),
        RuleKind::Numeric => Some((TextTest::Numeric, " field must be a number.")),
        RuleKind::Ascii => Some((TextTest::Ascii, " field must only contain ASCII characters.")),
        RuleKind::Uuid => Some((TextTest::Uuid, " field must be a valid UUID.")),
        RuleKind::Ulid => Some((TextTest::Ulid, " field must be a valid ULID.")),
        RuleKind::Ip => Some((TextTest::Ip, " field must be a valid IP address.")),
        RuleKind::Ipv4 => Some((TextTest::Ipv4, " field must be a valid IPv4 address.")),
        RuleKind::Ipv6 => Some((TextTest::Ipv6, " field must be a valid IPv6 address.")),
        RuleKind::Json => Some((TextTest::Json, " field must be valid JSON.")),
        RuleKind::MacAddress => Some((TextTest::MacAddress, " field must be a valid MAC address.")),
        RuleKind::Integer => Some((TextTest::Integer, " field must be an integer.")),
        RuleKind::Boolean => Some((TextTest::Boolean, " field must be true or false.")),
        RuleKind::Accepted => Some((TextTest::Accepted, " field must be accepted.")),
        RuleKind::Declined => Some((TextTest::Declined, " field must be declined.")),
        RuleKind::Filled => Some((TextTest::Filled, " field must not be empty when present.")),
        RuleKind::Uppercase => Some((TextTest::Uppercase, " field must be uppercase.")),
        RuleKind::Lowercase => Some((TextTest::Lowercase, " field must be lowercase.")),
        RuleKind::Date => Some((TextTest::Date, " field must be a valid ISO 8601 date (YYYY-MM-DD).")),
        RuleKind::Datetime => Some((TextTest::Datetime, " field must be a valid ISO 8601 datetime.")),
        RuleKind::HexColor => Some((TextTest::HexColor, " field must be a valid hex color.")),
        RuleKind::Timezone => Some((TextTest::Timezone, " field must be a valid timezone.")),
        _ => None,
    }
}

/// The text rules with one value: the rule name used in errors and the middle of their default message.
pub open spec fn valued_text(k: RuleKind) -> Option<(Seq<char>, Seq<char>)> {
    match k {
        RuleKind::Contains => Some(("contains"@, " field must contain "@)),
        RuleKind::DoesntContain => Some(("doesnt_contain"@, " field must not contain "@)),
        RuleKind::DoesntStartWith => Some(("doesnt_start_with"@, " field must not start with "@)),
        RuleKind::DoesntEndWith => Some(("doesnt_end_with"@, " field must not end with "@)),
        RuleKind::StartsWith => Some(("starts_with"@, " field must start with "@)),
        RuleKind::EndsWith => Some(("ends_with"@, " field must end with "@)),
        RuleKind::DateEquals => Some(("date_equals"@, " field must be equal to "@)),
        RuleKind::Before => Some(("before"@, " field must be a date before "@)),
        RuleKind::After => Some(("after"@, " field must be a date after "@)),
        RuleKind::BeforeOrEqual => Some(("before_or_equal"@, " field must be a date before or equal to "@)),
        RuleKind::AfterOrEqual => Some(("after_or_equal"@, " field must be a date after or equal to "@)),
        _ => None,
    }
}

/// The test of a text rule with one value `v`.
pub open spec fn valued_test(k: RuleKind, v: Seq<char>) -> TextTestM {
    match k {
        RuleKind::Contains => TextTestM::Contains(v),
        RuleKind::DoesntContain => TextTestM::DoesntContain(v),
        RuleKind::DoesntStartWith => TextTestM::DoesntStartWith(v),
        RuleKind::DoesntEndWith => TextTestM::DoesntEndWith(v),
        RuleKind::StartsWith => TextTestM::StartsWith(v),
        RuleKind::EndsWith => TextTestM::EndsWith(v),
        RuleKind::DateEquals => TextTestM::DateEquals(v),
        RuleKind::Before => TextTestM::Before(v),
        RuleKind::After => TextTestM::After(v),
        RuleKind::BeforeOrEqual => TextTestM::BeforeOrEqual(v),
        RuleKind::AfterOrEqual => TextTestM::AfterOrEqual(v),
        _ => TextTestM::Anything,
    }
}

/// The text rules with one value.
fn valued_text_of(k: RuleKind) -> (r: Option<(&'static str, &'static str)>)
    ensures
        match valued_text(k) {
            Some((n, m)) => r matches Some((x, y)) && x@ == n && y@ == m,
            None => r is None,
        },
{
    match k {
        RuleKind::Contains => Some(("contains", " field must contain ")),
        RuleKind::DoesntContain => Some(("doesnt_contain", " field must not contain ")),
        RuleKind::DoesntStartWith => Some(("doesnt_start_with", " field must not start with ")),
        RuleKind::DoesntEndWith => Some(("doesnt_end_with", " field must not end with ")),
        RuleKind::StartsWith => Some(("starts_with", " field must start with ")),
        RuleKind::EndsWith => Some(("ends_with", " field must end with ")),
        RuleKind::DateEquals => Some(("date_equals", " field must be equal to ")),
        RuleKind::Before => Some(("before", " field must be a date before ")),
        RuleKind::After => Some(("after", " field must be a date after ")),
        RuleKind::BeforeOrEqual => Some(("before_or_equal", " field must be a date before or equal to ")),
        RuleKind::AfterOrEqual => Some(("after_or_equal", " field must be a date after or equal to ")),
        _ => None,
    }
}

/// The test of a text rule with one value.
fn valued_test_of(k: RuleKind, v: String) -> (r: TextTest)
    requires
        valued_text(k) is Some,
    ensures
        r@ == valued_test(k, v@),
{
    match k {
        RuleKind::Contains => TextTest::Contains(v),
        RuleKind::DoesntContain => TextTest::DoesntContain(v),
        RuleKind::DoesntStartWith => TextTest::DoesntStartWith(v),
        RuleKind::DoesntEndWith => TextTest::DoesntEndWith(v),
        RuleKind::StartsWith => TextTest::StartsWith(v),
        RuleKind::EndsWith => TextTest::EndsWith(v),
        RuleKind::DateEquals => TextTest::DateEquals(v),
        RuleKind::Before => TextTest::Before(v),
        RuleKind::After => TextTest::After(v),
        RuleKind::BeforeOrEqual => TextTest::BeforeOrEqual(v),
        RuleKind::AfterOrEqual => TextTest::AfterOrEqual(v),
        _ => TextTest::Anything,
    }
}

/// The ordering rules: their relation, name and the middle of their default message.
pub open spec fn compare_rule(k: RuleKind) -> Option<(Relation, Seq<char>, Seq<char>)> {
    match k {
        RuleKind::Gt => Some((Relation::Greater, "gt"@, " field must be greater than "@)),
        RuleKind::Gte => Some((Relation::GreaterOrEqual, "gte"@, " field must be greater than or equal to "@)),
        RuleKind::Lt => Some((Relation::Less, "lt"@, " field must be less than "@)),
        RuleKind::Lte => Some((Relation::LessOrEqual, "lte"@, " field must be less than or equal to "@)),
        _ => None,
    }
}

/// The ordering rules.
fn compare_rule_of(k: RuleKind) -> (r: Option<(Relation, &'static str, &'static str)>)
    ensures
        match compare_rule(k) {
            Some((rel, n, m)) => r matches Some((a, x, y)) && a == rel && x@ == n && y@ == m,
            None => r is None,
        },
{
    match k {
        RuleKind::Gt => Some((Relation::Greater, "gt", " field must be greater than ")),
        RuleKind::Gte => Some((Relation::GreaterOrEqual, "gte", " field must be greater than or equal to ")),
        RuleKind::Lt => Some((Relation::Less, "lt", " field must be less than ")),
        RuleKind::Lte => Some((Relation::LessOrEqual, "lte", " field must be less than or equal to ")),
        _ => None,
    }
}


/// The single value of a rule: `rule = v` or `rule(value = v)`.
pub open spec fn single_value(p: ParamsM, rname: Seq<char>) -> Result<Seq<char>, Seq<char>> {
    match p {
        ParamsM::Value(v) => Ok(v),
        ParamsM::Named(ps) => match param_lookup(ps, "value"@) {
            Some(v) => Ok(v),
            None => Err(rname + " requires a value"@),
        },
        _ => Err(rname + " requires a value"@),
    }
}

/// The `field` and `value` parameters of a conditional rule.
pub open spec fn field_value_params(p: ParamsM, rname: Seq<char>) -> Result<(Seq<char>, Seq<char>), Seq<char>> {
    match p {
        ParamsM::Named(ps) => match param_lookup(ps, "field"@) {
            None => Err(rname + " requires field"@),
            Some(f) => match param_lookup(ps, "value"@) {
                None => Err(rname + " requires value"@),
                Some(v) => Ok((f, v)),
            },
        },
        _ => Err(rname + " requires field and value"@),
    }
}

/// The `min` and `max` parameters of a range rule.
pub open spec fn min_max_params(p: ParamsM, rname: Seq<char>) -> Result<(Seq<char>, Seq<char>), Seq<char>> {
    match p {
        ParamsM::Named(ps) => match param_lookup(ps, "min"@) {
            None => Err(rname + " requires min"@),
            Some(a) => match param_lookup(ps, "max"@) {
                None => Err(rname + " requires max"@),
                Some(b) => Ok((a, b)),
            },
        },
        _ => Err(rname + " requires min and max"@),
    }
}

/// The pattern of a regex rule: `rule = p` or `rule(pattern = p)`.
pub open spec fn pattern_param(p: ParamsM, rname: Seq<char>) -> Result<Seq<char>, Seq<char>> {
    match p {
        ParamsM::Value(v) => Ok(v),
        ParamsM::Named(ps) => match param_lookup(ps, "pattern"@) {
            Some(v) => Ok(v),
            None => Err(rname + " requires a pattern"@),
        },
        _ => Err(rname + " requires a pattern"@),
    }
}

/// A compiled rule with the rule's message (or `default`).
pub open spec fn rule_result(r: FieldRuleM, check: CheckM, default: Seq<char>) -> Result<RuleM, Seq<char>> {
    Ok(RuleM { rule: r.name, message: message_for(r, default), check })
}

/// The name `min`, `max` or `size` of a size rule.
pub open spec fn size_name(k: RuleKind) -> Seq<char> {
    match k {
        RuleKind::Min => "min"@,
        RuleKind::Max => "max"@,
        _ => "size"@,
    }
}

/// The middle of a size rule's message on a number or a text.
pub open spec fn size_mid(k: RuleKind) -> Seq<char> {
    match k {
        RuleKind::Min => " field must be at least "@,
        RuleKind::Max => " field must not exceed "@,
        _ => " field must be exactly "@,
    }
}

/// The middle of a size rule's message on a list.
pub open spec fn count_mid(k: RuleKind) -> Seq<char> {
    match k {
        RuleKind::Min => " field must have at least "@,
        RuleKind::Max => " field must not have more than "@,
        _ => " field must have exactly "@,
    }
}

/// The error of a size rule whose list bound does not read.
pub open spec fn count_error(k: RuleKind) -> Seq<char> {
    match k {
        RuleKind::Min => "min must be an integer for Vec"@,
        RuleKind::Max => "max must be an integer for Vec"@,
        _ => "size must be integer for Vec"@,
    }
}

/// The bound of a size rule on a number.
pub open spec fn num_test(k: RuleKind, n: Bound) -> NumTest {
    match k {
        RuleKind::Min => NumTest::AtLeast(n),
        RuleKind::Max => NumTest::AtMost(n),
        _ => NumTest::Exactly(n),
    }
}

/// The bound of a size rule on a list.
pub open spec fn count_test(k: RuleKind, n: usize) -> CountTest {
    match k {
        RuleKind::Min => CountTest::AtLeast(n),
        RuleKind::Max => CountTest::AtMost(n),
        _ => CountTest::Exactly(n),
    }
}

/// The bound of a size rule on a text.
pub open spec fn length_test(k: RuleKind, n: usize) -> TextTestM {
    match k {
        RuleKind::Min => TextTestM::MinLength(n),
        RuleKind::Max => TextTestM::MaxLength(n),
        _ => TextTestM::ExactLength(n),
    }
}

/// A size rule (`min`, `max`, `size`): by value for numbers, by items for
/// lists, by characters for text.
pub open spec fn size_rule(k: RuleKind, r: FieldRuleM, f: FieldInfoM, d: Seq<char>) -> Result<RuleM, Seq<char>> {
    let rn = size_name(k);
    match single_value(r.params, rn) {
        Err(e) => Err(e),
        Ok(v) => match field_kind(f) {
            FieldKind::Integer | FieldKind::Float => match number_bound(f, v) {
                None => Err(rn + " value must be a number"@),
                Some(n) => rule_result(r, CheckM::Number(num_test(k, n)), "The "@ + d + size_mid(k) + v + "."@),
            },
            FieldKind::List => match usize_literal(v) {
                None => Err(count_error(k)),
                Some(n) => rule_result(r, CheckM::Count(count_test(k, n)), "The "@ + d + count_mid(k) + v + " items."@),
            },
            _ => match usize_literal(v) {
                None => Err(rn + " must be a number"@),
                Some(n) => rule_result(
                    r,
                    CheckM::Text(CondM::Always, length_test(k, n)),
                    "The "@ + d + size_mid(k) + v + " characters."@,
                ),
            },
        },
    }
}

/// The `between` rule.
pub open spec fn between_rule(r: FieldRuleM, f: FieldInfoM, d: Seq<char>) -> Result<RuleM, Seq<char>> {
    match min_max_params(r.params, "between"@) {
        Err(e) => Err(e),
        Ok((a, b)) => match field_kind(f) {
            FieldKind::Integer | FieldKind::Float => match (number_bound(f, a), number_bound(f, b)) {
                (None, _) => Err("between min must be a number"@),
                (_, None) => Err("between max must be a number"@),
                (Some(x), Some(y)) => rule_result(
                    r,
                    CheckM::Number(NumTest::Between(x, y)),
                    "The "@ + d + " field must be between "@ + a + " and "@ + b + "."@,
                ),
            },
            FieldKind::List => match (usize_literal(a), usize_literal(b)) {
                (None, _) => Err("between min must be integer for Vec"@),
                (_, None) => Err("between max must be integer for Vec"@),
                (Some(x), Some(y)) => rule_result(
                    r,
                    CheckM::Count(CountTest::Between(x, y)),
                    "The "@ + d + " field must have between "@ + a + " and "@ + b + " items."@,
                ),
            },
            _ => match (usize_literal(a), usize_literal(b)) {
                (None, _) => Err("between min must be integer"@),
                (_, None) => Err("between max must be integer"@),
                (Some(x), Some(y)) => rule_result(
                    r,
                    CheckM::Text(CondM::Always, TextTestM::BetweenLength(x, y)),
                    "The "@ + d + " field must be between "@ + a + " and "@ + b + " characters."@,
                ),
            },
        },
    }
}

/// The `decimal` rule: `decimal = n` or `decimal(min = a, max = b)`.
pub open spec fn decimal_rule(r: FieldRuleM, d: Seq<char>) -> Result<RuleM, Seq<char>> {
    let params: Result<(Seq<char>, Option<Seq<char>>), Seq<char>> = match r.params {
        ParamsM::Value(v) => Ok((v, None)),
        ParamsM::Named(ps) => match param_lookup(ps, "min"@) {
            None => Err("decimal requires min"@),
            Some(a) => Ok((a, param_lookup(ps, "max"@))),
        },
        _ => Err("decimal requires parameters"@),
    };
    match params {
        Err(e) => Err(e),
        Ok((a, mb)) => match usize_literal(a) {
            None => Err("decimal min must be integer"@),
            Some(x) => match mb {
                None => rule_result(
                    r,
                    CheckM::Text(CondM::Always, TextTestM::Decimal(x, None)),
                    "The "@ + d + " field must have "@ + a + " decimal places."@,
                ),
                Some(b) => match usize_literal(b) {
                    None => Err("decimal max must be integer"@),
                    Some(y) => rule_result(
                        r,
                        CheckM::Text(CondM::Always, TextTestM::Decimal(x, Some(y))),
                        "The "@ + d + " field must have between "@ + a + " and "@ + b + " decimal places."@,
                    ),
                },
            },
        },
    }
}

/// The positions of the fields named in `l`.
pub open spec fn indices_of(names: Seq<Seq<char>>, l: Seq<Seq<char>>) -> Seq<Option<usize>> {
    l.map_values(|n: Seq<char>| index_of_name(names, n))
}

/// The conditional rules (`required_if`, `prohibited_unless`, ...): their
/// name, and whether the other field must equal the value (else differ).
pub open spec fn conditional_rule(k: RuleKind) -> Option<(Seq<char>, bool)> {
    match k {
        RuleKind::RequiredIf => Some(("required_if"@, true)),
        RuleKind::RequiredUnless => Some(("required_unless"@, false)),
        RuleKind::ProhibitedIf => Some(("prohibited_if"@, true)),
        RuleKind::ProhibitedUnless => Some(("prohibited_unless"@, false)),
        RuleKind::AcceptedIf => Some(("accepted_if"@, true)),
        RuleKind::DeclinedIf => Some(("declined_if"@, true)),
        _ => None,
    }
}

/// The check and default message of a conditional rule under `cond`.
pub open spec fn conditional_check(k: RuleKind, cond: CondM, d: Seq<char>) -> (CheckM, Seq<char>) {
    match k {
        RuleKind::RequiredIf | RuleKind::RequiredUnless => (CheckM::Presence(cond), "The "@ + d + " field is required."@),
        RuleKind::ProhibitedIf | RuleKind::ProhibitedUnless => (CheckM::Prohibited(cond), "The "@ + d + " field is prohibited."@),
        RuleKind::AcceptedIf => (CheckM::Text(cond, TextTestM::Accepted), "The "@ + d + " field must be accepted."@),
        _ => (CheckM::Text(cond, TextTestM::Declined), "The "@ + d + " field must be declined."@),
    }
}

/// The rules not covered by the tables above, on a named struct field.
pub open spec fn other_struct_rule(k: RuleKind, r: FieldRuleM, f: FieldInfoM, d: Seq<char>, names: Seq<Seq<char>>) -> Result<RuleM, Seq<char>> {
    match k {
        RuleKind::Required => rule_result(r, CheckM::Presence(CondM::Always), "The "@ + d + " field is required."@),
        RuleKind::Prohibited => rule_result(r, CheckM::Prohibited(CondM::Always), "The "@ + d + " field is prohibited."@),
        RuleKind::RequiredWith => match r.params {
            ParamsM::Value(o) => rule_result(r, CheckM::Presence(CondM::Filled(index_of_name(names, o))), "The "@ + d + " field is required."@),
            _ => Err("required_with requires a field name"@),
        },
        RuleKind::RequiredWithout => match r.params {
            ParamsM::Value(o) => rule_result(r, CheckM::Presence(CondM::Blank(index_of_name(names, o))), "The "@ + d + " field is required."@),
            _ => Err("required_without requires a field name"@),
        },
        RuleKind::RequiredWithAll => match r.params {
            ParamsM::List(l) => if l.len() > 0 {
                rule_result(r, CheckM::Presence(CondM::AllFilled(indices_of(names, l))), "The "@ + d + " field is required."@)
            } else {
                Err("required_with_all requires a list of field names"@)
            },
            _ => Err("required_with_all requires a list of field names"@),
        },
        RuleKind::RequiredWithoutAll => match r.params {
            ParamsM::List(l) => if l.len() > 0 {
                rule_result(r, CheckM::Presence(CondM::AllBlank(indices_of(names, l))), "The "@ + d + " field is required."@)
            } else {
                Err("required_without_all requires a list of field names"@)
            },
            _ => Err("required_without_all requires a list of field names"@),
        },
        RuleKind::Same => match r.params {
            ParamsM::Value(o) => rule_result(
                r,
                CheckM::Compare(Relation::Same, index_of_name(names, o)),
                "The "@ + d + " field must match "@ + spaced(o) + "."@,
            ),
            _ => Err("same requires a field name"@),
        },
        RuleKind::Different => match r.params {
            ParamsM::Value(o) => rule_result(
                r,
                CheckM::Compare(Relation::Different, index_of_name(names, o)),
                "The "@ + d + " field must be different from "@ + spaced(o) + "."@,
            ),
            _ => Err("different requires a field name"@),
        },
        RuleKind::Confirmed => rule_result(
            r,
            CheckM::Compare(Relation::Same, index_of_name(names, f.name + "_confirmation"@)),
            "The "@ + d + " confirmation does not match."@,
        ),
        RuleKind::InArray => match single_value(r.params, "in_array"@) {
            Err(e) => Err(e),
            Ok(o) => rule_result(r, CheckM::InArray(index_of_name(names, o)), "The "@ + d + " field must exist in "@ + spaced(o) + "."@),
        },
        RuleKind::Distinct => rule_result(r, CheckM::Distinct, "The "@ + d + " field must not have duplicate values."@),
        RuleKind::Regex => match pattern_param(r.params, "regex"@) {
            Err(e) => Err(e),
            Ok(p) => rule_result(r, CheckM::Text(CondM::Always, TextTestM::Regex(p)), "The "@ + d + " format is invalid."@),
        },
        RuleKind::NotRegex => match pattern_param(r.params, "not_regex"@) {
            Err(e) => Err(e),
            Ok(p) => rule_result(r, CheckM::Text(CondM::Always, TextTestM::NotRegex(p)), "The "@ + d + " format is invalid."@),
        },
        RuleKind::InList => match r.params {
            ParamsM::List(l) => rule_result(r, CheckM::Text(CondM::Always, TextTestM::InList(l)), "The selected "@ + d + " is invalid."@),
            _ => Err("in_list requires a list of values"@),
        },
        RuleKind::NotIn => match r.params {
            ParamsM::List(l) => rule_result(r, CheckM::Text(CondM::Always, TextTestM::NotIn(l)), "The selected "@ + d + " is invalid."@),
            _ => Err("not_in requires a list of values"@),
        },
        RuleKind::Min | RuleKind::Max | RuleKind::Size => size_rule(k, r, f, d),
        RuleKind::Between => between_rule(r, f, d),
        RuleKind::Digits => match single_value(r.params, "digits"@) {
            Err(e) => Err(e),
            Ok(v) => match usize_literal(v) {
                None => Err("digits value must be a positive integer"@),
                Some(n) => rule_result(r, CheckM::Text(CondM::Always, TextTestM::Digits(n)), "The "@ + d + " field must be "@ + v + " digits."@),
            },
        },
        RuleKind::DigitsBetween => match min_max_params(r.params, "digits_between"@) {
            Err(e) => Err(e),
            Ok((a, b)) => match (usize_literal(a), usize_literal(b)) {
                (None, _) => Err("digits_between min must be integer"@),
                (_, None) => Err("digits_between max must be integer"@),
                (Some(x), Some(y)) => rule_result(
                    r,
                    CheckM::Text(CondM::Always, TextTestM::DigitsBetween(x, y)),
                    "The "@ + d + " field must be between "@ + a + " and "@ + b + " digits."@,
                ),
            },
        },
        RuleKind::MultipleOf => match single_value(r.params, "multiple_of"@) {
            Err(e) => Err(e),
            Ok(v) => if spec_is_numeric(v) {
                rule_result(r, CheckM::Text(CondM::Always, TextTestM::MultipleOf(v)), "The "@ + d + " field must be a multiple of "@ + v + "."@)
            } else {
                Err("multiple_of value must be a number"@)
            },
        },
        RuleKind::Decimal => decimal_rule(r, d),
        RuleKind::Nested | RuleKind::Dive => rule_result(r, CheckM::Nested, Seq::empty()),
        RuleKind::Custom => match r.params {
            ParamsM::Value(v) => rule_result(r, CheckM::Custom(v), Seq::empty()),
            _ => Err("custom requires a function name"@),
        },
        _ => rule_result(r, CheckM::Nothing, Seq::empty()),
    }
}

/// The compiled form of rule `r` on field `f` of a named struct whose fields
/// are `fields`, with display name `d`.
pub open spec fn struct_rule(r: FieldRuleM, f: FieldInfoM, d: Seq<char>, fields: Seq<FieldInfoM>) -> Result<RuleM, Seq<char>> {
    let names = field_names(fields);
    match rule_kind(r.name) {
        None => Err("unknown validation rule: "@ + r.name),
        Some(k) => match simple_text(k) {
            Some((t, m)) => rule_result(r, CheckM::Text(CondM::Always, t), "The "@ + d + m),
            None => match valued_text(k) {
                Some((rn, mid)) => match single_value(r.params, rn) {
                    Err(e) => Err(e),
                    Ok(v) => rule_result(r, CheckM::Text(CondM::Always, valued_test(k, v)), "The "@ + d + mid + v + "."@),
                },
                None => match compare_rule(k) {
                    Some((rel, rn, mid)) => match single_value(r.params, rn) {
                        Err(e) => Err(e),
                        Ok(o) => rule_result(r, CheckM::Compare(rel, index_of_name(names, o)), "The "@ + d + mid + spaced(o) + "."@),
                    },
                    None => match conditional_rule(k) {
                        Some((rn, eq)) => match field_value_params(r.params, rn) {
                            Err(e) => Err(e),
                            Ok((cf, cv)) => {
                                let i = index_of_name(names, cf);
                                let cond = if eq { CondM::Equals(i, cv) } else { CondM::NotEquals(i, cv) };
                                let (c, m) = conditional_check(k, cond, d);
                                rule_result(r, c, m)
                            },
                        },
                        None => other_struct_rule(k, r, f, d, names),
                    },
                },
            },
        },
    }
}

/// The model of a text result.
pub open spec fn str_result(r: Result<String, String>) -> Result<Seq<char>, Seq<char>> {
    match r {
        Ok(v) => Ok(v@),
        Err(e) => Err(e@),
    }
}

/// The model of a pair-of-texts result.
pub open spec fn pair_result(r: Result<(String, String), String>) -> Result<(Seq<char>, Seq<char>), Seq<char>> {
    match r {
        Ok((a, b)) => Ok((a@, b@)),
        Err(e) => Err(e@),
    }
}

/// The model of a compiled-rule result.
pub open spec fn rule_view(r: Result<CompiledRule, String>) -> Result<RuleM, Seq<char>> {
    match r {
        Ok(c) => Ok(c@),
        Err(e) => Err(e@),
    }
}

/// `a` followed by `b`.
fn cat2(a: &str, b: &str) -> (r: String)
    ensures
        r@ == a@ + b@,
{
    let mut s = a.to_string();
    s.append(b);
    s
}

/// Seven texts one after the other.
fn cat7(a: &str, b: &str, c: &str, d: &str, e: &str, f: &str, g: &str) -> (r: String)
    ensures
        r@ == a@ + b@ + c@ + d@ + e@ + f@ + g@,
{
    let mut s = cat5(a, b, c, d, e);
    s.append(f);
    s.append(g);
    s
}

/// The single value of a rule.
fn single_value_of(p: &RuleParams, rname: &str) -> (r: Result<String, String>)
    ensures
        str_result(r) == single_value(p@, rname@),
{
    match p {
        RuleParams::Value(v) => Ok(v.clone()),
        RuleParams::Named(ps) => match lookup_param(ps, "value") {
            Some(v) => Ok(v),
            None => Err(cat2(rname, " requires a value")),
        },
        _ => Err(cat2(rname, " requires a value")),
    }
}

/// The `field` and `value` parameters of a conditional rule.
fn field_value_params_of(p: &RuleParams, rname: &str) -> (r: Result<(String, String), String>)
    ensures
        pair_result(r) == field_value_params(p@, rname@),
{
    match p {
        RuleParams::Named(ps) => match lookup_param(ps, "field") {
            None => Err(cat2(rname, " requires field")),
            Some(f) => match lookup_param(ps, "value") {
                None => Err(cat2(rname, " requires value")),
                Some(v) => Ok((f, v)),
            },
        },
        _ => Err(cat2(rname, " requires field and value")),
    }
}

/// The `min` and `max` parameters of a range rule.
fn min_max_params_of(p: &RuleParams, rname: &str) -> (r: Result<(String, String), String>)
    ensures
        pair_result(r) == min_max_params(p@, rname@),
{
    match p {
        RuleParams::Named(ps) => match lookup_param(ps, "min") {
            None => Err(cat2(rname, " requires min")),
            Some(a) => match lookup_param(ps, "max") {
                None => Err(cat2(rname, " requires max")),
                Some(b) => Ok((a, b)),
            },
        },
        _ => Err(cat2(rname, " requires min and max")),
    }
}

/// The pattern of a regex rule.
fn pattern_param_of(p: &RuleParams, rname: &str) -> (r: Result<String, String>)
    ensures
        str_result(r) == pattern_param(p@, rname@),
{
    match p {
        RuleParams::Value(v) => Ok(v.clone()),
        RuleParams::Named(ps) => match lookup_param(ps, "pattern") {
            Some(v) => Ok(v),
            None => Err(cat2(rname, " requires a pattern")),
        },
        _ => Err(cat2(rname, " requires a pattern")),
    }
}

/// A compiled rule with the rule's message (or `default`).
fn make_rule(r: &FieldRule, check: Check, default: String) -> (out: Result<CompiledRule, String>)
    ensures
        rule_view(out) == rule_result(r@, check@, default@),
{
    Ok(CompiledRule { rule: r.name.clone(), message: message_or(r, default), check })
}

/// The `size_name` of a size rule.
fn size_name_of(k: RuleKind) -> (r: &'static str)
    ensures
        r@ == size_name(k),
{
    match k {
        RuleKind::Min => "min",
        RuleKind::Max => "max",
        _ => "size",
    }
}

/// The `size_mid` of a size rule.
fn size_mid_of(k: RuleKind) -> (r: &'static str)
    ensures
        r@ == size_mid(k),
{
    match k {
        RuleKind::Min => " field must be at least ",
        RuleKind::Max => " field must not exceed ",
        _ => " field must be exactly ",
    }
}

/// The `count_mid` of a size rule.
fn count_mid_of(k: RuleKind) -> (r: &'static str)
    ensures
        r@ == count_mid(k),
{
    match k {
        RuleKind::Min => " field must have at least ",
        RuleKind::Max => " field must not have more than ",
        _ => " field must have exactly ",
    }
}

/// The `count_error` of a size rule.
fn count_error_of(k: RuleKind) -> (r: &'static str)
    ensures
        r@ == count_error(k),
{
    match k {
        RuleKind::Min => "min must be an integer for Vec",
        RuleKind::Max => "max must be an integer for Vec",
        _ => "size must be integer for Vec",
    }
}

/// A size rule (`min`, `max`, `size`).
fn size_rule_of(k: RuleKind, r: &FieldRule, f: &FieldInfo, d: &str) -> (out: Result<CompiledRule, String>)
    ensures
        rule_view(out) == size_rule(k, r@, f@, d@),
{
    let rn = size_name_of(k);
    let v = match single_value_of(&r.params, rn) {
        Err(e) => {
            return Err(e);
        },
        Ok(v) => v,
    };
    match field_kind_of(f) {
        FieldKind::Integer | FieldKind::Float => match number_bound_of(f, v.as_str()) {
            None => Err(cat2(rn, " value must be a number")),
            Some(n) => {
                let t = match k {
                    RuleKind::Min => NumTest::AtLeast(n),
                    RuleKind::Max => NumTest::AtMost(n),
                    _ => NumTest::Exactly(n),
                };
                make_rule(r, Check::Number(t), cat5("The ", d, size_mid_of(k), v.as_str(), "."))
            },
        },
        FieldKind::List => match parse_usize(v.as_str()) {
            None => Err(count_error_of(k).to_string()),
            Some(n) => {
                let t = match k {
                    RuleKind::Min => CountTest::AtLeast(n),
                    RuleKind::Max => CountTest::AtMost(n),
                    _ => CountTest::Exactly(n),
                };
                make_rule(r, Check::Count(t), cat5("The ", d, count_mid_of(k), v.as_str(), " items."))
            },
        },
        _ => match parse_usize(v.as_str()) {
            None => Err(cat2(rn, " must be a number")),
            Some(n) => {
                let t = match k {
                    RuleKind::Min => TextTest::MinLength(n),
                    RuleKind::Max => TextTest::MaxLength(n),
                    _ => TextTest::ExactLength(n),
                };
                make_rule(r, Check::Text(Cond::Always, t), cat5("The ", d, size_mid_of(k), v.as_str(), " characters."))
            },
        },
    }
}

/// The `between` rule.
fn between_rule_of(r: &FieldRule, f: &FieldInfo, d: &str) -> (out: Result<CompiledRule, String>)
    ensures
        rule_view(out) == between_rule(r@, f@, d@),
{
    let (a, b) = match min_max_params_of(&r.params, "between") {
        Err(e) => {
            return Err(e);
        },
        Ok(p) => p,
    };
    match field_kind_of(f) {
        FieldKind::Integer | FieldKind::Float => {
            let x = match number_bound_of(f, a.as_str()) {
                None => {
                    return Err("between min must be a number".to_string());
                },
                Some(x) => x,
            };
            let y = match number_bound_of(f, b.as_str()) {
                None => {
                    return Err("between max must be a number".to_string());
                },
                Some(y) => y,
            };
            make_rule(
                r,
                Check::Number(NumTest::Between(x, y)),
                cat7("The ", d, " field must be between ", a.as_str(), " and ", b.as_str(), "."),
            )
        },
        FieldKind::List => {
            let x = match parse_usize(a.as_str()) {
                None => {
                    return Err("between min must be integer for Vec".to_string());
                },
                Some(x) => x,
            };
            let y = match parse_usize(b.as_str()) {
                None => {
                    return Err("between max must be integer for Vec".to_string());
                },
                Some(y) => y,
            };
            make_rule(
                r,
                Check::Count(CountTest::Between(x, y)),
                cat7("The ", d, " field must have between ", a.as_str(), " and ", b.as_str(), " items."),
            )
        },
        _ => {
            let x = match parse_usize(a.as_str()) {
                None => {
                    return Err("between min must be integer".to_string());
                },
                Some(x) => x,
            };
            let y = match parse_usize(b.as_str()) {
                None => {
                    return Err("between max must be integer".to_string());
                },
                Some(y) => y,
            };
            make_rule(
                r,
                Check::Text(Cond::Always, TextTest::BetweenLength(x, y)),
                cat7("The ", d, " field must be between ", a.as_str(), " and ", b.as_str(), " characters."),
            )
        },
    }
}

/// The `decimal` rule.
fn decimal_rule_of(r: &FieldRule, d: &str) -> (out: Result<CompiledRule, String>)
    ensures
        rule_view(out) == decimal_rule(r@, d@),
{
    let (a, mb): (String, Option<String>) = match &r.params {
        RuleParams::Value(v) => (v.clone(), None),
        RuleParams::Named(ps) => match lookup_param(ps, "min") {
            None => {
                return Err("decimal requires min".to_string());
            },
            Some(a) => (a, lookup_param(ps, "max")),
        },
        _ => {
            return Err("decimal requires parameters".to_string());
        },
    };
    let x = match parse_usize(a.as_str()) {
        None => {
            return Err("decimal min must be integer".to_string());
        },
        Some(x) => x,
    };
    match mb {
        None => make_rule(
            r,
            Check::Text(Cond::Always, TextTest::Decimal(x, None)),
            cat5("The ", d, " field must have ", a.as_str(), " decimal places."),
        ),
        Some(b) => match parse_usize(b.as_str()) {
            None => Err("decimal max must be integer".to_string()),
            Some(y) => make_rule(
                r,
                Check::Text(Cond::Always, TextTest::Decimal(x, Some(y))),
                cat7("The ", d, " field must have between ", a.as_str(), " and ", b.as_str(), " decimal places."),
            ),
        },
    }
}

/// The positions of the fields named in `l`.
fn indices_of_fields(fields: &Vec<FieldInfo>, l: &Vec<String>) -> (r: Vec<Option<usize>>)
    ensures
        r@ == indices_of(field_names(fields_model(fields@)), strings_model(l@)),
{
    let ghost names = field_names(fields_model(fields@));
    let mut out: Vec<Option<usize>> = Vec::new();
    let mut i: usize = 0;
    while i < l.len()
        invariant
            i <= l@.len(),
            names == field_names(fields_model(fields@)),
            out@ == indices_of(names, strings_model(l@)).take(i as int),
        decreases l@.len() - i,
    {
        let j = field_index(fields, l[i].as_str());
        out.push(j);
        assert(out@ =~= indices_of(names, strings_model(l@)).take(i + 1));
        i = i + 1;
    }
    assert(indices_of(names, strings_model(l@)).take(i as int) =~= indices_of(names, strings_model(l@)));
    out
}

/// The rules not covered by the tables, on a named struct field.
fn other_struct_rule_of(k: RuleKind, r: &FieldRule, f: &FieldInfo, d: &str, fields: &Vec<FieldInfo>) -> (out: Result<CompiledRule, String>)
    ensures
        rule_view(out) == other_struct_rule(k, r@, f@, d@, field_names(fields_model(fields@))),
{
    match k {
        RuleKind::Required => make_rule(r, Check::Presence(Cond::Always), cat3("The ", d, " field is required.")),
        RuleKind::Prohibited => make_rule(r, Check::Prohibited(Cond::Always), cat3("The ", d, " field is prohibited.")),
        RuleKind::RequiredWith => match &r.params {
            RuleParams::Value(o) => make_rule(r, Check::Presence(Cond::Filled(field_index(fields, o.as_str()))), cat3("The ", d, " field is required.")),
            _ => Err("required_with requires a field name".to_string()),
        },
        RuleKind::RequiredWithout => match &r.params {
            RuleParams::Value(o) => make_rule(r, Check::Presence(Cond::Blank(field_index(fields, o.as_str()))), cat3("The ", d, " field is required.")),
            _ => Err("required_without requires a field name".to_string()),
        },
        RuleKind::RequiredWithAll => match &r.params {
            RuleParams::List(l) => if l.len() > 0 {
                make_rule(r, Check::Presence(Cond::AllFilled(indices_of_fields(fields, l))), cat3("The ", d, " field is required."))
            } else {
                Err("required_with_all requires a list of field names".to_string())
            },
            _ => Err("required_with_all requires a list of field names".to_string()),
        },
        RuleKind::RequiredWithoutAll => match &r.params {
            RuleParams::List(l) => if l.len() > 0 {
                make_rule(r, Check::Presence(Cond::AllBlank(indices_of_fields(fields, l))), cat3("The ", d, " field is required."))
            } else {
                Err("required_without_all requires a list of field names".to_string())
            },
            _ => Err("required_without_all requires a list of field names".to_string()),
        },
        RuleKind::Same => match &r.params {
            RuleParams::Value(o) => {
                let sp = spaced_string(o.as_str());
                make_rule(r, Check::Compare(Relation::Same, field_index(fields, o.as_str())), cat5("The ", d, " field must match ", sp.as_str(), "."))
            },
            _ => Err("same requires a field name".to_string()),
        },
        RuleKind::Different => match &r.params {
            RuleParams::Value(o) => {
                let sp = spaced_string(o.as_str());
                make_rule(
                    r,
                    Check::Compare(Relation::Different, field_index(fields, o.as_str())),
                    cat5("The ", d, " field must be different from ", sp.as_str(), "."),
                )
            },
            _ => Err("different requires a field name".to_string()),
        },
        RuleKind::Confirmed => {
            let c = cat2(f.name.as_str(), "_confirmation");
            make_rule(r, Check::Compare(Relation::Same, field_index(fields, c.as_str())), cat3("The ", d, " confirmation does not match."))
        },
        RuleKind::InArray => match single_value_of(&r.params, "in_array") {
            Err(e) => Err(e),
            Ok(o) => {
                let sp = spaced_string(o.as_str());
                make_rule(r, Check::InArray(field_index(fields, o.as_str())), cat5("The ", d, " field must exist in ", sp.as_str(), "."))
            },
        },
        RuleKind::Distinct => make_rule(r, Check::Distinct, cat3("The ", d, " field must not have duplicate values.")),
        RuleKind::Regex => match pattern_param_of(&r.params, "regex") {
            Err(e) => Err(e),
            Ok(p) => make_rule(r, Check::Text(Cond::Always, TextTest::Regex(p)), cat3("The ", d, " format is invalid.")),
        },
        RuleKind::NotRegex => match pattern_param_of(&r.params, "not_regex") {
            Err(e) => Err(e),
            Ok(p) => make_rule(r, Check::Text(Cond::Always, TextTest::NotRegex(p)), cat3("The ", d, " format is invalid.")),
        },
        RuleKind::InList => match &r.params {
            RuleParams::List(l) => make_rule(r, Check::Text(Cond::Always, TextTest::InList(l.clone())), cat3("The selected ", d, " is invalid.")),
            _ => Err("in_list requires a list of values".to_string()),
        },
        RuleKind::NotIn => match &r.params {
            RuleParams::List(l) => make_rule(r, Check::Text(Cond::Always, TextTest::NotIn(l.clone())), cat3("The selected ", d, " is invalid.")),
            _ => Err("not_in requires a list of values".to_string()),
        },
        RuleKind::Min | RuleKind::Max | RuleKind::Size => size_rule_of(k, r, f, d),
        RuleKind::Between => between_rule_of(r, f, d),
        RuleKind::Digits => match single_value_of(&r.params, "digits") {
            Err(e) => Err(e),
            Ok(v) => match parse_usize(v.as_str()) {
                None => Err("digits value must be a positive integer".to_string()),
                Some(n) => make_rule(r, Check::Text(Cond::Always, TextTest::Digits(n)), cat5("The ", d, " field must be ", v.as_str(), " digits.")),
            },
        },
        RuleKind::DigitsBetween => match min_max_params_of(&r.params, "digits_between") {
            Err(e) => Err(e),
            Ok((a, b)) => {
                let x = match parse_usize(a.as_str()) {
                    None => {
                        return Err("digits_between min must be integer".to_string());
                    },
                    Some(x) => x,
                };
                let y = match parse_usize(b.as_str()) {
                    None => {
                        return Err("digits_between max must be integer".to_string());
                    },
                    Some(y) => y,
                };
                make_rule(
                    r,
                    Check::Text(Cond::Always, TextTest::DigitsBetween(x, y)),
                    cat7("The ", d, " field must be between ", a.as_str(), " and ", b.as_str(), " digits."),
                )
            },
        },
        RuleKind::MultipleOf => match single_value_of(&r.params, "multiple_of") {
            Err(e) => Err(e),
            Ok(v) => if is_numeric(v.as_str()) {
                let m = cat5("The ", d, " field must be a multiple of ", v.as_str(), ".");
                make_rule(r, Check::Text(Cond::Always, TextTest::MultipleOf(v)), m)
            } else {
                Err("multiple_of value must be a number".to_string())
            },
        },
        RuleKind::Decimal => decimal_rule_of(r, d),
        RuleKind::Nested | RuleKind::Dive => make_rule(r, Check::Nested, String::new()),
        RuleKind::Custom => match &r.params {
            RuleParams::Value(v) => make_rule(r, Check::Custom(v.clone()), String::new()),
            _ => Err("custom requires a function name".to_string()),
        },
        _ => make_rule(r, Check::Nothing, String::new()),
    }
}

/// The conditional rules.
fn conditional_rule_of(k: RuleKind) -> (r: Option<(&'static str, bool)>)
    ensures
        match conditional_rule(k) {
            Some((n, eq)) => r matches Some((x, y)) && x@ == n && y == eq,
            None => r is None,
        },
{
    match k {
        RuleKind::RequiredIf => Some(("required_if", true)),
        RuleKind::RequiredUnless => Some(("required_unless", false)),
        RuleKind::ProhibitedIf => Some(("prohibited_if", true)),
        RuleKind::ProhibitedUnless => Some(("prohibited_unless", false)),
        RuleKind::AcceptedIf => Some(("accepted_if", true)),
        RuleKind::DeclinedIf => Some(("declined_if", true)),
        _ => None,
    }
}

/// The check and default message of a conditional rule.
fn conditional_check_of(k: RuleKind, cond: Cond, d: &str) -> (r: (Check, String))
    ensures
        conditional_check(k, cond@, d@) == (r.0@, r.1@),
{
    match k {
        RuleKind::RequiredIf | RuleKind::RequiredUnless => (Check::Presence(cond), cat3("The ", d, " field is required.")),
        RuleKind::ProhibitedIf | RuleKind::ProhibitedUnless => (Check::Prohibited(cond), cat3("The ", d, " field is prohibited.")),
        RuleKind::AcceptedIf => (Check::Text(cond, TextTest::Accepted), cat3("The ", d, " field must be accepted.")),
        _ => (Check::Text(cond, TextTest::Declined), cat3("The ", d, " field must be declined.")),
    }
}

/// Compiles rule `r` on field `f` of a named struct with fields `fields`
/// and display name `d`.
pub fn compile_struct_rule(r: &FieldRule, f: &FieldInfo, d: &str, fields: &Vec<FieldInfo>) -> (out: Result<CompiledRule, String>)
    ensures
        rule_view(out) == struct_rule(r@, f@, d@, fields_model(fields@)),
{
    let k = match rule_kind_of(r.name.as_str()) {
        None => {
            return Err(cat2("unknown validation rule: ", r.name.as_str()));
        },
        Some(k) => k,
    };
    if let Some((t, m)) = simple_text_of(k) {
        return make_rule(r, Check::Text(Cond::Always, t), cat3("The ", d, m));
    }
    if let Some((rn, mid)) = valued_text_of(k) {
        return match single_value_of(&r.params, rn) {
            Err(e) => Err(e),
            Ok(v) => {
                let m = cat5("The ", d, mid, v.as_str(), ".");
                make_rule(r, Check::Text(Cond::Always, valued_test_of(k, v)), m)
            },
        };
    }
    if let Some((rel, rn, mid)) = compare_rule_of(k) {
        return match single_value_of(&r.params, rn) {
            Err(e) => Err(e),
            Ok(o) => {
                let sp = spaced_string(o.as_str());
                make_rule(r, Check::Compare(rel, field_index(fields, o.as_str())), cat5("The ", d, mid, sp.as_str(), "."))
            },
        };
    }
    if let Some((rn, eq)) = conditional_rule_of(k) {
        return match field_value_params_of(&r.params, rn) {
            Err(e) => Err(e),
            Ok((cf, cv)) => {
                let i = field_index(fields, cf.as_str());
                let cond = if eq { Cond::Equals(i, cv) } else { Cond::NotEquals(i, cv) };
                let (c, m) = conditional_check_of(k, cond, d);
                make_rule(r, c, m)
            },
        };
    }
    other_struct_rule_of(k, r, f, d, fields)
}

/// The default message of a rule on a tuple field or an enum variant field.
pub open spec fn variant_default_message(name: Seq<char>, d: Seq<char>) -> Seq<char> {
    match rule_kind(name) {
        Some(RuleKind::Required) => "The "@ + d + " field is required."@,
        Some(RuleKind::Email) => "The "@ + d + " field must be a valid email address."@,
        Some(RuleKind::Url) => "The "@ + d + " field must be a valid URL."@,
        Some(RuleKind::Min) => "The "@ + d + " field is too small."@,
        Some(RuleKind::Max) => "The "@ + d + " field is too large."@,
        Some(RuleKind::Alpha) => "The "@ + d + " field must only contain letters."@,
        Some(RuleKind::Uuid) => "The "@ + d + " field must be a valid UUID."@,
        Some(RuleKind::Date) => "The "@ + d + " field must be a valid ISO 8601 date (YYYY-MM-DD)."@,
        _ => "The "@ + d + " field is invalid."@,
    }
}

/// The rules that read other fields of the record: they check nothing on a
/// tuple field or an enum variant field, which has no named siblings.
pub open spec fn reads_other_fields(k: RuleKind) -> bool {
    match k {
        RuleKind::Confirmed | RuleKind::Same | RuleKind::Different | RuleKind::Gt | RuleKind::Gte | RuleKind::Lt
        | RuleKind::Lte | RuleKind::RequiredIf | RuleKind::RequiredUnless | RuleKind::RequiredWith
        | RuleKind::RequiredWithout | RuleKind::RequiredWithAll | RuleKind::RequiredWithoutAll
        | RuleKind::AcceptedIf | RuleKind::DeclinedIf | RuleKind::ProhibitedIf | RuleKind::ProhibitedUnless
        | RuleKind::InArray | RuleKind::Custom => true,
        _ => false,
    }
}

/// The compiled form of rule `r` on a tuple field or an enum variant field
/// `f` with display name `d`: the check it has on a named struct field,
/// except that rules reading other fields check nothing; the default
/// message is the variant one.
pub open spec fn variant_rule(r: FieldRuleM, f: FieldInfoM, d: Seq<char>) -> Result<RuleM, Seq<char>> {
    let msg = message_for(r, variant_default_message(r.name, d));
    if rule_kind(r.name) matches Some(k) && reads_other_fields(k) {
        Ok(RuleM { rule: r.name, message: msg, check: CheckM::Nothing })
    } else {
        match struct_rule(r, f, d, Seq::empty()) {
            Err(e) => Err(e),
            Ok(c) => Ok(RuleM { rule: r.name, message: msg, check: c.check }),
        }
    }
}

/// The default message of a rule on a tuple field or an enum variant field.
fn variant_default_message_of(name: &str, d: &str) -> (r: String)
    ensures
        r@ == variant_default_message(name@, d@),
{
    match rule_kind_of(name) {
        Some(RuleKind::Required) => cat3("The ", d, " field is required."),
        Some(RuleKind::Email) => cat3("The ", d, " field must be a valid email address."),
        Some(RuleKind::Url) => cat3("The ", d, " field must be a valid URL."),
        Some(RuleKind::Min) => cat3("The ", d, " field is too small."),
        Some(RuleKind::Max) => cat3("The ", d, " field is too large."),
        Some(RuleKind::Alpha) => cat3("The ", d, " field must only contain letters."),
        Some(RuleKind::Uuid) => cat3("The ", d, " field must be a valid UUID."),
        Some(RuleKind::Date) => cat3("The ", d, " field must be a valid ISO 8601 date (YYYY-MM-DD)."),
        _ => cat3("The ", d, " field is invalid."),
    }
}

/// Does rule kind `k` read other fields of the record?
fn reads_other_fields_of(k: RuleKind) -> (r: bool)
    ensures
        r == reads_other_fields(k),
{
    match k {
        RuleKind::Confirmed | RuleKind::Same | RuleKind::Different | RuleKind::Gt | RuleKind::Gte | RuleKind::Lt
        | RuleKind::Lte | RuleKind::RequiredIf | RuleKind::RequiredUnless | RuleKind::RequiredWith
        | RuleKind::RequiredWithout | RuleKind::RequiredWithAll | RuleKind::RequiredWithoutAll
        | RuleKind::AcceptedIf | RuleKind::DeclinedIf | RuleKind::ProhibitedIf | RuleKind::ProhibitedUnless
        | RuleKind::InArray | RuleKind::Custom => true,
        _ => false,
    }
}

/// Compiles rule `r` on a tuple field or an enum variant field `f` with
/// display name `d`.
pub fn compile_variant_rule(r: &FieldRule, f: &FieldInfo, d: &str) -> (out: Result<CompiledRule, String>)
    ensures
        rule_view(out) == variant_rule(r@, f@, d@),
{
    let msg = message_or(r, variant_default_message_of(r.name.as_str(), d));
    let cross = match rule_kind_of(r.name.as_str()) {
        Some(k) => reads_other_fields_of(k),
        None => false,
    };
    let check = if cross {
        Check::Nothing
    } else {
        let none: Vec<FieldInfo> = Vec::new();
        assert(fields_model(none@) =~= Seq::<FieldInfoM>::empty());
        match compile_struct_rule(r, f, d, &none) {
            Err(e) => {
                return Err(e);
            },
            Ok(c) => c.check,
        }
    };
    Ok(CompiledRule { rule: r.name.clone(), message: msg, check })
}

/// A compiled rule keeps its name and, when the rule carries a custom
/// message, reports that message word for word in place of the default.
pub open spec fn keeps_name_and_message(r: FieldRuleM, c: RuleM) -> bool {
    &&& c.rule == r.name
    &&& r.message matches Some(msg) ==> c.message == msg
}

/// Every rule of a named struct field that compiles keeps its name, and its
/// custom message replaces the default one.
pub proof fn lemma_struct_rule_message(r: FieldRuleM, f: FieldInfoM, d: Seq<char>, fields: Seq<FieldInfoM>)
    ensures
        struct_rule(r, f, d, fields) matches Ok(c) ==> keeps_name_and_message(r, c),
{
}

/// Every rule of a tuple or variant field that compiles keeps its name, and
/// its custom message replaces the default one.
pub proof fn lemma_variant_rule_message(r: FieldRuleM, f: FieldInfoM, d: Seq<char>)
    ensures
        variant_rule(r, f, d) matches Ok(c) ==> keeps_name_and_message(r, c),
{
}

/// The check bounds from below: a value, a number of items or a length.
pub open spec fn bounds_below(c: CheckM) -> bool {
    match c {
        CheckM::Number(NumTest::AtLeast(_)) | CheckM::Count(CountTest::AtLeast(_)) | CheckM::Text(
            _,
            TextTestM::MinLength(_),
        ) => true,
        _ => false,
    }
}

/// The check bounds from above.
pub open spec fn bounds_above(c: CheckM) -> bool {
    match c {
        CheckM::Number(NumTest::AtMost(_)) | CheckM::Count(CountTest::AtMost(_)) | CheckM::Text(
            _,
            TextTestM::MaxLength(_),
        ) => true,
        _ => false,
    }
}

/// The check asks for an exact size.
pub open spec fn bounds_exactly(c: CheckM) -> bool {
    match c {
        CheckM::Number(NumTest::Exactly(_)) | CheckM::Count(CountTest::Exactly(_)) | CheckM::Text(
            _,
            TextTestM::ExactLength(_),
        ) => true,
        _ => false,
    }
}

/// The rules `min`, `max` and `size` follow the field's type: on a named struct field
/// they bound a number by value, a list by its number of items, and
/// anything else by its length; `min` from below, `max` from above, `size`
/// exactly.
pub proof fn lemma_size_rules_follow_type(r: FieldRuleM, f: FieldInfoM, d: Seq<char>, fields: Seq<FieldInfoM>)
    requires
        rule_kind(r.name) == Some(RuleKind::Min) || rule_kind(r.name) == Some(RuleKind::Max) || rule_kind(r.name)
            == Some(RuleKind::Size),
        struct_rule(r, f, d, fields) is Ok,
    ensures
        ({
            let c = struct_rule(r, f, d, fields)->Ok_0.check;
            &&& (field_kind(f) == FieldKind::Integer || field_kind(f) == FieldKind::Float) ==> c is Number
            &&& field_kind(f) == FieldKind::List ==> c is Count
            &&& (field_kind(f) == FieldKind::Text || field_kind(f) == FieldKind::Other) ==> (c is Text
                && c->Text_0 == CondM::Always)
            &&& rule_kind(r.name) == Some(RuleKind::Min) ==> bounds_below(c)
            &&& rule_kind(r.name) == Some(RuleKind::Max) ==> bounds_above(c)
            &&& rule_kind(r.name) == Some(RuleKind::Size) ==> bounds_exactly(c)
        }),
{
}

/// On a tuple field or an enum variant field a rule that reads other fields
/// checks nothing; any other rule checks just what it checks on a named
/// struct field, and fails to compile exactly when it does there.
pub proof fn lemma_variant_rule_checks(r: FieldRuleM, f: FieldInfoM, d: Seq<char>)
    ensures
        rule_kind(r.name) matches Some(k) && reads_other_fields(k) ==> (variant_rule(r, f, d) matches Ok(c)
            && c.check == CheckM::Nothing),
        !(rule_kind(r.name) matches Some(k) && reads_other_fields(k)) ==> match (
            variant_rule(r, f, d),
            struct_rule(r, f, d, Seq::empty()),
        ) {
            (Ok(a), Ok(b)) => a.check == b.check,
            (Err(x), Err(y)) => x == y,
            _ => false,
        },
{
}

} // verus!
