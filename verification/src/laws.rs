//! What the compiled rules check, stated over the rule's name and
//! parameters and the values of the record: conditional presence rules,
//! size rules on lists, texts and integers, and the format rules.
use vstd::prelude::*;
use vstd::utf8::is_ascii_chars;
use vstd::arithmetic::power2::pow2;
use crate::compile::{
    field_kind, field_names, index_of_name, indices_of, int_literal, literal_limit, min_max_params, rule_kind, struct_rule,
    usize_literal, variant_rule, FieldKind, RuleKind,
};
use crate::error::param_lookup;
use crate::plan::{CheckM, CondM, FieldPlanM};
use crate::rules::format::{
    datetime_format, datetime_fraction_format, date_format, email_ok, json_ok, naive_datetime_ok, parsed_date,
    rfc3339_ok, spec_is_hex_color, spec_is_mac_address, spec_is_ulid, spec_is_web_scheme, timezone_ok, url_scheme,
    uuid_ok,
};
use crate::rules::ip::{spec_is_ip, spec_is_ipv4, spec_is_ipv6};
use crate::rules::presence::{has_content, spec_is_accepted, spec_is_declined};
use crate::rules::string::{all_digits, lemma_digits_value_nonneg, spec_is_alpha, spec_is_alpha_dash, spec_is_alpha_num, spec_is_integer, spec_is_numeric};
use crate::schema::{FieldInfoM, FieldRuleM, ParamsM};
use crate::text::{unicode_lower, unicode_upper};
use crate::validate::{
    all_blank, all_filled, check_fails, field_present, field_set, filled_at, inner_value, other_read, Value,
};
use crate::value::ValueModel;

verus! {

/// Whether a check on a text value fails because the text does not pass
/// `ok` (a value that is not text fails no such check).
pub open spec fn text_fails(plan: FieldPlanM, v: Value, ok: spec_fn(Seq<char>) -> bool) -> bool {
    match inner_value(plan, v) {
        Some(Value::Str(s)) => !ok(s@),
        _ => false,
    }
}

/// The conditional rules on a named struct field, written with
/// `field = o, value = x`: `required_if` requires the field when `o` holds
/// the text `x`, `required_unless` when it does not; `prohibited_if` and
/// `prohibited_unless` forbid it in the same cases; `accepted_if` and
/// `declined_if` ask its text to be accepted or declined when `o` holds `x`.
pub proof fn lemma_conditional_rules(
    r: FieldRuleM,
    f: FieldInfoM,
    d: Seq<char>,
    fields: Seq<FieldInfoM>,
    ps: Seq<(Seq<char>, Seq<char>)>,
    o: Seq<char>,
    x: Seq<char>,
    plan: FieldPlanM,
    v: Value,
    plans: Seq<FieldPlanM>,
    vals: Seq<Value>,
)
    requires
        r.params == ParamsM::Named(ps),
        param_lookup(ps, "field"@) == Some(o),
        param_lookup(ps, "value"@) == Some(x),
    ensures
        ({
            let i = index_of_name(field_names(fields), o);
            let holds = other_read(i, plans, vals) == ValueModel::Str(x);
            let c = struct_rule(r, f, d, fields);
            let fails = check_fails(c->Ok_0.check, plan, v, plans, vals);
            &&& rule_kind(r.name) == Some(RuleKind::RequiredIf) ==> c is Ok && c->Ok_0.check == CheckM::Presence(
                CondM::Equals(i, x),
            ) && fails == (holds && !field_present(plan, v))
            &&& rule_kind(r.name) == Some(RuleKind::RequiredUnless) ==> c is Ok && c->Ok_0.check == CheckM::Presence(
                CondM::NotEquals(i, x),
            ) && fails == (!holds && !field_present(plan, v))
            &&& rule_kind(r.name) == Some(RuleKind::ProhibitedIf) ==> c is Ok && c->Ok_0.check == CheckM::Prohibited(
                CondM::Equals(i, x),
            ) && fails == (holds && field_set(plan, v))
            &&& rule_kind(r.name) == Some(RuleKind::ProhibitedUnless) ==> c is Ok && c->Ok_0.check
                == CheckM::Prohibited(CondM::NotEquals(i, x)) && fails == (!holds && field_set(plan, v))
            &&& rule_kind(r.name) == Some(RuleKind::AcceptedIf) ==> c is Ok && fails == (holds && text_fails(
                plan,
                v,
                |s: Seq<char>| spec_is_accepted(s),
            ))
            &&& rule_kind(r.name) == Some(RuleKind::DeclinedIf) ==> c is Ok && fails == (holds && text_fails(
                plan,
                v,
                |s: Seq<char>| spec_is_declined(s),
            ))
        }),
{
}

/// `required_with(o)` requires the field when `o` is filled and
/// `required_without(o)` when it is not; `required_with_all(l)` requires it
/// when every field of the non-empty list `l` is filled and
/// `required_without_all(l)` when none is.
pub proof fn lemma_required_with_rules(
    r: FieldRuleM,
    f: FieldInfoM,
    d: Seq<char>,
    fields: Seq<FieldInfoM>,
    plan: FieldPlanM,
    v: Value,
    plans: Seq<FieldPlanM>,
    vals: Seq<Value>,
)
    ensures
        ({
            let names = field_names(fields);
            let c = struct_rule(r, f, d, fields);
            let fails = check_fails(c->Ok_0.check, plan, v, plans, vals);
            &&& (rule_kind(r.name) == Some(RuleKind::RequiredWith) && r.params is Value) ==> c is Ok && fails == (
            filled_at(index_of_name(names, r.params->Value_0), plans, vals) && !field_present(plan, v))
            &&& (rule_kind(r.name) == Some(RuleKind::RequiredWithout) && r.params is Value) ==> c is Ok && fails == (
            !filled_at(index_of_name(names, r.params->Value_0), plans, vals) && !field_present(plan, v))
            &&& (rule_kind(r.name) == Some(RuleKind::RequiredWithAll) && r.params is List && r.params->List_0.len()
                > 0) ==> c is Ok && fails == (all_filled(indices_of(names, r.params->List_0), plans, vals)
                && !field_present(plan, v))
            &&& (rule_kind(r.name) == Some(RuleKind::RequiredWithoutAll) && r.params is List
                && r.params->List_0.len() > 0) ==> c is Ok && fails == (all_blank(
                indices_of(names, r.params->List_0),
                plans,
                vals,
            ) && !field_present(plan, v))
        }),
{
}

/// On a list field, `min = n`, `max = n`, `size = n` and
/// `between(min = a, max = b)` bound the number of items: a list of `k`
/// items fails `min` exactly when `k < n`, `max` when `k > n`, `size` when
/// `k != n`, and `between` when `k < a` or `k > b`; alike on a named struct
/// field and on a tuple or variant field.
pub proof fn lemma_list_sizes(
    r: FieldRuleM,
    f: FieldInfoM,
    d: Seq<char>,
    fields: Seq<FieldInfoM>,
    plan: FieldPlanM,
    items: Vec<Value>,
    plans: Seq<FieldPlanM>,
    vals: Seq<Value>,
)
    requires
        field_kind(f) == FieldKind::List,
    ensures
        ({
            let k = items@.len();
            let c = struct_rule(r, f, d, fields);
            let w = variant_rule(r, f, d);
            let fails = check_fails(c->Ok_0.check, plan, Value::List(items), plans, vals);
            let wfails = check_fails(w->Ok_0.check, plan, Value::List(items), plans, vals);
            &&& (rule_kind(r.name) == Some(RuleKind::Min) && r.params is Value && usize_literal(r.params->Value_0)
                is Some) ==> c is Ok && w is Ok && fails == wfails && fails == (k < usize_literal(
                r.params->Value_0,
            )->Some_0)
            &&& (rule_kind(r.name) == Some(RuleKind::Max) && r.params is Value && usize_literal(r.params->Value_0)
                is Some) ==> c is Ok && w is Ok && fails == wfails && fails == (k > usize_literal(
                r.params->Value_0,
            )->Some_0)
            &&& (rule_kind(r.name) == Some(RuleKind::Size) && r.params is Value && usize_literal(r.params->Value_0)
                is Some) ==> c is Ok && w is Ok && fails == wfails && fails == (k != usize_literal(
                r.params->Value_0,
            )->Some_0)
            &&& (rule_kind(r.name) == Some(RuleKind::Between) && min_max_params(r.params, "between"@) is Ok
                && usize_literal(min_max_params(r.params, "between"@)->Ok_0.0) is Some && usize_literal(
                min_max_params(r.params, "between"@)->Ok_0.1,
            ) is Some) ==> c is Ok && w is Ok && fails == wfails && fails == (k < usize_literal(
                min_max_params(r.params, "between"@)->Ok_0.0,
            )->Some_0 || k > usize_literal(min_max_params(r.params, "between"@)->Ok_0.1)->Some_0)
            &&& (r.message is None && c is Ok) ==> {
                let m = c->Ok_0.message;
                &&& (rule_kind(r.name) == Some(RuleKind::Min) && r.params is Value) ==> m == "The "@ + d
                    + " field must have at least "@ + r.params->Value_0 + " items."@
                &&& (rule_kind(r.name) == Some(RuleKind::Max) && r.params is Value) ==> m == "The "@ + d
                    + " field must not have more than "@ + r.params->Value_0 + " items."@
                &&& (rule_kind(r.name) == Some(RuleKind::Size) && r.params is Value) ==> m == "The "@ + d
                    + " field must have exactly "@ + r.params->Value_0 + " items."@
                &&& (rule_kind(r.name) == Some(RuleKind::Between) && min_max_params(r.params, "between"@) is Ok) ==> m
                    == "The "@ + d + " field must have between "@ + min_max_params(r.params, "between"@)->Ok_0.0
                    + " and "@ + min_max_params(r.params, "between"@)->Ok_0.1 + " items."@
            }
        }),
{
}

/// An integer bound is at most 2^100 in magnitude.
proof fn lemma_int_literal_range(s: Seq<char>)
    ensures
        int_literal(s) matches Some(n) ==> -literal_limit() <= n <= literal_limit(),
{
    let neg = s.len() > 0 && s[0] == '-';
    let t = if neg {
        s.drop_first()
    } else {
        s
    };
    if all_digits(t) {
        lemma_digits_value_nonneg(t);
    }
}

/// On a text field `between(min = a, max = b)` fails on a text of `k`
/// characters exactly when `k < a` or `k > b`; on an integer field with
/// integer bounds it fails on an integer `i` exactly when `i < a` or `i > b`.
pub proof fn lemma_between_bounds(
    r: FieldRuleM,
    f: FieldInfoM,
    d: Seq<char>,
    fields: Seq<FieldInfoM>,
    plan: FieldPlanM,
    s: String,
    i: i64,
    plans: Seq<FieldPlanM>,
    vals: Seq<Value>,
)
    requires
        rule_kind(r.name) == Some(RuleKind::Between),
        min_max_params(r.params, "between"@) is Ok,
    ensures
        ({
            let (a, b) = min_max_params(r.params, "between"@)->Ok_0;
            let c = struct_rule(r, f, d, fields);
            &&& ((field_kind(f) == FieldKind::Text || field_kind(f) == FieldKind::Other) && usize_literal(a) is Some
                && usize_literal(b) is Some) ==> c is Ok && check_fails(c->Ok_0.check, plan, Value::Str(s), plans, vals)
                == (s@.len() < usize_literal(a)->Some_0 || s@.len() > usize_literal(b)->Some_0)
            &&& (field_kind(f) == FieldKind::Integer && int_literal(a) is Some && int_literal(b) is Some) ==> c is Ok
                && check_fails(c->Ok_0.check, plan, Value::Int(i), plans, vals) == (i < int_literal(a)->Some_0 || i
                > int_literal(b)->Some_0)
        }),
{
    vstd::arithmetic::power2::lemma2_to64();
    let (a, b) = min_max_params(r.params, "between"@)->Ok_0;
    lemma_int_literal_range(a);
    lemma_int_literal_range(b);
    assert(i * pow2(0) == i);
}

/// The parameterless format rules.
pub open spec fn is_format_kind(kk: RuleKind) -> bool {
    kk == RuleKind::Email || kk == RuleKind::Url || kk == RuleKind::Alpha || kk == RuleKind::AlphaNum || kk
        == RuleKind::AlphaDash || kk == RuleKind::Numeric || kk == RuleKind::Ascii || kk == RuleKind::Uuid || kk
        == RuleKind::Ulid || kk == RuleKind::Ip || kk == RuleKind::Ipv4 || kk == RuleKind::Ipv6 || kk == RuleKind::Json
        || kk == RuleKind::MacAddress || kk == RuleKind::Integer || kk == RuleKind::Boolean || kk == RuleKind::Accepted
        || kk == RuleKind::Declined || kk == RuleKind::Filled || kk == RuleKind::Uppercase || kk == RuleKind::Lowercase
        || kk == RuleKind::Date || kk == RuleKind::Datetime || kk == RuleKind::HexColor || kk == RuleKind::Timezone
}

/// On an integer field with an integer bound `n`, `min = n` fails on a
/// value below `n`, `max = n` on one above `n`, and `size = n` on any other
/// value, for signed and unsigned values alike.
pub proof fn lemma_integer_sizes(
    r: FieldRuleM,
    f: FieldInfoM,
    d: Seq<char>,
    fields: Seq<FieldInfoM>,
    plan: FieldPlanM,
    i: i64,
    u: u64,
    plans: Seq<FieldPlanM>,
    vals: Seq<Value>,
)
    requires
        field_kind(f) == FieldKind::Integer,
        r.params is Value,
        int_literal(r.params->Value_0) is Some,
    ensures
        ({
            let n = int_literal(r.params->Value_0)->Some_0;
            let c = struct_rule(r, f, d, fields);
            let fi = check_fails(c->Ok_0.check, plan, Value::Int(i), plans, vals);
            let fu = check_fails(c->Ok_0.check, plan, Value::Uint(u), plans, vals);
            &&& rule_kind(r.name) == Some(RuleKind::Min) ==> c is Ok && fi == (i < n) && fu == (u < n)
            &&& rule_kind(r.name) == Some(RuleKind::Max) ==> c is Ok && fi == (i > n) && fu == (u > n)
            &&& rule_kind(r.name) == Some(RuleKind::Size) ==> c is Ok && fi == (i != n) && fu == (u != n)
        }),
{
    vstd::arithmetic::power2::lemma2_to64();
    lemma_int_literal_range(r.params->Value_0);
    assert(i * pow2(0) == i);
    assert(u * pow2(0) == u);
}

/// Each parameterless format rule tests the text with the predicate of its
/// own name: `email` fails on a text that is not an email address, `ipv4`
/// on one that is not an IPv4 address, and so on; alike on a named struct
/// field and on a tuple or variant field.
pub proof fn lemma_format_rules(
    r: FieldRuleM,
    f: FieldInfoM,
    d: Seq<char>,
    fields: Seq<FieldInfoM>,
    plan: FieldPlanM,
    s: String,
    plans: Seq<FieldPlanM>,
    vals: Seq<Value>,
)
    ensures
        ({
            let t = s@;
            let c = struct_rule(r, f, d, fields);
            let w = variant_rule(r, f, d);
            let fails = check_fails(c->Ok_0.check, plan, Value::Str(s), plans, vals);
            let wfails = check_fails(w->Ok_0.check, plan, Value::Str(s), plans, vals);
            let k = rule_kind(r.name);
            &&& (k is Some && is_format_kind(k->Some_0)) ==> c is Ok && w is Ok && fails == wfails
            &&& k == Some(RuleKind::Email) ==> fails == !email_ok(t)
            &&& k == Some(RuleKind::Url) ==> fails == !(url_scheme(t) matches Some(sc) && spec_is_web_scheme(sc))
            &&& k == Some(RuleKind::Alpha) ==> fails == !spec_is_alpha(t)
            &&& k == Some(RuleKind::AlphaNum) ==> fails == !spec_is_alpha_num(t)
            &&& k == Some(RuleKind::AlphaDash) ==> fails == !spec_is_alpha_dash(t)
            &&& k == Some(RuleKind::Numeric) ==> fails == !spec_is_numeric(t)
            &&& k == Some(RuleKind::Ascii) ==> fails == !is_ascii_chars(t)
            &&& k == Some(RuleKind::Uuid) ==> fails == !uuid_ok(t)
            &&& k == Some(RuleKind::Ulid) ==> fails == !spec_is_ulid(t)
            &&& k == Some(RuleKind::Ip) ==> fails == !spec_is_ip(t)
            &&& k == Some(RuleKind::Ipv4) ==> fails == !spec_is_ipv4(t)
            &&& k == Some(RuleKind::Ipv6) ==> fails == !spec_is_ipv6(t)
            &&& k == Some(RuleKind::Json) ==> fails == !json_ok(t)
            &&& k == Some(RuleKind::MacAddress) ==> fails == !spec_is_mac_address(t)
            &&& k == Some(RuleKind::Integer) ==> fails == !spec_is_integer(t)
            &&& k == Some(RuleKind::Boolean) ==> fails == !(t == "true"@ || t == "false"@ || t == "1"@ || t == "0"@)
            &&& k == Some(RuleKind::Accepted) ==> fails == !spec_is_accepted(t)
            &&& k == Some(RuleKind::Declined) ==> fails == !spec_is_declined(t)
            &&& k == Some(RuleKind::Filled) ==> fails == !has_content(t)
            &&& k == Some(RuleKind::Uppercase) ==> fails == !(t.len() > 0 && t == unicode_upper(t))
            &&& k == Some(RuleKind::Lowercase) ==> fails == !(t.len() > 0 && t == unicode_lower(t))
            &&& k == Some(RuleKind::Date) ==> fails == !(parsed_date(t, date_format()) is Some)
            &&& k == Some(RuleKind::Datetime) ==> fails == !(rfc3339_ok(t) || naive_datetime_ok(t, datetime_format())
                || naive_datetime_ok(t, datetime_fraction_format()))
            &&& k == Some(RuleKind::HexColor) ==> fails == !spec_is_hex_color(t)
            &&& k == Some(RuleKind::Timezone) ==> fails == !timezone_ok(t)
        }),
{
}

/// The message a failing rule records, when the rule gives none of its own:
/// for a format rule it names the format (`The email field must be a valid
/// email address.`), for the presence rules it says that the field is
/// required, prohibited, or must be accepted or declined.
pub proof fn lemma_default_messages(r: FieldRuleM, f: FieldInfoM, d: Seq<char>, fields: Seq<FieldInfoM>)
    requires
        r.message is None,
        struct_rule(r, f, d, fields) is Ok,
    ensures
        ({
            let k = rule_kind(r.name);
            let m = struct_rule(r, f, d, fields)->Ok_0.message;
            &&& k == Some(RuleKind::Email) ==> m == "The "@ + d + " field must be a valid email address."@
            &&& k == Some(RuleKind::Url) ==> m == "The "@ + d + " field must be a valid URL."@
            &&& k == Some(RuleKind::Alpha) ==> m == "The "@ + d + " field must only contain letters."@
            &&& k == Some(RuleKind::AlphaNum) ==> m == "The "@ + d + " field must only contain letters and numbers."@
            &&& k == Some(RuleKind::AlphaDash) ==> m == "The "@ + d + " field must only contain letters, numbers, dashes, and underscores."@
            &&& k == Some(RuleKind::Numeric) ==> m == "The "@ + d + " field must be a number."@
            &&& k == Some(RuleKind::Ascii) ==> m == "The "@ + d + " field must only contain ASCII characters."@
            &&& k == Some(RuleKind::Uuid) ==> m == "The "@ + d + " field must be a valid UUID."@
            &&& k == Some(RuleKind::Ulid) ==> m == "The "@ + d + " field must be a valid ULID."@
            &&& k == Some(RuleKind::Ip) ==> m == "The "@ + d + " field must be a valid IP address."@
            &&& k == Some(RuleKind::Ipv4) ==> m == "The "@ + d + " field must be a valid IPv4 address."@
            &&& k == Some(RuleKind::Ipv6) ==> m == "The "@ + d + " field must be a valid IPv6 address."@
            &&& k == Some(RuleKind::Json) ==> m == "The "@ + d + " field must be valid JSON."@
            &&& k == Some(RuleKind::MacAddress) ==> m == "The "@ + d + " field must be a valid MAC address."@
            &&& k == Some(RuleKind::Integer) ==> m == "The "@ + d + " field must be an integer."@
            &&& k == Some(RuleKind::Boolean) ==> m == "The "@ + d + " field must be true or false."@
            &&& k == Some(RuleKind::Accepted) ==> m == "The "@ + d + " field must be accepted."@
            &&& k == Some(RuleKind::Declined) ==> m == "The "@ + d + " field must be declined."@
            &&& k == Some(RuleKind::Filled) ==> m == "The "@ + d + " field must not be empty when present."@
            &&& k == Some(RuleKind::Uppercase) ==> m == "The "@ + d + " field must be uppercase."@
            &&& k == Some(RuleKind::Lowercase) ==> m == "The "@ + d + " field must be lowercase."@
            &&& k == Some(RuleKind::Date) ==> m == "The "@ + d + " field must be a valid ISO 8601 date (YYYY-MM-DD)."@
            &&& k == Some(RuleKind::Datetime) ==> m == "The "@ + d + " field must be a valid ISO 8601 datetime."@
            &&& k == Some(RuleKind::HexColor) ==> m == "The "@ + d + " field must be a valid hex color."@
            &&& k == Some(RuleKind::Timezone) ==> m == "The "@ + d + " field must be a valid timezone."@
            &&& k == Some(RuleKind::Required) ==> m == "The "@ + d + " field is required."@
            &&& k == Some(RuleKind::RequiredIf) ==> m == "The "@ + d + " field is required."@
            &&& k == Some(RuleKind::RequiredUnless) ==> m == "The "@ + d + " field is required."@
            &&& k == Some(RuleKind::RequiredWith) ==> m == "The "@ + d + " field is required."@
            &&& k == Some(RuleKind::RequiredWithout) ==> m == "The "@ + d + " field is required."@
            &&& k == Some(RuleKind::RequiredWithAll) ==> m == "The "@ + d + " field is required."@
            &&& k == Some(RuleKind::RequiredWithoutAll) ==> m == "The "@ + d + " field is required."@
            &&& k == Some(RuleKind::Prohibited) ==> m == "The "@ + d + " field is prohibited."@
            &&& k == Some(RuleKind::ProhibitedIf) ==> m == "The "@ + d + " field is prohibited."@
            &&& k == Some(RuleKind::ProhibitedUnless) ==> m == "The "@ + d + " field is prohibited."@
            &&& k == Some(RuleKind::AcceptedIf) ==> m == "The "@ + d + " field must be accepted."@
            &&& k == Some(RuleKind::DeclinedIf) ==> m == "The "@ + d + " field must be declined."@
        }),
{
}

} // verus!
