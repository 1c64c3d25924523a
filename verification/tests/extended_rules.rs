use std::collections::HashMap;

use validation::error::ValidationErrors;
use validation::expand::expand;
use validation::plan::Schema;
use validation::schema::{FieldInfo, FieldRule, Fields, RuleParams, StructAttrs, TypeDef};
use validation::validate::{Record, Value};

fn rule(name: &str) -> FieldRule {
    FieldRule::bare(name)
}

fn rule_eq(name: &str, value: &str) -> FieldRule {
    FieldRule::value(name, value)
}

fn rule_named(name: &str, params: &[(&str, &str)]) -> FieldRule {
    FieldRule {
        name: name.to_string(),
        params: RuleParams::Named(params.iter().map(|(k, v)| (k.to_string(), v.to_string())).collect()),
        message: None,
    }
}

fn rule_list(name: &str, items: &[&str]) -> FieldRule {
    FieldRule {
        name: name.to_string(),
        params: RuleParams::List(items.iter().map(|s| s.to_string()).collect()),
        message: None,
    }
}

fn opt_field(name: &str, ty: &str, rules: Vec<FieldRule>) -> FieldInfo {
    FieldInfo { name: name.to_string(), rules, is_option: true, is_vec: false, inner_type: ty.to_string() }
}

fn plain_field(name: &str, ty: &str, rules: Vec<FieldRule>) -> FieldInfo {
    FieldInfo { name: name.to_string(), rules, is_option: false, is_vec: false, inner_type: ty.to_string() }
}

fn vec_field(name: &str, ty: &str, rules: Vec<FieldRule>) -> FieldInfo {
    FieldInfo { name: name.to_string(), rules, is_option: false, is_vec: true, inner_type: ty.to_string() }
}

fn struct_schema(attrs: &[(&str, &str)], fields: Vec<FieldInfo>) -> Schema {
    let attrs = StructAttrs {
        attributes: attrs.iter().map(|(k, v)| (k.to_string(), v.to_string())).collect(),
    };
    expand(&TypeDef::Struct(attrs, Fields::Named(fields))).expect("schema compiles")
}

fn s(v: &str) -> Value {
    Value::Str(v.to_string())
}

fn record(schema: &Schema, fields: Vec<Value>) -> Record {
    Record { schema: schema.clone(), variant: 0, fields, custom: vec![] }
}

fn messages(err: &ValidationErrors) -> HashMap<String, Vec<String>> {
    err.messages().into_iter().collect()
}


fn opts(schema: &Schema, vals: &[Option<&str>]) -> Record {
    record(schema, vals.iter().map(|x| match x {
        Some(t) => s(t),
        None => Value::Null,
    }).collect())
}

fn nullable(name: &str, r: FieldRule) -> FieldInfo {
    opt_field(name, "String", vec![rule("nullable"), r])
}

// ── String rules ──

fn string_rules() -> Schema {
    struct_schema(
        &[],
        vec![
            nullable("upper", rule("uppercase")),
            nullable("lower", rule("lowercase")),
            nullable("has_hello", rule_eq("contains", "hello")),
            nullable("no_bad", rule_eq("doesnt_contain", "bad")),
            nullable("no_x_start", rule_eq("doesnt_start_with", "X")),
            nullable("no_exe", rule_eq("doesnt_end_with", ".exe")),
            nullable("exact_five", rule_eq("size", "5")),
            nullable("int_str", rule("integer")),
        ],
    )
}

fn string_rule(pos: usize, value: &str) -> Record {
    let mut vals: Vec<Option<&str>> = vec![None; 8];
    vals[pos] = Some(value);
    opts(&string_rules(), &vals)
}

#[test]
fn test_uppercase() {
    assert!(string_rule(0, "hello").validate().is_err());
    assert!(string_rule(0, "HELLO").validate().is_ok());
}

#[test]
fn test_lowercase() {
    assert!(string_rule(1, "HELLO").validate().is_err());
    assert!(string_rule(1, "hello").validate().is_ok());
}

#[test]
fn test_contains() {
    assert!(string_rule(2, "say hello world").validate().is_ok());
    assert!(string_rule(2, "goodbye").validate().is_err());
}

#[test]
fn test_doesnt_contain() {
    assert!(string_rule(3, "this is bad").validate().is_err());
    assert!(string_rule(3, "this is good").validate().is_ok());
}

#[test]
fn test_doesnt_start_with() {
    assert!(string_rule(4, "Xfoo").validate().is_err());
    assert!(string_rule(4, "foo").validate().is_ok());
}

#[test]
fn test_doesnt_end_with() {
    assert!(string_rule(5, "virus.exe").validate().is_err());
}

#[test]
fn test_size() {
    assert!(string_rule(6, "12345").validate().is_ok());
    assert!(string_rule(6, "1234").validate().is_err());
}

#[test]
fn test_integer() {
    assert!(string_rule(7, "42").validate().is_ok());
    assert!(string_rule(7, "3.14").validate().is_err());
}

// ── Accepted / Declined ──

fn accept_decline(terms: Option<&str>, opt_out: Option<&str>) -> Record {
    let schema = struct_schema(&[], vec![nullable("terms", rule("accepted")), nullable("opt_out", rule("declined"))]);
    opts(&schema, &[terms, opt_out])
}

#[test]
fn test_accepted() {
    assert!(accept_decline(Some("yes"), None).validate().is_ok());
    assert!(accept_decline(Some("true"), None).validate().is_ok());
    assert!(accept_decline(Some("no"), None).validate().is_err());
}

#[test]
fn test_declined() {
    assert!(accept_decline(None, Some("no")).validate().is_ok());
    assert!(accept_decline(None, Some("off")).validate().is_ok());
    assert!(accept_decline(None, Some("yes")).validate().is_err());
}

// ── Prohibited ──

fn prohibited(plan: &str, premium: Option<&str>, never: Option<&str>) -> Record {
    let schema = struct_schema(
        &[],
        vec![
            opt_field("plan", "String", vec![rule("required"), rule_list("in_list", &["basic", "premium"])]),
            opt_field("premium_feature", "String", vec![rule_named("prohibited_if", &[("field", "plan"), ("value", "basic")])]),
            opt_field("never_set", "String", vec![rule("prohibited")]),
        ],
    );
    opts(&schema, &[Some(plan), premium, never])
}

#[test]
fn test_prohibited() {
    assert!(prohibited("basic", None, None).validate().is_ok());
    assert!(prohibited("basic", Some("enabled"), None).validate().is_err());
    assert!(prohibited("premium", Some("enabled"), None).validate().is_ok());
}

#[test]
fn test_prohibited_always() {
    assert!(prohibited("basic", None, Some("oops")).validate().is_err());
}

// ── Date rules ──

fn date_rule(pos: usize, value: &str) -> Record {
    let schema = struct_schema(
        &[],
        vec![
            nullable("birth_date", rule("date")),
            nullable("before_2025", rule_eq("before", "2025-01-01")),
            nullable("after_2020", rule_eq("after", "2020-01-01")),
            nullable("by_end_of_2025", rule_eq("before_or_equal", "2025-12-31")),
            nullable("exact_date", rule_eq("date_equals", "2024-06-15")),
        ],
    );
    let mut vals: Vec<Option<&str>> = vec![None; 5];
    vals[pos] = Some(value);
    opts(&schema, &vals)
}

#[test]
fn test_date_valid() {
    assert!(date_rule(0, "2000-06-15").validate().is_ok());
}

#[test]
fn test_date_invalid_format() {
    assert!(date_rule(0, "06/15/2000").validate().is_err());
}

#[test]
fn test_date_invalid_day() {
    assert!(date_rule(0, "2000-02-30").validate().is_err());
}

#[test]
fn test_date_leap_year() {
    assert!(date_rule(0, "2000-02-29").validate().is_ok());
    assert!(date_rule(0, "2001-02-29").validate().is_err());
}

#[test]
fn test_before() {
    assert!(date_rule(1, "2024-12-31").validate().is_ok());
    assert!(date_rule(1, "2025-06-01").validate().is_err());
}

#[test]
fn test_after() {
    assert!(date_rule(2, "2021-01-01").validate().is_ok());
    assert!(date_rule(2, "2019-12-31").validate().is_err());
}

#[test]
fn test_date_equals() {
    assert!(date_rule(4, "2024-06-15").validate().is_ok());
    assert!(date_rule(4, "2024-06-16").validate().is_err());
}

// ── Format rules ──

fn format_rule(color: Option<&str>, no_numbers_only: Option<&str>) -> Record {
    let schema = struct_schema(
        &[],
        vec![nullable("color", rule("hex_color")), nullable("no_numbers_only", rule_eq("not_regex", r"^\d+$"))],
    );
    opts(&schema, &[color, no_numbers_only])
}

#[test]
fn test_hex_color() {
    assert!(format_rule(Some("#ff0000"), None).validate().is_ok());
    assert!(format_rule(Some("#f00"), None).validate().is_ok());
    assert!(format_rule(Some("red"), None).validate().is_err());
}

#[test]
fn test_not_regex() {
    assert!(format_rule(None, Some("123")).validate().is_err());
    assert!(format_rule(None, Some("abc123")).validate().is_ok());
}

// ── Numeric rules ──

fn numeric_rule(pos: usize, value: &str) -> Record {
    let schema = struct_schema(
        &[],
        vec![
            nullable("pin", rule_eq("digits", "4")),
            nullable("code", rule_named("digits_between", &[("min", "3"), ("max", "5")])),
            nullable("multiple", rule_eq("multiple_of", "5")),
            nullable("price", rule_eq("decimal", "2")),
            nullable("flex_decimal", rule_named("decimal", &[("min", "1"), ("max", "3")])),
        ],
    );
    let mut vals: Vec<Option<&str>> = vec![None; 5];
    vals[pos] = Some(value);
    opts(&schema, &vals)
}

#[test]
fn test_digits() {
    assert!(numeric_rule(0, "1234").validate().is_ok());
    assert!(numeric_rule(0, "123").validate().is_err());
}

#[test]
fn test_digits_between() {
    assert!(numeric_rule(1, "1234").validate().is_ok());
    assert!(numeric_rule(1, "12").validate().is_err());
}

#[test]
fn test_multiple_of() {
    assert!(numeric_rule(2, "15").validate().is_ok());
    assert!(numeric_rule(2, "7").validate().is_err());
}

#[test]
fn test_decimal() {
    assert!(numeric_rule(3, "19.99").validate().is_ok());
    assert!(numeric_rule(3, "19.9").validate().is_err());
    assert!(numeric_rule(4, "3.14").validate().is_ok());
    assert!(numeric_rule(4, "3.1415").validate().is_err());
}

// ── Cross-field comparison ──

fn comparison(start: i64, end: i64, greater: i64, lte: i64) -> Record {
    let schema = struct_schema(
        &[],
        vec![
            opt_field("start", "i32", vec![]),
            opt_field("end", "i32", vec![]),
            opt_field("must_be_greater", "i32", vec![rule_eq("gt", "start")]),
            opt_field("must_be_lte", "i32", vec![rule_eq("lte", "end")]),
        ],
    );
    record(&schema, vec![Value::Int(start), Value::Int(end), Value::Int(greater), Value::Int(lte)])
}

#[test]
fn test_gt_cross_field() {
    assert!(comparison(10, 100, 20, 50).validate().is_ok());
}

#[test]
fn test_gt_cross_field_fails() {
    assert!(comparison(10, 100, 5, 50).validate().is_err());
}

#[test]
fn test_lte_cross_field_fails() {
    assert!(comparison(10, 100, 20, 200).validate().is_err());
}

// ── required_with_all ──

fn multi_conditional(first: Option<&str>, last: Option<&str>) -> Record {
    let schema = struct_schema(
        &[],
        vec![
            opt_field("first_name", "String", vec![]),
            opt_field("last_name", "String", vec![]),
            opt_field("full_name_greeting", "String", vec![rule_list("required_with_all", &["first_name", "last_name"])]),
        ],
    );
    opts(&schema, &[first, last, None])
}

#[test]
fn test_required_with_all_triggers() {
    assert!(multi_conditional(Some("John"), Some("Doe")).validate().is_err());
}

#[test]
fn test_required_with_all_skips_partial() {
    assert!(multi_conditional(Some("John"), None).validate().is_ok());
}

// ── Filled ──

fn filled(bio: Option<&str>) -> Record {
    let schema = struct_schema(&[], vec![nullable("bio", rule("filled"))]);
    opts(&schema, &[bio])
}

#[test]
fn test_filled_none_ok() {
    assert!(filled(None).validate().is_ok());
}

#[test]
fn test_filled_empty_fails() {
    assert!(filled(Some("  ")).validate().is_err());
}

#[test]
fn test_filled_with_content_ok() {
    assert!(filled(Some("Hello")).validate().is_ok());
}

// ── Distinct ──

fn distinct(tags: &[&str]) -> Record {
    let schema = struct_schema(&[], vec![vec_field("tags", "String", vec![rule("distinct")])]);
    record(&schema, vec![Value::List(tags.iter().map(|t| s(t)).collect())])
}

#[test]
fn test_distinct_ok() {
    assert!(distinct(&["a", "b", "c"]).validate().is_ok());
}

#[test]
fn test_distinct_fails() {
    assert!(distinct(&["a", "b", "a"]).validate().is_err());
}

// ── Integer ranges ──

fn int_ranges(score: i64, level: u64) -> Record {
    let schema = struct_schema(
        &[],
        vec![
            plain_field("score", "i32", vec![rule_named("between", &[("min", "1"), ("max", "100")])]),
            plain_field("level", "u32", vec![rule_eq("min", "0"), rule_eq("max", "255")]),
        ],
    );
    record(&schema, vec![Value::Int(score), Value::Uint(level)])
}

#[test]
fn test_int_between_valid() {
    assert!(int_ranges(50, 100).validate().is_ok());
}

#[test]
fn test_int_between_too_low() {
    assert!(int_ranges(0, 100).validate().is_err());
}

#[test]
fn test_int_between_too_high() {
    assert!(int_ranges(101, 100).validate().is_err());
}

#[test]
fn test_int_max_fails() {
    assert!(int_ranges(50, 256).validate().is_err());
}

// ── Numeric size (exact value) ──

#[test]
fn test_numeric_size_exact() {
    let schema = struct_schema(&[], vec![plain_field("answer", "i32", vec![rule_eq("size", "42")])]);
    assert!(record(&schema, vec![Value::Int(42)]).validate().is_ok());
    assert!(record(&schema, vec![Value::Int(43)]).validate().is_err());
}

// ── Numeric min/max on floating-point fields ──

fn f(x: f64) -> Value {
    Value::Float(x.to_bits())
}

fn pagination(per_page: f64, page: f64, offset: Option<f64>) -> Record {
    let schema = struct_schema(
        &[],
        vec![
            plain_field("per_page", "f64", vec![rule_eq("min", "1"), rule_eq("max", "10000")]),
            plain_field("page", "f64", vec![rule_eq("min", "1")]),
            opt_field("offset", "f64", vec![rule("nullable"), rule_eq("min", "0")]),
        ],
    );
    let offset = match offset {
        Some(x) => f(x),
        None => Value::Null,
    };
    record(&schema, vec![f(per_page), f(page), offset])
}

#[test]
fn test_numeric_min_max_valid() {
    assert!(pagination(25.0, 1.0, None).validate().is_ok());
}

#[test]
fn test_numeric_min_fails() {
    assert!(pagination(0.0, 1.0, None).validate().is_err());
}

#[test]
fn test_numeric_max_fails() {
    assert!(pagination(99999.0, 1.0, None).validate().is_err());
}

#[test]
fn test_numeric_option_none_ok() {
    assert!(pagination(10.0, 1.0, None).validate().is_ok());
}

#[test]
fn test_numeric_option_valid() {
    assert!(pagination(10.0, 1.0, Some(5.0)).validate().is_ok());
}

#[test]
fn test_numeric_option_invalid() {
    assert!(pagination(10.0, 1.0, Some(-1.0)).validate().is_err());
}

#[test]
fn test_numeric_error_message() {
    let err = pagination(0.0, 1.0, None).validate().unwrap_err();
    let msgs = messages(&err);
    assert!(msgs["per_page"][0].contains("at least"));
    assert!(!msgs["per_page"][0].contains("characters"));
}

// ── Vec min/max/size ──

fn vec_rules(tags: &[&str], coordinates: &[f64]) -> Record {
    let schema = struct_schema(
        &[],
        vec![
            vec_field("tags", "String", vec![rule_eq("min", "1"), rule_eq("max", "5")]),
            vec_field("coordinates", "f64", vec![rule_eq("size", "3")]),
        ],
    );
    record(
        &schema,
        vec![
            Value::List(tags.iter().map(|t| s(t)).collect()),
            Value::List(coordinates.iter().map(|c| f(*c)).collect()),
        ],
    )
}

#[test]
fn test_vec_min_max_valid() {
    assert!(vec_rules(&["a", "b"], &[1.0, 2.0, 3.0]).validate().is_ok());
}

#[test]
fn test_vec_empty_fails_min() {
    assert!(vec_rules(&[], &[1.0, 2.0, 3.0]).validate().is_err());
}

#[test]
fn test_vec_too_many_fails_max() {
    assert!(vec_rules(&["a", "b", "c", "d", "e", "f"], &[1.0, 2.0, 3.0]).validate().is_err());
}

#[test]
fn test_vec_wrong_size() {
    assert!(vec_rules(&["a"], &[1.0, 2.0]).validate().is_err());
}

#[test]
fn test_vec_error_message() {
    let err = vec_rules(&[], &[1.0, 2.0, 3.0]).validate().unwrap_err();
    assert!(messages(&err)["tags"][0].contains("items"));
}
