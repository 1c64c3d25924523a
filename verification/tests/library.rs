use validation::deserialize::{deserialization_errors, path_to_field_name};
use validation::error::{ValidationError, ValidationErrors};
use validation::expand::expand;
use validation::rules::binary64::{binary64_of_int, compare_float_int, compare_float_scaled, compare_floats};
use validation::rules::comparison::{
    is_different, is_distinct, is_gt, is_gte, is_in, is_in_array, is_lt, is_lte, is_not_in, is_same, Order,
};
use validation::rules::format::{
    is_after, is_after_or_equal, is_ascii, is_before, is_before_or_equal, is_date_equals, is_email, is_hex_color,
    is_iso_date, is_iso_datetime, is_json, is_mac_address, is_timezone, is_ulid, is_url, is_uuid, matches_regex,
    not_matches_regex,
};
use validation::rules::ip::{is_ip, is_ipv4, is_ipv6};
use validation::rules::numeric::{check_between, check_decimal, check_digits, check_digits_between, check_max, check_min, is_multiple_of};
use validation::rules::presence::{is_accepted, is_accepted_bool, is_declined, is_declined_bool, is_filled, is_present_option};
use validation::rules::string::{
    check_between_length, check_max_length, check_min_length, check_size, contains, doesnt_contain, doesnt_end_with,
    doesnt_start_with, ends_with, is_alpha, is_alpha_dash, is_alpha_num, is_integer, is_lowercase, is_numeric,
    is_uppercase, starts_with,
};
use validation::schema::{FieldInfo, FieldRule, Fields, RuleParams, StructAttrs, TypeDef};
use validation::validate::{decimal_string, CustomFailure, Record, Value};
use validation::value::FieldValue;

fn field(name: &str, ty: &str, is_option: bool, rules: Vec<FieldRule>) -> FieldInfo {
    FieldInfo { name: name.to_string(), rules, is_option, is_vec: false, inner_type: ty.to_string() }
}

fn named(fields: Vec<FieldInfo>) -> TypeDef {
    TypeDef::Struct(StructAttrs { attributes: vec![] }, Fields::Named(fields))
}

fn f64v(x: f64) -> FieldValue {
    FieldValue::Float(x.to_bits())
}

// ── Formats backed by outside crates ──

#[test]
fn email_addresses() {
    assert!(is_email("user@example.com"));
    assert!(!is_email("not-an-email"));
    assert!(!is_email("@example.com"));
}

#[test]
fn web_urls() {
    assert!(is_url("https://example.com/path?q=1"));
    assert!(is_url("http://localhost:8080"));
    assert!(!is_url("ftp://example.com"));
    assert!(!is_url("not a url"));
}

#[test]
fn uuids_and_ulids() {
    assert!(is_uuid("550e8400-e29b-41d4-a716-446655440000"));
    assert!(!is_uuid("550e8400-e29b-41d4-a716"));
    assert!(is_ulid("01ARZ3NDEKTSV4RRFFQ69G5FAV"));
    assert!(!is_ulid("01ARZ3NDEKTSV4RRFFQ69G5FA"));
    assert!(is_ulid("01arz3ndektsv4rrffq69g5fav"));
    assert!(!is_ulid("01ARZ3NDEKTSV4RRFFQ69G5FAI"));
    assert!(!is_ulid("01ARZ3NDEKTSV4RRFFQ69G5FÉ"));
}

#[test]
fn dates_and_datetimes() {
    assert!(is_iso_date("2024-02-29"));
    assert!(!is_iso_date("2023-02-29"));
    assert!(!is_iso_date("2024/02/01"));
    assert!(is_iso_datetime("2024-06-15T10:30:00Z"));
    assert!(is_iso_datetime("2024-06-15T10:30:00"));
    assert!(!is_iso_datetime("2024-06-15"));
}

#[test]
fn date_comparisons() {
    assert!(is_before("2024-01-01", "2024-01-02"));
    assert!(is_after("2024-01-02", "2024-01-01"));
    assert!(is_before_or_equal("2024-01-01", "2024-01-01"));
    assert!(is_after_or_equal("2024-01-01", "2024-01-01"));
    assert!(is_date_equals("2024-01-01", "2024-01-01"));
    assert!(!is_before("2024-01-01", "not-a-date"));
    assert!(!is_after("not-a-date", "2024-01-01"));
}

#[test]
fn date_order_reverses_with_its_sides() {
    let days = ["2023-12-31", "2024-01-01", "2024-02-29", "bad"];
    for a in days {
        for b in days {
            assert_eq!(is_before(a, b), is_after(b, a));
            assert_eq!(is_before_or_equal(a, b), is_after_or_equal(b, a));
            assert_eq!(is_date_equals(a, b), is_date_equals(b, a));
        }
    }
}

#[test]
fn json_and_timezones() {
    assert!(is_json("{\"a\": [1, 2]}"));
    assert!(!is_json("{\"a\": "));
    assert!(is_timezone("Europe/London"));
    assert!(is_timezone("UTC"));
    assert!(!is_timezone("Mars/Olympus"));
}

#[test]
fn regular_expressions() {
    assert!(matches_regex("12345", r"^\d{5}$"));
    assert!(!matches_regex("1234", r"^\d{5}$"));
    assert!(not_matches_regex("abc", r"^\d+$"));
    assert!(!matches_regex("anything", "("));
    assert!(not_matches_regex("anything", "("));
}

// ── Formats checked here ──

#[test]
fn ip_addresses() {
    assert!(is_ipv4("192.168.0.1"));
    assert!(!is_ipv4("256.1.1.1"));
    assert!(!is_ipv4("01.2.3.4"));
    assert!(is_ipv6("::1"));
    assert!(is_ipv6("2001:db8::8a2e:370:7334"));
    assert!(is_ipv6("::ffff:192.168.0.1"));
    assert!(!is_ipv6("2001:db8:::1"));
    assert!(is_ip("10.0.0.1") && is_ip("fe80::1"));
    assert!(!is_ip("localhost"));
}

#[test]
fn mac_hex_ascii() {
    assert!(is_mac_address("00:1A:2b:3C:4d:5E"));
    assert!(is_mac_address("00-1A-2B-3C-4D-5E"));
    assert!(!is_mac_address("00:1A-2B:3C:4D:5E"));
    assert!(is_hex_color("#abc") && is_hex_color("#aabbcc") && is_hex_color("#aabbccdd"));
    assert!(!is_hex_color("#abcd1") && !is_hex_color("abc"));
    assert!(is_ascii("plain text") && !is_ascii("café"));
}

// ── Strings and numbers ──

#[test]
fn string_rules() {
    assert!(is_alpha("abc") && !is_alpha("abc1") && !is_alpha(""));
    assert!(is_alpha_num("abc1") && !is_alpha_num("a-b"));
    assert!(is_alpha_dash("a-b_c1") && !is_alpha_dash("a b"));
    assert!(is_integer("-42") && is_integer("+7") && !is_integer("4.2") && !is_integer("-"));
    assert!(is_numeric("3.14") && is_numeric("1e10") && is_numeric("-.5") && !is_numeric("abc"));
    assert!(starts_with("hello", "he") && ends_with("hello", "lo") && contains("hello", "ell"));
    assert!(doesnt_start_with("hello", "x") && doesnt_end_with("hello", "x") && doesnt_contain("hello", "x"));
    assert!(is_uppercase("HELLO") && !is_uppercase("Hello") && is_lowercase("hello") && !is_lowercase(""));
    assert!(check_min_length("héllo", 5) && !check_min_length("héllo", 6) && !check_max_length("héllo", 4));
    assert!(check_max_length("ééé", 3) && check_size("ééé", 3) && check_between_length("ééé", 3, 3));
    assert!(check_between_length("abc", 1, 3) && check_size("abcd", 4));
}

#[test]
fn number_rules() {
    assert!(check_min(5, 5) && !check_min(4, 5));
    assert!(check_max(5, 5) && !check_max(6, 5));
    assert!(check_between(1, 1, 10) && !check_between(11, 1, 10));
    assert!(check_digits("12-34", 4) && !check_digits("123", 4));
    assert!(check_digits_between("1234", 2, 4) && !check_digits_between("1", 2, 4));
    assert!(check_decimal("19.99", 2, None) && !check_decimal("19.9", 2, None));
    assert!(check_decimal("3.14", 1, Some(3)) && !check_decimal("3.1415", 1, Some(3)));
    assert!(check_decimal("10", 0, None));
    assert!(is_multiple_of("15", "5") && !is_multiple_of("16", "5") && !is_multiple_of("10", "0"));
    assert!(!is_multiple_of("0.3", "0.1") && is_multiple_of("0.5", "0.25") && is_multiple_of("-15", "5"));
    assert!(is_multiple_of("2000000000000000000", "5") && !is_multiple_of("18446744073709551615", "5"));
    assert!(is_multiple_of("1e3", "5") && !is_multiple_of("inf", "5") && !is_multiple_of("5", "NaN"));
}

#[test]
fn presence_rules() {
    assert!(is_accepted("yes") && is_accepted("on") && is_accepted("1") && is_accepted("true"));
    assert!(!is_accepted("no"));
    assert!(is_declined("off") && !is_declined("yes"));
    assert!(is_accepted_bool(true) && is_declined_bool(false));
    assert!(is_filled("x") && !is_filled("   "));
    assert!(is_present_option(&Some("x".to_string())) && !is_present_option::<String>(&None));
    assert!(!is_present_option(&Some(" ".to_string())));
    assert!(is_present_option(&Some(vec![1, 2])) && !is_present_option(&Some(Vec::<i32>::new())));
    assert!(is_present_option(&Some(0i64)) && is_present_option(&Some(false)));
}

#[test]
fn list_membership() {
    assert!(is_in("b", &["a", "b"]) && !is_in("c", &["a", "b"]));
    assert!(is_not_in("c", &["a", "b"]) && !is_not_in("a", &["a", "b"]));
}

// ── Cross-field comparisons ──

#[test]
fn value_comparisons() {
    let one = FieldValue::Int(1);
    let two = FieldValue::Uint(2);
    assert!(is_lt(&one, &two) && is_gt(&two, &one));
    assert!(is_gte(&one, &FieldValue::Uint(1)) && is_lte(&one, &FieldValue::Uint(1)));
    assert!(is_gt(&FieldValue::String("b".into()), &FieldValue::String("a".into())));
    assert!(!is_gt(&FieldValue::String("2".into()), &one));
    assert!(is_same(&FieldValue::String("x".into()), &FieldValue::String("x".into())));
    assert!(is_different(&one, &FieldValue::Uint(1)));
    let list = FieldValue::List(vec![FieldValue::Int(1), FieldValue::Int(2)]);
    assert!(is_in_array(&one, &list) && !is_in_array(&FieldValue::Int(3), &list));
    assert!(is_distinct(&list));
    assert!(!is_distinct(&FieldValue::List(vec![FieldValue::Int(1), FieldValue::Int(1)])));
}

#[test]
fn comparisons_reverse_with_their_sides() {
    let vals = [
        FieldValue::Int(-3),
        FieldValue::Uint(7),
        f64v(2.5),
        f64v(f64::NAN),
        FieldValue::String("m".into()),
        FieldValue::Null,
    ];
    for a in &vals {
        for b in &vals {
            assert_eq!(is_gt(a, b), is_lt(b, a));
            assert_eq!(is_gte(a, b), is_lte(b, a));
        }
    }
}

#[test]
fn float_values() {
    assert!(is_gt(&f64v(2.5), &FieldValue::Int(2)));
    assert!(is_lt(&f64v(2.5), &FieldValue::Uint(3)));
    assert!(is_gte(&f64v(3.0), &FieldValue::Int(3)) && is_lte(&f64v(3.0), &FieldValue::Int(3)));
    assert!(is_lt(&f64v(-0.5), &f64v(0.25)));
    assert!(is_same(&f64v(0.0), &f64v(-0.0)));
    assert!(!is_same(&f64v(f64::NAN), &f64v(f64::NAN)) && is_different(&f64v(f64::NAN), &f64v(f64::NAN)));
    assert!(is_distinct(&FieldValue::List(vec![f64v(f64::NAN), f64v(f64::NAN)])));
    assert!(!is_distinct(&FieldValue::List(vec![f64v(0.0), f64v(-0.0)])));
    assert!(!is_in_array(&f64v(f64::NAN), &FieldValue::List(vec![f64v(f64::NAN)])));
    assert!(is_same(&FieldValue::List(vec![f64v(1.5)]), &FieldValue::List(vec![f64v(1.5)])));
    assert!(!is_same(&FieldValue::List(vec![f64v(f64::NAN)]), &FieldValue::List(vec![f64v(f64::NAN)])));
    assert!(!is_gt(&f64v(f64::NAN), &FieldValue::Int(0)) && !is_lt(&f64v(f64::NAN), &FieldValue::Int(0)));
    assert!(is_gt(&f64v(f64::INFINITY), &FieldValue::Uint(u64::MAX)));
    assert!(is_lt(&f64v(f64::NEG_INFINITY), &FieldValue::Int(i64::MIN)));
}

#[test]
fn float_bit_patterns_compare_by_value() {
    assert_eq!(compare_float_int(1.0f64.to_bits(), 1), Some(Order::Equal));
    assert_eq!(compare_float_int(0.5f64.to_bits(), 0), Some(Order::Greater));
    assert_eq!(compare_float_int((-0.5f64).to_bits(), 0), Some(Order::Less));
    assert_eq!(compare_float_int((-0.0f64).to_bits(), 0), Some(Order::Equal));
    assert_eq!(compare_float_int(f64::MIN_POSITIVE.to_bits(), 0), Some(Order::Greater));
    assert_eq!(compare_float_int(5e-324f64.to_bits(), 0), Some(Order::Greater));
    assert_eq!(compare_float_int(1e30f64.to_bits(), 1i128 << 100), Some(Order::Less));
    assert_eq!(compare_float_int(2f64.powi(100).to_bits(), 1i128 << 100), Some(Order::Equal));
    assert_eq!(compare_float_int(1e300f64.to_bits(), i128::MAX), Some(Order::Greater));
    assert_eq!(compare_float_int((-1e300f64).to_bits(), i128::MIN), Some(Order::Less));
    assert_eq!(compare_float_int(f64::NAN.to_bits(), 0), None);
    assert_eq!(compare_floats(1.5f64.to_bits(), 1.25f64.to_bits()), Some(Order::Greater));
    assert_eq!(compare_floats((-0.0f64).to_bits(), 0.0f64.to_bits()), Some(Order::Equal));
    assert_eq!(compare_floats(f64::NEG_INFINITY.to_bits(), (-1e308f64).to_bits()), Some(Order::Less));
    assert_eq!(compare_floats(f64::NAN.to_bits(), 1.0f64.to_bits()), None);
}

#[test]
fn field_value_accessors() {
    assert!(FieldValue::Null.is_none() && !FieldValue::Int(0).is_none());
    assert!(FieldValue::String(String::new()).is_empty() && !FieldValue::Int(0).is_empty());
    assert!(FieldValue::List(vec![]).is_empty() && FieldValue::Null.is_empty());
    assert_eq!(FieldValue::String("hé".into()).as_str(), Some("hé"));
    assert_eq!(FieldValue::Int(1).as_str(), None);
    assert_eq!(FieldValue::String("hé".into()).len(), Some(3));
    assert_eq!(FieldValue::List(vec![FieldValue::Null]).len(), Some(1));
    assert_eq!(FieldValue::Bool(true).len(), None);
}

// ── Errors ──

#[test]
fn error_collection() {
    let mut errors = ValidationErrors::new();
    assert!(errors.is_empty());
    errors.add("name", ValidationError::new("required", "The name field is required."));
    errors.add("name", ValidationError::new("min", "Too short.").with_param("min", "2"));
    errors.add("email", ValidationError::new("email", "Bad email."));
    assert!(!errors.is_empty());
    assert_eq!(
        errors.messages(),
        vec![
            ("name".to_string(), vec!["The name field is required.".to_string(), "Too short.".to_string()]),
            ("email".to_string(), vec!["Bad email.".to_string()]),
        ]
    );
    assert_eq!(
        errors.first_messages(),
        vec![("name".to_string(), "The name field is required.".to_string()), ("email".to_string(), "Bad email.".to_string())]
    );
    assert_eq!(errors.to_display_string(), "name: The name field is required.; name: Too short.; email: Bad email.");
    let (_, errs) = &errors.field_errors()[0];
    assert_eq!(errs[1].params, vec![("min".to_string(), "2".to_string())]);
}

#[test]
fn with_param_replaces_a_key() {
    let e = ValidationError::new("between", "m").with_param("min", "1").with_param("max", "9").with_param("min", "2");
    assert_eq!(e.params, vec![("min".to_string(), "2".to_string()), ("max".to_string(), "9".to_string())]);
}

#[test]
fn merging_under_a_prefix() {
    let mut inner = ValidationErrors::new();
    inner.add("city", ValidationError::new("required", "City?"));
    let mut outer = ValidationErrors::new();
    outer.add("address.city", ValidationError::new("x", "First."));
    outer.merge_with_prefix("address", inner);
    assert_eq!(outer.messages(), vec![("address.city".to_string(), vec!["First.".to_string(), "City?".to_string()])]);
    let mut top = ValidationErrors::new();
    let mut other = ValidationErrors::new();
    other.add("a", ValidationError::new("r", "m"));
    top.merge_with_prefix("", other);
    assert_eq!(top.messages(), vec![("a".to_string(), vec!["m".to_string()])]);
    let mut same = ValidationErrors::new();
    same.add("k", ValidationError::new("r", "m"));
    same.merge_with_prefix("p", ValidationErrors::new());
    assert_eq!(same.messages().len(), 1);
}

#[test]
fn deserialization_paths() {
    assert_eq!(path_to_field_name(String::new()), "_body");
    assert_eq!(path_to_field_name(".".to_string()), "_body");
    assert_eq!(path_to_field_name(".id".to_string()), "id");
    assert_eq!(path_to_field_name("address.city".to_string()), "address.city");
    let errors = deserialization_errors(".count".to_string(), "invalid type");
    assert_eq!(errors.messages(), vec![("count".to_string(), vec!["invalid type".to_string()])]);
    assert_eq!(errors.field_errors()[0].1[0].rule, "deserialization");
}

#[test]
fn decimal_strings() {
    assert_eq!(decimal_string(0), "0");
    assert_eq!(decimal_string(7), "7");
    assert_eq!(decimal_string(1203), "1203");
}

// ── Schemas that do not compile ──

#[test]
fn schema_errors() {
    let unknown = named(vec![field("a", "String", true, vec![FieldRule::bare("frobnicate")])]);
    assert_eq!(expand(&unknown).unwrap_err(), "unknown validation rule: frobnicate");
    assert_eq!(expand(&TypeDef::Union).unwrap_err(), "Validate cannot be derived for unions");
    let bad_min = named(vec![field("a", "String", true, vec![FieldRule::value("min", "x")])]);
    assert!(expand(&bad_min).is_err());
    let no_list = named(vec![field("a", "String", true, vec![FieldRule::bare("in_list")])]);
    assert!(expand(&no_list).is_err());
    let tuple_bail = TypeDef::Struct(
        StructAttrs { attributes: vec![] },
        Fields::Unnamed(vec![field("0", "String", true, vec![FieldRule::bare("email"), FieldRule::bare("bail")])]),
    );
    assert_eq!(expand(&tuple_bail).unwrap_err(), "use of undeclared label `'bail`");
}

#[test]
fn unit_struct_always_passes() {
    let schema = expand(&TypeDef::Struct(StructAttrs { attributes: vec![] }, Fields::Unit)).unwrap();
    let r = Record { schema, variant: 0, fields: vec![], custom: vec![] };
    assert!(r.validate().is_ok());
}

// ── Validation laws on examples ──

#[test]
fn bail_records_one_error_per_field() {
    let schema = expand(&named(vec![field(
        "code",
        "String",
        true,
        vec![FieldRule::bare("bail"), FieldRule::value("min", "5"), FieldRule::bare("alpha"), FieldRule::bare("uppercase")],
    )]))
    .unwrap();
    let r = Record { schema, variant: 0, fields: vec![Value::Str("a1".into())], custom: vec![] };
    let err = r.validate().unwrap_err();
    assert_eq!(err.messages()[0].1.len(), 1);
}

#[test]
fn without_bail_every_failure_is_recorded() {
    let schema = expand(&named(vec![field(
        "code",
        "String",
        true,
        vec![FieldRule::value("min", "5"), FieldRule::bare("alpha"), FieldRule::bare("uppercase")],
    )]))
    .unwrap();
    let r = Record { schema, variant: 0, fields: vec![Value::Str("a1".into())], custom: vec![] };
    assert_eq!(r.validate().unwrap_err().messages()[0].1.len(), 3);
}

#[test]
fn sometimes_skips_an_absent_field() {
    let schema = expand(&named(vec![field("nick", "String", true, vec![FieldRule::bare("sometimes"), FieldRule::bare("required")])]))
        .unwrap();
    assert!(Record { schema: schema.clone(), variant: 0, fields: vec![Value::Null], custom: vec![] }.validate().is_ok());
    assert!(Record { schema, variant: 0, fields: vec![Value::Str(" ".into())], custom: vec![] }.validate().is_err());
}

#[test]
fn nullable_still_requires() {
    let schema = expand(&named(vec![field("nick", "String", true, vec![FieldRule::bare("nullable"), FieldRule::bare("required"), FieldRule::bare("email")])]))
        .unwrap();
    let err = Record { schema, variant: 0, fields: vec![Value::Null], custom: vec![] }.validate().unwrap_err();
    assert_eq!(err.messages()[0].1.len(), 1);
}

#[test]
fn errors_stay_under_field_paths() {
    let inner = expand(&named(vec![field("city", "String", true, vec![FieldRule::bare("required")])])).unwrap();
    let outer = expand(&named(vec![
        field("name", "String", true, vec![FieldRule::bare("required")]),
        FieldInfo { name: "addresses".into(), rules: vec![FieldRule::bare("nested")], is_option: false, is_vec: true, inner_type: "Address".into() },
    ]))
    .unwrap();
    let item = |city: Value| Value::Record(Box::new(Record { schema: inner.clone(), variant: 0, fields: vec![city], custom: vec![] }));
    let r = Record {
        schema: outer,
        variant: 0,
        fields: vec![Value::Null, Value::List(vec![item(Value::Str("X".into())), item(Value::Null)])],
        custom: vec![],
    };
    let keys: Vec<String> = r.validate().unwrap_err().messages().into_iter().map(|(k, _)| k).collect();
    assert_eq!(keys, vec!["name", "addresses.1.city"]);
    assert!(keys.iter().all(|k| k == "name" || k.starts_with("addresses.")));
}

#[test]
fn custom_message_replaces_default() {
    let rule = FieldRule { name: "min".into(), params: RuleParams::Value("3".into()), message: Some("Three or more.".into()) };
    let schema = expand(&named(vec![field("a", "String", true, vec![rule])])).unwrap();
    let err = Record { schema, variant: 0, fields: vec![Value::Str("ab".into())], custom: vec![] }.validate().unwrap_err();
    assert_eq!(err.messages()[0].1[0], "Three or more.");
}

#[test]
fn custom_checks_report_their_answer() {
    let schema = expand(&named(vec![
        field("slug", "String", true, vec![FieldRule::value("custom", "unique_slug")]),
        field("code", "String", true, vec![FieldRule::value("custom", "known_code")]),
    ]))
    .unwrap();
    let failure = CustomFailure { field: "slug".into(), function: "unique_slug".into(), message: "Slug is taken.".into() };
    let r = Record { schema: schema.clone(), variant: 0, fields: vec![Value::Str("a".into()), Value::Str("b".into())], custom: vec![failure] };
    let err = r.validate().unwrap_err();
    assert_eq!(err.messages(), vec![("slug".to_string(), vec!["Slug is taken.".to_string()])]);
    assert_eq!(err.field_errors()[0].1[0].rule, "custom");
    let ok = Record { schema, variant: 0, fields: vec![Value::Str("a".into()), Value::Str("b".into())], custom: vec![] };
    assert!(ok.validate().is_ok());
    let no_name = named(vec![field("slug", "String", true, vec![FieldRule::bare("custom")])]);
    assert_eq!(expand(&no_name).unwrap_err(), "custom requires a function name");
}

fn tuple_schema(ty: &str, is_option: bool, rules: Vec<FieldRule>) -> Result<validation::plan::Schema, String> {
    expand(&TypeDef::Struct(StructAttrs { attributes: vec![] }, Fields::Unnamed(vec![field("0", ty, is_option, rules)])))
}

fn tuple_ok(schema: &validation::plan::Schema, v: Value) -> bool {
    Record { schema: schema.clone(), variant: 0, fields: vec![v], custom: vec![] }.validate().is_ok()
}

#[test]
fn tuple_fields_check_every_rule_that_reads_no_other_field() {
    let not_in = tuple_schema(
        "String",
        false,
        vec![FieldRule { name: "not_in".into(), params: RuleParams::List(vec!["Banned".into()]), message: None }],
    )
    .unwrap();
    assert!(tuple_ok(&not_in, Value::Str("Active".into())));
    assert!(!tuple_ok(&not_in, Value::Str("Banned".into())));
    let between = tuple_schema(
        "String",
        false,
        vec![FieldRule { name: "between".into(), params: RuleParams::Named(vec![("min".into(), "2".into()), ("max".into(), "3".into())]), message: None }],
    )
    .unwrap();
    assert!(tuple_ok(&between, Value::Str("ééé".into())));
    assert!(!tuple_ok(&between, Value::Str("éééé".into())));
    let digits = tuple_schema("String", true, vec![FieldRule::value("digits", "4")]).unwrap();
    assert!(tuple_ok(&digits, Value::Str("1234".into())) && !tuple_ok(&digits, Value::Str("123".into())));
    assert!(tuple_ok(&digits, Value::Null));
    let before = tuple_schema("String", false, vec![FieldRule::value("before", "2024-01-01")]).unwrap();
    assert!(tuple_ok(&before, Value::Str("2023-12-31".into())) && !tuple_ok(&before, Value::Str("2024-01-02".into())));
    let size = tuple_schema("Vec", false, vec![FieldRule::value("size", "2")]);
    assert!(size.is_ok());
}

#[test]
fn tuple_fields_skip_rules_that_read_other_fields() {
    let same = tuple_schema("String", false, vec![FieldRule::value("same", "other")]).unwrap();
    assert!(tuple_ok(&same, Value::Str("x".into())));
    let gt = tuple_schema("i32", false, vec![FieldRule::value("gt", "other")]).unwrap();
    assert!(tuple_ok(&gt, Value::Int(0)));
}

#[test]
fn tuple_field_rules_are_refused_like_struct_rules() {
    assert!(tuple_schema("String", false, vec![FieldRule::value("min", "x")]).is_err());
    assert!(tuple_schema("String", false, vec![FieldRule::bare("frobnicate")]).is_err());
    assert!(tuple_schema("String", false, vec![FieldRule::bare("in_list")]).is_err());
    assert_eq!(
        tuple_schema("String", false, vec![FieldRule::bare("bail"), FieldRule::value("max", "3")]).unwrap_err(),
        "use of undeclared label `'bail`"
    );
}

#[test]
fn integers_meet_floats_as_their_nearest_binary64() {
    let big = FieldValue::Int((1i64 << 53) + 1);
    let two53 = f64v(2f64.powi(53));
    assert!(!is_gt(&big, &two53) && is_gte(&big, &two53) && is_lte(&big, &two53));
    assert!(is_lt(&two53, &FieldValue::Int((1i64 << 53) + 3)));
    assert!(is_gte(&f64v(u64::MAX as f64), &FieldValue::Uint(u64::MAX)));
    for n in [0i128, 1, -1, (1 << 53) + 1, (1 << 53) + 3, (1 << 54) - 1, i64::MAX as i128, i64::MIN as i128, u64::MAX as i128, 123_456_789_012_345_678] {
        assert_eq!(binary64_of_int(n), (n as f64) as i128, "n = {}", n);
    }
}

// ── Number bounds read as the field's type reads them ──

fn bound_ok(ty: &str, rule: FieldRule, v: Value) -> bool {
    let schema = expand(&named(vec![field("x", ty, false, vec![rule])])).unwrap();
    Record { schema, variant: 0, fields: vec![v], custom: vec![] }.validate().is_ok()
}

fn fv(x: f64) -> Value {
    Value::Float(x.to_bits())
}

fn next_up(x: f64) -> f64 {
    if x >= 0.0 { f64::from_bits(x.to_bits() + 1) } else { f64::from_bits(x.to_bits() - 1) }
}

fn next_down(x: f64) -> f64 {
    if x > 0.0 {
        f64::from_bits(x.to_bits() - 1)
    } else if x == 0.0 {
        -f64::from_bits(1)
    } else {
        f64::from_bits(x.to_bits() + 1)
    }
}

#[test]
fn decimal_bounds_on_f64_fields_round_like_the_literal() {
    let literals = [
        "0.1", "0.2", "0.3", "0.5", "2.5", "1.7976", "123.456", "0.000001", "3.141592653589793238",
        "0.000000000000000001", "99999999999999999.5", "12345678901234567.89", "-0.1", "-2.25", "5.", "0.0",
    ];
    for lit in literals {
        let b: f64 = lit.parse().unwrap();
        assert!(bound_ok("f64", FieldRule::value("min", lit), fv(b)), "min {}", lit);
        assert!(bound_ok("f64", FieldRule::value("max", lit), fv(b)), "max {}", lit);
        assert!(bound_ok("f64", FieldRule::value("size", lit), fv(b)), "size {}", lit);
        assert!(!bound_ok("f64", FieldRule::value("min", lit), fv(next_down(b))), "min below {}", lit);
        assert!(!bound_ok("f64", FieldRule::value("max", lit), fv(next_up(b))), "max above {}", lit);
    }
    let between = FieldRule { name: "between".into(), params: RuleParams::Named(vec![("min".into(), "-1.5".into()), ("max".into(), "2.25".into())]), message: None };
    assert!(bound_ok("f64", between.clone(), fv(-1.5)) && bound_ok("f64", between.clone(), fv(2.25)));
    assert!(!bound_ok("f64", between.clone(), fv(2.2500000000000004)) && !bound_ok("f64", between, fv(f64::NAN)));
}

#[test]
fn decimal_bounds_on_f32_fields_round_to_single_precision() {
    for lit in ["0.1", "0.3", "1.1", "-7.7", "16777217", "123456.789"] {
        let b32: f32 = lit.parse().unwrap();
        let b = b32 as f64;
        assert!(bound_ok("f32", FieldRule::value("max", lit), fv(b)), "max {}", lit);
        assert!(bound_ok("f32", FieldRule::value("min", lit), fv(b)), "min {}", lit);
        let above = (f32::from_bits(if b32 >= 0.0 { b32.to_bits() + 1 } else { b32.to_bits() - 1 })) as f64;
        assert!(!bound_ok("f32", FieldRule::value("max", lit), fv(above)), "max above {}", lit);
    }
    assert!(!bound_ok("f64", FieldRule::value("max", "0.1"), fv(0.1f32 as f64)));
}

#[test]
fn decimal_bounds_on_integer_fields_truncate_and_saturate() {
    assert!(bound_ok("i32", FieldRule::value("max", "2.7"), Value::Int(2)));
    assert!(!bound_ok("i32", FieldRule::value("max", "2.7"), Value::Int(3)));
    assert!(bound_ok("i32", FieldRule::value("min", "-2.7"), Value::Int(-2)));
    assert!(!bound_ok("i32", FieldRule::value("min", "-2.7"), Value::Int(-3)));
    assert!(bound_ok("u8", FieldRule::value("min", "-0.5"), Value::Uint(0)));
    assert!(bound_ok("u8", FieldRule::value("max", "300.5"), Value::Uint(255)));
    assert!(!bound_ok("u8", FieldRule::value("size", "300.5"), Value::Uint(44)));
    assert!(bound_ok("i64", FieldRule::value("min", "0.99999999999999999"), Value::Int(1)));
    assert!(bound_ok("i64", FieldRule::value("min", "0.9999999999999999"), Value::Int(0)) == (0.9999999999999999f64 as i64 <= 0));
}

#[test]
fn bounds_that_do_not_read_as_numbers_are_refused() {
    for lit in ["1e3", ".5", "+0.5", "0.1234567890123456789", "abc", "1.2.3"] {
        let def = named(vec![field("x", "f64", false, vec![FieldRule::value("min", lit)])]);
        assert_eq!(expand(&def).unwrap_err(), "min value must be a number", "{}", lit);
    }
}

#[test]
fn multiple_of_agrees_with_binary64_remainders() {
    let numerals = [
        "15", "5", "7", "0.3", "0.1", "0.2", "0.25", "1.5", "4.5", "-9", "2.5", "0.7", "100", "0.01", "1.1",
        "3.3", "12345.678", "0.000001", "99999999999999999999", "18446744073709551615", "0", "-0.6", "1e3",
        "2.5e-3", "1E5", "15e-1", "5e0", "1e+2", "-2e1", "0.5e1", "7.", ".25",
    ];
    for v in numerals {
        for n in numerals {
            let x: f64 = v.parse().unwrap();
            let y: f64 = n.parse().unwrap();
            let expected = y != 0.0 && (x % y).abs() < f64::EPSILON;
            assert_eq!(is_multiple_of(v, n), expected, "{} % {}", v, n);
        }
    }
}

#[test]
fn floats_against_fractions_over_powers_of_two() {
    assert_eq!(compare_float_scaled(0.5f64.to_bits(), 1, 1), Some(Order::Equal));
    assert_eq!(compare_float_scaled(0.5f64.to_bits(), 1, 2), Some(Order::Greater));
    assert_eq!(compare_float_scaled((-0.75f64).to_bits(), -3, 2), Some(Order::Equal));
    assert_eq!(compare_float_scaled((-0.75f64).to_bits(), -1, 0), Some(Order::Greater));
    assert_eq!(compare_float_scaled(f64::from_bits(1).to_bits(), 1, 1074), Some(Order::Equal));
    assert_eq!(compare_float_scaled(f64::INFINITY.to_bits(), i128::MAX, 0), Some(Order::Greater));
    assert_eq!(compare_float_scaled(f64::NAN.to_bits(), 0, 3), None);
}
