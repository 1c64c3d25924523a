use std::collections::HashMap;

use validation::error::ValidationErrors;
use validation::expand::expand;
use validation::plan::Schema;
use validation::schema::{FieldInfo, FieldRule, Fields, RuleParams, StructAttrs, TypeDef};
use validation::validate::{Record, Value};

fn rule(name: &str) -> FieldRule {
    FieldRule::bare(name)
}

fn rule_eq(name: &str, value: &str) -> FieldRule {
    FieldRule::value(name, value)
}

fn rule_named(name: &str, params: &[(&str, &str)]) -> FieldRule {
    FieldRule {
        name: name.to_string(),
        params: RuleParams::Named(params.iter().map(|(k, v)| (k.to_string(), v.to_string())).collect()),
        message: None,
    }
}

fn rule_list(name: &str, items: &[&str]) -> FieldRule {
    FieldRule {
        name: name.to_string(),
        params: RuleParams::List(items.iter().map(|s| s.to_string()).collect()),
        message: None,
    }
}

fn opt_field(name: &str, ty: &str, rules: Vec<FieldRule>) -> FieldInfo {
    FieldInfo { name: name.to_string(), rules, is_option: true, is_vec: false, inner_type: ty.to_string() }
}

fn plain_field(name: &str, ty: &str, rules: Vec<FieldRule>) -> FieldInfo {
    FieldInfo { name: name.to_string(), rules, is_option: false, is_vec: false, inner_type: ty.to_string() }
}

fn vec_field(name: &str, ty: &str, rules: Vec<FieldRule>) -> FieldInfo {
    FieldInfo { name: name.to_string(), rules, is_option: false, is_vec: true, inner_type: ty.to_string() }
}

fn struct_schema(attrs: &[(&str, &str)], fields: Vec<FieldInfo>) -> Schema {
    let attrs = StructAttrs {
        attributes: attrs.iter().map(|(k, v)| (k.to_string(), v.to_string())).collect(),
    };
    expand(&TypeDef::Struct(attrs, Fields::Named(fields))).expect("schema compiles")
}

fn s(v: &str) -> Value {
    Value::Str(v.to_string())
}

fn record(schema: &Schema, fields: Vec<Value>) -> Record {
    Record { schema: schema.clone(), variant: 0, fields, custom: vec![] }
}

fn messages(err: &ValidationErrors) -> HashMap<String, Vec<String>> {
    err.messages().into_iter().collect()
}

fn create_user() -> Schema {
    struct_schema(
        &[],
        vec![
            opt_field("email", "String", vec![rule("required"), rule("email"), rule("bail")]),
            opt_field("name", "String", vec![rule("required"), rule_eq("min", "2"), rule_eq("max", "255")]),
            opt_field("password", "String", vec![rule("required"), rule_eq("min", "8"), rule("confirmed")]),
            opt_field("password_confirmation", "String", vec![]),
            opt_field("website", "String", vec![rule("nullable"), rule("url")]),
            opt_field("role", "String", vec![rule("required"), rule_list("in_list", &["user", "admin", "editor"])]),
        ],
    )
}

fn user(email: Option<&str>, name: Option<&str>, password: Option<&str>, confirmation: Option<&str>, website: Option<&str>, role: Option<&str>) -> Record {
    let v = |x: Option<&str>| match x {
        Some(t) => s(t),
        None => Value::Null,
    };
    record(&create_user(), vec![v(email), v(name), v(password), v(confirmation), v(website), v(role)])
}

#[test]
fn test_valid_user() {
    let u = user(Some("test@example.com"), Some("John Doe"), Some("secretpassword"), Some("secretpassword"), None, Some("admin"));
    assert!(u.validate().is_ok());
}

#[test]
fn test_required_fields() {
    let u = user(None, None, None, None, None, None);
    let err = u.validate().unwrap_err();
    let msgs = messages(&err);
    assert!(msgs.contains_key("email"));
    assert!(msgs.contains_key("name"));
    assert!(msgs.contains_key("password"));
    assert!(msgs.contains_key("role"));
    assert!(!msgs.contains_key("website"));
}

#[test]
fn test_email_validation() {
    let u = user(Some("not-an-email"), Some("John"), Some("secretpassword"), Some("secretpassword"), None, Some("user"));
    let err = u.validate().unwrap_err();
    let msgs = messages(&err);
    assert!(msgs.contains_key("email"));
    assert!(msgs["email"][0].contains("email"));
}

#[test]
fn test_bail_stops_at_first_error() {
    let u = user(None, Some("John"), Some("secretpassword"), Some("secretpassword"), None, Some("user"));
    let err = u.validate().unwrap_err();
    let email_errs = &messages(&err)["email"];
    assert_eq!(email_errs.len(), 1, "bail should stop at first error");
    assert!(email_errs[0].contains("required"));
}

#[test]
fn test_min_max_length() {
    let u = user(Some("test@example.com"), Some("A"), Some("short"), Some("short"), None, Some("user"));
    let err = u.validate().unwrap_err();
    let msgs = messages(&err);
    assert!(msgs.contains_key("name"));
    assert!(msgs.contains_key("password"));
}

#[test]
fn test_confirmed() {
    let u = user(Some("test@example.com"), Some("John"), Some("secretpassword"), Some("different"), None, Some("user"));
    let err = u.validate().unwrap_err();
    let msgs = messages(&err);
    assert!(msgs.contains_key("password"));
    assert!(msgs["password"].iter().any(|m| m.contains("confirmation")));
}

#[test]
fn test_in_list() {
    let u = user(Some("test@example.com"), Some("John"), Some("secretpassword"), Some("secretpassword"), None, Some("superadmin"));
    let err = u.validate().unwrap_err();
    assert!(messages(&err).contains_key("role"));
}

#[test]
fn test_nullable_allows_none() {
    let u = user(Some("test@example.com"), Some("John"), Some("secretpassword"), Some("secretpassword"), None, Some("user"));
    assert!(u.validate().is_ok());
}

#[test]
fn test_nullable_validates_when_present() {
    let u = user(Some("test@example.com"), Some("John"), Some("secretpassword"), Some("secretpassword"), Some("not-a-url"), Some("user"));
    let err = u.validate().unwrap_err();
    assert!(messages(&err).contains_key("website"));
}

#[test]
fn test_url_validation() {
    let u = user(Some("test@example.com"), Some("John"), Some("secretpassword"), Some("secretpassword"), Some("https://example.com"), Some("user"));
    assert!(u.validate().is_ok());
}

fn order(customer_name: Option<&str>, line1: Option<&str>, city: Option<&str>) -> Record {
    let address = struct_schema(
        &[],
        vec![
            opt_field("line1", "String", vec![rule("required"), rule_eq("max", "255")]),
            opt_field("city", "String", vec![rule("required")]),
        ],
    );
    let order = struct_schema(
        &[],
        vec![
            opt_field("customer_name", "String", vec![rule("required")]),
            plain_field("address", "Address", vec![rule("nested")]),
        ],
    );
    let v = |x: Option<&str>| match x {
        Some(t) => s(t),
        None => Value::Null,
    };
    let addr = record(&address, vec![v(line1), v(city)]);
    record(&order, vec![v(customer_name), Value::Record(Box::new(addr))])
}

#[test]
fn test_nested_validation() {
    let o = order(Some("John"), None, None);
    let err = o.validate().unwrap_err();
    let msgs = messages(&err);
    assert!(msgs.contains_key("address.line1"));
    assert!(msgs.contains_key("address.city"));
}

#[test]
fn test_nested_valid() {
    let o = order(Some("John"), Some("123 Main St"), Some("Springfield"));
    assert!(o.validate().is_ok());
}

#[test]
fn test_vec_nested_validation() {
    let member = struct_schema(&[], vec![opt_field("email", "String", vec![rule("required"), rule("email")])]);
    let team = struct_schema(
        &[],
        vec![
            opt_field("name", "String", vec![rule("required")]),
            vec_field("members", "Member", vec![rule("nested")]),
        ],
    );
    let m0 = record(&member, vec![s("valid@example.com")]);
    let m1 = record(&member, vec![Value::Null]);
    let m2 = record(&member, vec![s("invalid")]);
    let t = record(
        &team,
        vec![s("Avengers"), Value::List(vec![Value::Record(Box::new(m0)), Value::Record(Box::new(m1)), Value::Record(Box::new(m2))])],
    );
    let err = t.validate().unwrap_err();
    let msgs = messages(&err);
    assert!(msgs.contains_key("members.1.email"));
    assert!(msgs.contains_key("members.2.email"));
    assert!(!msgs.contains_key("members.0.email"));
}

fn profile(name: Option<&str>, email: Option<&str>) -> Record {
    let schema = struct_schema(
        &[("name", "full name")],
        vec![
            opt_field("name", "String", vec![rule("required").with_message("We need your name!"), rule_eq("min", "2")]),
            opt_field("email", "String", vec![rule("required"), rule("email").with_message("That doesn't look like a valid email.")]),
        ],
    );
    let v = |x: Option<&str>| match x {
        Some(t) => s(t),
        None => Value::Null,
    };
    record(&schema, vec![v(name), v(email)])
}

#[test]
fn test_custom_messages() {
    let p = profile(None, Some("bad"));
    let err = p.validate().unwrap_err();
    let msgs = messages(&err);
    assert_eq!(msgs["name"][0], "We need your name!");
    assert_eq!(msgs["email"][0], "That doesn't look like a valid email.");
}

#[test]
fn test_attribute_names_in_default_messages() {
    let p = profile(Some("A"), None);
    let err = p.validate().unwrap_err();
    let msgs = messages(&err);
    assert!(msgs["name"][0].contains("full name"));
}

fn registration(role: &str) -> Record {
    let reg = struct_schema(
        &[],
        vec![
            opt_field("role", "String", vec![rule("required"), rule_list("in_list", &["user", "admin"])]),
            opt_field("admin_code", "String", vec![rule_named("required_if", &[("field", "role"), ("value", "admin")])]),
        ],
    );
    record(&reg, vec![s(role), Value::Null])
}

#[test]
fn test_required_if_triggers() {
    let r = registration("admin");
    let err = r.validate().unwrap_err();
    assert!(messages(&err).contains_key("admin_code"));
}

#[test]
fn test_required_if_skips() {
    let r = registration("user");
    assert!(r.validate().is_ok());
}

#[test]
fn test_error_serialization() {
    let u = user(None, None, None, None, None, None);
    let err = u.validate().unwrap_err();
    let json = serde_json::to_value(messages(&err)).unwrap();
    assert!(json.is_object());
    assert!(json.get("email").is_some());
    assert!(json["email"].is_array());
}

fn format_tests(alpha: Option<&str>, uuid: Option<&str>) -> Record {
    let schema = struct_schema(
        &[],
        vec![
            opt_field("alpha_field", "String", vec![rule("nullable"), rule("alpha")]),
            opt_field("alpha_num_field", "String", vec![rule("nullable"), rule("alpha_num")]),
            opt_field("alpha_dash_field", "String", vec![rule("nullable"), rule("alpha_dash")]),
            opt_field("numeric_field", "String", vec![rule("nullable"), rule("numeric")]),
            opt_field("uuid_field", "String", vec![rule("nullable"), rule("uuid")]),
            opt_field("ip_field", "String", vec![rule("nullable"), rule("ip")]),
            opt_field("ascii_field", "String", vec![rule("nullable"), rule("ascii")]),
        ],
    );
    let v = |x: Option<&str>| match x {
        Some(t) => s(t),
        None => Value::Null,
    };
    record(&schema, vec![v(alpha), Value::Null, Value::Null, Value::Null, v(uuid), Value::Null, Value::Null])
}

#[test]
fn test_alpha() {
    let t = format_tests(Some("abc123"), None);
    let err = t.validate().unwrap_err();
    assert!(messages(&err).contains_key("alpha_field"));
}

#[test]
fn test_uuid_valid() {
    let t = format_tests(None, Some("550e8400-e29b-41d4-a716-446655440000"));
    assert!(t.validate().is_ok());
}

#[test]
fn test_uuid_invalid() {
    let t = format_tests(None, Some("not-a-uuid"));
    assert!(t.validate().is_err());
}
