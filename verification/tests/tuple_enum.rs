use validation::error::ValidationErrors;
use validation::expand::expand;
use validation::plan::Schema;
use validation::schema::{FieldInfo, FieldRule, Fields, RuleParams, StructAttrs, TypeDef, VariantDef};
use validation::validate::{Record, Value};

fn rule(name: &str) -> FieldRule {
    FieldRule::bare(name)
}

fn rule_eq(name: &str, value: &str) -> FieldRule {
    FieldRule::value(name, value)
}

fn rule_list(name: &str, items: &[&str]) -> FieldRule {
    FieldRule {
        name: name.to_string(),
        params: RuleParams::List(items.iter().map(|s| s.to_string()).collect()),
        message: None,
    }
}

fn field(name: &str, ty: &str, is_option: bool, rules: Vec<FieldRule>) -> FieldInfo {
    FieldInfo { name: name.to_string(), rules, is_option, is_vec: false, inner_type: ty.to_string() }
}

fn no_attrs() -> StructAttrs {
    StructAttrs { attributes: vec![] }
}

fn s(v: &str) -> Value {
    Value::Str(v.to_string())
}

fn some(v: &str) -> Value {
    s(v)
}

fn record(schema: &Schema, variant: usize, fields: Vec<Value>) -> Record {
    Record { schema: schema.clone(), variant, fields, custom: vec![] }
}

fn has_key(err: &ValidationErrors, key: &str) -> bool {
    err.messages().iter().any(|(k, _)| k == key)
}

// ── Tuple struct (newtype) ──

fn email_schema() -> Schema {
    let fs = vec![field("0", "String", true, vec![rule("required"), rule("email")])];
    expand(&TypeDef::Struct(no_attrs(), Fields::Unnamed(fs))).expect("schema compiles")
}

#[test]
fn test_tuple_struct_valid() {
    let e = record(&email_schema(), 0, vec![some("user@example.com")]);
    assert!(e.validate().is_ok());
}

#[test]
fn test_tuple_struct_invalid_email() {
    let e = record(&email_schema(), 0, vec![some("not-email")]);
    assert!(e.validate().is_err());
}

#[test]
fn test_tuple_struct_required() {
    let e = record(&email_schema(), 0, vec![Value::Null]);
    let err = e.validate().unwrap_err();
    assert!(has_key(&err, "0"));
}

fn score_schema() -> Schema {
    let fs = vec![field("0", "i32", false, vec![rule_eq("min", "0"), rule_eq("max", "100")])];
    expand(&TypeDef::Struct(no_attrs(), Fields::Unnamed(fs))).expect("schema compiles")
}

#[test]
fn test_tuple_struct_numeric_valid() {
    let sc = record(&score_schema(), 0, vec![Value::Int(50)]);
    assert!(sc.validate().is_ok());
}

#[test]
fn test_tuple_struct_numeric_invalid() {
    let sc = record(&score_schema(), 0, vec![Value::Int(101)]);
    assert!(sc.validate().is_err());
}

// ── Enum with named fields ──

fn contact_schema() -> Schema {
    let variants = vec![
        VariantDef {
            name: "Email".to_string(),
            fields: Fields::Named(vec![field("address", "String", true, vec![rule("required"), rule("email")])]),
        },
        VariantDef {
            name: "Phone".to_string(),
            fields: Fields::Named(vec![field("number", "String", true, vec![rule("required"), rule_eq("min", "5")])]),
        },
        VariantDef { name: "None".to_string(), fields: Fields::Unit },
    ];
    expand(&TypeDef::Enum(no_attrs(), variants)).expect("schema compiles")
}

#[test]
fn test_enum_email_valid() {
    let c = record(&contact_schema(), 0, vec![some("user@example.com")]);
    assert!(c.validate().is_ok());
}

#[test]
fn test_enum_email_invalid() {
    let c = record(&contact_schema(), 0, vec![some("bad")]);
    assert!(c.validate().is_err());
}

#[test]
fn test_enum_email_required() {
    let c = record(&contact_schema(), 0, vec![Value::Null]);
    let err = c.validate().unwrap_err();
    assert!(has_key(&err, "address"));
}

#[test]
fn test_enum_phone_valid() {
    let c = record(&contact_schema(), 1, vec![some("12345")]);
    assert!(c.validate().is_ok());
}

#[test]
fn test_enum_phone_too_short() {
    let c = record(&contact_schema(), 1, vec![some("123")]);
    assert!(c.validate().is_err());
}

#[test]
fn test_enum_unit_variant_always_valid() {
    let c = record(&contact_schema(), 2, vec![]);
    assert!(c.validate().is_ok());
}

// ── Enum with tuple variants ──

fn wrapper_schema() -> Schema {
    let variants = vec![
        VariantDef {
            name: "Text".to_string(),
            fields: Fields::Unnamed(vec![field("0", "String", true, vec![rule("required"), rule_eq("min", "1")])]),
        },
        VariantDef {
            name: "Number".to_string(),
            fields: Fields::Unnamed(vec![field("0", "i32", false, vec![rule_eq("min", "0"), rule_eq("max", "999")])]),
        },
        VariantDef { name: "Empty".to_string(), fields: Fields::Unit },
    ];
    expand(&TypeDef::Enum(no_attrs(), variants)).expect("schema compiles")
}

#[test]
fn test_enum_tuple_variant_valid() {
    let w = record(&wrapper_schema(), 0, vec![some("hello")]);
    assert!(w.validate().is_ok());
}

#[test]
fn test_enum_tuple_variant_required() {
    let w = record(&wrapper_schema(), 0, vec![Value::Null]);
    assert!(w.validate().is_err());
}

#[test]
fn test_enum_tuple_number_valid() {
    let w = record(&wrapper_schema(), 1, vec![Value::Int(42)]);
    assert!(w.validate().is_ok());
}

#[test]
fn test_enum_tuple_number_invalid() {
    let w = record(&wrapper_schema(), 1, vec![Value::Int(1000)]);
    assert!(w.validate().is_err());
}

#[test]
fn test_enum_empty_variant() {
    let w = record(&wrapper_schema(), 2, vec![]);
    assert!(w.validate().is_ok());
}

// ── Nested: tuple struct used in another struct ──

fn profile(name: &str, email: &str) -> Record {
    let email_address = {
        let fs = vec![field("0", "String", false, vec![rule("email")])];
        expand(&TypeDef::Struct(no_attrs(), Fields::Unnamed(fs))).expect("schema compiles")
    };
    let profile = {
        let fs = vec![
            field("name", "String", true, vec![rule("required")]),
            field("email", "EmailAddress", false, vec![rule("nested")]),
        ];
        expand(&TypeDef::Struct(no_attrs(), Fields::Named(fs))).expect("schema compiles")
    };
    let inner = record(&email_address, 0, vec![s(email)]);
    record(&profile, 0, vec![some(name), Value::Record(Box::new(inner))])
}

#[test]
fn test_nested_tuple_struct_valid() {
    let u = profile("John", "user@example.com");
    assert!(u.validate().is_ok());
}

#[test]
fn test_nested_tuple_struct_invalid() {
    let u = profile("John", "bad");
    let err = u.validate().unwrap_err();
    assert!(has_key(&err, "email.0"));
}

// ── An enum field checked through its string form ──

fn status_record(rules: Vec<FieldRule>, status: &str) -> Record {
    let fs = vec![field("status", "UserStatus", false, rules)];
    let schema = expand(&TypeDef::Struct(no_attrs(), Fields::Named(fs))).expect("schema compiles");
    record(&schema, 0, vec![s(status)])
}

#[test]
fn test_enum_in_list_via_strum_valid() {
    let u = status_record(vec![rule_list("in_list", &["Active", "Inactive"])], "Active");
    assert!(u.validate().is_ok());
}

#[test]
fn test_enum_in_list_via_strum_invalid() {
    let u = status_record(vec![rule_list("in_list", &["Active", "Inactive"])], "Banned");
    assert!(u.validate().is_err());
}

#[test]
fn test_enum_not_in_via_strum_valid() {
    let a = status_record(vec![rule_list("not_in", &["Banned"])], "Active");
    assert!(a.validate().is_ok());
}

#[test]
fn test_enum_not_in_via_strum_invalid() {
    let a = status_record(vec![rule_list("not_in", &["Banned"])], "Banned");
    assert!(a.validate().is_err());
}
