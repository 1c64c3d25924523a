use validation::attr::{extract_type_info, field_info, parse_field_rules, parse_rules, parse_struct_attrs, tokenize, Attribute, Token};
use validation::expand::expand;
use validation::schema::{FieldRule, Fields, RuleParams, TypeDef};
use validation::validate::{Record, Value};

fn validate_attr(text: &str) -> Attribute {
    Attribute { path: "validate".to_string(), args: Some(text.to_string()) }
}

fn names(rules: &[FieldRule]) -> Vec<String> {
    rules.iter().map(|r| r.name.clone()).collect()
}

fn value_of(rule: &FieldRule) -> Option<String> {
    match &rule.params {
        RuleParams::Value(v) => Some(v.clone()),
        _ => None,
    }
}

#[test]
fn bare_rules_in_order() {
    let rules = parse_rules("required, email, bail").unwrap();
    assert_eq!(names(&rules), vec!["required", "email", "bail"]);
    assert!(rules.iter().all(|r| matches!(r.params, RuleParams::Empty) && r.message.is_none()));
}

#[test]
fn rules_without_commas_still_read() {
    let rules = parse_rules("required email").unwrap();
    assert_eq!(names(&rules), vec!["required", "email"]);
}

#[test]
fn single_values() {
    let rules = parse_rules("min = 2, max = 255, regex = \"^a+$\", custom = my_check").unwrap();
    assert_eq!(value_of(&rules[0]).as_deref(), Some("2"));
    assert_eq!(value_of(&rules[1]).as_deref(), Some("255"));
    assert_eq!(value_of(&rules[2]).as_deref(), Some("^a+$"));
    assert_eq!(value_of(&rules[3]).as_deref(), Some("my_check"));
}

#[test]
fn number_literals_lose_underscores_and_suffixes() {
    let rules = parse_rules("min = 1_000, max = 10u32, size = 1.5, gt = -5, lt = -2.25f64, accepted = true").unwrap();
    let values: Vec<String> = rules.iter().map(|r| value_of(r).unwrap()).collect();
    assert_eq!(values, vec!["1000", "10", "1.5", "-5", "-2.25", "true"]);
}

#[test]
fn named_parameters_and_message() {
    let rules = parse_rules("between(min = 1, max = 10), required_if(field = \"role\", value = \"admin\", message = \"Admins need a code.\")").unwrap();
    match &rules[0].params {
        RuleParams::Named(ps) => assert_eq!(ps, &vec![("min".to_string(), "1".to_string()), ("max".to_string(), "10".to_string())]),
        _ => panic!("expected named parameters"),
    }
    assert_eq!(rules[1].message.as_deref(), Some("Admins need a code."));
    match &rules[1].params {
        RuleParams::Named(ps) => assert_eq!(ps.len(), 2),
        _ => panic!("expected named parameters"),
    }
}

#[test]
fn message_alone_keeps_the_rule_bare() {
    let rules = parse_rules("required(message = \"We need your name!\")").unwrap();
    assert!(matches!(rules[0].params, RuleParams::Empty));
    assert_eq!(rules[0].message.as_deref(), Some("We need your name!"));
}

#[test]
fn list_rules() {
    let rules = parse_rules("in_list(\"user\", \"admin\", \"editor\"), not_in(\"root\", message = \"No.\")").unwrap();
    match &rules[0].params {
        RuleParams::List(items) => assert_eq!(items, &vec!["user".to_string(), "admin".to_string(), "editor".to_string()]),
        _ => panic!("expected a list"),
    }
    assert_eq!(rules[1].message.as_deref(), Some("No."));
}

#[test]
fn raw_strings_and_escapes() {
    let rules = parse_rules(r###"regex(pattern = r"^\d{5}(-\d{4})?$"), contains = "a\"b\\c", starts_with = r#"x"y"#"###).unwrap();
    match &rules[0].params {
        RuleParams::Named(ps) => assert_eq!(ps[0].1, r"^\d{5}(-\d{4})?$"),
        _ => panic!("expected named parameters"),
    }
    assert_eq!(value_of(&rules[1]).as_deref(), Some("a\"b\\c"));
    assert_eq!(value_of(&rules[2]).as_deref(), Some("x\"y"));
}

#[test]
fn malformed_rules_are_refused() {
    assert!(parse_rules("min =").is_err());
    assert!(parse_rules("in_list(foo)").is_err());
    assert!(parse_rules("between(min = 1").is_err());
    assert!(parse_rules("contains = \"abc").is_err());
    assert!(parse_rules("= 3").is_err());
    assert!(parse_rules("min = 0x10").is_err());
    assert!(parse_rules("gt = -\"a\"").is_err());
}

#[test]
fn empty_text_has_no_rules() {
    assert!(parse_rules("").unwrap().is_empty());
    assert!(parse_rules("  ").unwrap().is_empty());
}

#[test]
fn tokens_of_a_rule() {
    let t = tokenize("min = 3,").unwrap();
    assert_eq!(t.len(), 4);
    assert!(matches!(&t[0], Token::Ident(x) if x == "min"));
    assert!(matches!(&t[1], Token::Punct('=')));
    assert!(matches!(&t[2], Token::Number(x) if x == "3"));
    assert!(matches!(&t[3], Token::Punct(',')));
}

#[test]
fn field_rules_from_several_attributes() {
    let attrs = vec![
        validate_attr("required"),
        Attribute { path: "serde".to_string(), args: Some("rename = \"x\"".to_string()) },
        Attribute { path: "validate".to_string(), args: None },
        validate_attr("min = 2, max = 255"),
    ];
    let rules = parse_field_rules(&attrs).unwrap();
    assert_eq!(names(&rules), vec!["required", "min", "max"]);
    let bad = vec![validate_attr("required"), validate_attr("min(")];
    assert!(parse_field_rules(&bad).is_err());
}

#[test]
fn struct_display_names() {
    let attrs = vec![validate_attr("attributes(name = \"full name\", email = \"e-mail address\",)")];
    let a = parse_struct_attrs(&attrs).unwrap();
    assert_eq!(
        a.attributes,
        vec![("name".to_string(), "full name".to_string()), ("email".to_string(), "e-mail address".to_string())]
    );
    let skipped = vec![validate_attr("something_else, attributes(x = \"y\")")];
    assert_eq!(parse_struct_attrs(&skipped).unwrap().attributes.len(), 1);
    assert!(parse_struct_attrs(&vec![Attribute { path: "validate".to_string(), args: None }]).is_err());
    assert!(parse_struct_attrs(&vec![validate_attr("attributes(name = 3)")]).is_err());
    assert!(parse_struct_attrs(&vec![validate_attr("foo = 1")]).is_err());
    assert!(parse_struct_attrs(&vec![Attribute { path: "derive".to_string(), args: None }]).unwrap().attributes.is_empty());
}

#[test]
fn type_shapes() {
    assert_eq!(extract_type_info("Option<String>"), Some((true, false, "String".to_string())));
    assert_eq!(extract_type_info("Vec<Member>"), Some((false, true, "Member".to_string())));
    assert_eq!(extract_type_info("Option<Vec<u8>>"), Some((true, true, "u8".to_string())));
    assert_eq!(extract_type_info("std::option::Option<i32>"), Some((true, false, "i32".to_string())));
    assert_eq!(extract_type_info("f64"), Some((false, false, "f64".to_string())));
    assert_eq!(extract_type_info("std::string::String"), Some((false, false, "String".to_string())));
    assert_eq!(extract_type_info("&'a str"), Some((false, false, String::new())));
    assert_eq!(extract_type_info("HashMap<String, i32>"), Some((false, false, "HashMap".to_string())));
    assert_eq!(extract_type_info("Option<&'a str>"), Some((true, false, String::new())));
    assert_eq!(extract_type_info("Cow<'a, str>"), Some((false, false, "Cow".to_string())));
}

#[test]
fn declared_struct_validates() {
    let fields = vec![
        field_info("email", "Option<String>", &vec![validate_attr("required, email, bail")]).unwrap(),
        field_info("name", "Option<String>", &vec![validate_attr("required, min = 2, max = 255")]).unwrap(),
        field_info("role", "Option<String>", &vec![validate_attr("required, in_list(\"user\", \"admin\", \"editor\")")]).unwrap(),
    ];
    let attrs = parse_struct_attrs(&vec![]).unwrap();
    let schema = expand(&TypeDef::Struct(attrs, Fields::Named(fields))).unwrap();
    let ok = Record {
        schema: schema.clone(),
        variant: 0,
        fields: vec![Value::Str("a@example.com".into()), Value::Str("Jane".into()), Value::Str("admin".into())],
        custom: vec![],
    };
    assert!(ok.validate().is_ok());
    let bad = Record { schema, variant: 0, fields: vec![Value::Null, Value::Str("J".into()), Value::Str("root".into())], custom: vec![] };
    let err = bad.validate().unwrap_err();
    let keys: Vec<String> = err.messages().into_iter().map(|(k, _)| k).collect();
    assert_eq!(keys, vec!["email", "name", "role"]);
}
