# validation

Declarative field validation with Laravel-style rules (`required`, `email`,
`min = 2`, `in_list("a", "b")`, `required_if(field = "role", value = "admin")`,
`nested`, `bail`, ...), verified with Verus.

A type to validate is described by a `TypeDef`: its fields, their types and
their `#[validate(...)]` rules (read from attribute text by `attr`). `expand`
compiles it into a `Schema`; a `Record` holds a value of the type (its variant
and field values) and `Record::validate` returns `Ok(())` or the errors of every
failing check, keyed by dot-notation field paths (`address.city`,
`members.1.email`).

## Layout

- `src/attr.rs` — reading attribute text: tokens, rule lists, display names,
  field types.
- `src/schema.rs`, `src/compile.rs`, `src/expand.rs`, `src/plan.rs` — type
  definitions and their compilation into per-field check plans.
- `src/validate.rs` — records and the validator; `spec_validate` states what
  validation returns, and the laws on `bail`, `nullable`/`sometimes`, nested
  paths and unit variants are proved there and in `expand.rs`.
- `src/error.rs` — `ValidationErrors` and its model (a map from paths to
  errors).
- `src/rules/` — the rule predicates; `binary64.rs` compares floating-point
  values, held by their bit patterns, by exact value, and rounds integers and
  decimal numerals to `f32` or `f64` precision: a bound such as `max = 0.1`
  on a float field is the number the literal converts to, and `multiple_of`
  reads both numbers as `f64` values.
- `src/deserialize.rs` — deserialization failures as field-level errors.
- `app/lib.rs` — JSON and form deserialization, error serialization and the
  axum extractors (`Valid`, `ValidWith`, `ValidForm`, `ValidQuery`).
