//! Compiling a whole type definition into a [`Schema`].
//!
//! - A named struct field gets its display name from the type's
//!   `attributes` (else its name with `_` as spaces), runs its rules in
//!   order, may `bail` at the first failure, and with `sometimes` or
//!   `nullable` on an optional field skips its rules when the field is
//!   absent (`nullable` still runs `required`).
//! - A tuple-struct field is named by its position (display name from the
//!   attributes, else the position); an enum variant's named field is
//!   displayed like a struct field, a tuple variant's field by position.
//!   Their rules are the reduced set that needs no other field.
//! - `bail` where the generated code could not stop (a tuple or variant
//!   field with a check, or an optional `nullable` field with `required`)
//!   fails compilation.
use vstd::prelude::*;
use crate::compile::{
    compile_struct_rule, compile_variant_rule, is_convertible, keeps_name_and_message, lemma_struct_rule_message,
    rule_view, spaced, struct_rule, variant_rule,
};
use crate::error::{errors_at, param_lookup, ErrorModel, ErrorsModel};
use crate::plan::{plans_model, Check, CheckM, CompiledRule, FieldPlan, FieldPlanM, Guard, RuleM, Schema, SchemaM};
use crate::schema::{
    fields_model, pairs_model, FieldInfo, FieldInfoM, FieldRuleM, Fields, FieldsM, TypeDef, TypeDefM, VariantDef,
};
use crate::text::str_eq;
use crate::validate::{
    decimal, decimal_string, field_effect, CustomFailureM, lemma_absent_skipped, lemma_bail_at_most_one, lemma_no_rules_valid, spec_validate,
    Record, Value,
};

verus! {

/// A rule that shapes how the others run: `bail`, `nullable`, `sometimes`.
pub open spec fn is_meta(name: Seq<char>) -> bool {
    name == "bail"@ || name == "nullable"@ || name == "sometimes"@
}

/// Some rule of the list is named `name`.
pub open spec fn has_rule(rules: Seq<FieldRuleM>, name: Seq<char>) -> bool {
    exists|i: int| 0 <= i < rules.len() && #[trigger] rules[i].name == name
}

/// The rules other than `bail`, `nullable` and `sometimes`, in order.
pub open spec fn real_rules(rules: Seq<FieldRuleM>) -> Seq<FieldRuleM>
    decreases rules.len(),
{
    if rules.len() == 0 {
        Seq::empty()
    } else {
        let p = real_rules(rules.drop_last());
        if is_meta(rules.last().name) {
            p
        } else {
            p.push(rules.last())
        }
    }
}

/// The rules of a named struct field compiled in order; the first rule that
/// does not compile decides the error.
pub open spec fn struct_rules(rs: Seq<FieldRuleM>, f: FieldInfoM, d: Seq<char>, fields: Seq<FieldInfoM>) -> Result<Seq<RuleM>, Seq<char>>
    decreases rs.len(),
{
    if rs.len() == 0 {
        Ok(Seq::empty())
    } else {
        match struct_rules(rs.drop_last(), f, d, fields) {
            Err(e) => Err(e),
            Ok(done) => match struct_rule(rs.last(), f, d, fields) {
                Err(e) => Err(e),
                Ok(c) => Ok(done.push(c)),
            },
        }
    }
}

/// The rules of a tuple or variant field compiled in order.
pub open spec fn variant_rules(rs: Seq<FieldRuleM>, f: FieldInfoM, d: Seq<char>) -> Result<Seq<RuleM>, Seq<char>>
    decreases rs.len(),
{
    if rs.len() == 0 {
        Ok(Seq::empty())
    } else {
        match variant_rules(rs.drop_last(), f, d) {
            Err(e) => Err(e),
            Ok(done) => match variant_rule(rs.last(), f, d) {
                Err(e) => Err(e),
                Ok(c) => Ok(done.push(c)),
            },
        }
    }
}

/// The display name of a named field: its attribute, else its name with
/// `_` as spaces.
pub open spec fn display_name(attrs: Seq<(Seq<char>, Seq<char>)>, name: Seq<char>) -> Seq<char> {
    match param_lookup(attrs, name) {
        Some(v) => v,
        None => spaced(name),
    }
}

/// The display name of a tuple-struct field: its attribute, else its
/// position.
pub open spec fn tuple_display_name(attrs: Seq<(Seq<char>, Seq<char>)>, name: Seq<char>) -> Seq<char> {
    match param_lookup(attrs, name) {
        Some(v) => v,
        None => name,
    }
}

/// The compiled rules without any `required`.
pub open spec fn without_required(rs: Seq<RuleM>) -> Seq<RuleM>
    decreases rs.len(),
{
    if rs.len() == 0 {
        Seq::empty()
    } else {
        let p = without_required(rs.drop_last());
        if rs.last().rule == "required"@ {
            p
        } else {
            p.push(rs.last())
        }
    }
}

/// Position of the first compiled `required` rule.
pub open spec fn first_required(rs: Seq<RuleM>) -> Option<int> {
    if exists|i: int| 0 <= i < rs.len() && #[trigger] rs[i].rule == "required"@ {
        Some(choose|i: int| 0 <= i < rs.len() && #[trigger] rs[i].rule == "required"@
            && forall|j: int| 0 <= j < i ==> rs[j].rule != "required"@)
    } else {
        None
    }
}

/// How the rules of a named struct field run: the guard and the rules in
/// running order.
pub open spec fn struct_guard(f: FieldInfoM, rs: Seq<RuleM>) -> (Guard, Seq<RuleM>) {
    let sometimes = has_rule(f.rules, "sometimes"@);
    let nullable = has_rule(f.rules, "nullable"@);
    if f.is_option && sometimes {
        (Guard::IfPresent, rs)
    } else if f.is_option && nullable {
        match first_required(rs) {
            Some(i) => (Guard::RequiredFirst, seq![rs[i]] + without_required(rs.remove(i))),
            None => (Guard::IfPresent, rs),
        }
    } else {
        (Guard::Always, rs)
    }
}

/// The plan of a named struct field of a struct with fields `fields`.
pub open spec fn struct_field(f: FieldInfoM, attrs: Seq<(Seq<char>, Seq<char>)>, fields: Seq<FieldInfoM>) -> Result<FieldPlanM, Seq<char>> {
    let d = display_name(attrs, f.name);
    match struct_rules(real_rules(f.rules), f, d, fields) {
        Err(e) => Err(e),
        Ok(rs) => {
            let (guard, order) = struct_guard(f, rs);
            Ok(FieldPlanM {
                name: f.name,
                is_option: f.is_option,
                is_vec: f.is_vec,
                convertible: is_convertible(f.inner_type),
                bail: has_rule(f.rules, "bail"@) && guard != Guard::RequiredFirst,
                guard,
                rules: order,
            })
        },
    }
}

/// The plan of a tuple or variant field named `name` (its position for a
/// tuple field) with display name `d`.
pub open spec fn variant_field(f: FieldInfoM, name: Seq<char>, d: Seq<char>) -> Result<FieldPlanM, Seq<char>> {
    match variant_rules(real_rules(f.rules), f, d) {
        Err(e) => Err(e),
        Ok(rs) => Ok(FieldPlanM {
            name,
            is_option: f.is_option,
            is_vec: f.is_vec,
            convertible: is_convertible(f.inner_type),
            bail: false,
            guard: Guard::Always,
            rules: rs,
        }),
    }
}

/// The plans of the fields `fs` of a named struct whose fields are `all`.
pub open spec fn struct_fields(fs: Seq<FieldInfoM>, attrs: Seq<(Seq<char>, Seq<char>)>, all: Seq<FieldInfoM>) -> Result<Seq<FieldPlanM>, Seq<char>>
    decreases fs.len(),
{
    if fs.len() == 0 {
        Ok(Seq::empty())
    } else {
        match struct_fields(fs.drop_last(), attrs, all) {
            Err(e) => Err(e),
            Ok(done) => match struct_field(fs.last(), attrs, all) {
                Err(e) => Err(e),
                Ok(p) => Ok(done.push(p)),
            },
        }
    }
}

/// The name of tuple field `i`: its position.
pub open spec fn position_name(i: int) -> Seq<char> {
    decimal(i as nat)
}

/// The plans of tuple fields (`in_struct`: of a tuple struct, whose display
/// names come from the attributes) or of a named variant's fields.
pub open spec fn other_fields(fs: Seq<FieldInfoM>, attrs: Seq<(Seq<char>, Seq<char>)>, shape: FieldShape) -> Result<Seq<FieldPlanM>, Seq<char>>
    decreases fs.len(),
{
    if fs.len() == 0 {
        Ok(Seq::empty())
    } else {
        match other_fields(fs.drop_last(), attrs, shape) {
            Err(e) => Err(e),
            Ok(done) => {
                let i = fs.len() - 1;
                let f = fs.last();
                let (name, d) = match shape {
                    FieldShape::TupleStruct => (position_name(i), tuple_display_name(attrs, position_name(i))),
                    FieldShape::TupleVariant => (position_name(i), position_name(i)),
                    FieldShape::NamedVariant => (f.name, display_name(attrs, f.name)),
                };
                match variant_field(f, name, d) {
                    Err(e) => Err(e),
                    Ok(p) => Ok(done.push(p)),
                }
            },
        }
    }
}

/// Where a field that gets the reduced rule set sits.
#[derive(Clone, Copy, Debug, PartialEq, Eq, Structural)]
pub enum FieldShape {
    TupleStruct,
    TupleVariant,
    NamedVariant,
}

/// A check after which a `bail` would have to stop: any check that can
/// fail on the field itself (not a nested record's, and not a check of
/// nothing).
pub open spec fn breaks(c: CheckM) -> bool {
    !(c is Nested || c is Nothing)
}

/// Some check of the plan is one after which a `bail` would stop.
pub open spec fn has_breaking(p: FieldPlanM) -> bool {
    exists|i: int| 0 <= i < p.rules.len() && breaks(#[trigger] p.rules[i].check)
}

/// The field asks to `bail` where its generated code could not stop.
pub open spec fn bail_misplaced(f: FieldInfoM, p: FieldPlanM, reduced: bool) -> bool {
    has_rule(f.rules, "bail"@) && if reduced {
        has_breaking(p)
    } else {
        p.guard == Guard::RequiredFirst
    }
}

/// Some field of `fs` (with plans `ps`) asks to `bail` where it cannot.
pub open spec fn any_bail_misplaced(fs: Seq<FieldInfoM>, ps: Seq<FieldPlanM>, reduced: bool) -> bool {
    exists|i: int| 0 <= i < fs.len() && i < ps.len() && #[trigger] bail_misplaced(fs[i], ps[i], reduced)
}

/// The fields of a variant (none for a unit variant).
pub open spec fn variant_fields(v: FieldsM) -> Seq<FieldInfoM> {
    match v {
        FieldsM::Named(fs) => fs,
        FieldsM::Unnamed(fs) => fs,
        FieldsM::Unit => Seq::empty(),
    }
}

/// The plans of one enum variant.
pub open spec fn variant_plans(v: FieldsM, attrs: Seq<(Seq<char>, Seq<char>)>) -> Result<Seq<FieldPlanM>, Seq<char>> {
    match v {
        FieldsM::Named(fs) => other_fields(fs, attrs, FieldShape::NamedVariant),
        FieldsM::Unnamed(fs) => other_fields(fs, attrs, FieldShape::TupleVariant),
        FieldsM::Unit => Ok(Seq::empty()),
    }
}

/// The plans of the variants `vs`.
pub open spec fn enum_variants(vs: Seq<FieldsM>, attrs: Seq<(Seq<char>, Seq<char>)>) -> Result<Seq<Seq<FieldPlanM>>, Seq<char>>
    decreases vs.len(),
{
    if vs.len() == 0 {
        Ok(Seq::empty())
    } else {
        match enum_variants(vs.drop_last(), attrs) {
            Err(e) => Err(e),
            Ok(done) => match variant_plans(vs.last(), attrs) {
                Err(e) => Err(e),
                Ok(p) => Ok(done.push(p)),
            },
        }
    }
}

/// The error of a misplaced `bail`.
pub open spec fn bail_error() -> Seq<char> {
    "use of undeclared label `'bail`"@
}

/// The schema a type definition compiles to, or why it does not compile.
pub open spec fn spec_expand(def: TypeDefM) -> Result<SchemaM, Seq<char>> {
    match def {
        TypeDefM::Union => Err("Validate cannot be derived for unions"@),
        TypeDefM::Struct(attrs, FieldsM::Named(fs)) => match struct_fields(fs, attrs, fs) {
            Err(e) => Err(e),
            Ok(ps) => if any_bail_misplaced(fs, ps, false) {
                Err(bail_error())
            } else {
                Ok(SchemaM { variants: seq![ps] })
            },
        },
        TypeDefM::Struct(attrs, FieldsM::Unnamed(fs)) => match other_fields(fs, attrs, FieldShape::TupleStruct) {
            Err(e) => Err(e),
            Ok(ps) => if any_bail_misplaced(fs, ps, true) {
                Err(bail_error())
            } else {
                Ok(SchemaM { variants: seq![ps] })
            },
        },
        TypeDefM::Struct(_, FieldsM::Unit) => Ok(SchemaM { variants: seq![Seq::empty()] }),
        TypeDefM::Enum(attrs, vs) => match enum_variants(vs, attrs) {
            Err(e) => Err(e),
            Ok(vps) => if exists|v: int| 0 <= v < vs.len() && v < vps.len()
                && #[trigger] any_bail_misplaced(variant_fields(vs[v]), vps[v], true) {
                Err(bail_error())
            } else {
                Ok(SchemaM { variants: vps })
            },
        },
    }
}

/// The models of a list of compiled rules.
pub open spec fn rules_model(v: Seq<CompiledRule>) -> Seq<RuleM> {
    v.map_values(|c: CompiledRule| c@)
}

/// The model of a compiled rule list result.
pub open spec fn rules_result(r: Result<Vec<CompiledRule>, String>) -> Result<Seq<RuleM>, Seq<char>> {
    match r {
        Ok(v) => Ok(rules_model(v@)),
        Err(e) => Err(e@),
    }
}

/// The model of a field plan result.
pub open spec fn plan_result(r: Result<FieldPlan, String>) -> Result<FieldPlanM, Seq<char>> {
    match r {
        Ok(p) => Ok(p@),
        Err(e) => Err(e@),
    }
}

/// The model of a list-of-plans result.
pub open spec fn plans_result(r: Result<Vec<FieldPlan>, String>) -> Result<Seq<FieldPlanM>, Seq<char>> {
    match r {
        Ok(v) => Ok(plans_model(v@)),
        Err(e) => Err(e@),
    }
}

/// Is the rule named `name` one that shapes how the others run?
fn is_meta_name(name: &str) -> (r: bool)
    ensures
        r == is_meta(name@),
{
    str_eq(name, "bail") || str_eq(name, "nullable") || str_eq(name, "sometimes")
}

/// Does field `f` carry a rule named `name`?
fn has_rule_of(f: &FieldInfo, name: &str) -> (r: bool)
    ensures
        r == has_rule(f@.rules, name@),
{
    let mut i: usize = 0;
    while i < f.rules.len()
        invariant
            i <= f.rules@.len(),
            forall|j: int| 0 <= j < i ==> f@.rules[j].name != name@,
        decreases f.rules@.len() - i,
    {
        assert(f@.rules[i as int] == f.rules@[i as int]@);
        if str_eq(f.rules[i].name.as_str(), name) {
            assert(f@.rules[i as int].name == name@);
            return true;
        }
        i = i + 1;
    }
    false
}

/// The rules of a list are the rules of a prefix followed by those of the rest.
proof fn lemma_real_rules_split(rm: Seq<FieldRuleM>, i: int)
    requires
        0 <= i <= rm.len(),
    ensures
        real_rules(rm) == real_rules(rm.take(i)) + real_rules(rm.skip(i)),
    decreases rm.len() - i,
{
    if i < rm.len() {
        lemma_real_rules_split(rm, i + 1);
        let a = rm.take(i);
        let b = rm.skip(i);
        assert(rm.take(i + 1) =~= a.push(rm[i]));
        assert(a.push(rm[i]).drop_last() =~= a);
        lemma_real_rules_cons(b);
        assert(b.drop_first() =~= rm.skip(i + 1));
        assert(b[0] == rm[i]);
    } else {
        assert(rm.take(i) =~= rm);
        assert(rm.skip(i) =~= Seq::<FieldRuleM>::empty());
        assert(real_rules(rm.skip(i)) =~= Seq::<FieldRuleM>::empty());
        assert(real_rules(rm) + Seq::<FieldRuleM>::empty() =~= real_rules(rm));
    }
}

/// The rules of a list, seen from its first rule.
proof fn lemma_real_rules_cons(b: Seq<FieldRuleM>)
    requires
        b.len() > 0,
    ensures
        real_rules(b) == (if is_meta(b[0].name) { Seq::empty() } else { seq![b[0]] }) + real_rules(b.drop_first()),
    decreases b.len(),
{
    if b.len() == 1 {
        assert(b.drop_last() =~= Seq::<FieldRuleM>::empty());
        assert(b.drop_first() =~= Seq::<FieldRuleM>::empty());
        assert(real_rules(b.drop_first()) =~= Seq::<FieldRuleM>::empty());
        if is_meta(b[0].name) {
            assert(real_rules(b) =~= Seq::<FieldRuleM>::empty());
        } else {
            assert(real_rules(b) =~= seq![b[0]]);
        }
        let h: Seq<FieldRuleM> = if is_meta(b[0].name) { Seq::empty() } else { seq![b[0]] };
        assert(h + Seq::<FieldRuleM>::empty() =~= h);
    } else {
        let c = b.drop_last();
        lemma_real_rules_cons(c);
        assert(c.drop_first() =~= b.drop_first().drop_last());
        assert(b.drop_first().last() == b.last());
        assert(c[0] == b[0]);
        let h: Seq<FieldRuleM> = if is_meta(b[0].name) { Seq::empty() } else { seq![b[0]] };
        if is_meta(b.last().name) {
        } else {
            assert(h + real_rules(c.drop_first()).push(b.last()) =~= (h + real_rules(c.drop_first())).push(b.last()));
        }
    }
}

/// Once a prefix of the rules fails to compile, the whole list fails with
/// the same error.
proof fn lemma_struct_rules_err(p: Seq<FieldRuleM>, q: Seq<FieldRuleM>, f: FieldInfoM, d: Seq<char>, fields: Seq<FieldInfoM>)
    requires
        struct_rules(p, f, d, fields) is Err,
    ensures
        struct_rules(p + q, f, d, fields) == struct_rules(p, f, d, fields),
    decreases q.len(),
{
    if q.len() == 0 {
        assert(p + q =~= p);
    } else {
        lemma_struct_rules_err(p, q.drop_last(), f, d, fields);
        assert((p + q).drop_last() =~= p + q.drop_last());
    }
}

/// Once a prefix of the rules fails to compile, the whole list fails with
/// the same error.
proof fn lemma_variant_rules_err(p: Seq<FieldRuleM>, q: Seq<FieldRuleM>, f: FieldInfoM, d: Seq<char>)
    requires
        variant_rules(p, f, d) is Err,
    ensures
        variant_rules(p + q, f, d) == variant_rules(p, f, d),
    decreases q.len(),
{
    if q.len() == 0 {
        assert(p + q =~= p);
    } else {
        lemma_variant_rules_err(p, q.drop_last(), f, d);
        assert((p + q).drop_last() =~= p + q.drop_last());
    }
}

/// Compiles the rules of named struct field `f` in order.
fn compile_struct_rules(f: &FieldInfo, d: &str, fields: &Vec<FieldInfo>) -> (r: Result<Vec<CompiledRule>, String>)
    ensures
        rules_result(r) == struct_rules(real_rules(f@.rules), f@, d@, fields_model(fields@)),
{
    let ghost rm = f@.rules;
    let mut out: Vec<CompiledRule> = Vec::new();
    let mut i: usize = 0;
    assert(rm.take(0) =~= Seq::<FieldRuleM>::empty());
    assert(rules_model(out@) =~= Seq::<RuleM>::empty());
    while i < f.rules.len()
        invariant
            i <= f.rules@.len(),
            rm == f@.rules,
            rm.len() == f.rules@.len(),
            struct_rules(real_rules(rm.take(i as int)), f@, d@, fields_model(fields@)) == Ok::<Seq<RuleM>, Seq<char>>(rules_model(out@)),
        decreases f.rules@.len() - i,
    {
        let ghost before = rules_model(out@);
        assert(rm.take(i + 1).drop_last() =~= rm.take(i as int));
        assert(rm.take(i + 1).last() == rm[i as int]);
        assert(rm[i as int] == f.rules@[i as int]@);
        if !is_meta_name(f.rules[i].name.as_str()) {
            let ghost p = real_rules(rm.take(i as int));
            assert(p.push(rm[i as int]).drop_last() =~= p);
            match compile_struct_rule(&f.rules[i], f, d, fields) {
                Err(e) => {
                    proof {
                        lemma_real_rules_split(rm, i + 1);
                        lemma_struct_rules_err(real_rules(rm.take(i + 1)), real_rules(rm.skip(i + 1)), f@, d@, fields_model(fields@));
                    }
                    return Err(e);
                },
                Ok(c) => {
                    out.push(c);
                    assert(rules_model(out@) =~= before.push(c@));
                },
            }
        }
        i = i + 1;
    }
    assert(rm.take(i as int) =~= rm);
    Ok(out)
}

/// Compiles the rules of tuple or variant field `f` in order.
fn compile_variant_rules(f: &FieldInfo, d: &str) -> (r: Result<Vec<CompiledRule>, String>)
    ensures
        rules_result(r) == variant_rules(real_rules(f@.rules), f@, d@),
{
    let ghost rm = f@.rules;
    let mut out: Vec<CompiledRule> = Vec::new();
    let mut i: usize = 0;
    assert(rm.take(0) =~= Seq::<FieldRuleM>::empty());
    assert(rules_model(out@) =~= Seq::<RuleM>::empty());
    while i < f.rules.len()
        invariant
            i <= f.rules@.len(),
            rm == f@.rules,
            rm.len() == f.rules@.len(),
            variant_rules(real_rules(rm.take(i as int)), f@, d@) == Ok::<Seq<RuleM>, Seq<char>>(rules_model(out@)),
        decreases f.rules@.len() - i,
    {
        let ghost before = rules_model(out@);
        assert(rm.take(i + 1).drop_last() =~= rm.take(i as int));
        assert(rm.take(i + 1).last() == rm[i as int]);
        assert(rm[i as int] == f.rules@[i as int]@);
        if !is_meta_name(f.rules[i].name.as_str()) {
            let ghost p = real_rules(rm.take(i as int));
            assert(p.push(rm[i as int]).drop_last() =~= p);
            match compile_variant_rule(&f.rules[i], f, d) {
                Err(e) => {
                    proof {
                        lemma_real_rules_split(rm, i + 1);
                        lemma_variant_rules_err(real_rules(rm.take(i + 1)), real_rules(rm.skip(i + 1)), f@, d@);
                    }
                    return Err(e);
                },
                Ok(c) => {
                    out.push(c);
                    assert(rules_model(out@) =~= before.push(c@));
                },
            }
        }
        i = i + 1;
    }
    assert(rm.take(i as int) =~= rm);
    Ok(out)
}

/// Position of the first compiled `required` rule.
fn find_required(rs: &Vec<CompiledRule>) -> (r: Option<usize>)
    ensures
        r matches Some(i) ==> i < rs@.len(),
        match first_required(rules_model(rs@)) {
            Some(i) => r is Some && r->0 == i,
            None => r is None,
        },
{
    let ghost m = rules_model(rs@);
    let mut i: usize = 0;
    while i < rs.len()
        invariant
            i <= rs@.len(),
            m == rules_model(rs@),
            forall|j: int| 0 <= j < i ==> m[j].rule != "required"@,
        decreases rs@.len() - i,
    {
        assert(m[i as int] == rs@[i as int]@);
        if str_eq(rs[i].rule.as_str(), "required") {
            proof {
                let w = choose|w: int| 0 <= w < m.len() && #[trigger] m[w].rule == "required"@
                    && forall|j: int| 0 <= j < w ==> m[j].rule != "required"@;
                assert(0 <= i < m.len() && m[i as int].rule == "required"@);
                if w < i {
                } else if w > i {
                    assert(m[i as int].rule != "required"@);
                }
            }
            return Some(i);
        }
        i = i + 1;
    }
    None
}

/// The rules with the one at `i` moved to the front and every other
/// `required` dropped.
fn required_to_front(rs: Vec<CompiledRule>, i: usize) -> (r: Vec<CompiledRule>)
    requires
        i < rs@.len(),
    ensures
        rules_model(r@) == seq![rules_model(rs@)[i as int]] + without_required(rules_model(rs@).remove(i as int)),
{
    let ghost m = rules_model(rs@);
    let mut rest = rs;
    let first = rest.remove(i);
    let ghost tail = rules_model(rest@);
    assert(tail =~= m.remove(i as int));
    let mut out: Vec<CompiledRule> = Vec::new();
    out.push(first);
    let ghost mut k: int = 0;
    let ghost n = rest@.len();
    assert(tail.take(0) =~= Seq::<RuleM>::empty());
    while rest.len() > 0
        invariant
            rest@.len() + k == n,
            tail.len() == n,
            rules_model(rest@) == tail.skip(k),
            0 <= k <= n,
            rules_model(out@) == seq![m[i as int]] + without_required(tail.take(k)),
        decreases rest@.len(),
    {
        let ghost rest_before = rest@;
        assert(rules_model(rest_before)[0] == rest_before[0]@);
        assert(tail.skip(k)[0] == tail[k]);
        let c = rest.remove(0);
        assert(rest@ =~= rest_before.drop_first());
        assert(c@ == tail[k]);
        assert(tail.take(k + 1).drop_last() =~= tail.take(k));
        assert(tail.take(k + 1).last() == tail[k]);
        let ghost before = rules_model(out@);
        if !str_eq(c.rule.as_str(), "required") {
            out.push(c);
            assert(rules_model(out@) =~= before.push(tail[k]));
        }
        assert forall|j: int| 0 <= j < rest@.len() implies #[trigger] rules_model(rest@)[j] == tail.skip(k + 1)[j] by {
            assert(rules_model(rest@)[j] == rest@[j]@);
            assert(rest@[j] == rest_before[j + 1]);
            assert(rules_model(rest_before)[j + 1] == rest_before[j + 1]@);
        }
        assert(rules_model(rest@) =~= tail.skip(k + 1));
        proof {
            k = k + 1;
        }
    }
    assert(tail.take(k) =~= tail);
    out
}

/// The display name of a named field.
fn display_name_of(attrs: &Vec<(String, String)>, name: &str) -> (r: String)
    ensures
        r@ == display_name(pairs_model(attrs@), name@),
{
    match crate::compile::lookup_param(attrs, name) {
        Some(v) => v,
        None => crate::compile::spaced_string(name),
    }
}

/// The display name of a tuple-struct field.
fn tuple_display_name_of(attrs: &Vec<(String, String)>, name: &str) -> (r: String)
    ensures
        r@ == tuple_display_name(pairs_model(attrs@), name@),
{
    match crate::compile::lookup_param(attrs, name) {
        Some(v) => v,
        None => name.to_string(),
    }
}

/// The guard and running order of the compiled rules of named field `f`.
fn struct_guard_of(f: &FieldInfo, rs: Vec<CompiledRule>) -> (r: (Guard, Vec<CompiledRule>))
    ensures
        struct_guard(f@, rules_model(rs@)) == (r.0, rules_model(r.1@)),
{
    let sometimes = has_rule_of(f, "sometimes");
    let nullable = has_rule_of(f, "nullable");
    if f.is_option && sometimes {
        (Guard::IfPresent, rs)
    } else if f.is_option && nullable {
        match find_required(&rs) {
            Some(i) => (Guard::RequiredFirst, required_to_front(rs, i)),
            None => (Guard::IfPresent, rs),
        }
    } else {
        (Guard::Always, rs)
    }
}

/// Compiles named struct field `f` of a struct with fields `fields`.
fn compile_struct_field(f: &FieldInfo, attrs: &Vec<(String, String)>, fields: &Vec<FieldInfo>) -> (r: Result<FieldPlan, String>)
    ensures
        plan_result(r) == struct_field(f@, pairs_model(attrs@), fields_model(fields@)),
{
    let d = display_name_of(attrs, f.name.as_str());
    let rs = match compile_struct_rules(f, d.as_str(), fields) {
        Err(e) => {
            return Err(e);
        },
        Ok(rs) => rs,
    };
    let (guard, order) = struct_guard_of(f, rs);
    let bail = has_rule_of(f, "bail") && guard != Guard::RequiredFirst;
    let plan = FieldPlan {
        name: f.name.clone(),
        is_option: f.is_option,
        is_vec: f.is_vec,
        convertible: crate::compile::convertible_name(f.inner_type.as_str()),
        bail,
        guard,
        rules: order,
    };
    assert(plan@.rules == rules_model(order@));
    Ok(plan)
}

/// Compiles tuple or variant field `f` under `name` with display name `d`.
fn compile_variant_field(f: &FieldInfo, name: String, d: &str) -> (r: Result<FieldPlan, String>)
    ensures
        plan_result(r) == variant_field(f@, name@, d@),
{
    let rs = match compile_variant_rules(f, d) {
        Err(e) => {
            return Err(e);
        },
        Ok(rs) => rs,
    };
    let plan = FieldPlan {
        name,
        is_option: f.is_option,
        is_vec: f.is_vec,
        convertible: crate::compile::convertible_name(f.inner_type.as_str()),
        bail: false,
        guard: Guard::Always,
        rules: rs,
    };
    assert(plan@.rules == rules_model(plan.rules@));
    Ok(plan)
}

/// Once a prefix of the fields fails to compile, the whole list fails with
/// the same error.
proof fn lemma_struct_fields_err(p: Seq<FieldInfoM>, q: Seq<FieldInfoM>, attrs: Seq<(Seq<char>, Seq<char>)>, all: Seq<FieldInfoM>)
    requires
        struct_fields(p, attrs, all) is Err,
    ensures
        struct_fields(p + q, attrs, all) == struct_fields(p, attrs, all),
    decreases q.len(),
{
    if q.len() == 0 {
        assert(p + q =~= p);
    } else {
        lemma_struct_fields_err(p, q.drop_last(), attrs, all);
        assert((p + q).drop_last() =~= p + q.drop_last());
    }
}

/// Once a prefix of the fields fails to compile, the whole list fails with
/// the same error.
proof fn lemma_other_fields_err(p: Seq<FieldInfoM>, q: Seq<FieldInfoM>, attrs: Seq<(Seq<char>, Seq<char>)>, shape: FieldShape)
    requires
        other_fields(p, attrs, shape) is Err,
    ensures
        other_fields(p + q, attrs, shape) == other_fields(p, attrs, shape),
    decreases q.len(),
{
    if q.len() == 0 {
        assert(p + q =~= p);
    } else {
        lemma_other_fields_err(p, q.drop_last(), attrs, shape);
        assert((p + q).drop_last() =~= p + q.drop_last());
    }
}

/// Once a prefix of the variants fails to compile, the whole list fails
/// with the same error.
proof fn lemma_enum_variants_err(p: Seq<FieldsM>, q: Seq<FieldsM>, attrs: Seq<(Seq<char>, Seq<char>)>)
    requires
        enum_variants(p, attrs) is Err,
    ensures
        enum_variants(p + q, attrs) == enum_variants(p, attrs),
    decreases q.len(),
{
    if q.len() == 0 {
        assert(p + q =~= p);
    } else {
        lemma_enum_variants_err(p, q.drop_last(), attrs);
        assert((p + q).drop_last() =~= p + q.drop_last());
    }
}

/// Compiles the fields of a named struct.
fn compile_struct_fields(fields: &Vec<FieldInfo>, attrs: &Vec<(String, String)>) -> (r: Result<Vec<FieldPlan>, String>)
    ensures
        plans_result(r) == struct_fields(fields_model(fields@), pairs_model(attrs@), fields_model(fields@)),
{
    let ghost fm = fields_model(fields@);
    let ghost am = pairs_model(attrs@);
    let mut out: Vec<FieldPlan> = Vec::new();
    let mut i: usize = 0;
    assert(fm.take(0) =~= Seq::<FieldInfoM>::empty());
    assert(plans_model(out@) =~= Seq::<FieldPlanM>::empty());
    while i < fields.len()
        invariant
            i <= fields@.len(),
            fm == fields_model(fields@),
            am == pairs_model(attrs@),
            struct_fields(fm.take(i as int), am, fm) == Ok::<Seq<FieldPlanM>, Seq<char>>(plans_model(out@)),
        decreases fields@.len() - i,
    {
        let ghost before = plans_model(out@);
        assert(fm.take(i + 1).drop_last() =~= fm.take(i as int));
        assert(fm.take(i + 1).last() == fields@[i as int]@);
        match compile_struct_field(&fields[i], attrs, fields) {
            Err(e) => {
                proof {
                    assert(fm =~= fm.take(i + 1) + fm.skip(i + 1));
                    lemma_struct_fields_err(fm.take(i + 1), fm.skip(i + 1), am, fm);
                }
                return Err(e);
            },
            Ok(p) => {
                out.push(p);
                assert(plans_model(out@) =~= before.push(p@));
            },
        }
        i = i + 1;
    }
    assert(fm.take(i as int) =~= fm);
    Ok(out)
}

/// Compiles tuple fields or the fields of a named variant.
fn compile_other_fields(fields: &Vec<FieldInfo>, attrs: &Vec<(String, String)>, shape: FieldShape) -> (r: Result<Vec<FieldPlan>, String>)
    ensures
        plans_result(r) == other_fields(fields_model(fields@), pairs_model(attrs@), shape),
{
    let ghost fm = fields_model(fields@);
    let ghost am = pairs_model(attrs@);
    let mut out: Vec<FieldPlan> = Vec::new();
    let mut i: usize = 0;
    assert(fm.take(0) =~= Seq::<FieldInfoM>::empty());
    assert(plans_model(out@) =~= Seq::<FieldPlanM>::empty());
    while i < fields.len()
        invariant
            i <= fields@.len(),
            fm == fields_model(fields@),
            am == pairs_model(attrs@),
            other_fields(fm.take(i as int), am, shape) == Ok::<Seq<FieldPlanM>, Seq<char>>(plans_model(out@)),
        decreases fields@.len() - i,
    {
        let ghost before = plans_model(out@);
        let ghost pre = fm.take(i + 1);
        assert(pre.drop_last() =~= fm.take(i as int));
        assert(pre.last() == fields@[i as int]@);
        assert(pre.len() - 1 == i);
        let f = &fields[i];
        let (name, d) = match shape {
            FieldShape::TupleStruct => {
                let n = decimal_string(i);
                let d = tuple_display_name_of(attrs, n.as_str());
                (n, d)
            },
            FieldShape::TupleVariant => {
                let n = decimal_string(i);
                let d = n.clone();
                (n, d)
            },
            FieldShape::NamedVariant => (f.name.clone(), display_name_of(attrs, f.name.as_str())),
        };
        match compile_variant_field(f, name, d.as_str()) {
            Err(e) => {
                proof {
                    assert(fm =~= fm.take(i + 1) + fm.skip(i + 1));
                    lemma_other_fields_err(fm.take(i + 1), fm.skip(i + 1), am, shape);
                }
                return Err(e);
            },
            Ok(p) => {
                out.push(p);
                assert(plans_model(out@) =~= before.push(p@));
            },
        }
        i = i + 1;
    }
    assert(fm.take(i as int) =~= fm);
    Ok(out)
}

/// Compiles the fields of one enum variant.
fn compile_variant(v: &Fields, attrs: &Vec<(String, String)>) -> (r: Result<Vec<FieldPlan>, String>)
    ensures
        plans_result(r) == variant_plans(v@, pairs_model(attrs@)),
{
    match v {
        Fields::Named(fs) => compile_other_fields(fs, attrs, FieldShape::NamedVariant),
        Fields::Unnamed(fs) => compile_other_fields(fs, attrs, FieldShape::TupleVariant),
        Fields::Unit => {
            let out: Vec<FieldPlan> = Vec::new();
            assert(plans_model(out@) =~= Seq::<FieldPlanM>::empty());
            Ok(out)
        },
    }
}

/// The model of a list of variant plans.
pub open spec fn variants_model(v: Seq<Vec<FieldPlan>>) -> Seq<Seq<FieldPlanM>> {
    v.map_values(|p: Vec<FieldPlan>| plans_model(p@))
}

/// The fields of each variant.
pub open spec fn variants_fields(vs: Seq<VariantDef>) -> Seq<FieldsM> {
    vs.map_values(|v: VariantDef| v.fields@)
}

/// Compiles the variants of an enum.
fn compile_variants(vs: &Vec<VariantDef>, attrs: &Vec<(String, String)>) -> (r: Result<Vec<Vec<FieldPlan>>, String>)
    ensures
        match r {
            Ok(v) => enum_variants(variants_fields(vs@), pairs_model(attrs@)) == Ok::<Seq<Seq<FieldPlanM>>, Seq<char>>(variants_model(v@)),
            Err(e) => enum_variants(variants_fields(vs@), pairs_model(attrs@)) == Err::<Seq<Seq<FieldPlanM>>, Seq<char>>(e@),
        },
{
    let ghost vm = variants_fields(vs@);
    let ghost am = pairs_model(attrs@);
    let mut out: Vec<Vec<FieldPlan>> = Vec::new();
    let mut i: usize = 0;
    assert(vm.take(0) =~= Seq::<FieldsM>::empty());
    assert(variants_model(out@) =~= Seq::<Seq<FieldPlanM>>::empty());
    while i < vs.len()
        invariant
            i <= vs@.len(),
            vm == variants_fields(vs@),
            am == pairs_model(attrs@),
            enum_variants(vm.take(i as int), am) == Ok::<Seq<Seq<FieldPlanM>>, Seq<char>>(variants_model(out@)),
        decreases vs@.len() - i,
    {
        let ghost before = variants_model(out@);
        assert(vm.take(i + 1).drop_last() =~= vm.take(i as int));
        assert(vm.take(i + 1).last() == vs@[i as int].fields@);
        match compile_variant(&vs[i].fields, attrs) {
            Err(e) => {
                proof {
                    assert(vm =~= vm.take(i + 1) + vm.skip(i + 1));
                    lemma_enum_variants_err(vm.take(i + 1), vm.skip(i + 1), am);
                }
                return Err(e);
            },
            Ok(p) => {
                out.push(p);
                assert(variants_model(out@) =~= before.push(plans_model(p@)));
            },
        }
        i = i + 1;
    }
    assert(vm.take(i as int) =~= vm);
    Ok(out)
}

/// Does field `f` with plan `p` ask to `bail` where it cannot?
#[verifier::loop_isolation(false)]
fn bail_misplaced_of(f: &FieldInfo, p: &FieldPlan, reduced: bool) -> (r: bool)
    ensures
        r == bail_misplaced(f@, p@, reduced),
{
    if !has_rule_of(f, "bail") {
        return false;
    }
    if !reduced {
        return p.guard == Guard::RequiredFirst;
    }
    let mut i: usize = 0;
    while i < p.rules.len()
        invariant
            i <= p.rules@.len(),
            forall|j: int| 0 <= j < i ==> !breaks(#[trigger] p@.rules[j].check),
        decreases p.rules@.len() - i,
    {
        assert(p@.rules[i as int] == p.rules@[i as int]@);
        let b = match &p.rules[i].check {
            Check::Nested | Check::Nothing => false,
            _ => true,
        };
        if b {
            assert(breaks(p@.rules[i as int].check));
            assert(has_breaking(p@));
            return true;
        }
        i = i + 1;
    }
    false
}

/// Does some field of `fs` (with plans `ps`) ask to `bail` where it cannot?
fn any_bail_misplaced_of(fs: &Vec<FieldInfo>, ps: &Vec<FieldPlan>, reduced: bool) -> (r: bool)
    ensures
        r == any_bail_misplaced(fields_model(fs@), plans_model(ps@), reduced),
{
    let ghost fm = fields_model(fs@);
    let ghost pm = plans_model(ps@);
    let mut i: usize = 0;
    while i < fs.len() && i < ps.len()
        invariant
            fm == fields_model(fs@),
            pm == plans_model(ps@),
            forall|j: int| 0 <= j < i && j < fm.len() && j < pm.len() ==> !#[trigger] bail_misplaced(fm[j], pm[j], reduced),
        decreases fs@.len() - i,
    {
        assert(fm[i as int] == fs@[i as int]@);
        assert(pm[i as int] == ps@[i as int]@);
        if bail_misplaced_of(&fs[i], &ps[i], reduced) {
            return true;
        }
        i = i + 1;
    }
    false
}

/// The model of a compiled schema result.
pub open spec fn schema_result(r: Result<Schema, String>) -> Result<SchemaM, Seq<char>> {
    match r {
        Ok(s) => Ok(s@),
        Err(e) => Err(e@),
    }
}

/// Compiles a type definition into a schema, or says why it does not
/// compile.
#[verifier::loop_isolation(false)]
pub fn expand(def: &TypeDef) -> (r: Result<Schema, String>)
    ensures
        schema_result(r) == spec_expand(def@),
{
    match def {
        TypeDef::Union => Err("Validate cannot be derived for unions".to_string()),
        TypeDef::Struct(attrs, Fields::Named(fs)) => {
            let ps = match compile_struct_fields(fs, &attrs.attributes) {
                Err(e) => {
                    return Err(e);
                },
                Ok(ps) => ps,
            };
            if any_bail_misplaced_of(fs, &ps, false) {
                return Err("use of undeclared label `'bail`".to_string());
            }
            let mut variants: Vec<Vec<FieldPlan>> = Vec::new();
            variants.push(ps);
            let s = Schema { variants };
            assert(s@.variants =~= seq![plans_model(variants@[0]@)]);
            Ok(s)
        },
        TypeDef::Struct(attrs, Fields::Unnamed(fs)) => {
            let ps = match compile_other_fields(fs, &attrs.attributes, FieldShape::TupleStruct) {
                Err(e) => {
                    return Err(e);
                },
                Ok(ps) => ps,
            };
            if any_bail_misplaced_of(fs, &ps, true) {
                return Err("use of undeclared label `'bail`".to_string());
            }
            let mut variants: Vec<Vec<FieldPlan>> = Vec::new();
            variants.push(ps);
            let s = Schema { variants };
            assert(s@.variants =~= seq![plans_model(variants@[0]@)]);
            Ok(s)
        },
        TypeDef::Struct(_, Fields::Unit) => {
            let mut variants: Vec<Vec<FieldPlan>> = Vec::new();
            variants.push(Vec::new());
            assert(plans_model(variants@[0]@) =~= Seq::<FieldPlanM>::empty());
            let s = Schema { variants };
            assert(s@.variants =~= seq![Seq::<FieldPlanM>::empty()]);
            Ok(s)
        },
        TypeDef::Enum(attrs, vs) => {
            let vps = match compile_variants(vs, &attrs.attributes) {
                Err(e) => {
                    return Err(e);
                },
                Ok(v) => v,
            };
            let ghost vm = variants_fields(vs@);
            assert(def@ == TypeDefM::Enum(pairs_model(attrs.attributes@), vm)) by {
                assert(vs@.map_values(|v: VariantDef| v.fields@) =~= vm);
            }
            let mut k: usize = 0;
            while k < vs.len() && k < vps.len()
                invariant
                    vm == variants_fields(vs@),
                    forall|v: int| 0 <= v < k && v < vm.len() && v < vps@.len()
                        ==> !#[trigger] any_bail_misplaced(variant_fields(vm[v]), variants_model(vps@)[v], true),
                decreases vs@.len() - k,
            {
                let fs_empty: Vec<FieldInfo> = Vec::new();
                let fs = match &vs[k].fields {
                    Fields::Named(fs) => fs,
                    Fields::Unnamed(fs) => fs,
                    Fields::Unit => &fs_empty,
                };
                assert(fields_model(fs@) == variant_fields(vm[k as int]));
                assert(variants_model(vps@)[k as int] == plans_model(vps@[k as int]@));
                if any_bail_misplaced_of(fs, &vps[k], true) {
                    assert(any_bail_misplaced(variant_fields(vm[k as int]), variants_model(vps@)[k as int], true));
                    return Err("use of undeclared label `'bail`".to_string());
                }
                k = k + 1;
            }
            let s = Schema { variants: vps };
            assert(s@.variants =~= variants_model(s.variants@));
            Ok(s)
        },
    }
}

/// The plans of an enum are those of its variants, one for each.
proof fn lemma_enum_variants_each(vs: Seq<FieldsM>, attrs: Seq<(Seq<char>, Seq<char>)>)
    ensures
        enum_variants(vs, attrs) matches Ok(vps) ==> {
            &&& vps.len() == vs.len()
            &&& forall|i: int| 0 <= i < vs.len() ==> variant_plans(#[trigger] vs[i], attrs) == Ok::<Seq<FieldPlanM>, Seq<char>>(vps[i])
        },
    decreases vs.len(),
{
    if vs.len() > 0 {
        lemma_enum_variants_each(vs.drop_last(), attrs);
        if let Ok(vps) = enum_variants(vs, attrs) {
            let done = enum_variants(vs.drop_last(), attrs)->Ok_0;
            assert forall|i: int| 0 <= i < vs.len() implies variant_plans(#[trigger] vs[i], attrs) == Ok::<Seq<FieldPlanM>, Seq<char>>(vps[i]) by {
                if i < vs.len() - 1 {
                    assert(vs[i] == vs.drop_last()[i]);
                    assert(vps[i] == done[i]);
                }
            }
        }
    }
}

/// The plans of a named struct are those of its fields, one for each.
proof fn lemma_struct_fields_each(fs: Seq<FieldInfoM>, attrs: Seq<(Seq<char>, Seq<char>)>, all: Seq<FieldInfoM>)
    ensures
        struct_fields(fs, attrs, all) matches Ok(ps) ==> {
            &&& ps.len() == fs.len()
            &&& forall|i: int| 0 <= i < fs.len() ==> struct_field(#[trigger] fs[i], attrs, all) == Ok::<FieldPlanM, Seq<char>>(ps[i])
        },
    decreases fs.len(),
{
    if fs.len() > 0 {
        lemma_struct_fields_each(fs.drop_last(), attrs, all);
        if let Ok(ps) = struct_fields(fs, attrs, all) {
            let done = struct_fields(fs.drop_last(), attrs, all)->Ok_0;
            assert forall|i: int| 0 <= i < fs.len() implies struct_field(#[trigger] fs[i], attrs, all) == Ok::<FieldPlanM, Seq<char>>(ps[i]) by {
                if i < fs.len() - 1 {
                    assert(fs[i] == fs.drop_last()[i]);
                    assert(ps[i] == done[i]);
                }
            }
        }
    }
}

/// A unit variant of an enum compiles to no checks, so a record of that
/// variant always passes validation.
pub proof fn lemma_unit_variant_valid(attrs: Seq<(Seq<char>, Seq<char>)>, vs: Seq<FieldsM>, i: int, rec: Record)
    requires
        spec_expand(TypeDefM::Enum(attrs, vs)) is Ok,
        rec.schema@ == spec_expand(TypeDefM::Enum(attrs, vs))->Ok_0,
        0 <= i < vs.len(),
        vs[i] == FieldsM::Unit,
        rec.variant == i,
    ensures
        spec_validate(rec) == Map::<Seq<char>, Seq<ErrorModel>>::empty(),
{
    lemma_enum_variants_each(vs, attrs);
    let vps = enum_variants(vs, attrs)->Ok_0;
    assert(variant_plans(vs[i], attrs) == Ok::<Seq<FieldPlanM>, Seq<char>>(vps[i]));
    assert(rec.schema@.variants == vps);
    assert(rec.schema@.variants.len() == rec.schema.variants@.len());
    lemma_no_rules_valid(rec);
}

/// Every field of a named struct that compiles is checked under its own
/// name, and a struct compiles to a single variant with one plan per field.
pub proof fn lemma_struct_plans_named(attrs: Seq<(Seq<char>, Seq<char>)>, fs: Seq<FieldInfoM>)
    requires
        spec_expand(TypeDefM::Struct(attrs, FieldsM::Named(fs))) is Ok,
    ensures
        ({
            let s = spec_expand(TypeDefM::Struct(attrs, FieldsM::Named(fs)))->Ok_0;
            &&& s.variants.len() == 1
            &&& s.variants[0].len() == fs.len()
            &&& forall|j: int| 0 <= j < fs.len() ==> (#[trigger] s.variants[0][j]).name == fs[j].name
        }),
{
    lemma_struct_fields_each(fs, attrs, fs);
    let ps = struct_fields(fs, attrs, fs)->Ok_0;
    assert forall|j: int| 0 <= j < fs.len() implies (#[trigger] ps[j]).name == fs[j].name by {
        assert(struct_field(fs[j], attrs, fs) == Ok::<FieldPlanM, Seq<char>>(ps[j]));
    }
}

/// Compiling a list of rules keeps each rule's name and custom message.
proof fn lemma_struct_rules_keep(rs: Seq<FieldRuleM>, f: FieldInfoM, d: Seq<char>, fields: Seq<FieldInfoM>)
    ensures
        struct_rules(rs, f, d, fields) matches Ok(cs) ==> {
            &&& cs.len() == rs.len()
            &&& forall|j: int| 0 <= j < rs.len() ==> keeps_name_and_message(#[trigger] rs[j], cs[j])
        },
    decreases rs.len(),
{
    if rs.len() > 0 {
        lemma_struct_rules_keep(rs.drop_last(), f, d, fields);
        lemma_struct_rule_message(rs.last(), f, d, fields);
        if let Ok(cs) = struct_rules(rs, f, d, fields) {
            let done = struct_rules(rs.drop_last(), f, d, fields)->Ok_0;
            assert forall|j: int| 0 <= j < rs.len() implies keeps_name_and_message(#[trigger] rs[j], cs[j]) by {
                if j < rs.len() - 1 {
                    assert(rs[j] == rs.drop_last()[j]);
                    assert(cs[j] == done[j]);
                }
            }
        }
    }
}

/// Dropping the meta rules leaves only rules that were there.
proof fn lemma_real_rules_from(rs: Seq<FieldRuleM>, name: Seq<char>)
    ensures
        has_rule(real_rules(rs), name) ==> has_rule(rs, name),
    decreases rs.len(),
{
    if rs.len() > 0 {
        lemma_real_rules_from(rs.drop_last(), name);
        if has_rule(real_rules(rs), name) {
            let p = real_rules(rs.drop_last());
            let i = choose|i: int| 0 <= i < real_rules(rs).len() && #[trigger] real_rules(rs)[i].name == name;
            if i < p.len() {
                assert(real_rules(rs)[i] == p[i]);
                assert(has_rule(p, name));
                let k = choose|k: int| 0 <= k < rs.drop_last().len() && #[trigger] rs.drop_last()[k].name == name;
                assert(rs[k] == rs.drop_last()[k]);
            } else {
                assert(rs[rs.len() - 1].name == name);
            }
        }
    }
}

/// An absent optional field of a named struct marked `sometimes`, or
/// `nullable` without `required`, records no error: its rules are skipped.
pub proof fn lemma_absent_optional_skipped(
    attrs: Seq<(Seq<char>, Seq<char>)>,
    fs: Seq<FieldInfoM>,
    j: int,
    m: ErrorsModel,
    vals: Seq<Value>,
    cs: Seq<CustomFailureM>,
)
    requires
        spec_expand(TypeDefM::Struct(attrs, FieldsM::Named(fs))) is Ok,
        0 <= j < fs.len(),
        fs[j].is_option,
        has_rule(fs[j].rules, "sometimes"@) || (has_rule(fs[j].rules, "nullable"@) && !has_rule(fs[j].rules, "required"@)),
    ensures
        ({
            let ps = spec_expand(TypeDefM::Struct(attrs, FieldsM::Named(fs)))->Ok_0.variants[0];
            field_effect(m, ps[j], Value::Null, ps, vals, cs) == m
        }),
{
    lemma_struct_fields_each(fs, attrs, fs);
    let ps = struct_fields(fs, attrs, fs)->Ok_0;
    let f = fs[j];
    assert(struct_field(f, attrs, fs) == Ok::<FieldPlanM, Seq<char>>(ps[j]));
    let d = display_name(attrs, f.name);
    let rr = real_rules(f.rules);
    lemma_struct_rules_keep(rr, f, d, fs);
    let rs = struct_rules(rr, f, d, fs)->Ok_0;
    if !has_rule(f.rules, "sometimes"@) {
        lemma_real_rules_from(f.rules, "required"@);
        assert(first_required(rs) is None) by {
            if exists|i: int| 0 <= i < rs.len() && #[trigger] rs[i].rule == "required"@ {
                let i = choose|i: int| 0 <= i < rs.len() && #[trigger] rs[i].rule == "required"@;
                assert(keeps_name_and_message(rr[i], rs[i]));
                assert(has_rule(rr, "required"@));
            }
        }
    }
    lemma_absent_skipped(m, ps[j], ps, vals, cs);
}

/// A field of a named struct marked `bail` records at most one error of its
/// own: validation stops at its first failing check.
pub proof fn lemma_bail_field_one_error(
    attrs: Seq<(Seq<char>, Seq<char>)>,
    fs: Seq<FieldInfoM>,
    j: int,
    m: ErrorsModel,
    v: Value,
    vals: Seq<Value>,
    cs: Seq<CustomFailureM>,
)
    requires
        spec_expand(TypeDefM::Struct(attrs, FieldsM::Named(fs))) is Ok,
        0 <= j < fs.len(),
        has_rule(fs[j].rules, "bail"@),
        fs[j].name.len() > 0,
    ensures
        ({
            let ps = spec_expand(TypeDefM::Struct(attrs, FieldsM::Named(fs)))->Ok_0.variants[0];
            errors_at(field_effect(m, ps[j], v, ps, vals, cs), fs[j].name).len() <= errors_at(m, fs[j].name).len() + 1
        }),
{
    lemma_struct_fields_each(fs, attrs, fs);
    let ps = struct_fields(fs, attrs, fs)->Ok_0;
    assert(struct_field(fs[j], attrs, fs) == Ok::<FieldPlanM, Seq<char>>(ps[j]));
    assert(!bail_misplaced(fs[j], ps[j], false));
    lemma_bail_at_most_one(m, ps[j], v, ps, vals, cs);
}

} // verus!
