//! Type definitions with validation rules: what a validated type declares
//! about its fields before it is compiled into a [`Schema`](crate::plan::Schema).
//!
//! A rule is written as in an attribute list: a name, optional parameters
//! (`min = 3`, `between(min = 1, max = 10)`, `in_list("a", "b")`) and an
//! optional custom message.
use vstd::prelude::*;

verus! {

/// Parameters of a rule.
#[derive(Clone, Debug)]
pub enum RuleParams {
    /// No parameters: `required`, `email`, `bail`.
    Empty,
    /// A single value: `min = 3`, `regex = "pattern"`.
    Value(String),
    /// Named values: `between(min = 1, max = 10)`.
    Named(Vec<(String, String)>),
    /// A list of values: `in_list("a", "b", "c")`.
    List(Vec<String>),
}

/// The model of [`RuleParams`].
pub enum ParamsM {
    Empty,
    Value(Seq<char>),
    Named(Seq<(Seq<char>, Seq<char>)>),
    List(Seq<Seq<char>>),
}

/// The models of a list of (String, String) pairs.
pub open spec fn pairs_model(v: Seq<(String, String)>) -> Seq<(Seq<char>, Seq<char>)> {
    v.map_values(|p: (String, String)| (p.0@, p.1@))
}

impl View for RuleParams {
    type V = ParamsM;

    open spec fn view(&self) -> ParamsM {
        match self {
            RuleParams::Empty => ParamsM::Empty,
            RuleParams::Value(v) => ParamsM::Value(v@),
            RuleParams::Named(ps) => ParamsM::Named(pairs_model(ps@)),
            RuleParams::List(l) => ParamsM::List(crate::plan::strings_model(l@)),
        }
    }
}

/// A single rule on a field.
#[derive(Clone, Debug)]
pub struct FieldRule {
    pub name: String,
    pub params: RuleParams,
    /// A message that replaces the rule's default one.
    pub message: Option<String>,
}

/// The model of a [`FieldRule`].
pub struct FieldRuleM {
    pub name: Seq<char>,
    pub params: ParamsM,
    pub message: Option<Seq<char>>,
}

impl View for FieldRule {
    type V = FieldRuleM;

    open spec fn view(&self) -> FieldRuleM {
        FieldRuleM {
            name: self.name@,
            params: self.params@,
            message: match &self.message {
                Some(m) => Some(m@),
                None => None,
            },
        }
    }
}

/// Type-level settings: friendly display names of fields.
#[derive(Clone, Debug)]
pub struct StructAttrs {
    /// Field name to the name that default messages use for it.
    pub attributes: Vec<(String, String)>,
}

/// One declared field and its rules.
#[derive(Clone, Debug)]
pub struct FieldInfo {
    /// The field's name (for a tuple field, its position is used instead).
    pub name: String,
    pub rules: Vec<FieldRule>,
    /// The field is an `Option<..>`.
    pub is_option: bool,
    /// The field is a `Vec<..>` (or an `Option<Vec<..>>`).
    pub is_vec: bool,
    /// The name of the innermost type (`String`, `i32`, `f64`, `bool`,
    /// `Address`, ...), after `Option` and `Vec`.
    pub inner_type: String,
}

/// The model of a [`FieldInfo`].
pub struct FieldInfoM {
    pub name: Seq<char>,
    pub rules: Seq<FieldRuleM>,
    pub is_option: bool,
    pub is_vec: bool,
    pub inner_type: Seq<char>,
}

impl View for FieldInfo {
    type V = FieldInfoM;

    open spec fn view(&self) -> FieldInfoM {
        FieldInfoM {
            name: self.name@,
            rules: self.rules@.map_values(|r: FieldRule| r@),
            is_option: self.is_option,
            is_vec: self.is_vec,
            inner_type: self.inner_type@,
        }
    }
}

/// The models of a list of fields.
pub open spec fn fields_model(v: Seq<FieldInfo>) -> Seq<FieldInfoM> {
    v.map_values(|f: FieldInfo| f@)
}

/// The fields of a struct or variant.
#[derive(Clone, Debug)]
pub enum Fields {
    Named(Vec<FieldInfo>),
    Unnamed(Vec<FieldInfo>),
    Unit,
}

/// The model of [`Fields`].
pub enum FieldsM {
    Named(Seq<FieldInfoM>),
    Unnamed(Seq<FieldInfoM>),
    Unit,
}

impl View for Fields {
    type V = FieldsM;

    open spec fn view(&self) -> FieldsM {
        match self {
            Fields::Named(v) => FieldsM::Named(fields_model(v@)),
            Fields::Unnamed(v) => FieldsM::Unnamed(fields_model(v@)),
            Fields::Unit => FieldsM::Unit,
        }
    }
}

/// One variant of an enum.
#[derive(Clone, Debug)]
pub struct VariantDef {
    pub name: String,
    pub fields: Fields,
}

/// A type to validate.
#[derive(Clone, Debug)]
pub enum TypeDef {
    Struct(StructAttrs, Fields),
    Enum(StructAttrs, Vec<VariantDef>),
    Union,
}

/// The model of a [`TypeDef`]: display names, and the fields of each
/// variant.
pub enum TypeDefM {
    Struct(Seq<(Seq<char>, Seq<char>)>, FieldsM),
    Enum(Seq<(Seq<char>, Seq<char>)>, Seq<FieldsM>),
    Union,
}

impl View for TypeDef {
    type V = TypeDefM;

    open spec fn view(&self) -> TypeDefM {
        match self {
            TypeDef::Struct(a, f) => TypeDefM::Struct(pairs_model(a.attributes@), f@),
            TypeDef::Enum(a, vs) => TypeDefM::Enum(pairs_model(a.attributes@), vs@.map_values(|v: VariantDef| v.fields@)),
            TypeDef::Union => TypeDefM::Union,
        }
    }
}

impl FieldRule {
    /// A rule without parameters.
    pub fn bare(name: &str) -> (r: Self)
        ensures
            r@ == (FieldRuleM { name: name@, params: ParamsM::Empty, message: None }),
    {
        FieldRule { name: name.to_string(), params: RuleParams::Empty, message: None }
    }

    /// A rule with a single value (`min = 3`).
    pub fn value(name: &str, value: &str) -> (r: Self)
        ensures
            r@ == (FieldRuleM { name: name@, params: ParamsM::Value(value@), message: None }),
    {
        FieldRule { name: name.to_string(), params: RuleParams::Value(value.to_string()), message: None }
    }

    /// The same rule with a custom message.
    pub fn with_message(self, message: &str) -> (r: Self)
        ensures
            r@ == (FieldRuleM { message: Some(message@), ..self@ }),
    {
        FieldRule { name: self.name, params: self.params, message: Some(message.to_string()) }
    }
}

} // verus!
