//! Compiled validation plans.
//!
//! A [`Schema`] is what compiling a type definition gives: for every variant
//! (a struct has one), one [`FieldPlan`] per declared field, each holding the
//! checks of that field in order, with their error messages already rendered.
use vstd::prelude::*;

verus! {

/// A test on the text of a value.
#[derive(Clone, Debug)]
pub enum TextTest {
    Email,
    Url,
    Alpha,
    AlphaNum,
    AlphaDash,
    Numeric,
    Integer,
    Ascii,
    Uuid,
    Ulid,
    Ip,
    Ipv4,
    Ipv6,
    Json,
    MacAddress,
    HexColor,
    Timezone,
    Uppercase,
    Lowercase,
    Date,
    Datetime,
    Boolean,
    Accepted,
    Declined,
    Filled,
    /// Passes every text (`string`).
    Anything,
    Regex(String),
    NotRegex(String),
    InList(Vec<String>),
    NotIn(Vec<String>),
    StartsWith(String),
    EndsWith(String),
    DoesntStartWith(String),
    DoesntEndWith(String),
    Contains(String),
    DoesntContain(String),
    /// At least this many characters.
    MinLength(usize),
    /// At most this many characters.
    MaxLength(usize),
    /// Between these many characters, inclusive.
    BetweenLength(usize, usize),
    /// Exactly this many characters.
    ExactLength(usize),
    Digits(usize),
    DigitsBetween(usize, usize),
    Decimal(usize, Option<usize>),
    /// A multiple of the numeral, as binary64 numbers.
    MultipleOf(String),
    DateEquals(String),
    Before(String),
    After(String),
    BeforeOrEqual(String),
    AfterOrEqual(String),
}

/// The model of a [`TextTest`].
pub enum TextTestM {
    Email,
    Url,
    Alpha,
    AlphaNum,
    AlphaDash,
    Numeric,
    Integer,
    Ascii,
    Uuid,
    Ulid,
    Ip,
    Ipv4,
    Ipv6,
    Json,
    MacAddress,
    HexColor,
    Timezone,
    Uppercase,
    Lowercase,
    Date,
    Datetime,
    Boolean,
    Accepted,
    Declined,
    Filled,
    Anything,
    Regex(Seq<char>),
    NotRegex(Seq<char>),
    InList(Seq<Seq<char>>),
    NotIn(Seq<Seq<char>>),
    StartsWith(Seq<char>),
    EndsWith(Seq<char>),
    DoesntStartWith(Seq<char>),
    DoesntEndWith(Seq<char>),
    Contains(Seq<char>),
    DoesntContain(Seq<char>),
    MinLength(usize),
    MaxLength(usize),
    BetweenLength(usize, usize),
    ExactLength(usize),
    Digits(usize),
    DigitsBetween(usize, usize),
    Decimal(usize, Option<usize>),
    MultipleOf(Seq<char>),
    DateEquals(Seq<char>),
    Before(Seq<char>),
    After(Seq<char>),
    BeforeOrEqual(Seq<char>),
    AfterOrEqual(Seq<char>),
}

/// The models of a list of strings.
pub open spec fn strings_model(v: Seq<String>) -> Seq<Seq<char>> {
    v.map_values(|s: String| s@)
}

impl View for TextTest {
    type V = TextTestM;

    open spec fn view(&self) -> TextTestM {
        match self {
            TextTest::Email => TextTestM::Email,
            TextTest::Url => TextTestM::Url,
            TextTest::Alpha => TextTestM::Alpha,
            TextTest::AlphaNum => TextTestM::AlphaNum,
            TextTest::AlphaDash => TextTestM::AlphaDash,
            TextTest::Numeric => TextTestM::Numeric,
            TextTest::Integer => TextTestM::Integer,
            TextTest::Ascii => TextTestM::Ascii,
            TextTest::Uuid => TextTestM::Uuid,
            TextTest::Ulid => TextTestM::Ulid,
            TextTest::Ip => TextTestM::Ip,
            TextTest::Ipv4 => TextTestM::Ipv4,
            TextTest::Ipv6 => TextTestM::Ipv6,
            TextTest::Json => TextTestM::Json,
            TextTest::MacAddress => TextTestM::MacAddress,
            TextTest::HexColor => TextTestM::HexColor,
            TextTest::Timezone => TextTestM::Timezone,
            TextTest::Uppercase => TextTestM::Uppercase,
            TextTest::Lowercase => TextTestM::Lowercase,
            TextTest::Date => TextTestM::Date,
            TextTest::Datetime => TextTestM::Datetime,
            TextTest::Boolean => TextTestM::Boolean,
            TextTest::Accepted => TextTestM::Accepted,
            TextTest::Declined => TextTestM::Declined,
            TextTest::Filled => TextTestM::Filled,
            TextTest::Anything => TextTestM::Anything,
            TextTest::Regex(p) => TextTestM::Regex(p@),
            TextTest::NotRegex(p) => TextTestM::NotRegex(p@),
            TextTest::InList(l) => TextTestM::InList(strings_model(l@)),
            TextTest::NotIn(l) => TextTestM::NotIn(strings_model(l@)),
            TextTest::StartsWith(p) => TextTestM::StartsWith(p@),
            TextTest::EndsWith(p) => TextTestM::EndsWith(p@),
            TextTest::DoesntStartWith(p) => TextTestM::DoesntStartWith(p@),
            TextTest::DoesntEndWith(p) => TextTestM::DoesntEndWith(p@),
            TextTest::Contains(p) => TextTestM::Contains(p@),
            TextTest::DoesntContain(p) => TextTestM::DoesntContain(p@),
            TextTest::MinLength(n) => TextTestM::MinLength(*n),
            TextTest::MaxLength(n) => TextTestM::MaxLength(*n),
            TextTest::BetweenLength(a, b) => TextTestM::BetweenLength(*a, *b),
            TextTest::ExactLength(n) => TextTestM::ExactLength(*n),
            TextTest::Digits(n) => TextTestM::Digits(*n),
            TextTest::DigitsBetween(a, b) => TextTestM::DigitsBetween(*a, *b),
            TextTest::Decimal(a, b) => TextTestM::Decimal(*a, *b),
            TextTest::MultipleOf(n) => TextTestM::MultipleOf(n@),
            TextTest::DateEquals(p) => TextTestM::DateEquals(p@),
            TextTest::Before(p) => TextTestM::Before(p@),
            TextTest::After(p) => TextTestM::After(p@),
            TextTest::BeforeOrEqual(p) => TextTestM::BeforeOrEqual(p@),
            TextTest::AfterOrEqual(p) => TextTestM::AfterOrEqual(p@),
        }
    }
}

/// When a conditional check applies, in terms of other fields of the same
/// record (`None` stands for a name that is no field: it reads as `Null`).
#[derive(Clone, Debug)]
pub enum Cond {
    Always,
    /// The other field holds exactly this string.
    Equals(Option<usize>, String),
    /// The other field does not hold exactly this string.
    NotEquals(Option<usize>, String),
    /// The other field is neither `Null` nor empty.
    Filled(Option<usize>),
    /// The other field is `Null` or empty.
    Blank(Option<usize>),
    /// Every listed field is neither `Null` nor empty.
    AllFilled(Vec<Option<usize>>),
    /// Every listed field is `Null` or empty.
    AllBlank(Vec<Option<usize>>),
}

/// The model of a [`Cond`].
pub enum CondM {
    Always,
    Equals(Option<usize>, Seq<char>),
    NotEquals(Option<usize>, Seq<char>),
    Filled(Option<usize>),
    Blank(Option<usize>),
    AllFilled(Seq<Option<usize>>),
    AllBlank(Seq<Option<usize>>),
}

impl View for Cond {
    type V = CondM;

    open spec fn view(&self) -> CondM {
        match self {
            Cond::Always => CondM::Always,
            Cond::Equals(i, s) => CondM::Equals(*i, s@),
            Cond::NotEquals(i, s) => CondM::NotEquals(*i, s@),
            Cond::Filled(i) => CondM::Filled(*i),
            Cond::Blank(i) => CondM::Blank(*i),
            Cond::AllFilled(v) => CondM::AllFilled(v@),
            Cond::AllBlank(v) => CondM::AllBlank(v@),
        }
    }
}

/// The number `num / 2^scale`.
#[derive(Clone, Copy, Debug, PartialEq, Eq, Structural)]
pub struct Bound {
    pub num: i128,
    pub scale: u32,
}

/// A bound on a number value.
#[derive(Clone, Copy, Debug, PartialEq, Eq, Structural)]
pub enum NumTest {
    AtLeast(Bound),
    AtMost(Bound),
    Between(Bound, Bound),
    Exactly(Bound),
}

/// A bound on the number of items of a list.
#[derive(Clone, Copy, Debug, PartialEq, Eq, Structural)]
pub enum CountTest {
    AtLeast(usize),
    AtMost(usize),
    Between(usize, usize),
    Exactly(usize),
}

/// A relation between the value of a field and that of another field.
#[derive(Clone, Copy, Debug, PartialEq, Eq, Structural)]
pub enum Relation {
    Same,
    Different,
    Greater,
    GreaterOrEqual,
    Less,
    LessOrEqual,
}

/// What one rule checks.
#[derive(Clone, Debug)]
pub enum Check {
    /// When the condition holds, the field must be present.
    Presence(Cond),
    /// When the condition holds, the field must be absent.
    Prohibited(Cond),
    /// When the condition holds and the field has text, the text must pass.
    Text(Cond, TextTest),
    /// A number value must satisfy the bound.
    Number(NumTest),
    /// A list value must have a number of items within the bound.
    Count(CountTest),
    /// The field's value must stand in the relation to another field's.
    Compare(Relation, Option<usize>),
    /// The field's value must be an item of another field's list.
    InArray(Option<usize>),
    /// No two items of the field's list may be equal.
    Distinct,
    /// The nested record (or each record of a list) is validated in turn.
    Nested,
    /// The record's answer from the named custom check function.
    Custom(String),
    /// Checks nothing.
    Nothing,
}

/// The model of a [`Check`].
pub enum CheckM {
    Presence(CondM),
    Prohibited(CondM),
    Text(CondM, TextTestM),
    Number(NumTest),
    Count(CountTest),
    Compare(Relation, Option<usize>),
    InArray(Option<usize>),
    Distinct,
    Nested,
    Custom(Seq<char>),
    Nothing,
}

impl View for Check {
    type V = CheckM;

    open spec fn view(&self) -> CheckM {
        match self {
            Check::Presence(c) => CheckM::Presence(c@),
            Check::Prohibited(c) => CheckM::Prohibited(c@),
            Check::Text(c, t) => CheckM::Text(c@, t@),
            Check::Number(t) => CheckM::Number(*t),
            Check::Count(t) => CheckM::Count(*t),
            Check::Compare(r, i) => CheckM::Compare(*r, *i),
            Check::InArray(i) => CheckM::InArray(*i),
            Check::Distinct => CheckM::Distinct,
            Check::Nested => CheckM::Nested,
            Check::Custom(f) => CheckM::Custom(f@),
            Check::Nothing => CheckM::Nothing,
        }
    }
}

/// One compiled rule: the rule name and message that a failure records, and
/// what the rule checks.
#[derive(Clone, Debug)]
pub struct CompiledRule {
    pub rule: String,
    pub message: String,
    pub check: Check,
}

/// The model of a [`CompiledRule`].
pub struct RuleM {
    pub rule: Seq<char>,
    pub message: Seq<char>,
    pub check: CheckM,
}

impl View for CompiledRule {
    type V = RuleM;

    open spec fn view(&self) -> RuleM {
        RuleM { rule: self.rule@, message: self.message@, check: self.check@ }
    }
}

/// Which of a field's checks run.
#[derive(Clone, Copy, Debug, PartialEq, Eq, Structural)]
pub enum Guard {
    /// All checks run.
    Always,
    /// When an optional field is absent no check runs.
    IfPresent,
    /// The first check (`required`) always runs, the others only when an
    /// optional field is present.
    RequiredFirst,
}

/// The compiled checks of one field.
#[derive(Clone, Debug)]
pub struct FieldPlan {
    /// The field path under which its errors are recorded.
    pub name: String,
    pub is_option: bool,
    pub is_vec: bool,
    /// Whether other fields' cross-field rules see this field's value
    /// (else they read `Null`).
    pub convertible: bool,
    /// Stop at the first failing check (`bail`).
    pub bail: bool,
    pub guard: Guard,
    pub rules: Vec<CompiledRule>,
}

/// The model of a [`FieldPlan`].
pub struct FieldPlanM {
    pub name: Seq<char>,
    pub is_option: bool,
    pub is_vec: bool,
    pub convertible: bool,
    pub bail: bool,
    pub guard: Guard,
    pub rules: Seq<RuleM>,
}

impl View for FieldPlan {
    type V = FieldPlanM;

    open spec fn view(&self) -> FieldPlanM {
        FieldPlanM {
            name: self.name@,
            is_option: self.is_option,
            is_vec: self.is_vec,
            convertible: self.convertible,
            bail: self.bail,
            guard: self.guard,
            rules: self.rules@.map_values(|r: CompiledRule| r@),
        }
    }
}

/// The models of a list of field plans.
pub open spec fn plans_model(v: Seq<FieldPlan>) -> Seq<FieldPlanM> {
    v.map_values(|p: FieldPlan| p@)
}

/// A compiled validator: the field plans of each variant (one for a struct).
#[derive(Clone, Debug)]
pub struct Schema {
    pub variants: Vec<Vec<FieldPlan>>,
}

/// The model of a [`Schema`].
pub struct SchemaM {
    pub variants: Seq<Seq<FieldPlanM>>,
}

impl View for Schema {
    type V = SchemaM;

    open spec fn view(&self) -> SchemaM {
        SchemaM { variants: self.variants@.map_values(|v: Vec<FieldPlan>| plans_model(v@)) }
    }
}

} // verus!
