//! The abstract syntax tree of the presentation language, together with its
//! mathematical model: each executable node views to a spec-level node whose
//! text fields are character sequences.
use vstd::prelude::*;

verus! {

/// A top-level definition: a struct, an enum, or a bare field read as a type
/// alias.
#[derive(Debug)]
pub enum Definition {
    Struct(Struct),
    Enum(Enum),
    Alias(Field),
}

/// A struct definition: an ordered list of fields and selects, named by the
/// text that follows its closing brace.
#[derive(Debug)]
pub struct Struct {
    pub name: String,
    pub items: Vec<FieldOrSelect>,
}

/// One item of a struct body.
#[derive(Debug)]
pub enum FieldOrSelect {
    Field(Field),
    Select(Select),
}

/// A field declaration: a type reference, a field name, an optional length
/// annotation and an optional default literal. `optional` is true iff the
/// type was written `optional<T>`; `ty` then holds `T` alone.
#[derive(Debug)]
pub struct Field {
    pub ty: String,
    pub name: String,
    pub range: Option<Range>,
    pub optional: bool,
    pub default: Option<String>,
}

/// The length annotation of a vector or array field.
#[derive(Debug)]
pub enum Range {
    MinMax(usize, usize),
    Exact(usize),
    Variable,
    Prose(String),
}

/// A discriminated union over the expression `over`.
#[derive(Debug)]
pub struct Select {
    pub over: String,
    pub cases: Vec<Case>,
}

/// One labelled alternative of a select.
#[derive(Debug)]
pub struct Case {
    pub left: String,
    pub right: CaseBody,
}

/// The body of a case: the empty struct `struct{};`, a bare reference to a
/// named type, or a list of inline field declarations.
#[derive(Debug)]
pub enum CaseBody {
    Empty,
    ReferenceToType(String),
    Fields(Vec<Field>),
}

/// An enum definition, named by the text that follows its closing brace.
#[derive(Debug)]
pub struct Enum {
    pub name: String,
    pub items: Vec<EnumItem>,
}

/// One enumerator: a named value with its numeral, or an unnamed sentinel
/// numeral giving the enumeration's upper bound.
#[derive(Debug)]
pub enum EnumItem {
    Value(String, String),
    Max(String),
}

/// Model of a `Definition`.
pub enum SpecDefinition {
    Struct(SpecStruct),
    Enum(SpecEnum),
    Alias(SpecField),
}

/// Model of a `Struct`.
pub struct SpecStruct {
    pub name: Seq<char>,
    pub items: Seq<SpecFieldOrSelect>,
}

/// Model of a `FieldOrSelect`.
pub enum SpecFieldOrSelect {
    Field(SpecField),
    Select(SpecSelect),
}

/// Model of a `Field`.
pub struct SpecField {
    pub ty: Seq<char>,
    pub name: Seq<char>,
    pub range: Option<SpecRange>,
    pub optional: bool,
    pub default: Option<Seq<char>>,
}

/// Model of a `Range`.
pub enum SpecRange {
    MinMax(usize, usize),
    Exact(usize),
    Variable,
    Prose(Seq<char>),
}

/// Model of a `Select`.
pub struct SpecSelect {
    pub over: Seq<char>,
    pub cases: Seq<SpecCase>,
}

/// Model of a `Case`.
pub struct SpecCase {
    pub left: Seq<char>,
    pub right: SpecCaseBody,
}

/// Model of a `CaseBody`.
pub enum SpecCaseBody {
    Empty,
    ReferenceToType(Seq<char>),
    Fields(Seq<SpecField>),
}

/// Model of an `Enum`.
pub struct SpecEnum {
    pub name: Seq<char>,
    pub items: Seq<SpecEnumItem>,
}

/// Model of an `EnumItem`.
pub enum SpecEnumItem {
    Value(Seq<char>, Seq<char>),
    Max(Seq<char>),
}

impl View for Range {
    type V = SpecRange;

    open spec fn view(&self) -> SpecRange {
        match self {
            Range::MinMax(lo, hi) => SpecRange::MinMax(*lo, *hi),
            Range::Exact(n) => SpecRange::Exact(*n),
            Range::Variable => SpecRange::Variable,
            Range::Prose(t) => SpecRange::Prose(t@),
        }
    }
}

impl View for Field {
    type V = SpecField;

    open spec fn view(&self) -> SpecField {
        SpecField {
            ty: self.ty@,
            name: self.name@,
            range: match self.range {
                Some(r) => Some(r@),
                None => None,
            },
            optional: self.optional,
            default: match self.default {
                Some(d) => Some(d@),
                None => None,
            },
        }
    }
}

impl View for Case {
    type V = SpecCase;

    open spec fn view(&self) -> SpecCase {
        SpecCase { left: self.left@, right: self.right@ }
    }
}

impl View for CaseBody {
    type V = SpecCaseBody;

    open spec fn view(&self) -> SpecCaseBody {
        match self {
            CaseBody::Empty => SpecCaseBody::Empty,
            CaseBody::ReferenceToType(t) => SpecCaseBody::ReferenceToType(t@),
            CaseBody::Fields(fs) => SpecCaseBody::Fields(fs@.map_values(|f: Field| f@)),
        }
    }
}

impl View for Select {
    type V = SpecSelect;

    open spec fn view(&self) -> SpecSelect {
        SpecSelect { over: self.over@, cases: self.cases@.map_values(|c: Case| c@) }
    }
}

impl View for FieldOrSelect {
    type V = SpecFieldOrSelect;

    open spec fn view(&self) -> SpecFieldOrSelect {
        match self {
            FieldOrSelect::Field(f) => SpecFieldOrSelect::Field(f@),
            FieldOrSelect::Select(sel) => SpecFieldOrSelect::Select(sel@),
        }
    }
}

impl View for Struct {
    type V = SpecStruct;

    open spec fn view(&self) -> SpecStruct {
        SpecStruct { name: self.name@, items: self.items@.map_values(|x: FieldOrSelect| x@) }
    }
}

impl View for EnumItem {
    type V = SpecEnumItem;

    open spec fn view(&self) -> SpecEnumItem {
        match self {
            EnumItem::Value(n, v) => SpecEnumItem::Value(n@, v@),
            EnumItem::Max(v) => SpecEnumItem::Max(v@),
        }
    }
}

impl View for Enum {
    type V = SpecEnum;

    open spec fn view(&self) -> SpecEnum {
        SpecEnum { name: self.name@, items: self.items@.map_values(|x: EnumItem| x@) }
    }
}

impl View for Definition {
    type V = SpecDefinition;

    open spec fn view(&self) -> SpecDefinition {
        match self {
            Definition::Struct(st) => SpecDefinition::Struct(st@),
            Definition::Enum(en) => SpecDefinition::Enum(en@),
            Definition::Alias(f) => SpecDefinition::Alias(f@),
        }
    }
}

impl SpecDefinition {
    /// The name that identifies a definition: a struct's or enum's postfix
    /// name, or an alias field's name.
    pub open spec fn spec_name(&self) -> Seq<char> {
        match self {
            SpecDefinition::Struct(st) => st.name,
            SpecDefinition::Enum(en) => en.name,
            SpecDefinition::Alias(f) => f.name,
        }
    }
}

impl Definition {
    /// The definition's identity for graph-node keying.
    pub fn name(&self) -> (r: &str)
        ensures
            r@ == self@.spec_name(),
    {
        match self {
            Definition::Struct(st) => st.name.as_str(),
            Definition::Enum(en) => en.name.as_str(),
            Definition::Alias(f) => f.name.as_str(),
        }
    }
}

} // verus!
