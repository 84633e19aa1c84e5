//! The typed syntax tree of a statement, and its mathematical view.

use vstd::prelude::*;

verus! {

/// What one output column holds.
#[derive(Debug, PartialEq, Eq, Clone)]
pub enum SelectProjection {
    /// The document's identifier.
    ObjectId,
    /// The whole document.
    Object,
    /// One named field.
    Property(String),
}

/// The collection a statement reads: a `/`-separated path that alternates
/// collection names and document ids and ends on a collection.
#[derive(Debug, PartialEq, Eq, Clone)]
pub struct Collection {
    pub path: String,
}

/// A decimal literal, kept exactly: `whole` holds the digits before the
/// point without leading zeros, `fraction` those after it without trailing
/// zeros, so `5`, `05` and `5.0` are the same number.
#[derive(Debug, PartialEq, Eq, Clone)]
pub struct Number {
    pub negative: bool,
    pub whole: String,
    pub fraction: String,
}

/// A literal on the right of a comparison.
#[derive(Debug, PartialEq, Eq, Clone)]
pub enum Value {
    Number(Number),
    String(String),
    Bool(bool),
    /// A document reference, written with a leading `#`; holds the path after it.
    Reference(String),
}

#[derive(Debug, PartialEq, Eq, Clone)]
pub enum CompareOperations {
    Equal(Value),
    NotEqual(Value),
    GreaterThan(Value),
    LessThan(Value),
}

/// One filter of the `WHERE` clause.
#[derive(Debug, PartialEq, Eq)]
pub enum Condition {
    Not(Box<Condition>),
    IsNull(String),
    Comparison(String, CompareOperations),
}

/// A parsed `SELECT` statement.
#[derive(Debug, PartialEq, Eq)]
pub struct FireSQLSelect {
    pub projections: Vec<SelectProjection>,
    pub collection: Collection,
    pub conditions: Vec<Condition>,
}

/// The grammar element that was expected where matching failed.
#[derive(Debug, PartialEq, Eq, Clone, Copy)]
pub enum Expected {
    SelectKeyword,
    Projection,
    FromKeyword,
    CollectionPath,
    WhereOrEnd,
    Condition,
    NullKeyword,
    Operator,
    Value,
    AndOrEnd,
}

/// Where a statement stopped matching the grammar: the character offset into
/// the statement, and what was expected there.
#[derive(Debug, PartialEq, Eq, Clone)]
pub struct GrammarError {
    pub position: usize,
    pub expected: Expected,
}

#[derive(Debug, PartialEq, Eq, Clone)]
pub enum ParseError {
    /// The text is not a statement of the grammar.
    GrammarError(GrammarError),
    /// The text uses a token the grammar admits but the dialect gives no meaning to.
    UnexpectedItem(String),
    /// The collection path has an even number of segments, so it names a document.
    InvalidCollectionPath(String),
}

pub enum ProjectionV {
    ObjectId,
    Object,
    Property(Seq<char>),
}

pub enum ValueV {
    Number(bool, Seq<char>, Seq<char>),
    Text(Seq<char>),
    Bool(bool),
    Reference(Seq<char>),
}

pub enum OpV {
    Equal(ValueV),
    NotEqual(ValueV),
    GreaterThan(ValueV),
    LessThan(ValueV),
}

pub enum ConditionV {
    Not(Box<ConditionV>),
    IsNull(Seq<char>),
    Comparison(Seq<char>, OpV),
}

pub struct SelectV {
    pub projections: Seq<ProjectionV>,
    pub path: Seq<char>,
    pub conditions: Seq<ConditionV>,
}

pub enum ParseErrorV {
    Grammar(int, Expected),
    UnexpectedItem(Seq<char>),
    InvalidCollectionPath(Seq<char>),
}

impl View for SelectProjection {
    type V = ProjectionV;

    open spec fn view(&self) -> ProjectionV {
        match self {
            SelectProjection::ObjectId => ProjectionV::ObjectId,
            SelectProjection::Object => ProjectionV::Object,
            SelectProjection::Property(name) => ProjectionV::Property(name@),
        }
    }
}

impl View for Value {
    type V = ValueV;

    open spec fn view(&self) -> ValueV {
        match self {
            Value::Number(n) => ValueV::Number(n.negative, n.whole@, n.fraction@),
            Value::String(t) => ValueV::Text(t@),
            Value::Bool(b) => ValueV::Bool(*b),
            Value::Reference(p) => ValueV::Reference(p@),
        }
    }
}

impl View for CompareOperations {
    type V = OpV;

    open spec fn view(&self) -> OpV {
        match self {
            CompareOperations::Equal(v) => OpV::Equal(v@),
            CompareOperations::NotEqual(v) => OpV::NotEqual(v@),
            CompareOperations::GreaterThan(v) => OpV::GreaterThan(v@),
            CompareOperations::LessThan(v) => OpV::LessThan(v@),
        }
    }
}

pub open spec fn condition_view(c: &Condition) -> ConditionV
    decreases c,
{
    match c {
        Condition::Not(inner) => ConditionV::Not(Box::new(condition_view(inner))),
        Condition::IsNull(field) => ConditionV::IsNull(field@),
        Condition::Comparison(field, op) => ConditionV::Comparison(field@, op@),
    }
}

impl View for Condition {
    type V = ConditionV;

    open spec fn view(&self) -> ConditionV {
        condition_view(self)
    }
}

impl View for FireSQLSelect {
    type V = SelectV;

    open spec fn view(&self) -> SelectV {
        SelectV {
            projections: self.projections@.map_values(|p: SelectProjection| p@),
            path: self.collection.path@,
            conditions: self.conditions@.map_values(|c: Condition| c@),
        }
    }
}

impl View for ParseError {
    type V = ParseErrorV;

    open spec fn view(&self) -> ParseErrorV {
        match self {
            ParseError::GrammarError(g) => ParseErrorV::Grammar(g.position as int, g.expected),
            ParseError::UnexpectedItem(t) => ParseErrorV::UnexpectedItem(t@),
            ParseError::InvalidCollectionPath(p) => ParseErrorV::InvalidCollectionPath(p@),
        }
    }
}

impl FireSQLSelect {
    /// The projections, in the order they were written.
    pub fn projections(&self) -> (r: &Vec<SelectProjection>)
        ensures
            r == &self.projections,
    {
        &self.projections
    }

    pub fn collection(&self) -> (r: &Collection)
        ensures
            r == &self.collection,
    {
        &self.collection
    }

    /// The conditions of the `WHERE` clause; all of them must hold.
    pub fn conditions(&self) -> (r: &Vec<Condition>)
        ensures
            r == &self.conditions,
    {
        &self.conditions
    }
}

} // verus!
