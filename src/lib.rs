//! A SQL-like `SELECT` dialect over hierarchical document collections:
//! statement text is parsed into a typed syntax tree, the tree is turned into
//! a store query plan, and the documents that come back are shaped into rows.

pub mod ast;
pub mod grammar;
pub mod parser;
pub mod rows;
pub mod scan;
pub mod translate;

pub use ast::{
    Collection, CompareOperations, Condition, Expected, FireSQLSelect, GrammarError, Number,
    ParseError, SelectProjection, Value,
};
pub use parser::{FireSQLParseResult, FireSQLParser};
pub use rows::{
    document_json, render_value, shape_row, shape_rows, Document, FieldValue, RenderError, Row,
};
pub use translate::{plan_query, FieldFilter, QueryPlan, TranslateError};
