//! A document store queried with a small SQL-like language: the grammar and
//! its parser, the expression evaluator, the statement executor over an
//! in-memory store, schemas with their type checks, and identifier rules.
pub mod text;
pub mod views;
pub mod storage;
pub mod document;
pub mod ast;
pub mod filter;
pub mod validation;
pub mod schema;
pub mod parser;
pub mod error;
pub mod select;
pub mod executor;
pub mod frontmatter;
pub mod conflict;
pub mod history;

pub use ast::{
    BinaryOp, Column, ColumnDef, Constraint, CreateCollectionStmt, CreateViewStmt, DataType, DeleteStmt, Expr,
    InsertStmt, Literal, OrderBy, OrderDirection, SelectStmt, SetClause, SpecialField, Statement, UnaryOp,
    UpdateStmt,
};
pub use document::{Decimal, Document, DocumentMeta, Fields, Value};
pub use error::Error;
pub use executor::{execute, Database, QueryResult, StoredCollection, SyncResult};
pub use filter::evaluate;
pub use parser::{parse, parse_multi, ParseError};
pub use schema::{FieldDef, FieldType, IdStrategy, Schema, SchemaRegistry};
pub use storage::Collection;
pub use validation::{
    sanitize_identifier, validate_collection_name, validate_document_id, validate_template_name,
    validate_view_name,
};
pub use views::{OutputFormat, View};
