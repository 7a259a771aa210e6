//! A filter engine for recorded HTTP exchanges: a small expression language
//! that is parsed into a tree and evaluated against one record at a time.
//!
//! `expr::FilterExpr::parse` turns a filter text into a tree (its meaning is
//! `expr::parses_to`, its failures `expr::parse_error`), and
//! `expr::FilterExpr::matches` tests a record (its meaning is `expr::eval`).
//! Values, fields and the record model live in `value`, `field` and `har`;
//! `laws` states the properties that hold across them.

pub mod text;
pub mod decimal;
pub mod value;
pub mod har;
pub mod url;
pub mod graphql;
pub mod pattern;
pub mod field;
pub mod expr;
pub mod output;
pub mod commands;
pub mod laws;
