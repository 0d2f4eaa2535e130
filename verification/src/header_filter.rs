//! The header-filter language of `imag-ids`.
//!
//! A query such as `length(imag.header) > 12 or imag.foobar <= 125` selects
//! store entries by their TOML header. [`grammar`] turns the text of a query
//! into a [`ast::Query`], [`eval`] decides whether a header matches it, and
//! [`laws`] states what holds of every query and header.

pub mod ast;
pub mod grammar;
pub mod eval;
pub mod laws;

pub use ast::Query;
pub use grammar::parse;
