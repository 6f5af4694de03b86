//! Quoting of untrusted text as a single SQL string literal or quoted
//! identifier.

pub mod model;
pub mod escape;
pub mod lex;
pub mod authors;

pub use authors::{search_statement, CustomError, QueryParameters};
pub use escape::escape_internal;
