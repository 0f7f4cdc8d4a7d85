//! Dynamic SQL generation: a small template language compiled to an
//! instruction sequence and evaluated against a binding environment,
//! producing SQL text plus an ordered list of bind values, together with
//! the batch-splitting, pagination and CRUD helpers built on top of it.

pub mod ast;
pub mod crud;
pub mod error;
pub mod eval;
pub mod fmtnum;
pub mod page;
pub mod parse;
pub mod ranges;
pub mod strutil;
pub mod timestamptz;
pub mod value;

pub use ast::Template;
pub use error::Error;
pub use eval::{evaluate, Env};
pub use parse::compile;
pub use ranges::make_ranges;
pub use value::Value;
