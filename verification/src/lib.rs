//! The front half of the petr compiler: source spans, the syntax tree,
//! the parser's token-level machinery and the type checker.
use vstd::prelude::*;

pub mod span;
pub mod ids;
pub mod text;
pub mod ast;
pub mod resolved;
pub mod types;
pub mod context;
pub mod pretty;
pub mod error;
pub mod unify;
pub mod typed;
pub mod shape;
pub mod maps;
pub mod checker;
pub mod generate;
pub mod type_checker;
pub mod printing;
pub mod parse_error;
pub mod parser;

verus! {
} // verus!
