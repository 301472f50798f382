//! The `START` clause of a query language: recognising `START [AT] <expr>`,
//! evaluating the wrapped expression to a validated non-negative skip count,
//! rendering the clause as canonical text, and persisting it through a
//! versioned binary encoding.

pub mod clause;
pub mod codec;
pub mod eval;
pub mod laws;
pub mod parse;
pub mod text;
pub mod value;

pub use crate::clause::Start;
pub use crate::eval::Context;
pub use crate::eval::Error;
pub use crate::parse::ParseError;
pub use crate::parse::start;
pub use crate::value::Value;
