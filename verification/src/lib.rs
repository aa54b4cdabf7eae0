//! Type-driven command-line argument parsing.
//!
//! Field types drive behavior: `bool` becomes a flag, `Option<T>` an
//! optional value, `Operands` the rest of the arguments.

pub mod derive;
pub mod error;
pub mod polarity;
pub mod style;
pub mod meta;
pub mod operands;
pub mod parse;
pub mod text;
