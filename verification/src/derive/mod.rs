//! The logic of the `Command` derive, on plain values.
//!
//! The macro front end reads a struct definition into [`attrs::CommandAttrs`],
//! [`attrs::FlagAttrs`] and [`classify::FieldInfo`] values; everything it
//! decides from them (which role each field plays, which declarations are
//! refused, the flag table, the help metadata and how scanned flags land in
//! fields) is computed here.

pub mod attrs;
pub mod bind;
pub mod classify;
pub mod codegen;
pub mod error;
pub mod plan;
