//! An incremental, single-pass JSON decoder driven by a table-encoded
//! pushdown automaton.
//!
//! [`parse`] decodes a whole input; a [`decoder::Decoder`] takes the input
//! byte by byte. What either computes is stated over the mathematical machine
//! of [`machine`], and [`grammar`] proves that this machine reads every
//! document that [`document`] describes, and nothing else.

pub mod assumed;
pub mod decoder;
pub mod document;
pub mod grammar;
pub mod machine;
pub mod tables;
pub mod text;
pub mod trail;
pub mod value;

pub use decoder::parse;
pub use value::{JsonError, Value};
