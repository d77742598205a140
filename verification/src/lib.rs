//! Structural schema inference for JSON documents.
//!
//! Given a parsed JSON value, the library produces a [`schema::Schema`]: a
//! normalized description of the shapes occurring at each position of the
//! document — primitive kinds, and for arrays and objects the distinct
//! sub-shapes observed among their elements and properties.

pub mod infer;
pub mod json;
pub mod key_order;
pub mod laws;
pub mod schema;
