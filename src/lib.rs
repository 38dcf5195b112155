//! Schema-driven validation of generic values.
//!
//! A schema node is compiled once into a tree of validators, which is then
//! applied to runtime values: the result is either a normalised output value
//! or every location-annotated error found in one pass.
pub mod errors;
pub mod model;
pub mod schema;
pub mod value;
