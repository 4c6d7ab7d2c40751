//! Typed resource values for individuals, their JSON encoding, an incremental
//! Turtle formatter and the raw-payload dispatcher.

pub mod decimal;
pub mod json;
pub mod parser;
pub mod resource;
pub mod text;
pub mod turtle;
