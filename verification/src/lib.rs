//! Line-slicing library: translates user selectors (head, tail, middle,
//! explicit range) into half-open line-index ranges and extracts the
//! selected lines from a source in a single bounded-memory forward pass,
//! with optional before/after context and grep-style rendering.

pub mod cli;
pub mod engine;
pub mod laws;
pub mod parser;
pub mod ranges;
pub mod render;
pub mod utils;
