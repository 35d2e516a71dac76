//! A miniature CSS-in-Rust engine: a CSS-like authoring syntax with nested
//! qualified rules, generic at-rules and interpolated values is parsed into an
//! immutable `Sheet`, flattened by a single-pass renderer into one scoped CSS
//! stylesheet, and managed by a content-addressed, reference-counting registry.
pub mod ast;
pub mod render;
pub mod parser;
pub mod registry;
pub mod source;
pub mod laws;
