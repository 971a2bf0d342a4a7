//! Per-module scanning and semantic preprocessing for a JavaScript bundler,
//! over a plain-value model of a parsed module.
pub mod span;
pub mod require_usage;
pub mod ast;
pub mod semantic;
pub mod side_effect;
pub mod types;
pub mod rules;
pub mod subtree;
pub mod scanner;
pub mod span_uniqueness;
pub mod preprocess;
