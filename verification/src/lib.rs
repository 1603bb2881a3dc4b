//! A line-oriented text search library: a streaming match-and-context
//! engine with a verified state machine, a matcher built on compiled
//! regular expressions, and plain-text output formatting.

pub mod config;
pub mod engine;
pub mod format;
pub mod matcher;
