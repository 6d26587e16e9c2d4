//! A combinator-based parsing engine over character streams.
//!
//! Parsers are built by composing small typed parsing units (exact
//! character, literal, predicate) with combinators (sequencing, ordered
//! choice with backtracking, bounded repetition, recursion), and are run
//! against a fully materialized input; a run either yields a value and
//! consumes the whole input, or yields a structured error.

pub mod parser;
pub mod semantics;
pub mod utils;
pub mod laws;
