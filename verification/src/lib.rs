//! A lexical scanner for a small C-like language.
//!
//! Source text is split into maximal lexemes by a fixed, ordered set of
//! alternatives (numbers, quoted strings, word runs, operator symbols,
//! line terminators, single-character fallback), each lexeme is classified
//! against a keyword table and shape rules, and single-line comments and
//! line numbers are tracked by a small state machine.  The result of a
//! scan is an ordered sequence of immutable tokens, each carrying its
//! classification, its exact source text, a decoded value and the
//! 0-based line on which it begins.

pub mod chars;
pub mod laws;
pub mod numbers;
pub mod scanner;
pub mod splitter;
pub mod string_input;
pub mod token;
pub mod token_type;
pub mod token_value;
pub mod tree;
pub mod tree_types;
