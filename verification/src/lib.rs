//! A lexical scanner for a small C-like scripting language.
//!
//! Source text is split into lines, and each line is cut into classified
//! tokens: punctuation, one- and two-character operators, string and number
//! literals, identifiers and reserved words. Lexical errors are recorded as
//! diagnostics and never stop the scan.
//!
//! Every executable function carries a contract over the mathematical model
//! in [`grammar`], and Verus proves that the code meets it. What holds of
//! every scan is stated and proved in [`laws`].

pub mod text;
pub mod classes;
pub mod token;
pub mod diagnostic;
pub mod keywords;
pub mod number;
pub mod cursor;
pub mod grammar;
pub mod lexer;
pub mod laws;
