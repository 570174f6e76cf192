//! A lexical scanner for a small scripting language.
//!
//! The scanner turns raw source text into an ordered sequence of classified
//! tokens: operators and punctuation, string and number literals,
//! identifiers, reserved keywords, and a terminal end-of-input marker.
//! Lexical errors (an unterminated string, an unexpected character) are
//! collected alongside the tokens so that one pass can surface several
//! diagnostics; a caller must check for them before consuming the tokens.
//!
//! The behaviour of the scanner is specified by a mathematical model of
//! scanning over character sequences (see [`model`]), and every method of
//! [`scanner::Scanner`] is verified against that model.

pub mod model;
pub mod scanner;
pub mod token;
