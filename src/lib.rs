//! Parser combinators and a lexer for the chant programming language.
//!
//! Every rule works on a slice of characters and reports what it produced
//! together with how many characters it consumed. Each rule has a
//! mathematical meaning (`Parser::spec_parse`) that its executable `parse`
//! is proved to compute.
pub mod combinator;
pub mod laws;
pub mod lexer;
pub mod token;
pub mod rules;
