//! A lexical scanner for a small lambda-calculus syntax.
//!
//! [`source::Source`] is a character cursor over a text; [`lexer::Lexer`]
//! drives one cursor and classifies one lexeme at a time into a
//! [`lexer::Token`].

pub mod source;
pub mod lexer;
