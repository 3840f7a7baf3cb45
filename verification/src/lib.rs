//! A tokenizer for an indentation-sensitive scripting language.
//!
//! [`token`] holds the token kinds and the keyword table, [`text`] the
//! byte-level vocabulary of the scanner, and [`lexer`] the scanner itself:
//! what it does as a function on mathematical values, the executable lexer
//! that is proved to compute that function, and the laws that hold of it.

pub mod lexer;
pub mod text;
pub mod token;
