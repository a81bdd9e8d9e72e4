//! A small lexer for arithmetic expressions: it turns a string into
//! classified tokens (integers, `+`, `-`, `=`, whitespace, end of input and
//! invalid characters), each with the span of text it was read from.

pub mod laws;
pub mod lexer;
pub mod token;

pub use lexer::{tokenize, Lexer};
pub use token::{TextSpan, Token, TokenKind};
