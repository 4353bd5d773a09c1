//! A verified lexical scanner for GraphQL source text.
//!
//! The scanner turns an input string into a stream of [`Token`]s and
//! [`LexError`]s.  Its behaviour is pinned down by a mathematical model
//! (see [`model`]): `Lexer::new` is proved to return exactly the token and
//! error sequences that the model assigns to the input.  On top of that
//! model, [`props`] proves the scanner's headline laws: losslessness,
//! offset monotonicity, terminality of the end-of-input token, determinism,
//! and independence from surrounding whitespace.

pub mod chars;
mod cursor;
pub mod lexer;
pub mod model;
pub mod props;
pub mod token;

pub use chars::{
    is_digit_char, is_escaped_char, is_ident_char, is_line_terminator, is_source_char,
    is_whitespace,
};
pub use lexer::Lexer;
pub use token::{LexError, LexErrorModel, Token, TokenKind, TokenModel};
