//! Tokens and lexical errors, together with their mathematical images.

use vstd::prelude::*;

verus! {

/// The closed set of token kinds that the scanner emits.
#[derive(Clone, Copy, Debug, PartialEq, Eq, Structural)]
pub enum TokenKind {
    Bang,
    Dollar,
    Amp,
    Spread,
    Colon,
    Comma,
    At,
    LParen,
    RParen,
    LBracket,
    RBracket,
    LCurly,
    RCurly,
    Pipe,
    Eq,
    Name,
    Int,
    Float,
    StringValue,
    Comment,
    Whitespace,
    Eof,
}

/// Mathematical image of a token: its kind, the characters of its verbatim
/// source slice, and the byte offset at which the token begins.
#[verifier::ext_equal]
pub struct TokenModel {
    pub kind: TokenKind,
    pub data: Seq<char>,
    pub index: int,
}

/// A token: a lexically significant substring of the input, tagged by kind,
/// with its starting byte offset preserved.  `data` is the verbatim source
/// slice; for the terminal end-of-input token it is the sentinel `"EOF"`.
pub struct Token {
    pub kind: TokenKind,
    pub data: String,
    pub index: usize,
}

impl View for Token {
    type V = TokenModel;

    open spec fn view(&self) -> TokenModel {
        TokenModel { kind: self.kind, data: self.data@, index: self.index as int }
    }
}

impl Token {
    /// The token's kind.
    pub fn kind(&self) -> (r: TokenKind)
        ensures
            r == self@.kind,
    {
        self.kind
    }

    /// The verbatim source slice that produced the token.
    pub fn data(&self) -> (r: &str)
        ensures
            r@ == self@.data,
    {
        self.data.as_str()
    }

    /// The byte offset at which the token begins in the original input.
    pub fn index(&self) -> (r: usize)
        ensures
            r as int == self@.index,
    {
        self.index
    }
}

/// Mathematical image of a lexical error: its message, the characters of the
/// offending slice, and the byte offset at which the slice begins.
#[verifier::ext_equal]
pub struct LexErrorModel {
    pub message: Seq<char>,
    pub data: Seq<char>,
    pub index: int,
}

/// A lexical error: a human-readable message, the verbatim offending slice,
/// and its byte offset.  Errors are independent values, not attached to
/// tokens.
pub struct LexError {
    pub message: String,
    pub data: String,
    pub index: usize,
}

impl View for LexError {
    type V = LexErrorModel;

    open spec fn view(&self) -> LexErrorModel {
        LexErrorModel { message: self.message@, data: self.data@, index: self.index as int }
    }
}

impl LexError {
    /// The human-readable message.
    pub fn message(&self) -> (r: &str)
        ensures
            r@ == self@.message,
    {
        self.message.as_str()
    }

    /// The verbatim offending slice.
    pub fn data(&self) -> (r: &str)
        ensures
            r@ == self@.data,
    {
        self.data.as_str()
    }

    /// The byte offset at which the offending slice begins.
    pub fn index(&self) -> (r: usize)
        ensures
            r as int == self@.index,
    {
        self.index
    }
}

} // verus!
