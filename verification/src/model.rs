//! The mathematical model of the scanner.
//!
//! `scan` maps the remaining input (a suffix of the full character sequence)
//! to the outcome of one scanner invocation: either a token of some kind or
//! an error, together with the number of characters the invocation consumes.
//! `pieces_from` iterates `scan` to the end of the input, producing the
//! interleaved sequence of tokens and errors; `spec_tokens` and
//! `spec_errors` project out its two halves.  The executable scanner is
//! proved to return exactly what this model assigns to its input.

use vstd::prelude::*;
use vstd::utf8::encode_scalar;
use vstd::utf8::encode_utf8;

use crate::chars::digit_char;
use crate::chars::escaped_char;
use crate::chars::ident_char;
use crate::chars::line_terminator_char;
use crate::chars::source_char;
use crate::chars::whitespace_char;
use crate::token::LexErrorModel;
use crate::token::TokenKind;
use crate::token::TokenModel;

verus! {

// ------------------------------------------------------------------
// Byte measures.
//
// Token and error offsets are byte offsets into the UTF-8 input, while the
// scanner itself walks characters.  `byte_len` measures a character
// sequence in UTF-8 bytes; `byte_at` gives the byte offset of character
// position `i`.
// ------------------------------------------------------------------

/// The UTF-8 length of one character, in bytes.
#[verifier::opaque]
pub open spec fn char_bytes(c: char) -> int {
    encode_scalar(c as u32).len() as int
}

/// The UTF-8 length of a character sequence, in bytes.
#[verifier::opaque]
pub open spec fn byte_len(s: Seq<char>) -> int {
    encode_utf8(s).len() as int
}

/// The byte offset of character position `i` of `s`.
#[verifier::opaque]
pub open spec fn byte_at(s: Seq<char>, i: int) -> int {
    byte_len(s.take(i))
}

// ------------------------------------------------------------------
// Error messages.
// ------------------------------------------------------------------

pub open spec fn msg_unexpected_character() -> Seq<char> {
    "Unexpected character"@
}

/// The message for an unexpected character inside a partly scanned token;
/// `slice` is the text read so far, offending character included.
pub open spec fn msg_unexpected_character_in(slice: Seq<char>) -> Seq<char> {
    "Unexpected character `"@ + slice + "`"@
}

pub open spec fn msg_unterminated_spread() -> Seq<char> {
    "Unterminated spread operator"@
}

pub open spec fn msg_unterminated_string() -> Seq<char> {
    "unterminated string value"@
}

pub open spec fn msg_unexpected_eof_string() -> Seq<char> {
    "unexpected end of data while lexing string value"@
}

pub open spec fn msg_unexpected_line_terminator() -> Seq<char> {
    "unexpected line terminator"@
}

pub open spec fn msg_unexpected_escaped_character() -> Seq<char> {
    "unexpected escaped character"@
}

/// The sentinel slice carried by the terminal end-of-input token.
pub open spec fn eof_sentinel() -> Seq<char> {
    "EOF"@
}

// ------------------------------------------------------------------
// One scanner invocation.
// ------------------------------------------------------------------

/// What one scanner invocation produced: a token of some kind, or an error
/// with its message.
#[verifier::ext_equal]
pub enum ScanKind {
    Token { kind: TokenKind },
    Error { message: Seq<char> },
}

/// The outcome of one scanner invocation on a remaining input `s`: the
/// result's shape and the number of characters consumed.  The consumed
/// prefix `s.take(len)` is the token's (or error's) verbatim slice; the next
/// invocation starts at `s.skip(len)`.
#[verifier::ext_equal]
pub struct ScanResult {
    pub what: ScanKind,
    pub len: int,
}

pub open spec fn token_result(kind: TokenKind, len: int) -> ScanResult {
    ScanResult { what: ScanKind::Token { kind }, len }
}

pub open spec fn error_result(message: Seq<char>, len: int) -> ScanResult {
    ScanResult { what: ScanKind::Error { message }, len }
}

/// Finalization shared by tokens that may carry a recoverable error: if one
/// was recorded the invocation yields the error instead of the token.
pub open spec fn flush_result(kind: TokenKind, len: int, err: Option<Seq<char>>) -> ScanResult {
    match err {
        Option::None => token_result(kind, len),
        Option::Some(m) => error_result(m, len),
    }
}

/// Identifier state: `i` characters consumed, consume identifier and digit
/// characters, stop before anything else.
pub open spec fn scan_ident(s: Seq<char>, i: int) -> ScanResult
    decreases s.len() - i,
{
    if i < 0 || i >= s.len() {
        token_result(TokenKind::Name, i)
    } else if ident_char(s[i]) || digit_char(s[i]) {
        scan_ident(s, i + 1)
    } else {
        token_result(TokenKind::Name, i)
    }
}

/// Whitespace state: consume whitespace, stop before anything else.
pub open spec fn scan_whitespace(s: Seq<char>, i: int) -> ScanResult
    decreases s.len() - i,
{
    if i < 0 || i >= s.len() {
        token_result(TokenKind::Whitespace, i)
    } else if whitespace_char(s[i]) {
        scan_whitespace(s, i + 1)
    } else {
        token_result(TokenKind::Whitespace, i)
    }
}

/// Comment state: consume until, and not including, a line terminator.
pub open spec fn scan_comment(s: Seq<char>, i: int) -> ScanResult
    decreases s.len() - i,
{
    if i < 0 || i >= s.len() {
        token_result(TokenKind::Comment, i)
    } else if line_terminator_char(s[i]) {
        token_result(TokenKind::Comment, i)
    } else {
        scan_comment(s, i + 1)
    }
}

/// Spread state: after `i` dots, a spread token needs three in all.  A
/// non-dot is a recoverable error over the consumed slice, offending
/// character included; end of input inside the sequence is an error over
/// the dots alone.
pub open spec fn scan_spread(s: Seq<char>, i: int) -> ScanResult
    decreases s.len() - i,
{
    if i >= 3 {
        token_result(TokenKind::Spread, 3)
    } else if i < 0 || i >= s.len() {
        error_result(msg_unterminated_spread(), i)
    } else if s[i] == '.' {
        scan_spread(s, i + 1)
    } else {
        error_result(msg_unterminated_spread(), i + 1)
    }
}

/// Integer-literal state.
pub open spec fn scan_int(s: Seq<char>, i: int) -> ScanResult
    decreases s.len() - i, 2int,
{
    if i < 0 || i >= s.len() {
        token_result(TokenKind::Int, i)
    } else if digit_char(s[i]) {
        scan_int(s, i + 1)
    } else if s[i] == '.' {
        scan_float(s, i + 1, Option::None)
    } else if s[i] == 'e' || s[i] == 'E' {
        scan_exponent(s, i + 1, Option::None)
    } else {
        token_result(TokenKind::Int, i)
    }
}

/// Float-literal state.  A second dot records a recoverable error and
/// scanning continues; the error surfaces at finalization in place of the
/// token.
pub open spec fn scan_float(s: Seq<char>, i: int, err: Option<Seq<char>>) -> ScanResult
    decreases s.len() - i, 1int,
{
    if i < 0 || i >= s.len() {
        flush_result(TokenKind::Float, i, err)
    } else if digit_char(s[i]) {
        scan_float(s, i + 1, err)
    } else if s[i] == '.' {
        scan_float(s, i + 1, Option::Some(msg_unexpected_character_in("."@)))
    } else if s[i] == 'e' || s[i] == 'E' {
        scan_exponent(s, i + 1, err)
    } else {
        flush_result(TokenKind::Float, i, err)
    }
}

/// Exponent state: a digit or a sign continues the float; anything else is a
/// hard error whose message shows the consumed slice with the offending
/// character, which itself is left for the next invocation.
pub open spec fn scan_exponent(s: Seq<char>, i: int, err: Option<Seq<char>>) -> ScanResult
    decreases s.len() - i, 0int,
{
    if i < 0 || i >= s.len() {
        flush_result(TokenKind::Float, i, err)
    } else if digit_char(s[i]) || s[i] == '+' || s[i] == '-' {
        scan_float(s, i + 1, err)
    } else {
        error_result(msg_unexpected_character_in(s.take(i + 1)), i)
    }
}

/// Sign state: `+` or `-` must be followed by a digit; anything else is a
/// hard error as in the exponent state; end of input emits the bare sign as
/// an integer token.
pub open spec fn scan_plus_minus(s: Seq<char>) -> ScanResult {
    if s.len() <= 1 {
        token_result(TokenKind::Int, 1)
    } else if digit_char(s[1]) {
        scan_int(s, 2)
    } else {
        error_result(msg_unexpected_character_in(s.take(2)), 1)
    }
}

/// String-body state: a quote terminates; a line terminator records a
/// recoverable error and continues; a backslash begins an escape; a
/// non-source character ends the token with itself included; end of input
/// is the hard error `unterminated string value` over the whole slice.
pub open spec fn scan_string_body(s: Seq<char>, i: int, err: Option<Seq<char>>) -> ScanResult
    decreases s.len() - i, 1int,
{
    if i < 0 || i >= s.len() {
        error_result(msg_unterminated_string(), i)
    } else if s[i] == '"' {
        flush_result(TokenKind::StringValue, i + 1, err)
    } else if line_terminator_char(s[i]) {
        scan_string_body(s, i + 1, Option::Some(msg_unexpected_line_terminator()))
    } else if s[i] == '\\' {
        scan_string_escape(s, i + 1, err)
    } else if source_char(s[i]) {
        scan_string_body(s, i + 1, err)
    } else {
        flush_result(TokenKind::StringValue, i + 1, err)
    }
}

/// Escape state: an escaped character or `u` returns to the string body;
/// anything else records the recoverable error `unexpected escaped
/// character` and returns to the string body.
pub open spec fn scan_string_escape(s: Seq<char>, i: int, err: Option<Seq<char>>) -> ScanResult
    decreases s.len() - i, 0int,
{
    if i < 0 || i >= s.len() {
        flush_result(TokenKind::StringValue, i, err)
    } else if escaped_char(s[i]) || s[i] == 'u' {
        scan_string_body(s, i + 1, err)
    } else {
        scan_string_body(s, i + 1, Option::Some(msg_unexpected_escaped_character()))
    }
}

/// Block-string state: consume source characters until `"""`; a non-source
/// character ends the token with itself included; end of input emits the
/// accumulated token.
pub open spec fn scan_block_string(s: Seq<char>, i: int) -> ScanResult
    decreases s.len() - i,
{
    if i < 0 || i >= s.len() {
        token_result(TokenKind::StringValue, i)
    } else if s[i] == '"' {
        if i + 1 < s.len() && s[i + 1] == '"' {
            if i + 2 < s.len() && s[i + 2] == '"' {
                token_result(TokenKind::StringValue, i + 3)
            } else {
                scan_block_string(s, i + 2)
            }
        } else {
            scan_block_string(s, i + 1)
        }
    } else if source_char(s[i]) {
        scan_block_string(s, i + 1)
    } else {
        token_result(TokenKind::StringValue, i + 1)
    }
}

/// Opening-quote state: a second quote probes for a block-string opener or
/// emits the empty string token; end of input right after the opening quote
/// is a hard error.
pub open spec fn scan_string_start(s: Seq<char>) -> ScanResult {
    if s.len() <= 1 {
        error_result(msg_unexpected_eof_string(), 1)
    } else if s[1] == '"' {
        if s.len() > 2 && s[2] == '"' {
            scan_block_string(s, 3)
        } else {
            token_result(TokenKind::StringValue, 2)
        }
    } else if line_terminator_char(s[1]) {
        scan_string_body(s, 2, Option::Some(msg_unexpected_line_terminator()))
    } else if s[1] == '\\' {
        scan_string_escape(s, 2, Option::None)
    } else if source_char(s[1]) {
        scan_string_body(s, 2, Option::None)
    } else {
        token_result(TokenKind::StringValue, 2)
    }
}

/// The kind of the single-character punctuator token `c` produces, if any.
pub open spec fn punct_kind(c: char) -> Option<TokenKind> {
    if c == '!' {
        Option::Some(TokenKind::Bang)
    } else if c == '$' {
        Option::Some(TokenKind::Dollar)
    } else if c == '&' {
        Option::Some(TokenKind::Amp)
    } else if c == '(' {
        Option::Some(TokenKind::LParen)
    } else if c == ')' {
        Option::Some(TokenKind::RParen)
    } else if c == ':' {
        Option::Some(TokenKind::Colon)
    } else if c == ',' {
        Option::Some(TokenKind::Comma)
    } else if c == '=' {
        Option::Some(TokenKind::Eq)
    } else if c == '@' {
        Option::Some(TokenKind::At)
    } else if c == '[' {
        Option::Some(TokenKind::LBracket)
    } else if c == ']' {
        Option::Some(TokenKind::RBracket)
    } else if c == '{' {
        Option::Some(TokenKind::LCurly)
    } else if c == '|' {
        Option::Some(TokenKind::Pipe)
    } else if c == '}' {
        Option::Some(TokenKind::RCurly)
    } else {
        Option::None
    }
}

/// One scanner invocation on the remaining input `s`.  Empty input yields
/// the end-of-input token; otherwise the first character selects the state
/// the scanner enters, in the same order the executable scanner tests it.
pub open spec fn scan(s: Seq<char>) -> ScanResult {
    if s.len() == 0 {
        token_result(TokenKind::Eof, 0)
    } else {
        let c = s[0];
        if c == '"' {
            scan_string_start(s)
        } else if c == '#' {
            scan_comment(s, 1)
        } else if c == '.' {
            scan_spread(s, 1)
        } else if whitespace_char(c) {
            scan_whitespace(s, 1)
        } else if ident_char(c) {
            scan_ident(s, 1)
        } else if c == '+' || c == '-' {
            scan_plus_minus(s)
        } else if digit_char(c) {
            scan_int(s, 1)
        } else if punct_kind(c) is Some {
            token_result(punct_kind(c)->0, 1)
        } else {
            error_result(msg_unexpected_character(), 1)
        }
    }
}

// ------------------------------------------------------------------
// Whole-input tokenization.
// ------------------------------------------------------------------

/// One element of a tokenization: a token or an error, in source order.
#[verifier::ext_equal]
pub enum Piece {
    Tok { t: TokenModel },
    Diag { e: LexErrorModel },
}

/// The piece that one scanner invocation at character position `start` of
/// `input` contributes.  A token's or error's `index` is the byte offset of
/// `start`; the end-of-input token's `index` is one past it and its data is
/// the sentinel.
pub open spec fn piece_at(input: Seq<char>, start: int) -> Piece {
    let s = input.skip(start);
    let sr = scan(s);
    match sr.what {
        ScanKind::Token { kind } => {
            if kind == TokenKind::Eof {
                Piece::Tok {
                    t: TokenModel {
                        kind,
                        data: eof_sentinel(),
                        index: byte_at(input, start) + 1,
                    },
                }
            } else {
                Piece::Tok {
                    t: TokenModel { kind, data: s.take(sr.len), index: byte_at(input, start) },
                }
            }
        },
        ScanKind::Error { message } => Piece::Diag {
            e: LexErrorModel { message, data: s.take(sr.len), index: byte_at(input, start) },
        },
    }
}

/// The pieces produced from character position `start` to the end of the
/// input, the terminal end-of-input piece included.  The clamps on the step
/// are never exercised: one invocation on a non-empty remainder consumes
/// between one character and all of it (`lemma_scan_len`).
pub open spec fn pieces_from(input: Seq<char>, start: int) -> Seq<Piece>
    decreases input.len() - start,
{
    if start < 0 || start >= input.len() {
        seq![piece_at(input, start)]
    } else {
        let n = scan(input.skip(start)).len;
        let step = if n < 1 {
            1
        } else {
            n
        };
        let next = if start + step > input.len() {
            input.len() as int
        } else {
            start + step
        };
        seq![piece_at(input, start)] + pieces_from(input, next)
    }
}

/// The full tokenization of `input`: its tokens and errors, interleaved in
/// source order.
pub open spec fn spec_pieces(input: Seq<char>) -> Seq<Piece> {
    pieces_from(input, 0)
}

/// The tokens of a piece sequence, in order.
pub open spec fn tokens_of(ps: Seq<Piece>) -> Seq<TokenModel>
    decreases ps.len(),
{
    if ps.len() == 0 {
        Seq::empty()
    } else {
        match ps[0] {
            Piece::Tok { t } => seq![t] + tokens_of(ps.drop_first()),
            Piece::Diag { e: _ } => tokens_of(ps.drop_first()),
        }
    }
}

/// The errors of a piece sequence, in order.
pub open spec fn errors_of(ps: Seq<Piece>) -> Seq<LexErrorModel>
    decreases ps.len(),
{
    if ps.len() == 0 {
        Seq::empty()
    } else {
        match ps[0] {
            Piece::Tok { t: _ } => errors_of(ps.drop_first()),
            Piece::Diag { e } => seq![e] + errors_of(ps.drop_first()),
        }
    }
}

/// The token sequence a tokenization of `input` yields.
pub open spec fn spec_tokens(input: Seq<char>) -> Seq<TokenModel> {
    tokens_of(spec_pieces(input))
}

/// The error sequence a tokenization of `input` yields.
pub open spec fn spec_errors(input: Seq<char>) -> Seq<LexErrorModel> {
    errors_of(spec_pieces(input))
}

// ------------------------------------------------------------------
// Facts about the byte measures.
// ------------------------------------------------------------------

/// Appending one character appends its UTF-8 encoding.
pub proof fn lemma_encode_utf8_snoc(t: Seq<char>, c: char)
    ensures
        encode_utf8(t.push(c)) == encode_utf8(t) + encode_scalar(c as u32),
    decreases t.len(),
{
    if t.len() == 0 {
        assert(t.push(c).drop_first() =~= Seq::<char>::empty());
        assert(t.push(c)[0] == c);
        assert(encode_utf8(t.push(c)) == encode_scalar(c as u32) + encode_utf8(
            t.push(c).drop_first(),
        ));
        assert(encode_utf8(Seq::<char>::empty()) == Seq::<u8>::empty());
        assert(encode_utf8(t) == Seq::<u8>::empty());
        assert(encode_scalar(c as u32) + Seq::<u8>::empty() =~= encode_scalar(c as u32));
        assert(Seq::<u8>::empty() + encode_scalar(c as u32) =~= encode_scalar(c as u32));
    } else {
        assert(t.push(c)[0] == t[0]);
        assert(t.push(c).drop_first() =~= t.drop_first().push(c));
        assert(encode_utf8(t.push(c)) == encode_scalar(t[0] as u32) + encode_utf8(
            t.push(c).drop_first(),
        ));
        lemma_encode_utf8_snoc(t.drop_first(), c);
        assert(encode_utf8(t) == encode_scalar(t[0] as u32) + encode_utf8(t.drop_first()));
        assert(encode_scalar(t[0] as u32) + (encode_utf8(t.drop_first()) + encode_scalar(
            c as u32,
        )) =~= (encode_scalar(t[0] as u32) + encode_utf8(t.drop_first())) + encode_scalar(
            c as u32,
        ));
    }
}

/// UTF-8 encoding distributes over concatenation.
pub proof fn lemma_encode_utf8_concat(a: Seq<char>, b: Seq<char>)
    ensures
        encode_utf8(a + b) == encode_utf8(a) + encode_utf8(b),
    decreases a.len(),
{
    if a.len() == 0 {
        assert(a + b =~= b);
        assert(encode_utf8(a) + encode_utf8(b) =~= encode_utf8(b));
    } else {
        assert((a + b)[0] == a[0]);
        assert((a + b).drop_first() =~= a.drop_first() + b);
        lemma_encode_utf8_concat(a.drop_first(), b);
        assert(encode_utf8(a + b) =~= encode_utf8(a) + encode_utf8(b));
    }
}

/// A character is between one and four bytes wide.
pub proof fn lemma_char_bytes_bounds(c: char)
    ensures
        1 <= char_bytes(c) <= 4,
{
    reveal(char_bytes);
}

/// Crossing one character advances the byte offset by its width.
pub proof fn lemma_byte_at_succ(s: Seq<char>, i: int)
    requires
        0 <= i < s.len(),
    ensures
        byte_at(s, i + 1) == byte_at(s, i) + char_bytes(s[i]),
{
    reveal(char_bytes);
    reveal(byte_len);
    reveal(byte_at);
    assert(s.take(i + 1) =~= s.take(i).push(s[i]));
    lemma_encode_utf8_snoc(s.take(i), s[i]);
}

/// Byte offsets are monotone, and the gap between two of them is the byte
/// length of the characters in between.
pub proof fn lemma_byte_at_bounds(s: Seq<char>, i: int, j: int)
    requires
        0 <= i <= j <= s.len(),
    ensures
        byte_at(s, i) <= byte_at(s, j),
        byte_at(s, j) - byte_at(s, i) == byte_len(s.subrange(i, j)),
{
    reveal(byte_len);
    reveal(byte_at);
    assert(s.take(j) =~= s.take(i) + s.subrange(i, j));
    lemma_encode_utf8_concat(s.take(i), s.subrange(i, j));
}

/// The byte offset of the end of the sequence is its byte length.
pub proof fn lemma_byte_at_full(s: Seq<char>)
    ensures
        byte_at(s, s.len() as int) == byte_len(s),
{
    reveal(byte_len);
    reveal(byte_at);
    assert(s.take(s.len() as int) =~= s);
}

/// Byte offsets begin at zero, and none is negative.
pub proof fn lemma_byte_at_zero(s: Seq<char>, i: int)
    requires
        0 <= i <= s.len(),
    ensures
        byte_at(s, 0) == 0,
        byte_at(s, i) >= 0,
{
    reveal(byte_len);
    reveal(byte_at);
    assert(s.take(0) =~= Seq::<char>::empty());
    assert(encode_utf8(Seq::<char>::empty()) == Seq::<u8>::empty());
}

// ------------------------------------------------------------------
// Facts about `scan`.
// ------------------------------------------------------------------

/// True when a scan outcome is the end-of-input token.
pub open spec fn result_is_eof(sr: ScanResult) -> bool {
    match sr.what {
        ScanKind::Token { kind } => kind == TokenKind::Eof,
        ScanKind::Error { message: _ } => false,
    }
}

proof fn lemma_scan_ident_len(s: Seq<char>, i: int)
    requires
        1 <= i <= s.len(),
    ensures
        i <= scan_ident(s, i).len <= s.len(),
        scan_ident(s, i).what == (ScanKind::Token { kind: TokenKind::Name }),
    decreases s.len() - i,
{
    if i < s.len() && (ident_char(s[i]) || digit_char(s[i])) {
        lemma_scan_ident_len(s, i + 1);
    }
}

pub proof fn lemma_scan_whitespace_len(s: Seq<char>, i: int)
    requires
        1 <= i <= s.len(),
    ensures
        i <= scan_whitespace(s, i).len <= s.len(),
        scan_whitespace(s, i).what == (ScanKind::Token { kind: TokenKind::Whitespace }),
    decreases s.len() - i,
{
    if i < s.len() && whitespace_char(s[i]) {
        lemma_scan_whitespace_len(s, i + 1);
    }
}

proof fn lemma_scan_comment_len(s: Seq<char>, i: int)
    requires
        1 <= i <= s.len(),
    ensures
        i <= scan_comment(s, i).len <= s.len(),
        scan_comment(s, i).what == (ScanKind::Token { kind: TokenKind::Comment }),
    decreases s.len() - i,
{
    if i < s.len() && !line_terminator_char(s[i]) {
        lemma_scan_comment_len(s, i + 1);
    }
}

proof fn lemma_scan_spread_len(s: Seq<char>, i: int)
    requires
        1 <= i <= s.len(),
        i <= 3,
    ensures
        1 <= scan_spread(s, i).len <= s.len(),
        !result_is_eof(scan_spread(s, i)),
    decreases s.len() - i,
{
    if i < 3 && i < s.len() && s[i] == '.' {
        lemma_scan_spread_len(s, i + 1);
    }
}

proof fn lemma_scan_int_len(s: Seq<char>, i: int)
    requires
        1 <= i <= s.len(),
    ensures
        i <= scan_int(s, i).len <= s.len(),
        !result_is_eof(scan_int(s, i)),
    decreases s.len() - i, 2int,
{
    if i < s.len() {
        if digit_char(s[i]) {
            lemma_scan_int_len(s, i + 1);
        } else if s[i] == '.' {
            lemma_scan_float_len(s, i + 1, Option::None);
        } else if s[i] == 'e' || s[i] == 'E' {
            lemma_scan_exponent_len(s, i + 1, Option::None);
        }
    }
}

proof fn lemma_scan_float_len(s: Seq<char>, i: int, err: Option<Seq<char>>)
    requires
        1 <= i <= s.len(),
    ensures
        i <= scan_float(s, i, err).len <= s.len(),
        !result_is_eof(scan_float(s, i, err)),
    decreases s.len() - i, 1int,
{
    if i < s.len() {
        if digit_char(s[i]) {
            lemma_scan_float_len(s, i + 1, err);
        } else if s[i] == '.' {
            lemma_scan_float_len(s, i + 1, Option::Some(msg_unexpected_character_in("."@)));
        } else if s[i] == 'e' || s[i] == 'E' {
            lemma_scan_exponent_len(s, i + 1, err);
        }
    }
}

proof fn lemma_scan_exponent_len(s: Seq<char>, i: int, err: Option<Seq<char>>)
    requires
        1 <= i <= s.len(),
    ensures
        i <= scan_exponent(s, i, err).len <= s.len(),
        !result_is_eof(scan_exponent(s, i, err)),
    decreases s.len() - i, 0int,
{
    if i < s.len() && (digit_char(s[i]) || s[i] == '+' || s[i] == '-') {
        lemma_scan_float_len(s, i + 1, err);
    }
}

proof fn lemma_scan_string_body_len(s: Seq<char>, i: int, err: Option<Seq<char>>)
    requires
        1 <= i <= s.len(),
    ensures
        i <= scan_string_body(s, i, err).len <= s.len(),
        !result_is_eof(scan_string_body(s, i, err)),
    decreases s.len() - i, 1int,
{
    if i < s.len() {
        if s[i] == '"' {
        } else if line_terminator_char(s[i]) {
            lemma_scan_string_body_len(s, i + 1, Option::Some(msg_unexpected_line_terminator()));
        } else if s[i] == '\\' {
            lemma_scan_string_escape_len(s, i + 1, err);
        } else if source_char(s[i]) {
            lemma_scan_string_body_len(s, i + 1, err);
        }
    }
}

proof fn lemma_scan_string_escape_len(s: Seq<char>, i: int, err: Option<Seq<char>>)
    requires
        1 <= i <= s.len(),
    ensures
        i <= scan_string_escape(s, i, err).len <= s.len(),
        !result_is_eof(scan_string_escape(s, i, err)),
    decreases s.len() - i, 0int,
{
    if i < s.len() {
        if escaped_char(s[i]) || s[i] == 'u' {
            lemma_scan_string_body_len(s, i + 1, err);
        } else {
            lemma_scan_string_body_len(s, i + 1, Option::Some(msg_unexpected_escaped_character()));
        }
    }
}

proof fn lemma_scan_block_string_len(s: Seq<char>, i: int)
    requires
        1 <= i <= s.len(),
    ensures
        i <= scan_block_string(s, i).len <= s.len(),
        !result_is_eof(scan_block_string(s, i)),
    decreases s.len() - i,
{
    if i < s.len() {
        if s[i] == '"' {
            if i + 1 < s.len() && s[i + 1] == '"' {
                if !(i + 2 < s.len() && s[i + 2] == '"') {
                    lemma_scan_block_string_len(s, i + 2);
                }
            } else {
                lemma_scan_block_string_len(s, i + 1);
            }
        } else if source_char(s[i]) {
            lemma_scan_block_string_len(s, i + 1);
        }
    }
}

/// One scanner invocation on a non-empty remainder consumes between one
/// character and all of it, and never yields the end-of-input token; on an
/// empty remainder it yields exactly that token.
pub proof fn lemma_scan_len(s: Seq<char>)
    ensures
        s.len() == 0 ==> scan(s) == token_result(TokenKind::Eof, 0),
        s.len() > 0 ==> 1 <= scan(s).len <= s.len(),
        s.len() > 0 ==> !result_is_eof(scan(s)),
{
    if s.len() > 0 {
        let c = s[0];
        if c == '"' {
            if s.len() > 1 && s[1] == '"' && s.len() > 2 && s[2] == '"' {
                lemma_scan_block_string_len(s, 3);
            } else if s.len() > 1 && s[1] != '"' {
                if line_terminator_char(s[1]) {
                    lemma_scan_string_body_len(
                        s,
                        2,
                        Option::Some(msg_unexpected_line_terminator()),
                    );
                } else if s[1] == '\\' {
                    lemma_scan_string_escape_len(s, 2, Option::None);
                } else if source_char(s[1]) {
                    lemma_scan_string_body_len(s, 2, Option::None);
                }
            }
        } else if c == '#' {
            lemma_scan_comment_len(s, 1);
        } else if c == '.' {
            lemma_scan_spread_len(s, 1);
        } else if whitespace_char(c) {
            lemma_scan_whitespace_len(s, 1);
        } else if ident_char(c) {
            lemma_scan_ident_len(s, 1);
        } else if c == '+' || c == '-' {
            if s.len() > 1 && digit_char(s[1]) {
                lemma_scan_int_len(s, 2);
            }
        } else if digit_char(c) {
            lemma_scan_int_len(s, 1);
        }
    }
}

/// Unfolds one step of `pieces_from`, with the step clamps discharged.
pub proof fn lemma_pieces_from_unfold(input: Seq<char>, start: int)
    requires
        0 <= start <= input.len(),
    ensures
        start == input.len() ==> pieces_from(input, start) == seq![piece_at(input, start)],
        start < input.len() ==> {
            let n = scan(input.skip(start)).len;
            &&& 1 <= n <= input.len() - start
            &&& pieces_from(input, start) == seq![piece_at(input, start)] + pieces_from(
                input,
                start + n,
            )
        },
{
    if start < input.len() {
        lemma_scan_len(input.skip(start));
    }
}

/// Appending a piece appends its token or its error to the projections.
pub proof fn lemma_pieces_snoc(ps: Seq<Piece>, p: Piece)
    ensures
        tokens_of(ps.push(p)) == tokens_of(ps) + (match p {
            Piece::Tok { t } => seq![t],
            Piece::Diag { e: _ } => Seq::<TokenModel>::empty(),
        }),
        errors_of(ps.push(p)) == errors_of(ps) + (match p {
            Piece::Tok { t: _ } => Seq::<LexErrorModel>::empty(),
            Piece::Diag { e } => seq![e],
        }),
    decreases ps.len(),
{
    if ps.len() == 0 {
        assert(ps.push(p)[0] == p);
        assert(ps.push(p).drop_first() =~= Seq::<Piece>::empty());
        assert(tokens_of(Seq::<Piece>::empty()) == Seq::<TokenModel>::empty());
        assert(errors_of(Seq::<Piece>::empty()) == Seq::<LexErrorModel>::empty());
        match p {
            Piece::Tok { t } => {
                assert(tokens_of(ps.push(p)) =~= tokens_of(ps) + seq![t]);
                assert(errors_of(ps.push(p)) =~= errors_of(ps));
            },
            Piece::Diag { e } => {
                assert(tokens_of(ps.push(p)) =~= tokens_of(ps));
                assert(errors_of(ps.push(p)) =~= errors_of(ps) + seq![e]);
            },
        }
    } else {
        assert(ps.push(p)[0] == ps[0]);
        assert(ps.push(p).drop_first() =~= ps.drop_first().push(p));
        lemma_pieces_snoc(ps.drop_first(), p);
        match p {
            Piece::Tok { t } => {
                assert(tokens_of(ps.push(p)) =~= tokens_of(ps) + seq![t]);
                assert(errors_of(ps.push(p)) =~= errors_of(ps));
            },
            Piece::Diag { e } => {
                assert(tokens_of(ps.push(p)) =~= tokens_of(ps));
                assert(errors_of(ps.push(p)) =~= errors_of(ps) + seq![e]);
            },
        }
    }
}

// ------------------------------------------------------------------
// Small sequence facts used throughout.
// ------------------------------------------------------------------

/// A window of a suffix is a window of the whole sequence.
pub proof fn lemma_skip_take(s: Seq<char>, a: int, k: int)
    requires
        0 <= a <= s.len(),
        0 <= k <= s.len() - a,
    ensures
        s.skip(a).take(k) == s.subrange(a, a + k),
{
    assert(s.skip(a).take(k) =~= s.subrange(a, a + k));
}

/// Two suffix steps are one.
pub proof fn lemma_skip_skip(s: Seq<char>, a: int, k: int)
    requires
        0 <= a,
        0 <= k,
        a + k <= s.len(),
    ensures
        s.skip(a).skip(k) == s.skip(a + k),
{
    assert(s.skip(a).skip(k) =~= s.skip(a + k));
}

} // verus!
