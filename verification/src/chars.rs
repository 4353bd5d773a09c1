//! Character classes of the GraphQL lexical grammar.
//!
//! Each class exists twice: as a spec function over a `char`, used by the
//! scanner model and by contracts, and as an executable function proved to
//! agree with it.

use vstd::prelude::*;

verus! {

/// Whitespace: horizontal tab, line feed, vertical tab, form feed, carriage
/// return, space, the byte-order mark, next line, the bidirectional marks,
/// and the Unicode line and paragraph separators.
pub open spec fn whitespace_char(c: char) -> bool {
    let u = c as u32;
    u == 0x0009 || u == 0x000A || u == 0x000B || u == 0x000C || u == 0x000D || u == 0x0020
        || u == 0xFEFF || u == 0x0085 || u == 0x200E || u == 0x200F || u == 0x2028 || u == 0x2029
}

pub fn is_whitespace(c: char) -> (r: bool)
    ensures
        r == whitespace_char(c),
{
    let u = c as u32;
    u == 0x0009 || u == 0x000A || u == 0x000B || u == 0x000C || u == 0x000D || u == 0x0020
        || u == 0xFEFF || u == 0x0085 || u == 0x200E || u == 0x200F || u == 0x2028 || u == 0x2029
}

/// Start of an identifier: an ASCII letter or an underscore.
pub open spec fn ident_char(c: char) -> bool {
    let u = c as u32;
    (0x41 <= u && u <= 0x5A) || (0x61 <= u && u <= 0x7A) || u == 0x5F
}

pub fn is_ident_char(c: char) -> (r: bool)
    ensures
        r == ident_char(c),
{
    let u = c as u32;
    (0x41 <= u && u <= 0x5A) || (0x61 <= u && u <= 0x7A) || u == 0x5F
}

/// Line terminators: line feed and carriage return.
pub open spec fn line_terminator_char(c: char) -> bool {
    let u = c as u32;
    u == 0x000A || u == 0x000D
}

pub fn is_line_terminator(c: char) -> (r: bool)
    ensures
        r == line_terminator_char(c),
{
    let u = c as u32;
    u == 0x000A || u == 0x000D
}

/// An ASCII decimal digit.
pub open spec fn digit_char(c: char) -> bool {
    let u = c as u32;
    0x30 <= u && u <= 0x39
}

pub fn is_digit_char(c: char) -> (r: bool)
    ensures
        r == digit_char(c),
{
    let u = c as u32;
    0x30 <= u && u <= 0x39
}

/// The characters that may follow a backslash in a string value:
/// `"  \  /  b  f  n  r  t`.
pub open spec fn escaped_char(c: char) -> bool {
    let u = c as u32;
    u == 0x22 || u == 0x5C || u == 0x2F || u == 0x62 || u == 0x66 || u == 0x6E || u == 0x72
        || u == 0x74
}

pub fn is_escaped_char(c: char) -> (r: bool)
    ensures
        r == escaped_char(c),
{
    let u = c as u32;
    u == 0x22 || u == 0x5C || u == 0x2F || u == 0x62 || u == 0x66 || u == 0x6E || u == 0x72
        || u == 0x74
}

/// A source character: tab, line feed, carriage return, or any code point
/// from `U+0020` through `U+FFFF`.
pub open spec fn source_char(c: char) -> bool {
    let u = c as u32;
    u == 0x0009 || u == 0x000A || u == 0x000D || (0x0020 <= u && u <= 0xFFFF)
}

pub fn is_source_char(c: char) -> (r: bool)
    ensures
        r == source_char(c),
{
    let u = c as u32;
    u == 0x0009 || u == 0x000A || u == 0x000D || (0x0020 <= u && u <= 0xFFFF)
}

} // verus!
