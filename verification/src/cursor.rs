//! The character cursor: a byte-offset-aware, peekable character reader
//! over one input buffer.
//!
//! The cursor owns the position bookkeeping of a tokenization pass.  It
//! tracks the character index where the current token begins (`start`), how
//! many characters have been read (`pos`), a one-slot `pending` character
//! for the scanner's single-character lookahead, and a one-slot error
//! register for longest-match recovery.  Token and error offsets are byte
//! offsets, served from a table built once at construction.

use vstd::prelude::*;
use vstd::string::StrSliceExecFns;
use vstd::string::StringExecFns;

use crate::model::byte_at;
use crate::model::byte_len;
use crate::model::char_bytes;
use crate::model::lemma_byte_at_bounds;
use crate::model::lemma_byte_at_full;
use crate::model::lemma_byte_at_succ;
use crate::token::LexError;

verus! {

/// Relies on `str::chars`: it yields exactly the string's characters in
/// order, so collecting it gives the string's view; and on the guarantee
/// that a `str` occupies at most `isize::MAX` bytes, so its UTF-8 byte
/// length is below `usize::MAX`.
#[verifier::external_body]
fn decode_chars(s: &str) -> (r: Vec<char>)
    ensures
        r@ == s@,
        byte_len(r@) < usize::MAX,
{
    s.chars().collect()
}

/// The UTF-8 width of one character, in bytes.
fn utf8_len(c: char) -> (n: usize)
    ensures
        n as int == char_bytes(c),
{
    proof {
        reveal(crate::model::char_bytes);
        vstd::utf8::char_is_scalar(c);
    }
    let u = c as u32;
    if u < 0x80 {
        1
    } else if u < 0x800 {
        2
    } else if u < 0x10000 {
        3
    } else {
        4
    }
}

/// Peekable character reader over one input buffer.
pub(crate) struct Cursor<'a> {
    pub(crate) source: &'a str,
    pub(crate) chars: Vec<char>,
    pub(crate) byte_pos: Vec<usize>,
    pub(crate) start: usize,
    pub(crate) pos: usize,
    pub(crate) pending: Option<char>,
    pub(crate) err: Option<LexError>,
}

impl<'a> Cursor<'a> {
    /// Well-formedness: the decoded characters mirror the source text, the
    /// byte-position table is total and correct, positions are ordered, and
    /// a pending character is always the most recently read one.
    pub(crate) open spec fn wf(&self) -> bool {
        &&& self.chars@ == self.source@
        &&& byte_len(self.chars@) < usize::MAX
        &&& self.byte_pos@.len() == self.chars@.len() + 1
        &&& forall|i: int|
            0 <= i <= self.chars@.len() ==> #[trigger] self.byte_pos@[i] as int == byte_at(
                self.chars@,
                i,
            )
        &&& self.start <= self.pos <= self.chars@.len()
        &&& match self.pending {
            Option::Some(c) => self.start < self.pos && c == self.chars@[self.pos - 1],
            Option::None => true,
        }
    }

    /// The input characters from the current token's start to the end.
    pub(crate) open spec fn rest(&self) -> Seq<char> {
        self.chars@.skip(self.start as int)
    }

    /// How many characters of `rest` the scanner has read and kept; a
    /// pending character does not count, it still belongs to the remainder.
    pub(crate) open spec fn cur(&self) -> int {
        self.pos - self.start - (if self.pending is Some {
            1int
        } else {
            0int
        })
    }

    /// The byte offset of the current token's start.
    pub(crate) open spec fn start_byte(&self) -> int {
        byte_at(self.chars@, self.start as int)
    }

    /// The input and its byte-position table, which no cursor operation
    /// ever changes.
    pub(crate) open spec fn same_input(self, other: Self) -> bool {
        self.source@ == other.source@ && self.chars@ == other.chars@ && self.byte_pos@
            == other.byte_pos@
    }

    /// Between scanner invocations: nothing is read but unfinalized, and
    /// the error register is empty.
    pub(crate) open spec fn between(&self) -> bool {
        self.cur() == 0 && self.err is None
    }

    /// A fresh cursor over `input`, positioned at its start.
    pub(crate) fn new(input: &'a str) -> (c: Cursor<'a>)
        ensures
            c.wf(),
            c.chars@ == input@,
            c.start == 0,
            c.pos == 0,
            c.pending is None,
            c.err is None,
    {
        let chars = decode_chars(input);
        let mut byte_pos: Vec<usize> = Vec::new();
        let mut b: usize = 0;
        byte_pos.push(0);
        proof {
            crate::model::lemma_byte_at_zero(chars@, 0);
        }
        let mut i: usize = 0;
        while i < chars.len()
            invariant
                i <= chars@.len(),
                chars@ == input@,
                byte_len(chars@) < usize::MAX,
                byte_pos@.len() == i + 1,
                forall|j: int| 0 <= j <= i ==> #[trigger] byte_pos@[j] as int == byte_at(chars@, j),
                b as int == byte_at(chars@, i as int),
            decreases chars@.len() - i,
        {
            proof {
                lemma_byte_at_succ(chars@, i as int);
                lemma_byte_at_bounds(chars@, i as int + 1, chars@.len() as int);
                lemma_byte_at_full(chars@);
            }
            let w = utf8_len(chars[i]);
            b = b + w;
            byte_pos.push(b);
            i = i + 1;
        }
        Cursor {
            source: input,
            chars,
            byte_pos,
            start: 0,
            pos: 0,
            pending: Option::None,
            err: Option::None,
        }
    }

    /// The byte offset at which the current token begins.
    pub(crate) fn index(&self) -> (r: usize)
        requires
            self.wf(),
        ensures
            r as int == self.start_byte(),
    {
        self.byte_pos[self.start]
    }

    /// Whether every character of the input has been read.
    pub(crate) fn eof(&self) -> (r: bool)
        ensures
            r == (self.pos == self.chars@.len()),
    {
        self.pos == self.chars.len()
    }

    /// Whether a character is stashed for re-delivery.
    pub(crate) fn pending(&self) -> (r: bool)
        ensures
            r == (self.pending is Some),
    {
        self.pending.is_some()
    }

    /// How many characters were taken into the current token before the
    /// most recently examined one.
    pub(crate) fn pending_len(&self) -> (r: usize)
        requires
            self.wf(),
            self.start < self.pos,
        ensures
            r == self.pos - self.start - 1,
    {
        self.pos - self.start - 1
    }

    /// Reads the next character: the pending one if set, otherwise the next
    /// undecoded one; end of input yields nothing.
    pub(crate) fn bump(&mut self) -> (r: Option<char>)
        requires
            old(self).wf(),
        ensures
            final(self).wf(),
            old(self).same_input(*final(self)),
            final(self).start == old(self).start,
            final(self).err == old(self).err,
            final(self).pending is None,
            old(self).cur() < old(self).rest().len() ==> r == Some(
                old(self).rest()[old(self).cur()],
            ) && final(self).cur() == old(self).cur() + 1,
            old(self).cur() >= old(self).rest().len() ==> r is None && final(self).cur() == old(
                self,
            ).cur(),
    {
        match self.pending {
            Option::Some(c) => {
                self.pending = Option::None;
                Option::Some(c)
            },
            Option::None => {
                if self.pos == self.chars.len() {
                    Option::None
                } else {
                    let c = self.chars[self.pos];
                    self.pos = self.pos + 1;
                    Option::Some(c)
                }
            },
        }
    }

    /// Conditional consume: reads the next character and keeps it when it
    /// equals `c`; otherwise stashes it as pending.  Must not be called
    /// while a character is pending.
    pub(crate) fn eatc(&mut self, c: char) -> (r: bool)
        requires
            old(self).wf(),
            old(self).pending is None,
        ensures
            final(self).wf(),
            old(self).same_input(*final(self)),
            final(self).start == old(self).start,
            final(self).err == old(self).err,
            old(self).cur() < old(self).rest().len() ==> {
                let d = old(self).rest()[old(self).cur()];
                &&& r == (d == c)
                &&& (r ==> final(self).pending is None && final(self).cur() == old(self).cur() + 1)
                &&& (!r ==> final(self).pending == Some(d) && final(self).cur() == old(self).cur())
            },
            old(self).cur() >= old(self).rest().len() ==> !r && final(self).pending is None
                && final(self).cur() == old(self).cur(),
    {
        if self.pos == self.chars.len() {
            return false;
        }
        let d = self.chars[self.pos];
        self.pos = self.pos + 1;
        if d == c {
            true
        } else {
            self.pending = Option::Some(d);
            false
        }
    }

    /// Finalizes the current token including the most recently read
    /// character, advances past it, and pre-loads the following character
    /// as pending if there is one.
    pub(crate) fn current_str(&mut self) -> (r: String)
        requires
            old(self).wf(),
            old(self).pending is None,
        ensures
            final(self).wf(),
            old(self).same_input(*final(self)),
            final(self).err == old(self).err,
            r@ == old(self).rest().take(old(self).cur()),
            final(self).start == old(self).pos,
            final(self).cur() == 0,
            final(self).rest() == old(self).rest().skip(old(self).cur()),
            final(self).pending is Some <==> old(self).pos < old(self).chars@.len(),
    {
        proof {
            crate::model::lemma_skip_take(
                self.chars@,
                self.start as int,
                self.pos - self.start,
            );
            assert(self.chars@.skip(self.pos as int) =~= self.chars@.skip(self.start as int).skip(
                self.pos - self.start,
            ));
        }
        let r = String::from_str(self.source.substring_char(self.start, self.pos));
        self.start = self.pos;
        if self.eof() {
            self.pending = Option::None;
        } else {
            proof {
                vstd::std_specs::vec::axiom_spec_len(&self.chars);
            }
            self.pending = Option::Some(self.chars[self.pos]);
            self.pos = self.pos + 1;
        }
        r
    }

    /// Finalizes the current token excluding the most recently read
    /// character, which belongs to the next token and becomes (or stays)
    /// pending.
    pub(crate) fn prev_str(&mut self) -> (r: String)
        requires
            old(self).wf(),
            old(self).start < old(self).pos,
        ensures
            final(self).wf(),
            old(self).same_input(*final(self)),
            final(self).err == old(self).err,
            r@ == old(self).rest().take(old(self).pos - 1 - old(self).start),
            final(self).start == old(self).pos - 1,
            final(self).pos == old(self).pos,
            final(self).pending == Some(old(self).chars@[old(self).pos - 1]),
            final(self).cur() == 0,
            final(self).rest() == old(self).rest().skip(old(self).pos - 1 - old(self).start),
    {
        proof {
            crate::model::lemma_skip_take(
                self.chars@,
                self.start as int,
                self.pos - 1 - self.start,
            );
            assert(self.chars@.skip(self.pos - 1) =~= self.chars@.skip(self.start as int).skip(
                self.pos - 1 - self.start,
            ));
        }
        let r = String::from_str(self.source.substring_char(self.start, self.pos - 1));
        self.start = self.pos - 1;
        self.pending = Option::Some(self.chars[self.pos - 1]);
        r
    }

    /// Consumes the rest of the input and finalizes it as the current
    /// token's slice.
    pub(crate) fn drain(&mut self) -> (r: String)
        requires
            old(self).wf(),
        ensures
            final(self).wf(),
            old(self).same_input(*final(self)),
            final(self).err == old(self).err,
            r@ == old(self).rest(),
            final(self).start == final(self).chars@.len(),
            final(self).pos == final(self).chars@.len(),
            final(self).pending is None,
            final(self).cur() == 0,
            final(self).rest() == Seq::<char>::empty(),
    {
        proof {
            assert(self.chars@.skip(self.start as int).take(self.chars@.len() - self.start)
                =~= self.chars@.skip(self.start as int));
            assert(self.chars@.skip(self.chars@.len() as int) =~= Seq::<char>::empty());
        }
        let r = String::from_str(self.source.substring_char(self.start, self.chars.len()));
        self.start = self.chars.len();
        self.pos = self.chars.len();
        self.pending = Option::None;
        r
    }

    /// A copy of the error register's content.
    pub(crate) fn err(&self) -> (r: Option<LexError>)
        ensures
            r == self.err,
    {
        match &self.err {
            Option::None => Option::None,
            Option::Some(e) => Option::Some(
                LexError { message: e.message.clone(), data: e.data.clone(), index: e.index },
            ),
        }
    }

    /// Records `e` in the error register, overwriting any earlier entry.
    pub(crate) fn add_err(&mut self, e: LexError)
        ensures
            final(self).err == Some(e),
            old(self).same_input(*final(self)),
            final(self).start == old(self).start,
            final(self).pos == old(self).pos,
            final(self).pending == old(self).pending,
            old(self).wf() ==> final(self).wf(),
    {
        self.err = Option::Some(e);
    }
}

} // verus!
