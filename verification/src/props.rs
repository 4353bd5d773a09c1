//! The scanner's laws, proved over the model.
//!
//! Every law speaks about `spec_tokens` and `spec_errors`, the exact
//! sequences that `Lexer::new` is proved to return, so each law carries
//! over to every executable tokenization.

use vstd::prelude::*;

use crate::chars::whitespace_char;
use crate::lexer::Lexer;
use crate::model::byte_at;
use crate::model::byte_len;
use crate::model::errors_of;
use crate::model::lemma_byte_at_bounds;
use crate::model::lemma_byte_at_full;
use crate::model::lemma_byte_at_succ;
use crate::model::lemma_byte_at_zero;
use crate::model::lemma_scan_whitespace_len;
use crate::model::lemma_pieces_from_unfold;
use crate::model::lemma_pieces_snoc;
use crate::model::lemma_scan_len;
use crate::model::lemma_skip_take;
use crate::model::piece_at;
use crate::model::pieces_from;
use crate::model::result_is_eof;
use crate::model::scan;
use crate::model::scan_whitespace;
use crate::model::spec_errors;
use crate::model::spec_pieces;
use crate::model::spec_tokens;
use crate::model::token_result;
use crate::model::tokens_of;
use crate::model::Piece;
use crate::token::LexErrorModel;
use crate::token::TokenKind;
use crate::token::TokenModel;

verus! {

// ------------------------------------------------------------------
// Losslessness.
// ------------------------------------------------------------------

/// The input text a piece accounts for: a token's or error's verbatim
/// slice; the end-of-input token accounts for nothing.
pub open spec fn piece_text(p: Piece) -> Seq<char> {
    match p {
        Piece::Tok { t } => if t.kind == TokenKind::Eof {
            Seq::empty()
        } else {
            t.data
        },
        Piece::Diag { e } => e.data,
    }
}

/// The concatenation of the text accounted for by a piece sequence, in
/// order.
pub open spec fn pieces_text(ps: Seq<Piece>) -> Seq<char>
    decreases ps.len(),
{
    if ps.len() == 0 {
        Seq::empty()
    } else {
        piece_text(ps[0]) + pieces_text(ps.drop_first())
    }
}

/// The concatenation of the non-EOF tokens' verbatim slices, in order.
pub open spec fn tokens_text(ts: Seq<TokenModel>) -> Seq<char>
    decreases ts.len(),
{
    if ts.len() == 0 {
        Seq::empty()
    } else {
        (if ts[0].kind == TokenKind::Eof {
            Seq::empty()
        } else {
            ts[0].data
        }) + tokens_text(ts.drop_first())
    }
}

proof fn lemma_pieces_text_from(input: Seq<char>, start: int)
    requires
        0 <= start <= input.len(),
    ensures
        pieces_text(pieces_from(input, start)) == input.skip(start),
    decreases input.len() - start,
{
    lemma_pieces_from_unfold(input, start);
    let ps = pieces_from(input, start);
    if start == input.len() {
        assert(input.skip(start) =~= Seq::<char>::empty());
        lemma_scan_len(input.skip(start));
        assert(ps.drop_first() =~= Seq::<Piece>::empty());
        assert(ps.len() == 1);
        assert(piece_text(ps[0]) =~= Seq::<char>::empty());
        assert(pieces_text(ps.drop_first()) == Seq::<char>::empty());
        assert(pieces_text(ps) =~= input.skip(start));
    } else {
        let s = input.skip(start);
        let n = scan(s).len;
        lemma_scan_len(s);
        lemma_pieces_text_from(input, start + n);
        let p = piece_at(input, start);
        assert(ps[0] == p);
        assert(ps.drop_first() =~= pieces_from(input, start + n));
        assert(!result_is_eof(scan(s)));
        assert(piece_text(p) == s.take(n));
        assert(input.skip(start + n) =~= s.skip(n));
        assert(s.take(n) + s.skip(n) =~= s);
        assert(pieces_text(ps) == piece_text(p) + pieces_text(pieces_from(input, start + n)));
    }
}

/// Losslessness: the tokens' and errors' verbatim slices, in source order,
/// concatenate to exactly the input — every byte of input is accounted for
/// exactly once.
pub proof fn lemma_lossless(input: Seq<char>)
    ensures
        pieces_text(spec_pieces(input)) == input,
{
    lemma_pieces_text_from(input, 0);
    assert(input.skip(0) =~= input);
}

proof fn lemma_all_tokens_text(ps: Seq<Piece>)
    requires
        errors_of(ps).len() == 0,
    ensures
        tokens_text(tokens_of(ps)) == pieces_text(ps),
    decreases ps.len(),
{
    if ps.len() > 0 {
        match ps[0] {
            Piece::Tok { t } => {
                lemma_all_tokens_text(ps.drop_first());
                let ts = tokens_of(ps);
                assert(ts == seq![t] + tokens_of(ps.drop_first()));
                assert(ts[0] == t);
                assert(ts.drop_first() =~= tokens_of(ps.drop_first()));
            },
            Piece::Diag { e } => {
                assert(errors_of(ps).len() >= 1);
            },
        }
    }
}

/// When no error was reported, the non-EOF tokens' slices alone concatenate
/// to exactly the input.
pub proof fn lemma_lossless_tokens(input: Seq<char>)
    requires
        spec_errors(input).len() == 0,
    ensures
        tokens_text(spec_tokens(input)) == input,
{
    lemma_lossless(input);
    lemma_all_tokens_text(spec_pieces(input));
}

// ------------------------------------------------------------------
// EOF terminality.
// ------------------------------------------------------------------

proof fn lemma_pieces_shape(input: Seq<char>, start: int)
    requires
        0 <= start <= input.len(),
    ensures
        ({
            let ts = tokens_of(pieces_from(input, start));
            &&& ts.len() >= 1
            &&& ts[ts.len() - 1].kind == TokenKind::Eof
            &&& ts[ts.len() - 1].index == byte_len(input) + 1
            &&& forall|k: int| 0 <= k < ts.len() - 1 ==> (#[trigger] ts[k]).kind != TokenKind::Eof
        }),
    decreases input.len() - start,
{
    lemma_pieces_from_unfold(input, start);
    let ps = pieces_from(input, start);
    if start == input.len() {
        assert(ps.drop_first() =~= Seq::<Piece>::empty());
        assert(input.skip(start) =~= Seq::<char>::empty());
        lemma_scan_len(input.skip(start));
        lemma_byte_at_full(input);
        assert(input.take(start) =~= input);
        let ts = tokens_of(ps);
        match piece_at(input, start) {
            Piece::Tok { t } => {
                assert(ts == seq![t] + tokens_of(ps.drop_first()));
                assert(ts =~= seq![t]);
                assert(t.kind == TokenKind::Eof);
                assert(t.index == byte_len(input) + 1);
            },
            Piece::Diag { e: _ } => {
                assert(false);
            },
        }
    } else {
        let s = input.skip(start);
        let n = scan(s).len;
        lemma_scan_len(s);
        lemma_pieces_shape(input, start + n);
        let p = piece_at(input, start);
        assert(ps[0] == p);
        assert(ps.drop_first() =~= pieces_from(input, start + n));
        let ts0 = tokens_of(pieces_from(input, start + n));
        let ts = tokens_of(ps);
        assert(!result_is_eof(scan(s)));
        match p {
            Piece::Tok { t } => {
                assert(t.kind != TokenKind::Eof);
                assert(ts == seq![t] + ts0);
                assert(ts[0] == t);
                assert(forall|k: int| 1 <= k < ts.len() ==> ts[k] == ts0[k - 1]);
            },
            Piece::Diag { e: _ } => {
                assert(ts == ts0);
            },
        }
    }
}

/// EOF terminality: every tokenization ends with exactly one `Eof` token,
/// no token follows it, and its offset stands one byte past the input's
/// end.
pub proof fn lemma_eof_terminality(input: Seq<char>)
    ensures
        spec_tokens(input).len() >= 1,
        spec_tokens(input)[spec_tokens(input).len() - 1].kind == TokenKind::Eof,
        spec_tokens(input)[spec_tokens(input).len() - 1].index == byte_len(input) + 1,
        forall|k: int|
            0 <= k < spec_tokens(input).len() - 1 ==> (#[trigger] spec_tokens(input)[k]).kind
                != TokenKind::Eof,
{
    lemma_pieces_shape(input, 0);
}

// ------------------------------------------------------------------
// Offset monotonicity.
// ------------------------------------------------------------------

#[verifier::rlimit(100)]
proof fn lemma_pieces_offsets(input: Seq<char>, start: int)
    requires
        0 <= start <= input.len(),
    ensures
        ({
            let ts = tokens_of(pieces_from(input, start));
            &&& ts.len() >= 1
            &&& forall|k: int|
                0 <= k < ts.len() ==> byte_at(input, start) <= (#[trigger] ts[k]).index
            &&& forall|i: int, j: int|
                #![trigger ts[i], ts[j]]
                0 <= i && j == i + 1 && j < ts.len() ==> ts[i].index + byte_len(ts[i].data)
                    <= ts[j].index
        }),
    decreases input.len() - start,
{
    lemma_pieces_from_unfold(input, start);
    let ps = pieces_from(input, start);
    if start == input.len() {
        assert(ps.drop_first() =~= Seq::<Piece>::empty());
        assert(input.skip(start) =~= Seq::<char>::empty());
        lemma_scan_len(input.skip(start));
        match piece_at(input, start) {
            Piece::Tok { t } => {
                assert(ps[0] == piece_at(input, start));
                assert(tokens_of(ps) == seq![t] + tokens_of(ps.drop_first()));
                assert(tokens_of(ps.drop_first()) == Seq::<TokenModel>::empty());
                assert(tokens_of(ps) =~= seq![t]);
            },
            Piece::Diag { e: _ } => {
                assert(false);
            },
        }
    } else {
        let s = input.skip(start);
        let n = scan(s).len;
        lemma_scan_len(s);
        lemma_pieces_offsets(input, start + n);
        let p = piece_at(input, start);
        let ts0 = tokens_of(pieces_from(input, start + n));
        let ts = tokens_of(ps);
        assert(ps[0] == p);
        assert(ps.drop_first() =~= pieces_from(input, start + n));
        assert(!result_is_eof(scan(s)));
        let b0 = byte_at(input, start);
        let b1 = byte_at(input, start + n);
        assert(b0 <= b1 && b1 - b0 == byte_len(s.take(n))) by {
            lemma_byte_at_bounds(input, start, start + n);
            lemma_skip_take(input, start, n);
        }
        match p {
            Piece::Tok { t } => {
                assert(ts == seq![t] + ts0);
                assert(t.index == b0 && t.data == s.take(n));
                assert forall|k: int| 0 <= k < ts.len() implies b0 <= (#[trigger] ts[k]).index by {
                    if k > 0 {
                        assert(ts[k] == ts0[k - 1]);
                    }
                }
                assert forall|i: int, j: int|
                    #![trigger ts[i], ts[j]]
                    0 <= i && j == i + 1 && j < ts.len() implies ts[i].index + byte_len(ts[i].data)
                    <= ts[j].index by {
                    if i == 0 {
                        assert(ts[1] == ts0[0]);
                        assert(b1 <= ts0[0].index);
                    } else {
                        assert(ts[i] == ts0[i - 1] && ts[j] == ts0[j - 1]);
                    }
                }
            },
            Piece::Diag { e: _ } => {
                assert(ts == ts0);
                assert forall|k: int| 0 <= k < ts.len() implies b0 <= (#[trigger] ts[k]).index by {
                    assert(b1 <= ts0[k].index);
                }
            },
        }
    }
}

/// Offset monotonicity: a token begins no earlier than the end of the
/// token before it.
pub proof fn lemma_offset_monotonic(input: Seq<char>)
    ensures
        ({
            let ts = spec_tokens(input);
            forall|i: int, j: int|
                #![trigger ts[i], ts[j]]
                0 <= i && j == i + 1 && j < ts.len() ==> ts[i].index + byte_len(ts[i].data)
                    <= ts[j].index
        }),
{
    lemma_pieces_offsets(input, 0);
}

#[verifier::rlimit(100)]
proof fn lemma_pieces_contiguous(input: Seq<char>, start: int)
    requires
        0 <= start <= input.len(),
        errors_of(pieces_from(input, start)).len() == 0,
    ensures
        ({
            let ts = tokens_of(pieces_from(input, start));
            &&& ts.len() >= 1
            &&& (ts.len() == 1 ==> ts[0].index == byte_at(input, start) + 1)
            &&& (ts.len() >= 2 ==> ts[0].index == byte_at(input, start))
            &&& forall|i: int, j: int|
                #![trigger ts[i], ts[j]]
                0 <= i && j == i + 1 && j < ts.len() - 1 ==> ts[i].index + byte_len(ts[i].data)
                    == ts[j].index
            &&& (ts.len() >= 2 ==> ts[ts.len() - 1].index == ts[ts.len() - 2].index + byte_len(
                ts[ts.len() - 2].data,
            ) + 1)
        }),
    decreases input.len() - start,
{
    lemma_pieces_from_unfold(input, start);
    let ps = pieces_from(input, start);
    if start == input.len() {
        assert(ps.drop_first() =~= Seq::<Piece>::empty());
        assert(input.skip(start) =~= Seq::<char>::empty());
        lemma_scan_len(input.skip(start));
        match piece_at(input, start) {
            Piece::Tok { t } => {
                assert(ps[0] == piece_at(input, start));
                assert(tokens_of(ps) == seq![t] + tokens_of(ps.drop_first()));
                assert(tokens_of(ps.drop_first()) == Seq::<TokenModel>::empty());
                assert(tokens_of(ps) =~= seq![t]);
            },
            Piece::Diag { e: _ } => {
                assert(false);
            },
        }
    } else {
        let s = input.skip(start);
        let n = scan(s).len;
        lemma_scan_len(s);
        let p = piece_at(input, start);
        assert(ps[0] == p);
        assert(ps.drop_first() =~= pieces_from(input, start + n));
        assert(!result_is_eof(scan(s)));
        match p {
            Piece::Diag { e } => {
                assert(errors_of(ps).len() >= 1);
            },
            Piece::Tok { t } => {
                assert(errors_of(ps) == errors_of(ps.drop_first()));
                lemma_pieces_contiguous(input, start + n);
                let ts0 = tokens_of(pieces_from(input, start + n));
                let ts = tokens_of(ps);
                assert(ts == seq![t] + ts0);
                let b0 = byte_at(input, start);
                let b1 = byte_at(input, start + n);
                assert(b1 - b0 == byte_len(s.take(n))) by {
                    lemma_byte_at_bounds(input, start, start + n);
                    lemma_skip_take(input, start, n);
                }
                assert(t.index == b0 && t.data == s.take(n));
                assert(t.index + byte_len(t.data) == b1);
                assert forall|i: int, j: int|
                    #![trigger ts[i], ts[j]]
                    0 <= i && j == i + 1 && j < ts.len() - 1 implies ts[i].index + byte_len(
                    ts[i].data,
                ) == ts[j].index by {
                    if i == 0 {
                        assert(ts[1] == ts0[0]);
                        assert(ts0.len() >= 2);
                        assert(ts0[0].index == b1);
                    } else {
                        assert(ts[i] == ts0[i - 1] && ts[j] == ts0[j - 1]);
                    }
                }
                if ts.len() >= 2 {
                    assert(ts[ts.len() - 1] == ts0[ts0.len() - 1]);
                    if ts0.len() >= 2 {
                        assert(ts[ts.len() - 2] == ts0[ts0.len() - 2]);
                    } else {
                        assert(ts.len() == 2);
                        assert(ts[0] == t);
                        assert(ts0[0].index == b1 + 1);
                    }
                }
            },
        }
    }
}

/// In the absence of errors the tokens tile the input exactly: each token
/// begins precisely where the one before it ends, and the end-of-input
/// token stands one byte past the end of the last real token.
pub proof fn lemma_offsets_exact(input: Seq<char>)
    requires
        spec_errors(input).len() == 0,
    ensures
        ({
            let ts = spec_tokens(input);
            &&& ts.len() >= 1
            &&& (ts.len() >= 2 ==> ts[0].index == 0)
            &&& forall|i: int, j: int|
                #![trigger ts[i], ts[j]]
                0 <= i && j == i + 1 && j < ts.len() - 1 ==> ts[i].index + byte_len(ts[i].data)
                    == ts[j].index
            &&& (ts.len() >= 2 ==> ts[ts.len() - 1].index == ts[ts.len() - 2].index + byte_len(
                ts[ts.len() - 2].data,
            ) + 1)
        }),
{
    lemma_pieces_contiguous(input, 0);
    crate::model::lemma_byte_at_zero(input, 0);
}

// ------------------------------------------------------------------
// Determinism.
// ------------------------------------------------------------------

/// Determinism: two tokenizations of the same input carry identical token
/// and error sequences.
pub proof fn lemma_deterministic(a: Lexer, b: Lexer, input: Seq<char>)
    requires
        a.lexed_from(input),
        b.lexed_from(input),
    ensures
        a.tokens_view() == b.tokens_view(),
        a.errors_view() == b.errors_view(),
{
}


// ------------------------------------------------------------------
// Independence from surrounding whitespace.
// ------------------------------------------------------------------

/// A piece moved `d` bytes to the right.
pub open spec fn shift_piece(p: Piece, d: int) -> Piece {
    match p {
        Piece::Tok { t } => Piece::Tok {
            t: TokenModel { kind: t.kind, data: t.data, index: t.index + d },
        },
        Piece::Diag { e } => Piece::Diag {
            e: LexErrorModel { message: e.message, data: e.data, index: e.index + d },
        },
    }
}

/// A piece sequence moved `d` bytes to the right.
pub open spec fn shift_pieces(ps: Seq<Piece>, d: int) -> Seq<Piece> {
    ps.map_values(|p: Piece| shift_piece(p, d))
}

/// Scanning is local: from equal remainders, two inputs yield the same
/// pieces, shifted by the difference of the starting byte offsets.
#[verifier::rlimit(100)]
proof fn lemma_pieces_shift(u: Seq<char>, i: int, v: Seq<char>, j: int)
    requires
        0 <= i <= u.len(),
        0 <= j <= v.len(),
        u.skip(i) == v.skip(j),
    ensures
        pieces_from(u, i) == shift_pieces(pieces_from(v, j), byte_at(u, i) - byte_at(v, j)),
    decreases u.len() - i,
{
    let d = byte_at(u, i) - byte_at(v, j);
    lemma_pieces_from_unfold(u, i);
    lemma_pieces_from_unfold(v, j);
    let s = u.skip(i);
    assert(s.len() == u.len() - i);
    assert(v.skip(j).len() == v.len() - j);
    assert(piece_at(u, i) == shift_piece(piece_at(v, j), d));
    if i == u.len() {
        assert(pieces_from(u, i) =~= shift_pieces(pieces_from(v, j), d));
    } else {
        let n = scan(s).len;
        lemma_scan_len(s);
        assert(u.skip(i + n) =~= s.skip(n));
        assert(v.skip(j + n) =~= v.skip(j).skip(n));
        assert(u.skip(i + n) == v.skip(j + n));
        assert(byte_at(u, i + n) - byte_at(v, j + n) == d) by {
            lemma_byte_at_bounds(u, i, i + n);
            lemma_byte_at_bounds(v, j, j + n);
            lemma_skip_take(u, i, n);
            lemma_skip_take(v, j, n);
            assert(u.subrange(i, i + n) == s.take(n));
            assert(v.subrange(j, j + n) == s.take(n));
        }
        lemma_pieces_shift(u, i + n, v, j + n);
        assert(pieces_from(u, i) =~= shift_pieces(pieces_from(v, j), d));
    }
}

/// Every character of `ws` is whitespace.
pub open spec fn all_whitespace(ws: Seq<char>) -> bool {
    forall|k: int| 0 <= k < ws.len() ==> whitespace_char(#[trigger] ws[k])
}

proof fn lemma_scan_whitespace_prefix(s: Seq<char>, w: int, i: int)
    requires
        1 <= i <= w <= s.len(),
        forall|k: int| 0 <= k < w ==> whitespace_char(#[trigger] s[k]),
        w < s.len() ==> !whitespace_char(s[w]),
    ensures
        scan_whitespace(s, i) == token_result(TokenKind::Whitespace, w),
    decreases s.len() - i,
{
    if i < w {
        lemma_scan_whitespace_prefix(s, w, i + 1);
    }
}

/// A run of whitespace before a non-whitespace remainder scans as one
/// whitespace token of exactly the run's length.
proof fn lemma_scan_ws(ws: Seq<char>, r: Seq<char>)
    requires
        ws.len() >= 1,
        all_whitespace(ws),
        r.len() > 0 ==> !whitespace_char(r[0]),
    ensures
        scan(ws + r) == token_result(TokenKind::Whitespace, ws.len() as int),
{
    let s = ws + r;
    assert(s[0] == ws[0]);
    assert(whitespace_char(s[0]));
    assert(s[0] != '"' && s[0] != '#' && s[0] != '.');
    assert(forall|k: int| 0 <= k < ws.len() ==> whitespace_char(#[trigger] s[k]));
    assert(ws.len() < s.len() ==> s[ws.len() as int] == r[0]);
    lemma_scan_whitespace_prefix(s, ws.len() as int, 1);
}

/// Independence from surrounding whitespace: a token whose text scans the
/// same when whitespace follows it keeps its kind and its text when two
/// spaces are added on each side; it then stands at byte offset 2, framed
/// by two whitespace tokens, with no error.
///
/// The hypothesis `scan(s + "  ") == token_result(k, s.len())` states that
/// `s` is the verbatim text of one complete token that still ends at its
/// own end when whitespace follows — which excludes tokens that exist only
/// by running into the end of the input.
#[verifier::rlimit(100)]
pub proof fn lemma_whitespace_independence(s: Seq<char>, k: TokenKind)
    requires
        scan(s + "  "@) == token_result(k, s.len() as int),
        k != TokenKind::Whitespace,
        k != TokenKind::Comment,
        k != TokenKind::Eof,
    ensures
        ({
            let ts = spec_tokens("  "@ + s + "  "@);
            &&& ts.len() == 4
            &&& ts[0] == (TokenModel { kind: TokenKind::Whitespace, data: "  "@, index: 0 })
            &&& ts[1] == (TokenModel { kind: k, data: s, index: 2 })
            &&& ts[2] == (TokenModel {
                kind: TokenKind::Whitespace,
                data: "  "@,
                index: 2 + byte_len(s),
            })
            &&& ts[3].kind == TokenKind::Eof
            &&& spec_errors("  "@ + s + "  "@) == Seq::<LexErrorModel>::empty()
        }),
{
    reveal_strlit("  ");
    let pad = "  "@;
    assert(pad.len() == 2);
    assert(whitespace_char(pad[0]) && whitespace_char(pad[1]));
    let tail = s + pad;
    if s.len() == 0 {
        assert(tail =~= pad);
        lemma_scan_ws(pad, Seq::<char>::empty());
        assert(pad + Seq::<char>::empty() =~= pad);
        assert(false);
    }
    if whitespace_char(s[0]) {
        assert(tail[0] == s[0]);
        assert(tail[0] != '"' && tail[0] != '#' && tail[0] != '.');
        lemma_scan_whitespace_len(tail, 1);
        assert(scan(tail) == scan_whitespace(tail, 1));
        assert(false);
    }
    let full = pad + s + pad;
    assert(full =~= pad + tail);
    assert(full.skip(2) =~= tail);
    assert(tail.skip(0) =~= tail);
    assert(full.skip(2) == tail.skip(0));
    // the pad is two one-byte characters
    lemma_byte_at_zero(full, 0);
    lemma_byte_at_zero(tail, 0);
    lemma_byte_at_zero(pad, 0);
    assert(crate::model::char_bytes(' ') == 1) by {
        reveal(crate::model::char_bytes);
    }
    assert(full[0] == ' ' && full[1] == ' ');
    lemma_byte_at_succ(full, 0);
    lemma_byte_at_succ(full, 1);
    assert(byte_at(full, 2) == 2);
    lemma_byte_at_succ(pad, 0);
    lemma_byte_at_succ(pad, 1);
    assert(byte_at(pad, 2) == 2);
    lemma_byte_at_full(pad);
    assert(byte_len(pad) == 2);
    assert(byte_at(tail, s.len() as int) == byte_len(s)) by {
        lemma_byte_at_bounds(tail, 0, s.len() as int);
        assert(tail.subrange(0, s.len() as int) =~= s);
    }
    // the four pieces
    let t0 = TokenModel { kind: TokenKind::Whitespace, data: pad, index: 0 };
    let t1 = TokenModel { kind: k, data: s, index: 2 };
    let t2 = TokenModel { kind: TokenKind::Whitespace, data: pad, index: 2 + byte_len(s) };
    let t3 = TokenModel {
        kind: TokenKind::Eof,
        data: crate::model::eof_sentinel(),
        index: 5 + byte_len(s),
    };
    // pieces of the pad alone: one whitespace token, then the end marker
    lemma_scan_ws(pad, Seq::<char>::empty());
    assert(pad + Seq::<char>::empty() =~= pad);
    assert(scan(pad) == token_result(TokenKind::Whitespace, 2));
    lemma_pieces_from_unfold(pad, 0);
    assert(pad.skip(0) =~= pad);
    lemma_pieces_from_unfold(pad, 2);
    assert(pad.skip(2) =~= Seq::<char>::empty());
    lemma_scan_len(pad.skip(2));
    assert(pad.take(2) =~= pad);
    assert(piece_at(pad, 0) == (Piece::Tok {
        t: TokenModel { kind: TokenKind::Whitespace, data: pad, index: 0 },
    }));
    assert(piece_at(pad, 2) == (Piece::Tok {
        t: TokenModel { kind: TokenKind::Eof, data: crate::model::eof_sentinel(), index: 3 },
    }));
    assert(pieces_from(pad, 0) =~= seq![piece_at(pad, 0), piece_at(pad, 2)]);
    // pieces of the tail: the token itself, then the pad's pieces shifted
    lemma_pieces_from_unfold(tail, 0);
    assert(scan(tail.skip(0)) == scan(tail));
    assert(scan(tail).len == s.len());
    assert(tail.take(s.len() as int) =~= s);
    assert(piece_at(tail, 0) == (Piece::Tok { t: TokenModel { kind: k, data: s, index: 0 } }));
    assert(tail.skip(s.len() as int) =~= pad);
    assert(tail.skip(s.len() as int) == pad.skip(0));
    lemma_pieces_shift(tail, s.len() as int, pad, 0);
    assert(pieces_from(tail, s.len() as int) == shift_pieces(pieces_from(pad, 0), byte_len(s)));
    assert(pieces_from(tail, 0) =~= seq![
        Piece::Tok { t: TokenModel { kind: k, data: s, index: 0 } },
        Piece::Tok {
            t: TokenModel { kind: TokenKind::Whitespace, data: pad, index: byte_len(s) },
        },
        Piece::Tok {
            t: TokenModel {
                kind: TokenKind::Eof,
                data: crate::model::eof_sentinel(),
                index: 3 + byte_len(s),
            },
        },
    ]);
    // pieces of the whole input
    lemma_scan_ws(pad, tail);
    assert(scan(full) == token_result(TokenKind::Whitespace, 2));
    lemma_pieces_from_unfold(full, 0);
    assert(full.skip(0) =~= full);
    assert(scan(full.skip(0)) == scan(full));
    assert(full.take(2) =~= pad);
    assert(piece_at(full, 0) == (Piece::Tok { t: t0 }));
    lemma_pieces_shift(full, 2, tail, 0);
    assert(pieces_from(full, 2) == shift_pieces(pieces_from(tail, 0), 2));
    let q = seq![
        Piece::Tok { t: t0 },
        Piece::Tok { t: t1 },
        Piece::Tok { t: t2 },
        Piece::Tok { t: t3 },
    ];
    assert(spec_pieces(full) =~= q);
    // project out tokens and errors
    let e0: Seq<Piece> = Seq::empty();
    lemma_pieces_snoc(e0, Piece::Tok { t: t0 });
    lemma_pieces_snoc(e0.push(Piece::Tok { t: t0 }), Piece::Tok { t: t1 });
    lemma_pieces_snoc(
        e0.push(Piece::Tok { t: t0 }).push(Piece::Tok { t: t1 }),
        Piece::Tok { t: t2 },
    );
    lemma_pieces_snoc(
        e0.push(Piece::Tok { t: t0 }).push(Piece::Tok { t: t1 }).push(Piece::Tok { t: t2 }),
        Piece::Tok { t: t3 },
    );
    assert(q =~= e0.push(Piece::Tok { t: t0 }).push(Piece::Tok { t: t1 }).push(
        Piece::Tok { t: t2 },
    ).push(Piece::Tok { t: t3 }));
    assert(tokens_of(e0) == Seq::<TokenModel>::empty());
    assert(errors_of(e0) == Seq::<LexErrorModel>::empty());
    assert(tokens_of(q) =~= seq![t0, t1, t2, t3]);
    assert(errors_of(q) =~= Seq::<LexErrorModel>::empty());
}


} // verus!
