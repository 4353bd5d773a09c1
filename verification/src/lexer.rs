//! The scanner state machine and the token stream facade.
//!
//! `Cursor::advance` runs the state machine for exactly one token: it is
//! proved to return, and to consume, exactly what the model's `scan`
//! assigns to the remaining input.  `Lexer::new` iterates it to the end of
//! the input and is proved to collect exactly the model's token and error
//! sequences.

use vstd::prelude::*;
use vstd::string::StrSliceExecFns;
use vstd::string::StringExecFns;

use crate::chars::is_digit_char;
use crate::chars::is_escaped_char;
use crate::chars::is_ident_char;
use crate::chars::is_line_terminator;
use crate::chars::is_source_char;
use crate::chars::is_whitespace;
use crate::cursor::Cursor;
use crate::model::byte_at;
use crate::model::errors_of;
use crate::model::lemma_byte_at_bounds;
use crate::model::lemma_byte_at_full;
use crate::model::lemma_pieces_from_unfold;
use crate::model::lemma_pieces_snoc;
use crate::model::lemma_scan_len;
use crate::model::lemma_skip_take;
use crate::model::piece_at;
use crate::model::pieces_from;
use crate::model::scan_exponent;
use crate::model::tokens_of;
use crate::model::punct_kind;
use crate::model::result_is_eof;
use crate::model::scan;
use crate::model::scan_block_string;
use crate::model::scan_comment;
use crate::model::scan_float;
use crate::model::scan_ident;
use crate::model::scan_int;
use crate::model::scan_plus_minus;
use crate::model::scan_spread;
use crate::model::scan_string_body;
use crate::model::scan_string_escape;
use crate::model::scan_string_start;
use crate::model::scan_whitespace;
use crate::model::spec_errors;
use crate::model::spec_pieces;
use crate::model::spec_tokens;
use crate::model::Piece;
use crate::model::ScanKind;
use crate::token::LexError;
use crate::token::LexErrorModel;
use crate::token::Token;
use crate::token::TokenKind;
use crate::token::TokenModel;

verus! {

/// The scanner's states, one per partly recognized token shape.
enum ScanState {
    Start,
    Ident,
    IntLiteral,
    FloatLiteral,
    ExponentLiteral,
    PlusMinus,
    StringLiteralStart,
    StringLiteral,
    StringLiteralBackslash,
    BlockStringLiteral,
    SpreadOperator,
    Whitespace,
    Comment,
}

/// The message recorded in a cursor's error register, if any.
pub(crate) open spec fn slot(e: Option<LexError>) -> Option<Seq<char>> {
    match e {
        Option::None => Option::None,
        Option::Some(x) => Option::Some(x.message@),
    }
}

/// How one scanner result realizes one piece of the model.
pub(crate) open spec fn result_models(r: Result<Token, LexError>, p: Piece) -> bool {
    match r {
        Result::Ok(t) => p == (Piece::Tok { t: t@ }),
        Result::Err(e) => p == (Piece::Diag { e: e@ }),
    }
}

/// The kind of the single-character punctuator token `c` produces, if any.
fn punct_token_kind(c: char) -> (r: Option<TokenKind>)
    ensures
        r == punct_kind(c),
{
    if c == '!' {
        Option::Some(TokenKind::Bang)
    } else if c == '$' {
        Option::Some(TokenKind::Dollar)
    } else if c == '&' {
        Option::Some(TokenKind::Amp)
    } else if c == '(' {
        Option::Some(TokenKind::LParen)
    } else if c == ')' {
        Option::Some(TokenKind::RParen)
    } else if c == ':' {
        Option::Some(TokenKind::Colon)
    } else if c == ',' {
        Option::Some(TokenKind::Comma)
    } else if c == '=' {
        Option::Some(TokenKind::Eq)
    } else if c == '@' {
        Option::Some(TokenKind::At)
    } else if c == '[' {
        Option::Some(TokenKind::LBracket)
    } else if c == ']' {
        Option::Some(TokenKind::RBracket)
    } else if c == '{' {
        Option::Some(TokenKind::LCurly)
    } else if c == '|' {
        Option::Some(TokenKind::Pipe)
    } else if c == '}' {
        Option::Some(TokenKind::RCurly)
    } else {
        Option::None
    }
}

impl<'a> Cursor<'a> {
    /// Runs the scanner for one token.  The result, and the characters
    /// consumed, are exactly what the model's `scan` assigns to the
    /// remaining input; the error register is empty again afterwards.
    #[verifier::rlimit(100)]
    pub(crate) fn advance(&mut self) -> (r: Result<Token, LexError>)
        requires
            old(self).wf(),
            old(self).between(),
        ensures
            final(self).wf(),
            final(self).between(),
            old(self).same_input(*final(self)),
            final(self).start as int == old(self).start + scan(old(self).rest()).len,
            result_models(r, piece_at(old(self).chars@, old(self).start as int)),
    {
        let ghost s = self.rest();
        let ghost inp = self.chars@;
        let ghost st0 = self.start as int;
        let ghost src0 = self.source@;
        let ghost bp0 = self.byte_pos@;
        let mut state = ScanState::Start;
        let mut token = Token {
            kind: TokenKind::Eof,
            data: String::from_str("EOF"),
            index: self.index(),
        };
        proof {
            assert(inp.skip(st0) == s);
        }
        loop
            invariant_except_break
                self.start as int == st0,
                s == self.rest(),
                0 <= self.cur() <= s.len(),
                token.data@ == crate::model::eof_sentinel(),
                (match state {
                    ScanState::Start => self.cur() == 0 && self.err is None && token.kind
                        == TokenKind::Eof,
                    ScanState::Ident => 1 <= self.cur() && self.err is None && token.kind
                        == TokenKind::Name && scan(s) == scan_ident(s, self.cur()),
                    ScanState::Whitespace => 1 <= self.cur() && self.err is None && token.kind
                        == TokenKind::Whitespace && scan(s) == scan_whitespace(s, self.cur()),
                    ScanState::Comment => 1 <= self.cur() && self.err is None && token.kind
                        == TokenKind::Comment && scan(s) == scan_comment(s, self.cur()),
                    ScanState::SpreadOperator => 1 <= self.cur() <= 2 && self.err is None
                        && token.kind == TokenKind::Spread && scan(s) == scan_spread(
                        s,
                        self.cur(),
                    ),
                    ScanState::PlusMinus => self.cur() == 1 && self.err is None && token.kind
                        == TokenKind::Int && scan(s) == scan_plus_minus(s),
                    ScanState::IntLiteral => 1 <= self.cur() && self.err is None && token.kind
                        == TokenKind::Int && scan(s) == scan_int(s, self.cur()),
                    ScanState::FloatLiteral => 1 <= self.cur() && token.kind == TokenKind::Float
                        && scan(s) == scan_float(s, self.cur(), slot(self.err)),
                    ScanState::ExponentLiteral => 1 <= self.cur() && token.kind == TokenKind::Float
                        && scan(s) == scan_exponent(s, self.cur(), slot(self.err)),
                    ScanState::StringLiteralStart => self.cur() == 1 && self.err is None
                        && token.kind == TokenKind::StringValue && scan(s) == scan_string_start(s),
                    ScanState::StringLiteral => 1 <= self.cur() && token.kind
                        == TokenKind::StringValue && scan(s) == scan_string_body(
                        s,
                        self.cur(),
                        slot(self.err),
                    ),
                    ScanState::StringLiteralBackslash => 1 <= self.cur() && token.kind
                        == TokenKind::StringValue && scan(s) == scan_string_escape(
                        s,
                        self.cur(),
                        slot(self.err),
                    ),
                    ScanState::BlockStringLiteral => 3 <= self.cur() && self.err is None
                        && token.kind == TokenKind::StringValue && scan(s) == scan_block_string(
                        s,
                        self.cur(),
                    ),
                }),
            invariant
                self.wf(),
                inp == old(self).chars@,
                src0 == old(self).source@,
                bp0 == old(self).byte_pos@,
                st0 == old(self).start,
                s == old(self).rest(),
                self.chars@ == inp,
                self.source@ == src0,
                self.byte_pos@ == bp0,
                token.index as int == byte_at(inp, st0),
            ensures
                self.wf(),
                self.chars@ == inp,
                self.source@ == src0,
                self.byte_pos@ == bp0,
                self.cur() == 0,
                self.start as int == st0 + scan(s).len,
                token.index as int == byte_at(inp, st0),
                token.data@ == s.take(scan(s).len),
                1 <= scan(s).len,
                (match scan(s).what {
                    ScanKind::Token { kind } => token.kind == kind && self.err is None,
                    ScanKind::Error { message } => slot(self.err) == Some(message),
                }),
            decreases s.len() - self.cur(),
        {
            let ghost pre = *self;
            let ghost i = pre.cur();
            let c_opt = self.bump();
            match c_opt {
                Option::None => {
                    proof {
                        assert(self.cur() == s.len());
                    }
                    match state {
                        ScanState::Start => {
                            proof {
                                assert(s.len() == 0);
                                lemma_byte_at_bounds(inp, st0, inp.len() as int);
                                lemma_byte_at_full(inp);
                            }
                            token.index = token.index + 1;
                            return Result::Ok(token);
                        },
                        ScanState::StringLiteral => {
                            proof {
                                assert(s.take(s.len() as int) =~= s);
                            }
                            let d = self.drain();
                            self.err = Option::None;
                            return Result::Err(
                                LexError {
                                    message: String::from_str("unterminated string value"),
                                    data: d,
                                    index: token.index,
                                },
                            );
                        },
                        ScanState::StringLiteralStart => {
                            let d = self.current_str();
                            return Result::Err(
                                LexError {
                                    message: String::from_str(
                                        "unexpected end of data while lexing string value",
                                    ),
                                    data: d,
                                    index: token.index,
                                },
                            );
                        },
                        ScanState::SpreadOperator => {
                            let d = self.current_str();
                            return Result::Err(
                                LexError {
                                    message: String::from_str("Unterminated spread operator"),
                                    data: d,
                                    index: token.index,
                                },
                            );
                        },
                        _ => {
                            let d = self.current_str();
                            let e_opt = self.err();
                            match e_opt {
                                Option::Some(e0) => {
                                    let e1 = LexError {
                                        message: e0.message,
                                        data: d,
                                        index: token.index,
                                    };
                                    self.err = Option::None;
                                    return Result::Err(e1);
                                },
                                Option::None => {
                                    token.data = d;
                                    return Result::Ok(token);
                                },
                            }
                        },
                    }
                },
                Option::Some(c) => {
                    proof {
                        assert(c == s[i]);
                        assert(self.cur() == i + 1);
                    }
                    match state {
                        ScanState::Start => {
                            if c == '"' {
                                token.kind = TokenKind::StringValue;
                                state = ScanState::StringLiteralStart;
                            } else if c == '#' {
                                token.kind = TokenKind::Comment;
                                state = ScanState::Comment;
                            } else if c == '.' {
                                token.kind = TokenKind::Spread;
                                state = ScanState::SpreadOperator;
                            } else if is_whitespace(c) {
                                token.kind = TokenKind::Whitespace;
                                state = ScanState::Whitespace;
                            } else if is_ident_char(c) {
                                token.kind = TokenKind::Name;
                                state = ScanState::Ident;
                            } else if c == '+' || c == '-' {
                                token.kind = TokenKind::Int;
                                state = ScanState::PlusMinus;
                            } else if is_digit_char(c) {
                                token.kind = TokenKind::Int;
                                state = ScanState::IntLiteral;
                            } else {
                                match punct_token_kind(c) {
                                    Option::Some(k) => {
                                        token.kind = k;
                                        token.data = self.current_str();
                                        return Result::Ok(token);
                                    },
                                    Option::None => {
                                        let d = self.current_str();
                                        return Result::Err(
                                            LexError {
                                                message: String::from_str("Unexpected character"),
                                                data: d,
                                                index: token.index,
                                            },
                                        );
                                    },
                                }
                            }
                        },
                        ScanState::Ident => {
                            if is_ident_char(c) || is_digit_char(c) {
                            } else {
                                token.data = self.prev_str();
                                break ;
                            }
                        },
                        ScanState::Whitespace => {
                            if is_whitespace(c) {
                            } else {
                                token.data = self.prev_str();
                                break ;
                            }
                        },
                        ScanState::Comment => {
                            if is_line_terminator(c) {
                                token.data = self.prev_str();
                                break ;
                            }
                        },
                        ScanState::SpreadOperator => {
                            if c == '.' {
                                if self.pending_len() == 2 {
                                    proof {
                                        assert(self.cur() == 3);
                                        assert(scan_spread(s, i) == scan_spread(s, i + 1));
                                        assert(scan_spread(s, 3) == crate::model::token_result(
                                            TokenKind::Spread,
                                            3,
                                        ));
                                    }
                                    token.data = self.current_str();
                                    return Result::Ok(token);
                                }
                            } else {
                                token.data = self.current_str();
                                self.add_err(
                                    LexError {
                                        message: String::from_str("Unterminated spread operator"),
                                        data: String::new(),
                                        index: 0,
                                    },
                                );
                                break ;
                            }
                        },
                        ScanState::PlusMinus => {
                            if is_digit_char(c) {
                                state = ScanState::IntLiteral;
                            } else {
                                proof {
                                    lemma_skip_take(inp, st0, 2);
                                }
                                let mslice = self.source.substring_char(self.start, self.pos);
                                let mut m = String::from_str("Unexpected character `");
                                m.append(mslice);
                                m.append("`");
                                let d = self.prev_str();
                                return Result::Err(
                                    LexError { message: m, data: d, index: token.index },
                                );
                            }
                        },
                        ScanState::IntLiteral => {
                            if is_digit_char(c) {
                            } else if c == '.' {
                                token.kind = TokenKind::Float;
                                state = ScanState::FloatLiteral;
                            } else if c == 'e' || c == 'E' {
                                token.kind = TokenKind::Float;
                                state = ScanState::ExponentLiteral;
                            } else {
                                token.data = self.prev_str();
                                break ;
                            }
                        },
                        ScanState::FloatLiteral => {
                            if is_digit_char(c) {
                            } else if c == '.' {
                                let mut m = String::from_str("Unexpected character `");
                                m.append(".");
                                m.append("`");
                                self.add_err(
                                    LexError { message: m, data: String::new(), index: 0 },
                                );
                            } else if c == 'e' || c == 'E' {
                                state = ScanState::ExponentLiteral;
                            } else {
                                token.data = self.prev_str();
                                break ;
                            }
                        },
                        ScanState::ExponentLiteral => {
                            if is_digit_char(c) || c == '+' || c == '-' {
                                state = ScanState::FloatLiteral;
                            } else {
                                proof {
                                    lemma_skip_take(inp, st0, i + 1);
                                }
                                let mslice = self.source.substring_char(self.start, self.pos);
                                let mut m = String::from_str("Unexpected character `");
                                m.append(mslice);
                                m.append("`");
                                let d = self.prev_str();
                                self.err = Option::None;
                                return Result::Err(
                                    LexError { message: m, data: d, index: token.index },
                                );
                            }
                        },
                        ScanState::StringLiteralStart => {
                            if c == '"' {
                                if self.eatc('"') {
                                    state = ScanState::BlockStringLiteral;
                                } else {
                                    if self.pending() {
                                        token.data = self.prev_str();
                                    } else {
                                        token.data = self.current_str();
                                    }
                                    return Result::Ok(token);
                                }
                            } else if is_line_terminator(c) {
                                self.add_err(
                                    LexError {
                                        message: String::from_str("unexpected line terminator"),
                                        data: String::new(),
                                        index: 0,
                                    },
                                );
                                state = ScanState::StringLiteral;
                            } else if c == '\\' {
                                state = ScanState::StringLiteralBackslash;
                            } else if is_source_char(c) {
                                state = ScanState::StringLiteral;
                            } else {
                                token.data = self.current_str();
                                return Result::Ok(token);
                            }
                        },
                        ScanState::StringLiteral => {
                            if c == '"' {
                                token.data = self.current_str();
                                break ;
                            } else if is_line_terminator(c) {
                                self.add_err(
                                    LexError {
                                        message: String::from_str("unexpected line terminator"),
                                        data: String::new(),
                                        index: 0,
                                    },
                                );
                            } else if c == '\\' {
                                state = ScanState::StringLiteralBackslash;
                            } else if is_source_char(c) {
                            } else {
                                token.data = self.current_str();
                                break ;
                            }
                        },
                        ScanState::StringLiteralBackslash => {
                            if is_escaped_char(c) || c == 'u' {
                                state = ScanState::StringLiteral;
                            } else {
                                self.add_err(
                                    LexError {
                                        message: String::from_str("unexpected escaped character"),
                                        data: String::new(),
                                        index: 0,
                                    },
                                );
                                state = ScanState::StringLiteral;
                            }
                        },
                        ScanState::BlockStringLiteral => {
                            if c == '"' {
                                if self.eatc('"') {
                                    if self.eatc('"') {
                                        token.data = self.current_str();
                                        return Result::Ok(token);
                                    }
                                }
                            } else if is_source_char(c) {
                            } else {
                                token.data = self.current_str();
                                return Result::Ok(token);
                            }
                        },
                    }
                },
            }
        }
        proof {
            lemma_scan_len(s);
            assert(s.len() > 0);
        }
        let e_opt = self.err();
        match e_opt {
            Option::Some(e0) => {
                let e1 = LexError { message: e0.message, data: token.data, index: token.index };
                self.err = Option::None;
                Result::Err(e1)
            },
            Option::None => Result::Ok(token),
        }
    }
}

/// Realizes a sequence of tokens as their models.
pub open spec fn token_views(ts: Seq<Token>) -> Seq<TokenModel> {
    ts.map_values(|t: Token| t@)
}

/// Realizes a sequence of errors as their models.
pub open spec fn error_views(es: Seq<LexError>) -> Seq<LexErrorModel> {
    es.map_values(|e: LexError| e@)
}

proof fn lemma_token_views_push(ts: Seq<Token>, t: Token)
    ensures
        token_views(ts.push(t)) == token_views(ts).push(t@),
{
    assert(token_views(ts.push(t)) =~= token_views(ts).push(t@));
}

proof fn lemma_error_views_push(es: Seq<LexError>, e: LexError)
    ensures
        error_views(es.push(e)) == error_views(es).push(e@),
{
    assert(error_views(es.push(e)) =~= error_views(es).push(e@));
}

/// Tokenizes one input: runs the scanner to the end of the input, eagerly,
/// and collects the tokens and the errors into two parallel sequences.
pub struct Lexer {
    tokens: Vec<Token>,
    errors: Vec<LexError>,
}

impl Lexer {
    /// The models of the collected tokens.
    pub closed spec fn tokens_view(&self) -> Seq<TokenModel> {
        token_views(self.tokens@)
    }

    /// The models of the collected errors.
    pub closed spec fn errors_view(&self) -> Seq<LexErrorModel> {
        error_views(self.errors@)
    }

    /// What it means for a lexer value to be the tokenization of `input`:
    /// its tokens and errors are exactly the model's.
    pub open spec fn lexed_from(&self, input: Seq<char>) -> bool {
        self.tokens_view() == spec_tokens(input) && self.errors_view() == spec_errors(input)
    }

    /// Tokenizes `input`.  The collected tokens and errors are exactly the
    /// model's: the same input always yields the same two sequences.
    pub fn new(input: &str) -> (r: Lexer)
        ensures
            r.lexed_from(input@),
            r.tokens_view() == spec_tokens(input@),
            r.errors_view() == spec_errors(input@),
    {
        let mut tokens: Vec<Token> = Vec::new();
        let mut errors: Vec<LexError> = Vec::new();
        let mut c = Cursor::new(input);
        let ghost inp = input@;
        let ghost mut done: Seq<Piece> = Seq::empty();
        proof {
            assert(token_views(tokens@) =~= tokens_of(done));
            assert(error_views(errors@) =~= errors_of(done));
            assert(done + pieces_from(inp, 0) =~= pieces_from(inp, 0));
        }
        loop
            invariant_except_break
                spec_pieces(inp) == done + pieces_from(inp, c.start as int),
            invariant
                c.wf(),
                c.between(),
                c.chars@ == inp,
                inp == input@,
                c.start <= inp.len(),
                token_views(tokens@) == tokens_of(done),
                error_views(errors@) == errors_of(done),
            ensures
                token_views(tokens@) == spec_tokens(inp),
                error_views(errors@) == spec_errors(inp),
            decreases inp.len() - c.start,
        {
            let ghost st = c.start as int;
            let ghost done0 = done;
            proof {
                lemma_scan_len(c.rest());
                lemma_pieces_from_unfold(inp, st);
            }
            let r = c.advance();
            proof {
                done = done.push(piece_at(inp, st));
                lemma_pieces_snoc(done0, piece_at(inp, st));
            }
            match r {
                Result::Ok(t) => {
                    let is_last = t.kind == TokenKind::Eof;
                    proof {
                        lemma_token_views_push(tokens@, t);
                        assert(tokens_of(done) =~= tokens_of(done0).push(t@));
                    }
                    tokens.push(t);
                    if is_last {
                        proof {
                            assert(result_is_eof(scan(inp.skip(st))));
                            assert(st == inp.len());
                            assert(done0 + pieces_from(inp, st) =~= done);
                        }
                        break ;
                    }
                    proof {
                        assert(!result_is_eof(scan(inp.skip(st))));
                        assert(done0 + (seq![piece_at(inp, st)] + pieces_from(
                            inp,
                            c.start as int,
                        )) =~= done + pieces_from(inp, c.start as int));
                    }
                },
                Result::Err(e) => {
                    proof {
                        lemma_error_views_push(errors@, e);
                        assert(errors_of(done) =~= errors_of(done0).push(e@));
                        assert(!result_is_eof(scan(inp.skip(st))));
                        assert(done0 + (seq![piece_at(inp, st)] + pieces_from(
                            inp,
                            c.start as int,
                        )) =~= done + pieces_from(inp, c.start as int));
                    }
                    errors.push(e);
                },
            }
        }
        Lexer { tokens, errors }
    }

    /// The lexer's tokens, in source order, the end-of-input token last.
    pub fn tokens(&self) -> (r: &[Token])
        ensures
            token_views(r@) == self.tokens_view(),
    {
        self.tokens.as_slice()
    }

    /// The lexer's errors, in source order.
    pub fn errors(&self) -> (r: &Vec<LexError>)
        ensures
            error_views(r@) == self.errors_view(),
    {
        &self.errors
    }
}

} // verus!
