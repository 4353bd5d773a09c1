use graphql_lexer::Lexer;
use graphql_lexer::TokenKind;

fn kinds_of(lexer: &Lexer) -> Vec<TokenKind> {
    lexer.tokens().iter().map(|t| t.kind()).collect()
}

fn datas_of(lexer: &Lexer) -> Vec<String> {
    lexer.tokens().iter().map(|t| t.data().to_string()).collect()
}

fn indexes_of(lexer: &Lexer) -> Vec<usize> {
    lexer.tokens().iter().map(|t| t.index()).collect()
}

#[test]
fn tests() {
    let gql_1 = r#"
        """
        **Example**: "Saturn5"
        """
        name: String @join__field(graph: PRODUCTS)
        "#;
    let lexer_1 = Lexer::new(gql_1);
    println!("{}", lexer_1.tokens().len());
    println!("{}", lexer_1.errors().len());
}

#[test]
fn brace_field() {
    let lexer = Lexer::new("{ field }");
    assert_eq!(
        kinds_of(&lexer),
        vec![
            TokenKind::LCurly,
            TokenKind::Whitespace,
            TokenKind::Name,
            TokenKind::Whitespace,
            TokenKind::RCurly,
            TokenKind::Eof,
        ]
    );
    assert_eq!(datas_of(&lexer), vec!["{", " ", "field", " ", "}", "EOF"]);
    assert_eq!(indexes_of(&lexer), vec![0, 1, 2, 7, 8, 10]);
    assert_eq!(lexer.errors().len(), 0);
}

#[test]
fn spread_then_name() {
    let lexer = Lexer::new("...on");
    assert_eq!(kinds_of(&lexer), vec![TokenKind::Spread, TokenKind::Name, TokenKind::Eof]);
    assert_eq!(datas_of(&lexer), vec!["...", "on", "EOF"]);
    assert_eq!(indexes_of(&lexer), vec![0, 3, 6]);
    assert_eq!(lexer.errors().len(), 0);
}

#[test]
fn spread_unterminated() {
    let lexer = Lexer::new("..x");
    assert_eq!(kinds_of(&lexer), vec![TokenKind::Eof]);
    assert_eq!(lexer.errors().len(), 1);
    let e = &lexer.errors()[0];
    assert_eq!(e.message(), "Unterminated spread operator");
    assert_eq!(e.data(), "..x");
    assert_eq!(e.index(), 0);
}

#[test]
fn spread_cut_short_by_end_of_input() {
    let lexer = Lexer::new("..");
    assert_eq!(kinds_of(&lexer), vec![TokenKind::Eof]);
    assert_eq!(lexer.errors().len(), 1);
    let e = &lexer.errors()[0];
    assert_eq!(e.message(), "Unterminated spread operator");
    assert_eq!(e.data(), "..");
    assert_eq!(e.index(), 0);
}

#[test]
fn float_with_exponent() {
    let lexer = Lexer::new("3.14e+2");
    assert_eq!(kinds_of(&lexer), vec![TokenKind::Float, TokenKind::Eof]);
    assert_eq!(datas_of(&lexer), vec!["3.14e+2", "EOF"]);
    assert_eq!(indexes_of(&lexer), vec![0, 8]);
    assert_eq!(lexer.errors().len(), 0);
}

#[test]
fn signed_int() {
    let lexer = Lexer::new("+5");
    assert_eq!(kinds_of(&lexer), vec![TokenKind::Int, TokenKind::Eof]);
    assert_eq!(datas_of(&lexer), vec!["+5", "EOF"]);
    assert_eq!(lexer.errors().len(), 0);
}

#[test]
fn sign_without_digit() {
    let lexer = Lexer::new("+a");
    assert_eq!(lexer.errors().len(), 1);
    let e = &lexer.errors()[0];
    assert_eq!(e.message(), "Unexpected character `+a`");
    assert_eq!(e.data(), "+");
    assert_eq!(e.index(), 0);
    // the offending character is scanned again on the next pass
    assert_eq!(kinds_of(&lexer), vec![TokenKind::Name, TokenKind::Eof]);
    assert_eq!(datas_of(&lexer), vec!["a", "EOF"]);
    assert_eq!(indexes_of(&lexer), vec![1, 3]);
}

#[test]
fn exponent_without_digit() {
    let lexer = Lexer::new("1eX");
    assert_eq!(lexer.errors().len(), 1);
    let e = &lexer.errors()[0];
    assert_eq!(e.message(), "Unexpected character `1eX`");
    assert_eq!(e.data(), "1e");
    assert_eq!(e.index(), 0);
    assert_eq!(kinds_of(&lexer), vec![TokenKind::Name, TokenKind::Eof]);
    assert_eq!(datas_of(&lexer), vec!["X", "EOF"]);
    assert_eq!(indexes_of(&lexer), vec![2, 4]);
}

#[test]
fn float_with_second_dot() {
    let lexer = Lexer::new("1.2.3");
    assert_eq!(kinds_of(&lexer), vec![TokenKind::Eof]);
    assert_eq!(lexer.errors().len(), 1);
    let e = &lexer.errors()[0];
    assert_eq!(e.message(), "Unexpected character `.`");
    assert_eq!(e.data(), "1.2.3");
    assert_eq!(e.index(), 0);
}

#[test]
fn number_cut_short_by_end_of_input() {
    let lexer = Lexer::new("3e");
    assert_eq!(kinds_of(&lexer), vec![TokenKind::Float, TokenKind::Eof]);
    assert_eq!(datas_of(&lexer), vec!["3e", "EOF"]);
    let lexer = Lexer::new("+");
    assert_eq!(kinds_of(&lexer), vec![TokenKind::Int, TokenKind::Eof]);
    assert_eq!(datas_of(&lexer), vec!["+", "EOF"]);
}

#[test]
fn string_simple() {
    let lexer = Lexer::new("\"hi\"");
    assert_eq!(kinds_of(&lexer), vec![TokenKind::StringValue, TokenKind::Eof]);
    assert_eq!(datas_of(&lexer), vec!["\"hi\"", "EOF"]);
    assert_eq!(indexes_of(&lexer), vec![0, 5]);
    assert_eq!(lexer.errors().len(), 0);
}

#[test]
fn string_empty() {
    let lexer = Lexer::new("\"\"");
    assert_eq!(kinds_of(&lexer), vec![TokenKind::StringValue, TokenKind::Eof]);
    assert_eq!(datas_of(&lexer), vec!["\"\"", "EOF"]);
    let lexer = Lexer::new("\"\"x");
    assert_eq!(kinds_of(&lexer), vec![TokenKind::StringValue, TokenKind::Name, TokenKind::Eof]);
    assert_eq!(datas_of(&lexer), vec!["\"\"", "x", "EOF"]);
    assert_eq!(indexes_of(&lexer), vec![0, 2, 4]);
}

#[test]
fn block_string() {
    let lexer = Lexer::new("\"\"\"a\"\"\"");
    assert_eq!(kinds_of(&lexer), vec![TokenKind::StringValue, TokenKind::Eof]);
    assert_eq!(datas_of(&lexer), vec!["\"\"\"a\"\"\"", "EOF"]);
    assert_eq!(lexer.errors().len(), 0);
}

#[test]
fn block_string_with_inner_quotes() {
    let lexer = Lexer::new("\"\"\"a\"\"b\"\"\"");
    assert_eq!(kinds_of(&lexer), vec![TokenKind::StringValue, TokenKind::Eof]);
    assert_eq!(datas_of(&lexer), vec!["\"\"\"a\"\"b\"\"\"", "EOF"]);
    assert_eq!(lexer.errors().len(), 0);
}

#[test]
fn block_string_unterminated() {
    let lexer = Lexer::new("\"\"\"ab");
    assert_eq!(kinds_of(&lexer), vec![TokenKind::StringValue, TokenKind::Eof]);
    assert_eq!(datas_of(&lexer), vec!["\"\"\"ab", "EOF"]);
    assert_eq!(lexer.errors().len(), 0);
}

#[test]
fn string_unterminated() {
    let lexer = Lexer::new("\"abc");
    assert_eq!(kinds_of(&lexer), vec![TokenKind::Eof]);
    assert_eq!(lexer.errors().len(), 1);
    let e = &lexer.errors()[0];
    assert_eq!(e.message(), "unterminated string value");
    assert_eq!(e.data(), "\"abc");
    assert_eq!(e.index(), 0);
}

#[test]
fn string_lone_quote() {
    let lexer = Lexer::new("\"");
    assert_eq!(kinds_of(&lexer), vec![TokenKind::Eof]);
    assert_eq!(lexer.errors().len(), 1);
    let e = &lexer.errors()[0];
    assert_eq!(e.message(), "unexpected end of data while lexing string value");
    assert_eq!(e.data(), "\"");
    assert_eq!(e.index(), 0);
}

#[test]
fn string_with_line_terminator() {
    let lexer = Lexer::new("\"line\nbreak\"");
    assert_eq!(kinds_of(&lexer), vec![TokenKind::Eof]);
    assert_eq!(lexer.errors().len(), 1);
    let e = &lexer.errors()[0];
    assert_eq!(e.message(), "unexpected line terminator");
    assert_eq!(e.data(), "\"line\nbreak\"");
    assert_eq!(e.index(), 0);
}

#[test]
fn string_with_bad_escape() {
    let lexer = Lexer::new("\"\\q\"");
    assert_eq!(kinds_of(&lexer), vec![TokenKind::Eof]);
    assert_eq!(lexer.errors().len(), 1);
    let e = &lexer.errors()[0];
    assert_eq!(e.message(), "unexpected escaped character");
    assert_eq!(e.data(), "\"\\q\"");
    assert_eq!(e.index(), 0);
}

#[test]
fn string_with_good_escapes() {
    let lexer = Lexer::new("\"a\\n\\\"b\\u0041\"");
    assert_eq!(kinds_of(&lexer), vec![TokenKind::StringValue, TokenKind::Eof]);
    assert_eq!(lexer.errors().len(), 0);
}

#[test]
fn comment_then_brace() {
    let lexer = Lexer::new("# comment\n{");
    assert_eq!(
        kinds_of(&lexer),
        vec![TokenKind::Comment, TokenKind::Whitespace, TokenKind::LCurly, TokenKind::Eof]
    );
    assert_eq!(datas_of(&lexer), vec!["# comment", "\n", "{", "EOF"]);
    assert_eq!(indexes_of(&lexer), vec![0, 9, 10, 12]);
    assert_eq!(lexer.errors().len(), 0);
}

#[test]
fn empty_input() {
    let lexer = Lexer::new("");
    assert_eq!(kinds_of(&lexer), vec![TokenKind::Eof]);
    assert_eq!(indexes_of(&lexer), vec![1]);
    assert_eq!(lexer.errors().len(), 0);
}

#[test]
fn all_punctuators() {
    let lexer = Lexer::new("!$&():,=@[]{|}");
    assert_eq!(
        kinds_of(&lexer),
        vec![
            TokenKind::Bang,
            TokenKind::Dollar,
            TokenKind::Amp,
            TokenKind::LParen,
            TokenKind::RParen,
            TokenKind::Colon,
            TokenKind::Comma,
            TokenKind::Eq,
            TokenKind::At,
            TokenKind::LBracket,
            TokenKind::RBracket,
            TokenKind::LCurly,
            TokenKind::Pipe,
            TokenKind::RCurly,
            TokenKind::Eof,
        ]
    );
    assert_eq!(lexer.errors().len(), 0);
}

#[test]
fn unexpected_character() {
    let lexer = Lexer::new("~");
    assert_eq!(kinds_of(&lexer), vec![TokenKind::Eof]);
    assert_eq!(lexer.errors().len(), 1);
    let e = &lexer.errors()[0];
    assert_eq!(e.message(), "Unexpected character");
    assert_eq!(e.data(), "~");
    assert_eq!(e.index(), 0);
}

#[test]
fn multibyte_whitespace_offsets() {
    // the byte-order mark is three UTF-8 bytes wide
    let lexer = Lexer::new("\u{FEFF} a");
    assert_eq!(kinds_of(&lexer), vec![TokenKind::Whitespace, TokenKind::Name, TokenKind::Eof]);
    assert_eq!(datas_of(&lexer), vec!["\u{FEFF} ", "a", "EOF"]);
    assert_eq!(indexes_of(&lexer), vec![0, 4, 6]);
    assert_eq!(lexer.errors().len(), 0);
}

#[test]
fn exotic_whitespace() {
    let lexer = Lexer::new("\t\u{2028}x");
    assert_eq!(kinds_of(&lexer), vec![TokenKind::Whitespace, TokenKind::Name, TokenKind::Eof]);
    assert_eq!(datas_of(&lexer), vec!["\t\u{2028}", "x", "EOF"]);
    assert_eq!(indexes_of(&lexer), vec![0, 4, 6]);
}

#[test]
fn lossless_with_error() {
    let input = "query { name(id: 3.5) .. }";
    let lexer = Lexer::new(input);
    assert_eq!(lexer.errors().len(), 1);  // the two-dot spread is cut short by the space
    let mut rebuilt = String::new();
    // here the single error slice sits between the tokens that precede and
    // follow it in source order, so source order can be rebuilt by offset
    let mut parts: Vec<(usize, String)> = Vec::new();
    for t in lexer.tokens() {
        if t.kind() != TokenKind::Eof {
            parts.push((t.index(), t.data().to_string()));
        }
    }
    for e in lexer.errors() {
        parts.push((e.index(), e.data().to_string()));
    }
    parts.sort();
    for (_, d) in parts {
        rebuilt.push_str(&d);
    }
    assert_eq!(rebuilt, input);
}

#[test]
fn lossless_tokens_only() {
    let input = "{ field(arg: \"v\") }";
    let lexer = Lexer::new(input);
    assert_eq!(lexer.errors().len(), 0);
    let mut rebuilt = String::new();
    for t in lexer.tokens() {
        if t.kind() != TokenKind::Eof {
            rebuilt.push_str(t.data());
        }
    }
    assert_eq!(rebuilt, input);
}

#[test]
fn offsets_are_contiguous() {
    let input = "{ field }";
    let lexer = Lexer::new(input);
    let toks = lexer.tokens();
    for w in toks.windows(2) {
        if w[1].kind() != TokenKind::Eof {
            assert_eq!(w[0].index() + w[0].data().len(), w[1].index());
        } else {
            assert_eq!(w[0].index() + w[0].data().len() + 1, w[1].index());
        }
    }
}

#[test]
fn eof_is_terminal() {
    let lexer = Lexer::new("a 1 \"s\" ... # c");
    let toks = lexer.tokens();
    assert!(toks.len() >= 1);
    assert_eq!(toks[toks.len() - 1].kind(), TokenKind::Eof);
    for t in &toks[..toks.len() - 1] {
        assert_ne!(t.kind(), TokenKind::Eof);
    }
}

#[test]
fn tokenization_is_deterministic() {
    let input = "query { x ..y \"open";
    let a = Lexer::new(input);
    let b = Lexer::new(input);
    assert_eq!(a.tokens().len(), b.tokens().len());
    for (ta, tb) in a.tokens().iter().zip(b.tokens().iter()) {
        assert_eq!(ta.kind(), tb.kind());
        assert_eq!(ta.data(), tb.data());
        assert_eq!(ta.index(), tb.index());
    }
    assert_eq!(a.errors().len(), b.errors().len());
    for (ea, eb) in a.errors().iter().zip(b.errors().iter()) {
        assert_eq!(ea.message(), eb.message());
        assert_eq!(ea.data(), eb.data());
        assert_eq!(ea.index(), eb.index());
    }
}

#[test]
fn token_unmoved_by_surrounding_whitespace() {
    let bare = Lexer::new("name");
    let padded = Lexer::new("  name  ");
    assert_eq!(
        kinds_of(&padded),
        vec![TokenKind::Whitespace, TokenKind::Name, TokenKind::Whitespace, TokenKind::Eof]
    );
    assert_eq!(bare.tokens()[0].kind(), padded.tokens()[1].kind());
    assert_eq!(bare.tokens()[0].data(), padded.tokens()[1].data());
    assert_eq!(padded.tokens()[1].index(), 2);
    assert_eq!(padded.errors().len(), 0);
}

#[test]
fn name_with_digits_and_underscores() {
    let lexer = Lexer::new("a1_b2");
    assert_eq!(kinds_of(&lexer), vec![TokenKind::Name, TokenKind::Eof]);
    assert_eq!(datas_of(&lexer), vec!["a1_b2", "EOF"]);
    assert_eq!(lexer.errors().len(), 0);
}

#[test]
fn spread_alone() {
    let lexer = Lexer::new("...");
    assert_eq!(kinds_of(&lexer), vec![TokenKind::Spread, TokenKind::Eof]);
    assert_eq!(indexes_of(&lexer), vec![0, 4]);
    assert_eq!(lexer.errors().len(), 0);
}

#[test]
fn comment_at_end_of_input() {
    let lexer = Lexer::new("# c");
    assert_eq!(kinds_of(&lexer), vec![TokenKind::Comment, TokenKind::Eof]);
    assert_eq!(datas_of(&lexer), vec!["# c", "EOF"]);
    assert_eq!(indexes_of(&lexer), vec![0, 4]);
    assert_eq!(lexer.errors().len(), 0);
}

#[test]
fn float_with_negative_exponent() {
    let lexer = Lexer::new("0.5e-3");
    assert_eq!(kinds_of(&lexer), vec![TokenKind::Float, TokenKind::Eof]);
    assert_eq!(datas_of(&lexer), vec!["0.5e-3", "EOF"]);
    assert_eq!(lexer.errors().len(), 0);
}
