use parsing_basics::lexer::Lexer;
use parsing_basics::rules;
use parsing_basics::token::{Span, Token, TokenKind};
use unindent::unindent;

/// Walks `tokens` and compares them to the given kinds, as far as `kinds` goes.
fn assert_tokens(tokens: &[Token], kinds: &[TokenKind]) {
    let mut it = tokens.iter();
    for kind in kinds {
        let token = it.next().expect("not enough tokens");
        assert_eq!(token.kind, *kind);
    }
}

fn kinds_of(input: &str) -> Vec<TokenKind> {
    Lexer::new(input).tokenize().iter().map(|t| t.kind).collect()
}

#[test]
fn unambiguous_single_char() {
    assert_eq!(rules::unambiguous_single_char('+'), Some(TokenKind::Plus));
    assert_eq!(rules::unambiguous_single_char('-'), Some(TokenKind::Minus));
    assert_eq!(rules::unambiguous_single_char('*'), Some(TokenKind::Times));
    assert_eq!(rules::unambiguous_single_char('^'), Some(TokenKind::Pow));
    assert_eq!(rules::unambiguous_single_char('.'), Some(TokenKind::Dot));
    assert_eq!(rules::unambiguous_single_char(','), Some(TokenKind::Comma));
    assert_eq!(rules::unambiguous_single_char('['), Some(TokenKind::LSquare));
    assert_eq!(rules::unambiguous_single_char(']'), Some(TokenKind::RSquare));
    assert_eq!(rules::unambiguous_single_char('{'), Some(TokenKind::LBrace));
    assert_eq!(rules::unambiguous_single_char('}'), Some(TokenKind::RBrace));
    assert_eq!(rules::unambiguous_single_char('('), Some(TokenKind::LParen));
    assert_eq!(rules::unambiguous_single_char(')'), Some(TokenKind::RParen));
    assert_eq!(rules::unambiguous_single_char(':'), Some(TokenKind::Colon));
    assert_eq!(rules::unambiguous_single_char(';'), Some(TokenKind::SemiColon));

    for c in 'a'..='t' {
        assert_eq!(rules::unambiguous_single_char(c), None);
    }
}

#[test]
fn token_kind_display() {
    assert_eq!(TokenKind::Plus.to_string(), "+");
    assert_eq!(TokenKind::Leq.to_string(), "<=");
    assert_eq!(TokenKind::KeywordLet.to_string(), "let");
    assert_eq!(TokenKind::Comment.to_string(), "// Comment");
    assert_eq!(TokenKind::Error.to_string(), "<?>");
    assert_eq!(TokenKind::Whitespace.to_string(), "<WS>");
    assert_eq!(TokenKind::Eof.to_string(), "<EOF>");
}

#[test]
fn token_len() {
    let token = Token { kind: TokenKind::Eqq, span: Span { start: 0, end: 2 } };
    assert_eq!(token.len(), 2);

    let token = Token { kind: TokenKind::Identifier, span: Span { start: 2, end: 7 } };
    assert_eq!(token.len(), 5);
}

#[test]
fn token_text() {
    let input = "let x = 42;";
    let token = Token { kind: TokenKind::Identifier, span: Span { start: 4, end: 5 } };
    assert_eq!(token.text(input), "x");

    let token = Token { kind: TokenKind::Eq, span: Span { start: 6, end: 7 } };
    assert_eq!(token.text(input), "=");
}

#[test]
fn single_char_tokens() {
    let mut lexer = Lexer::new("+-(.):");
    let tokens = lexer.tokenize();
    assert_tokens(
        &tokens,
        &[
            TokenKind::Plus,
            TokenKind::Minus,
            TokenKind::LParen,
            TokenKind::Dot,
            TokenKind::RParen,
            TokenKind::Colon,
            TokenKind::Eof,
        ],
    );
}

#[test]
fn unknown_input() {
    let mut lexer = Lexer::new("{$$$$$$$+");
    let tokens = lexer.tokenize();
    assert_tokens(
        &tokens,
        &[TokenKind::LBrace, TokenKind::Error, TokenKind::Plus, TokenKind::Eof],
    );
}

#[test]
fn token_spans() {
    {
        let mut lexer = Lexer::new("+-(.):");
        let tokens = lexer.tokenize();

        let dot = tokens[3];
        assert_eq!(dot.kind, TokenKind::Dot);
        assert_eq!(dot.span, (3..4).into());
    }
    {
        let mut lexer = Lexer::new("{$$$$$$$+");
        let tokens = lexer.tokenize();

        let error = tokens[1];
        assert_eq!(error.kind, TokenKind::Error);
        assert_eq!(error.span, (1..8).into());
    }
}

#[test]
fn single_char_tokens_with_whitespace() {
    let mut lexer = Lexer::new("   + -  (.): ");
    let tokens = lexer.tokenize();

    let leading_space = &tokens[0];
    assert_eq!(leading_space.kind, TokenKind::Whitespace);
    assert_eq!(leading_space.len(), 3);

    let space_after_minus = &tokens[4];
    assert_eq!(space_after_minus.kind, TokenKind::Whitespace);
    assert_eq!(space_after_minus.len(), 2);

    let trailing_space = &tokens[9];
    assert_eq!(trailing_space.kind, TokenKind::Whitespace);
    assert_eq!(trailing_space.len(), 1);

    let tokens: Vec<_> = tokens.into_iter().filter(|t| t.kind != TokenKind::Whitespace).collect();
    assert_tokens(
        &tokens,
        &[
            TokenKind::Plus,
            TokenKind::Minus,
            TokenKind::LParen,
            TokenKind::Dot,
            TokenKind::RParen,
            TokenKind::Colon,
            TokenKind::Eof,
        ],
    );
}

#[test]
fn maybe_multiple_char_tokens() {
    let mut lexer = Lexer::new("&&=<=_!=||");
    let tokens = lexer.tokenize();
    assert_tokens(
        &tokens,
        &[
            TokenKind::And,
            TokenKind::Eq,
            TokenKind::Leq,
            TokenKind::Underscore,
            TokenKind::Neq,
            TokenKind::Or,
            TokenKind::Eof,
        ],
    );
}

#[test]
fn keywords() {
    let mut lexer = Lexer::new("if let = struct else fn");
    let tokens: Vec<_> = lexer
        .tokenize()
        .into_iter()
        .filter(|token| token.kind != TokenKind::Whitespace)
        .collect();

    assert_tokens(
        &tokens,
        &[
            TokenKind::KeywordIf,
            TokenKind::KeywordLet,
            TokenKind::Eq,
            TokenKind::KeywordStruct,
            TokenKind::KeywordElse,
            TokenKind::KeywordFn,
            TokenKind::Eof,
        ],
    );
}

#[test]
fn function() {
    let input = unindent(
        r#"
        // tests stuff
        fn test(var: Type, var2_: bool) {
            let x = "String content \" test" + 7 / 27.3e-2^4;
            let chars = x.chars();
            if let Some(c) = chars.next() {
                x = x + c;
            } else if !var2_ {
                x = x + ",";
            }
        }
    "#,
    );

    let mut lexer = Lexer::new(input.as_str());
    let tokens: Vec<_> =
        lexer.tokenize().into_iter().filter(|t| t.kind != TokenKind::Whitespace).collect();

    assert_tokens(
        &tokens,
        &[
            // `// tests stuff`
            TokenKind::Comment,
            // fn test(var: Type, var2_: bool) {
            TokenKind::KeywordFn, TokenKind::Identifier, TokenKind::LParen,
            TokenKind::Identifier, TokenKind::Colon, TokenKind::Identifier, TokenKind::Comma,
            TokenKind::Identifier, TokenKind::Colon, TokenKind::Identifier,
            TokenKind::RParen, TokenKind::LBrace,
            // let x = "String content \" test" + 7 / 27.3e-2^4;
            TokenKind::KeywordLet, TokenKind::Identifier, TokenKind::Eq,
            TokenKind::String, TokenKind::Plus, TokenKind::Int, TokenKind::Slash, TokenKind::Float, TokenKind::Pow, TokenKind::Int, TokenKind::SemiColon,
            // let chars = x.chars();
            TokenKind::KeywordLet, TokenKind::Identifier, TokenKind::Eq,
            TokenKind::Identifier, TokenKind::Dot, TokenKind::Identifier, TokenKind::LParen, TokenKind::RParen, TokenKind::SemiColon,
            // if let Some(c) = chars.next() {
            TokenKind::KeywordIf, TokenKind::KeywordLet, TokenKind::Identifier, TokenKind::LParen, TokenKind::Identifier, TokenKind::RParen, TokenKind::Eq,
            TokenKind::Identifier, TokenKind::Dot, TokenKind::Identifier, TokenKind::LParen, TokenKind::RParen,
            TokenKind::LBrace,
            // x = x + c;
            TokenKind::Identifier, TokenKind::Eq, TokenKind::Identifier, TokenKind::Plus, TokenKind::Identifier, TokenKind::SemiColon,
            // } else if !var2_ {
            TokenKind::RBrace, TokenKind::KeywordElse, TokenKind::KeywordIf, TokenKind::Bang, TokenKind::Identifier, TokenKind::LBrace,
            // x = x + ",";
            TokenKind::Identifier, TokenKind::Eq, TokenKind::Identifier, TokenKind::Plus, TokenKind::String, TokenKind::SemiColon,
            TokenKind::RBrace,
            TokenKind::RBrace,
            TokenKind::Eof,
        ],
    );
}

#[test]
fn struct_def() {
    let input = unindent(
        r#"
        struct Foo<T> {
            bar: Bar<T>,
        }
    "#,
    );
    let input = input.as_str();

    let mut lexer = Lexer::new(input);
    let tokens: Vec<_> = lexer
        .tokenize()
        .into_iter()
        .filter(|token| token.kind != TokenKind::Whitespace)
        .collect();

    assert_tokens(
        &tokens,
        &[
            // struct Foo<T> {
            TokenKind::KeywordStruct,
            TokenKind::Identifier,
            TokenKind::LAngle,
            TokenKind::Identifier,
            TokenKind::RAngle,
            TokenKind::LBrace,
            // bar: Bar<T>,
            TokenKind::Identifier,
            TokenKind::Colon,
            TokenKind::Identifier,
            TokenKind::LAngle,
            TokenKind::Identifier,
            TokenKind::RAngle,
            TokenKind::Comma,
            TokenKind::RBrace,
        ],
    );

    let foo = tokens[1];
    assert_eq!(foo.text(input), "Foo");

    let bar = tokens[6];
    assert_eq!(bar.span, (20..23).into());
    assert_eq!(bar.text(input), "bar");
}

#[test]
fn spans_reassemble_the_source() {
    for input in ["let x = \"a\" + 2.5e3; // done\n", "{$$$+", "héllo wörld", "", "iffy if"] {
        let tokens = Lexer::new(input).tokenize();
        let mut rebuilt = String::new();
        let mut expected_start = 0;
        for t in &tokens[..tokens.len() - 1] {
            assert_eq!(t.span.start, expected_start);
            assert!(t.span.start < t.span.end);
            rebuilt.push_str(t.text(input));
            expected_start = t.span.end;
        }
        assert_eq!(rebuilt, input);
    }
}

#[test]
fn ends_with_one_eof_token() {
    for input in ["", "+", "  x  ", "$$$"] {
        let tokens = Lexer::new(input).tokenize();
        let last = tokens[tokens.len() - 1];
        assert_eq!(last.kind, TokenKind::Eof);
        assert_eq!(last.span, Span { start: input.len(), end: input.len() });
        assert_eq!(tokens.iter().filter(|t| t.kind == TokenKind::Eof).count(), 1);
    }
    assert_eq!(kinds_of(""), vec![TokenKind::Eof]);
}

#[test]
fn longest_match_and_earlier_rule_on_ties() {
    assert_eq!(kinds_of("if"), vec![TokenKind::KeywordIf, TokenKind::Eof]);
    assert_eq!(kinds_of("iffy"), vec![TokenKind::Identifier, TokenKind::Eof]);
    assert_eq!(kinds_of("_"), vec![TokenKind::Underscore, TokenKind::Eof]);
    assert_eq!(kinds_of("_x"), vec![TokenKind::Identifier, TokenKind::Eof]);
    assert_eq!(kinds_of("42"), vec![TokenKind::Int, TokenKind::Eof]);
    assert_eq!(kinds_of("4.2"), vec![TokenKind::Float, TokenKind::Eof]);
    assert_eq!(kinds_of(".5"), vec![TokenKind::Float, TokenKind::Eof]);
    assert_eq!(kinds_of("1e"), vec![TokenKind::Int, TokenKind::Identifier, TokenKind::Eof]);
    assert_eq!(kinds_of("1e+5"), vec![TokenKind::Float, TokenKind::Eof]);
    assert_eq!(kinds_of("=="), vec![TokenKind::Eqq, TokenKind::Eof]);
    assert_eq!(kinds_of("//x\n"), vec![TokenKind::Comment, TokenKind::Eof]);
    assert_eq!(kinds_of("//x"), vec![TokenKind::Slash, TokenKind::Slash, TokenKind::Identifier, TokenKind::Eof]);
}

#[test]
fn error_run_is_one_token() {
    let tokens = Lexer::new("{$$$+").tokenize();
    let kinds: Vec<_> = tokens.iter().map(|t| t.kind).collect();
    assert_eq!(kinds, vec![TokenKind::LBrace, TokenKind::Error, TokenKind::Plus, TokenKind::Eof]);
    assert_eq!(tokens[1].span, Span { start: 1, end: 4 });

    let tokens = Lexer::new("é&").tokenize();
    assert_eq!(tokens.len(), 2);
    assert_eq!(tokens[0].kind, TokenKind::Error);
    assert_eq!(tokens[0].span, Span { start: 0, end: 3 });
}

#[test]
fn whitespace_is_a_token() {
    let tokens = Lexer::new("  +").tokenize();
    assert_eq!(tokens[0].kind, TokenKind::Whitespace);
    assert_eq!(tokens[0].len(), 2);
    assert_eq!(tokens[1].kind, TokenKind::Plus);
}

#[test]
fn next_token_reads_the_front() {
    let lexer = Lexer::new("");
    let t = lexer.next_token("struct S");
    assert_eq!(t.kind, TokenKind::KeywordStruct);
    assert_eq!(t.span, Span { start: 0, end: 6 });
    let t = lexer.next_token("\"a\\\"b\" rest");
    assert_eq!(t.kind, TokenKind::String);
    assert_eq!(t.span, Span { start: 0, end: 6 });
}

#[test]
fn whitespace_is_space_tab_newline_only() {
    let tokens = Lexer::new(" \t\n+").tokenize();
    assert_eq!(tokens[0].kind, TokenKind::Whitespace);
    assert_eq!(tokens[0].len(), 3);
    let tokens = Lexer::new(" \u{c}").tokenize();
    assert_eq!(tokens[0].kind, TokenKind::Whitespace);
    assert_eq!(tokens[0].len(), 1);
    assert_eq!(tokens[1].kind, TokenKind::Error);
    assert_eq!(tokens[1].span, Span { start: 1, end: 2 });
    let tokens = Lexer::new("\r\n").tokenize();
    assert_eq!(tokens[0].kind, TokenKind::Error);
    assert_eq!(tokens[1].kind, TokenKind::Whitespace);
}
