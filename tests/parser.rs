use parsing_basics::ast::{Expr, Lit};
use parsing_basics::grammar::ParseError;
use parsing_basics::parser::Parser;
use parsing_basics::token::{Span, Token, TokenKind};

fn parse(input: &str) -> Expr {
    let mut parser = Parser::new(input);
    parser.parse_expression(0).unwrap()
}

fn parse_err(input: &str) -> ParseError {
    let mut parser = Parser::new(input);
    parser.parse_expression(0).unwrap_err()
}

#[test]
fn parse_expression() {
    // Weird spaces are to test that whitespace gets filtered out
    assert_eq!(parse("42"), Expr::Literal(Lit::Int(42)));
    match parse("  2.7768") {
        Expr::Literal(Lit::Float(text)) => assert_eq!(text.parse::<f64>().unwrap(), 2.7768),
        other => panic!("not a float literal: {:?}", other),
    }
    assert_eq!(
        parse(r#""I am a String!""#),
        Expr::Literal(Lit::Str("I am a String!".to_string())),
    );
    assert_eq!(parse("foo"), Expr::Ident("foo".to_string()));

    assert_eq!(
        parse("bar (  x, 2)"),
        Expr::FnCall {
            fn_name: "bar".to_string(),
            args: vec![Expr::Ident("x".to_string()), Expr::Literal(Lit::Int(2))],
        },
    );

    assert_eq!(
        parse("!  is_visible"),
        Expr::PrefixOp {
            op: TokenKind::Bang,
            expr: Box::new(Expr::Ident("is_visible".to_string())),
        }
    );

    assert_eq!(
        parse("(-13)"),
        Expr::PrefixOp {
            op: TokenKind::Minus,
            expr: Box::new(Expr::Literal(Lit::Int(13))),
        }
    );
}

#[test]
fn parse_binary_expressions() {
    assert_eq!(parse("4 + 2 * 3").to_string(), "(4 + (2 * 3))");
    assert_eq!(parse("4 * 2 + 3").to_string(), "((4 * 2) + 3)");
    assert_eq!(parse("4 - 2 - 3").to_string(), "((4 - 2) - 3)");
    assert_eq!(parse("4 ^ 2 ^ 3").to_string(), "(4 ^ (2 ^ 3))");
}

#[test]
fn precedence_across_levels() {
    assert_eq!(parse("a || b && c == d < e + f * g ^ h").to_string(), "(a || (b && (c == (d < (e + (f * (g ^ h)))))))");
    assert_eq!(parse("-a ^ b").to_string(), "((- a) ^ b)");
    assert_eq!(parse("-a * b").to_string(), "((- a) * b)");
    assert_eq!(parse("(1 + 2) * 3").to_string(), "((1 + 2) * 3)");
    assert_eq!(parse("1 <= 2 != 3 >= 4").to_string(), "((1 <= 2) != (3 >= 4))");
}

#[test]
fn function_calls() {
    assert_eq!(
        parse("bar(x, 2)"),
        Expr::FnCall {
            fn_name: "bar".to_string(),
            args: vec![Expr::Ident("x".to_string()), Expr::Literal(Lit::Int(2))],
        },
    );
    assert_eq!(parse("bar()"), Expr::FnCall { fn_name: "bar".to_string(), args: vec![] });
    assert_eq!(parse("f(g(1), 2 + 3)").to_string(), "f(g(1,),(2 + 3),)");
}

#[test]
fn prefix_operators() {
    assert_eq!(
        parse("!is_visible"),
        Expr::PrefixOp {
            op: TokenKind::Bang,
            expr: Box::new(Expr::Ident("is_visible".to_string())),
        }
    );
    assert_eq!(parse("+-1").to_string(), "(+ (- 1))");
}

#[test]
fn literals_and_comments() {
    assert_eq!(parse("007"), Expr::Literal(Lit::Int(7)));
    assert_eq!(parse("\"a\\\"b\""), Expr::Literal(Lit::Str("a\\\"b".to_string())));
    assert_eq!(parse("\"\""), Expr::Literal(Lit::Str(String::new())));
    assert_eq!(parse("\"h\u{e9}\"").to_string(), "\"h\u{e9}\"");
    assert_eq!(parse("1 // one\n + 2").to_string(), "(1 + 2)");
    assert_eq!(parse("1e3").to_string(), "1e3");
    assert_eq!(Lit::Int(120).to_string(), "120");
}

#[test]
fn stops_before_terminators() {
    for input in ["1 + 2", "1 + 2)", "1 + 2}", "1 + 2,", "1 + 2;", "1 + 2 !"] {
        let mut parser = Parser::new(input);
        assert_eq!(parser.parse_expression(0).unwrap().to_string(), "(1 + 2)");
    }
    let mut parser = Parser::new("1 * 2 + 3");
    assert_eq!(parser.parse_expression(10).unwrap().to_string(), "(1 * 2)");
    assert_eq!(parser.peek(), TokenKind::Plus);
}

#[test]
fn parse_errors() {
    assert_eq!(parse_err(")"), ParseError::UnexpectedHead(TokenKind::RParen));
    assert_eq!(parse_err(""), ParseError::UnexpectedHead(TokenKind::Eof));
    assert_eq!(parse_err("1 2"), ParseError::UnexpectedOperator(TokenKind::Int));
    assert_eq!(
        parse_err("(1"),
        ParseError::ConsumeMismatch { expected: TokenKind::RParen, found: TokenKind::Eof }
    );
    assert_eq!(parse_err("99999999999999999999999999"), ParseError::InvalidLiteral);
    assert_eq!(parse_err("f(1"), ParseError::UnexpectedHead(TokenKind::Eof));
}

#[test]
fn token_source_adapter() {
    let mut parser = Parser::new("a + 1");
    assert_eq!(parser.peek(), TokenKind::Identifier);
    assert!(parser.at(TokenKind::Identifier));
    let t = parser.next().unwrap();
    assert_eq!(t, Token { kind: TokenKind::Identifier, span: Span { start: 0, end: 1 } });
    assert_eq!(parser.text(t), "a");
    assert_eq!(parser.peek(), TokenKind::Plus);
    assert_eq!(
        parser.consume(TokenKind::Minus),
        Err(ParseError::ConsumeMismatch { expected: TokenKind::Minus, found: TokenKind::Plus })
    );
    assert_eq!(parser.consume(TokenKind::Plus), Ok(()));
    assert_eq!(parser.consume(TokenKind::Int), Ok(()));
    assert_eq!(parser.peek(), TokenKind::Eof);
    assert_eq!(parser.consume(TokenKind::Eof), Ok(()));
    assert_eq!(parser.next(), None);
    assert_eq!(parser.peek(), TokenKind::Eof);
}

#[test]
fn binding_power_table() {
    assert_eq!(TokenKind::Or.infix_binding_power(), Some((1, 2)));
    assert_eq!(TokenKind::Pow.infix_binding_power(), Some((22, 21)));
    assert_eq!(TokenKind::Bang.infix_binding_power(), None);
    assert_eq!(TokenKind::Minus.prefix_binding_power(), 51);
    assert_eq!(TokenKind::Bang.postfix_binding_power(), Some(101));
    assert_eq!(TokenKind::Plus.postfix_binding_power(), None);
}

#[test]
fn parse_from_source() {
    assert_eq!(parsing_basics::parser::parse("1+2*x", 0).unwrap().to_string(), "(1 + (2 * x))");
    assert_eq!(parsing_basics::parser::parse("1 + 2 * x", 10).unwrap().to_string(), "1");
    assert_eq!(parsing_basics::parser::parse("1 *", 0), Err(ParseError::UnexpectedHead(TokenKind::Eof)));
}

#[test]
fn expressions_clone_node_for_node() {
    let e = parse("f(a, -b ^ 2, \"s\", 1.5)");
    let c = e.clone();
    assert_eq!(c, e);
    assert_eq!(c.to_string(), "f(a,((- b) ^ 2),\"s\",1.5,)");
}
