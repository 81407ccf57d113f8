//! The parser: a token source with one token of lookahead, and the
//! precedence-climbing engine that builds an expression tree from it.
use vstd::prelude::*;
use vstd::string::StringSliceAdditionalSpecFns;
use vstd::utf8::{decode_utf8, encode_utf8_decode_utf8, encode_utf8_valid_utf8};
use crate::ast::{args_model, expr_model, Expr, ExprModel, Lit};
use crate::boundary::{lemma_after_ascii_is_boundary, lemma_ascii_is_boundary};
use crate::grammar::{
    digits_value, int_literal, parse_args, parse_expr, parse_head, parse_infix, peek_at,
    token_bytes, ParseError, Parsed,
};
use crate::lexer::{tokens_of, Lexer};
use crate::lexer_laws::{lemma_string_tokens_quoted, lemma_tokens_on_char_boundaries};
use crate::rules::is_digit;
use crate::token::{slice_str, token_within, Token, TokenKind};

verus! {

/// Token kinds the parser does not see.
pub open spec fn skipped(k: TokenKind) -> bool {
    k == TokenKind::Whitespace || k == TokenKind::Comment
}

/// The tokens the parser reads for source `src`: all of them but whitespace and comments.
pub open spec fn parser_tokens(src: Seq<u8>) -> Seq<Token> {
    tokens_of(src).filter(|t: Token| !skipped(t.kind))
}

/// A token that can be sliced out of `src`; a string literal also holds its two quotes.
pub open spec fn token_ok(t: Token, src: Seq<u8>) -> bool {
    &&& token_within(t, src)
    &&& t.kind == TokenKind::String ==> {
        &&& t.span.start + 2 <= t.span.end
        &&& src[t.span.start as int] == 0x22u8
        &&& src[t.span.end - 1] == 0x22u8
    }
}

/// `r` and the position `pos` after it are what the model `spec` gives.
pub open spec fn parsed_as(r: Result<Expr, ParseError>, pos: usize, spec: Parsed) -> bool {
    match spec {
        Ok(p) => r matches Ok(e) && e@ == p.0 && pos == p.1,
        Err(err) => r == Err::<Expr, ParseError>(err),
    }
}

/// `r` and the position `pos` after it are what the model `spec` of a call's arguments gives.
pub open spec fn args_parsed_as(
    r: Result<Vec<Expr>, ParseError>,
    pos: usize,
    spec: Result<(Seq<ExprModel>, int), ParseError>,
) -> bool {
    match spec {
        Ok(p) => r matches Ok(v) && args_model(v@, 0) == p.0 && pos == p.1,
        Err(err) => r == Err::<Vec<Expr>, ParseError>(err),
    }
}

/// Parses one expression at the start of `input` whose infix operators bind at
/// least as strongly as `binding_power`. Tokens after the expression are left
/// unread.
pub fn parse(input: &str, binding_power: u8) -> (r: Result<Expr, ParseError>)
    ensures
        match parse_expr(parser_tokens(input.spec_bytes()), input.spec_bytes(), 0, binding_power as nat) {
            Ok(p) => r matches Ok(e) && e@ == p.0,
            Err(err) => r == Err::<Expr, ParseError>(err),
        },
{
    let mut parser = Parser::new(input);
    parser.parse_expression(binding_power)
}

/// Parses one expression from a source text.
pub struct Parser<'a> {
    pub input: &'a str,
    pub tokens: Vec<Token>,
    pub pos: usize,
}

proof fn lemma_str_view(r: &str)
    ensures
        r@ == decode_utf8(r.spec_bytes()),
{
    encode_utf8_decode_utf8(r@);
}

proof fn lemma_args_model_push(s: Seq<Expr>, x: Expr, i: int)
    requires
        0 <= i <= s.len(),
    ensures
        args_model(s.push(x), i) == args_model(s, i).push(expr_model(x)),
    decreases s.len() - i,
{
    if i < s.len() {
        lemma_args_model_push(s, x, i + 1);
        assert(s.push(x)[i] == s[i]);
        assert(seq![expr_model(s[i])] + args_model(s, i + 1).push(expr_model(x)) =~= (seq![
            expr_model(s[i]),
        ] + args_model(s, i + 1)).push(expr_model(x)));
    } else {
        assert(s.push(x)[i] == x);
        assert(args_model(s.push(x), i + 1) == Seq::<ExprModel>::empty());
        assert(seq![expr_model(x)] + Seq::<ExprModel>::empty() =~= Seq::<ExprModel>::empty().push(
            expr_model(x),
        ));
    }
}

proof fn lemma_digits_value_prefix(b: Seq<u8>, i: int)
    requires
        0 <= i <= b.len(),
    ensures
        digits_value(b.subrange(0, i)) <= digits_value(b),
    decreases b.len(),
{
    if i == b.len() {
        assert(b.subrange(0, i) =~= b);
    } else {
        let d = b.drop_last();
        lemma_digits_value_prefix(d, i);
        assert(d.subrange(0, i) =~= b.subrange(0, i));
    }
}

/// The value of a decimal integer literal; `None` when it is not all digits or does not fit.
fn int_value(b: &[u8]) -> (r: Option<usize>)
    ensures
        match int_literal(b@) {
            Some(v) => r == Some(v as usize),
            None => r is None,
        },
{
    let n = b.len();
    if n == 0 {
        return None;
    }
    let mut v: usize = 0;
    let mut i: usize = 0;
    while i < n
        invariant
            n == b@.len(),
            0 <= i <= n,
            v == digits_value(b@.subrange(0, i as int)),
            forall|j: int| 0 <= j < i ==> is_digit(#[trigger] b@[j]),
        decreases n - i,
    {
        let c = b[i];
        if !(0x30u8 <= c && c <= 0x39u8) {
            return None;
        }
        let d = (c - 0x30u8) as usize;
        proof {
            let pre = b@.subrange(0, i + 1);
            assert(pre.drop_last() =~= b@.subrange(0, i as int));
            assert(digits_value(pre) == v * 10 + d);
        }
        if v > (usize::MAX - d) / 10 {
            proof {
                assert(v * 10 + d > usize::MAX) by (nonlinear_arith)
                    requires
                        v > (usize::MAX - d) / 10,
                        d <= 9,
                ;
                lemma_digits_value_prefix(b@, i + 1);
            }
            return None;
        }
        proof {
            assert(v * 10 + d <= usize::MAX) by (nonlinear_arith)
                requires
                    v <= (usize::MAX - d) / 10,
                    d <= 9,
            ;
        }
        v = v * 10 + d;
        i = i + 1;
    }
    assert(b@.subrange(0, n as int) =~= b@);
    Some(v)
}

impl<'a> Parser<'a> {
    /// The source bytes being parsed.
    pub open spec fn source(&self) -> Seq<u8> {
        self.input.spec_bytes()
    }

    /// Every token can be sliced out of the source, and the cursor lies within the tokens.
    pub open spec fn wf(&self) -> bool {
        &&& self.pos <= self.tokens@.len()
        &&& forall|i: int|
            0 <= i < self.tokens@.len() ==> token_ok(#[trigger] self.tokens@[i], self.source())
    }

    /// A parser over `input`, positioned at its first token.
    pub fn new(input: &'a str) -> (r: Parser<'a>)
        ensures
            r.input == input,
            r.tokens@ == parser_tokens(input.spec_bytes()),
            r.pos == 0,
            r.wf(),
    {
        let lexer = Lexer::new(input);
        let all = lexer.tokenize();
        let bytes = input.as_bytes();
        let n = bytes.len();
        let ghost src = input.spec_bytes();
        let ghost pred = |t: Token| !skipped(t.kind);
        proof {
            assert(src.len() == n);
            encode_utf8_valid_utf8(input@);
            lemma_tokens_on_char_boundaries(src);
        }
        let mut tokens: Vec<Token> = Vec::new();
        let mut i: usize = 0;
        while i < all.len()
            invariant
                0 <= i <= all@.len(),
                src == input.spec_bytes(),
                src.len() <= usize::MAX,
                all@ == tokens_of(src),
                forall|k: int| 0 <= k < all@.len() ==> token_within(#[trigger] all@[k], src),
                tokens@ == all@.subrange(0, i as int).filter(pred),
                forall|k: int| 0 <= k < tokens@.len() ==> token_ok(#[trigger] tokens@[k], src),
                pred == (|t: Token| !skipped(t.kind)),
            decreases all@.len() - i,
        {
            let t = all[i];
            proof {
                reveal(Seq::filter);
                assert(all@.subrange(0, i + 1).drop_last() =~= all@.subrange(0, i as int));
                assert(all@.subrange(0, i + 1).last() == t);
                assert(all@.subrange(0, i + 1).filter(pred) == if pred(t) {
                    all@.subrange(0, i as int).filter(pred).push(t)
                } else {
                    all@.subrange(0, i as int).filter(pred)
                });
                if t.kind == TokenKind::String {
                    lemma_string_tokens_quoted(src, i as int);
                }
            }
            if !(t.kind == TokenKind::Whitespace || t.kind == TokenKind::Comment) {
                tokens.push(t);
            }
            i = i + 1;
        }
        assert(all@.subrange(0, all@.len() as int) =~= all@);
        Parser { input, tokens, pos: 0 }
    }

    /// The source text of a token.
    pub fn text(&self, token: Token) -> (r: &'a str)
        requires
            token_within(token, self.source()),
        ensures
            r.spec_bytes() == self.source().subrange(token.span.start as int, token.span.end as int),
    {
        token.text(self.input)
    }

    /// The kind of the next token, without moving past it.
    pub fn peek(&self) -> (r: TokenKind)
        ensures
            r == peek_at(self.tokens@, self.pos as int),
    {
        if self.pos < self.tokens.len() {
            self.tokens[self.pos].kind
        } else {
            TokenKind::Eof
        }
    }

    /// Whether the next token is of kind `kind`.
    pub fn at(&self, kind: TokenKind) -> (r: bool)
        ensures
            r == (peek_at(self.tokens@, self.pos as int) == kind),
    {
        self.peek() == kind
    }

    /// The next token, moving past it.
    pub fn next(&mut self) -> (r: Option<Token>)
        ensures
            final(self).input == old(self).input,
            final(self).tokens@ == old(self).tokens@,
            old(self).pos < old(self).tokens@.len() ==> r == Some(old(self).tokens@[old(
                self,
            ).pos as int]) && final(self).pos == old(self).pos + 1,
            old(self).pos >= old(self).tokens@.len() ==> r is None && final(self).pos == old(
                self,
            ).pos,
    {
        if self.pos < self.tokens.len() {
            let t = self.tokens[self.pos];
            self.pos = self.pos + 1;
            Some(t)
        } else {
            None
        }
    }

    /// Moves past the next token, which must be of kind `expected`.
    pub fn consume(&mut self, expected: TokenKind) -> (r: Result<(), ParseError>)
        ensures
            final(self).input == old(self).input,
            final(self).tokens@ == old(self).tokens@,
            peek_at(old(self).tokens@, old(self).pos as int) == expected && old(self).pos < old(
                self,
            ).tokens@.len() ==> r is Ok && final(self).pos == old(self).pos + 1,
            !(peek_at(old(self).tokens@, old(self).pos as int) == expected && old(self).pos < old(
                self,
            ).tokens@.len()) ==> r == Err::<(), ParseError>(
                ParseError::ConsumeMismatch {
                    expected,
                    found: peek_at(old(self).tokens@, old(self).pos as int),
                },
            ) && final(self).pos == old(self).pos,
    {
        let found = self.peek();
        if found == expected && self.pos < self.tokens.len() {
            self.pos = self.pos + 1;
            Ok(())
        } else {
            Err(ParseError::ConsumeMismatch { expected, found })
        }
    }

    /// Parses one expression whose infix operators bind at least as strongly
    /// as `binding_power`, and moves past it.
    pub fn parse_expression(&mut self, binding_power: u8) -> (r: Result<Expr, ParseError>)
        requires
            old(self).wf(),
        ensures
            final(self).wf(),
            final(self).input == old(self).input,
            final(self).tokens@ == old(self).tokens@,
            parsed_as(
                r,
                final(self).pos,
                parse_expr(
                    old(self).tokens@,
                    old(self).source(),
                    old(self).pos as int,
                    binding_power as nat,
                ),
            ),
            r is Ok ==> old(self).pos < final(self).pos,
        decreases old(self).tokens@.len() - old(self).pos, 2int,
    {
        let ghost toks = self.tokens@;
        let ghost src = self.source();
        let ghost start = self.pos as int;
        let ghost input0 = self.input;
        let ghost bp = binding_power as nat;
        let mut lhs = match self.parse_head() {
            Ok(e) => e,
            Err(e) => return Err(e),
        };
        loop
            invariant
                self.wf(),
                self.tokens@ == toks,
                self.input == input0,
                input0 == old(self).input,
                toks == old(self).tokens@,
                start == old(self).pos,
                self.source() == src,
                start < self.pos,
                bp == binding_power as nat,
                parse_expr(toks, src, start, bp) == parse_infix(toks, src, self.pos as int, bp, lhs@),
            decreases toks.len() - self.pos,
        {
            let k = self.peek();
            if k == TokenKind::Bang || k.infix_binding_power().is_some() {
                match k.infix_binding_power() {
                    Some(powers) => {
                        if powers.0 < binding_power {
                            return Ok(lhs);
                        }
                        let _ = self.consume(k);
                        let rhs = match self.parse_expression(powers.1) {
                            Ok(e) => e,
                            Err(e) => return Err(e),
                        };
                        lhs = Expr::InfixOp { op: k, lhs: Box::new(lhs), rhs: Box::new(rhs) };
                    },
                    None => {
                        return Ok(lhs);
                    },
                }
            } else if k == TokenKind::Eof || k == TokenKind::RParen || k == TokenKind::RBrace || k
                == TokenKind::Comma || k == TokenKind::SemiColon {
                return Ok(lhs);
            } else {
                return Err(ParseError::UnexpectedOperator(k));
            }
        }
    }

    /// Parses the leading construct of an expression.
    fn parse_head(&mut self) -> (r: Result<Expr, ParseError>)
        requires
            old(self).wf(),
        ensures
            final(self).wf(),
            final(self).input == old(self).input,
            final(self).tokens@ == old(self).tokens@,
            parsed_as(
                r,
                final(self).pos,
                parse_head(old(self).tokens@, old(self).source(), old(self).pos as int),
            ),
            r is Ok ==> old(self).pos < final(self).pos,
        decreases old(self).tokens@.len() - old(self).pos, 1int,
    {
        let ghost toks = self.tokens@;
        let ghost src = self.source();
        let ghost start = self.pos as int;
        let k = self.peek();
        if self.pos >= self.tokens.len() {
            return Err(ParseError::UnexpectedHead(k));
        }
        proof {
            encode_utf8_valid_utf8(self.input@);
            assert(token_ok(toks[start], src));
        }
        if k == TokenKind::Int {
            let t = self.next().unwrap();
            let text = self.text(t);
            match int_value(text.as_bytes()) {
                Some(v) => Ok(Expr::Literal(Lit::Int(v))),
                None => Err(ParseError::InvalidLiteral),
            }
        } else if k == TokenKind::Float {
            let t = self.next().unwrap();
            let text = self.text(t);
            proof {
                lemma_str_view(text);
            }
            Ok(Expr::Literal(Lit::Float(text.to_owned())))
        } else if k == TokenKind::String {
            let t = self.next().unwrap();
            proof {
                lemma_after_ascii_is_boundary(src, t.span.start as int);
                lemma_ascii_is_boundary(src, t.span.end - 1);
            }
            let inner = slice_str(self.input, t.span.start + 1, t.span.end - 1);
            proof {
                lemma_str_view(inner);
                let b = token_bytes(toks, src, start);
                assert(b.subrange(1, b.len() - 1) =~= src.subrange(
                    t.span.start + 1,
                    t.span.end - 1,
                ));
            }
            Ok(Expr::Literal(Lit::Str(inner.to_owned())))
        } else if k == TokenKind::Identifier {
            let t = self.next().unwrap();
            let text = self.text(t);
            proof {
                lemma_str_view(text);
            }
            let name = text.to_owned();
            if self.at(TokenKind::LParen) {
                let _ = self.consume(TokenKind::LParen);
                proof {
                    assert(args_model(Seq::<Expr>::empty(), 0) =~= Seq::<ExprModel>::empty());
                }
                match self.parse_call_args(Vec::new()) {
                    Ok(args) => Ok(Expr::FnCall { fn_name: name, args }),
                    Err(e) => Err(e),
                }
            } else {
                Ok(Expr::Ident(name))
            }
        } else if k == TokenKind::LParen {
            let _ = self.consume(TokenKind::LParen);
            let inner = match self.parse_expression(0) {
                Ok(e) => e,
                Err(e) => return Err(e),
            };
            match self.consume(TokenKind::RParen) {
                Ok(()) => Ok(inner),
                Err(e) => Err(e),
            }
        } else if k == TokenKind::Plus || k == TokenKind::Minus || k == TokenKind::Bang {
            let _ = self.consume(k);
            let operand = match self.parse_expression(k.prefix_binding_power()) {
                Ok(e) => e,
                Err(e) => return Err(e),
            };
            Ok(Expr::PrefixOp { op: k, expr: Box::new(operand) })
        } else {
            Err(ParseError::UnexpectedHead(k))
        }
    }

    /// Parses call arguments, separated by optional commas, up to and including
    /// the closing parenthesis, after the arguments `prior` already read.
    fn parse_call_args(&mut self, prior: Vec<Expr>) -> (r: Result<Vec<Expr>, ParseError>)
        requires
            old(self).wf(),
        ensures
            final(self).wf(),
            final(self).input == old(self).input,
            final(self).tokens@ == old(self).tokens@,
            args_parsed_as(
                r,
                final(self).pos,
                parse_args(
                    old(self).tokens@,
                    old(self).source(),
                    old(self).pos as int,
                    args_model(prior@, 0),
                ),
            ),
            r is Ok ==> old(self).pos < final(self).pos,
        decreases old(self).tokens@.len() - old(self).pos, 3int,
    {
        let ghost toks = self.tokens@;
        let ghost src = self.source();
        let ghost start = self.pos as int;
        let ghost acc0 = args_model(prior@, 0);
        let ghost input0 = self.input;
        let mut args = prior;
        loop
            invariant
                self.wf(),
                self.tokens@ == toks,
                self.input == input0,
                input0 == old(self).input,
                toks == old(self).tokens@,
                start == old(self).pos,
                acc0 == args_model(prior@, 0),
                self.source() == src,
                start <= self.pos,
                parse_args(toks, src, start, acc0) == parse_args(
                    toks,
                    src,
                    self.pos as int,
                    args_model(args@, 0),
                ),
            decreases toks.len() - self.pos,
        {
            if self.at(TokenKind::RParen) {
                let _ = self.consume(TokenKind::RParen);
                return Ok(args);
            }
            let a = match self.parse_expression(0) {
                Ok(e) => e,
                Err(e) => return Err(e),
            };
            proof {
                lemma_args_model_push(args@, a, 0);
            }
            args.push(a);
            if self.at(TokenKind::Comma) {
                let _ = self.consume(TokenKind::Comma);
            }
        }
    }
}

} // verus!
