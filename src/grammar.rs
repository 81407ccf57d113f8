//! The meaning of parsing: precedence climbing over a token sequence, stated
//! as mutually recursive functions from a position to a tree and the
//! position after it.
use vstd::prelude::*;
use vstd::utf8::decode_utf8;
use crate::ast::{ExprModel, LitModel};
use crate::rules::is_digit;
use crate::token::{Token, TokenKind};

verus! {

/// Why parsing failed.
#[derive(Debug, PartialEq, Eq, Copy, Clone, Structural)]
pub enum ParseError {
    /// The token where an expression should start cannot start one.
    UnexpectedHead(TokenKind),
    /// The token after an operand is neither an operator nor a terminator.
    UnexpectedOperator(TokenKind),
    /// A required token is missing; `found` is the kind that stood there.
    ConsumeMismatch { expected: TokenKind, found: TokenKind },
    /// An integer literal does not fit the integer type.
    InvalidLiteral,
}

/// The binding power of every prefix operator.
pub const PREFIX_BINDING_POWER: u8 = 51;

/// The binding power of the postfix `!`.
pub const POSTFIX_BINDING_POWER: u8 = 101;

/// Left and right binding powers of the infix operators.
pub open spec fn infix_bp(k: TokenKind) -> Option<(u8, u8)> {
    match k {
        TokenKind::Or => Some((1u8, 2u8)),
        TokenKind::And => Some((3u8, 4u8)),
        TokenKind::Eqq | TokenKind::Neq => Some((5u8, 6u8)),
        TokenKind::LAngle | TokenKind::RAngle | TokenKind::Leq | TokenKind::Geq => Some((7u8, 8u8)),
        TokenKind::Plus | TokenKind::Minus => Some((9u8, 10u8)),
        TokenKind::Times | TokenKind::Slash => Some((11u8, 12u8)),
        TokenKind::Pow => Some((22u8, 21u8)),
        _ => None,
    }
}

/// Binding power of the postfix operators.
pub open spec fn postfix_bp(k: TokenKind) -> Option<u8> {
    if k == TokenKind::Bang {
        Some(POSTFIX_BINDING_POWER)
    } else {
        None
    }
}

impl TokenKind {
    /// The right binding power of a prefix operator.
    pub fn prefix_binding_power(&self) -> (r: u8)
        requires
            is_prefix_op(*self),
        ensures
            r == PREFIX_BINDING_POWER,
    {
        PREFIX_BINDING_POWER
    }

    /// The left and right binding powers of an infix operator; `None` for any other kind.
    pub fn infix_binding_power(&self) -> (r: Option<(u8, u8)>)
        ensures
            r == infix_bp(*self),
    {
        match self {
            TokenKind::Or => Some((1, 2)),
            TokenKind::And => Some((3, 4)),
            TokenKind::Eqq | TokenKind::Neq => Some((5, 6)),
            TokenKind::LAngle | TokenKind::RAngle | TokenKind::Leq | TokenKind::Geq => Some((7, 8)),
            TokenKind::Plus | TokenKind::Minus => Some((9, 10)),
            TokenKind::Times | TokenKind::Slash => Some((11, 12)),
            TokenKind::Pow => Some((22, 21)),
            _ => None,
        }
    }

    /// The left binding power of a postfix operator; `None` for any other kind.
    pub fn postfix_binding_power(&self) -> (r: Option<u8>)
        ensures
            r == postfix_bp(*self),
    {
        match self {
            TokenKind::Bang => Some(POSTFIX_BINDING_POWER),
            _ => None,
        }
    }
}

pub open spec fn is_prefix_op(k: TokenKind) -> bool {
    k == TokenKind::Plus || k == TokenKind::Minus || k == TokenKind::Bang
}

/// Kinds that may follow an operand: the infix operators and `!`.
pub open spec fn is_operator(k: TokenKind) -> bool {
    infix_bp(k) is Some || k == TokenKind::Bang
}

/// Kinds that end an expression without being part of it.
pub open spec fn is_terminator(k: TokenKind) -> bool {
    k == TokenKind::Eof || k == TokenKind::RParen || k == TokenKind::RBrace || k == TokenKind::Comma
        || k == TokenKind::SemiColon
}

/// The kind of the token at `pos`, or end-of-input past the last token.
pub open spec fn peek_at(toks: Seq<Token>, pos: int) -> TokenKind {
    if 0 <= pos < toks.len() {
        toks[pos].kind
    } else {
        TokenKind::Eof
    }
}

/// The source bytes of the token at `pos`.
pub open spec fn token_bytes(toks: Seq<Token>, src: Seq<u8>, pos: int) -> Seq<u8> {
    src.subrange(toks[pos].span.start as int, toks[pos].span.end as int)
}

/// The value of a sequence of decimal digits.
pub open spec fn digits_value(b: Seq<u8>) -> nat
    decreases b.len(),
{
    if b.len() == 0 {
        0
    } else {
        digits_value(b.drop_last()) * 10 + (b.last() - 0x30u8) as nat
    }
}

/// The value of an integer literal, when it is one and fits in `usize`.
pub open spec fn int_literal(b: Seq<u8>) -> Option<nat> {
    if b.len() > 0 && (forall|i: int| 0 <= i < b.len() ==> is_digit(#[trigger] b[i]))
        && digits_value(b) <= usize::MAX {
        Some(digits_value(b))
    } else {
        None
    }
}

/// What the parse of one expression at `pos` yields: its tree and the
/// position after it.
pub type Parsed = Result<(ExprModel, int), ParseError>;

/// One expression at `pos` whose operators all bind at least as strongly as `bp`.
pub open spec fn parse_expr(toks: Seq<Token>, src: Seq<u8>, pos: int, bp: nat) -> Parsed
    decreases toks.len() - pos, 2int,
{
    match parse_head(toks, src, pos) {
        Ok(h) => if pos < h.1 <= toks.len() {
            parse_infix(toks, src, h.1, bp, h.0)
        } else {
            Ok(h)
        },
        Err(e) => Err(e),
    }
}

/// The leading construct of an expression at `pos`.
pub open spec fn parse_head(toks: Seq<Token>, src: Seq<u8>, pos: int) -> Parsed
    decreases toks.len() - pos, 1int,
{
    let k = peek_at(toks, pos);
    if !(0 <= pos < toks.len()) {
        Err(ParseError::UnexpectedHead(k))
    } else if k == TokenKind::Int {
        match int_literal(token_bytes(toks, src, pos)) {
            Some(v) => Ok((ExprModel::Literal(LitModel::Int(v)), pos + 1)),
            None => Err(ParseError::InvalidLiteral),
        }
    } else if k == TokenKind::Float {
        Ok((ExprModel::Literal(LitModel::Float(decode_utf8(token_bytes(toks, src, pos)))), pos + 1))
    } else if k == TokenKind::String {
        let b = token_bytes(toks, src, pos);
        Ok((ExprModel::Literal(LitModel::Str(decode_utf8(b.subrange(1, b.len() - 1)))), pos + 1))
    } else if k == TokenKind::Identifier {
        let name = decode_utf8(token_bytes(toks, src, pos));
        if peek_at(toks, pos + 1) == TokenKind::LParen {
            match parse_args(toks, src, pos + 2, seq![]) {
                Ok(a) => Ok((ExprModel::FnCall(name, a.0), a.1)),
                Err(e) => Err(e),
            }
        } else {
            Ok((ExprModel::Ident(name), pos + 1))
        }
    } else if k == TokenKind::LParen {
        match parse_expr(toks, src, pos + 1, 0) {
            Ok(inner) => if peek_at(toks, inner.1) == TokenKind::RParen {
                Ok((inner.0, inner.1 + 1))
            } else {
                Err(
                    ParseError::ConsumeMismatch {
                        expected: TokenKind::RParen,
                        found: peek_at(toks, inner.1),
                    },
                )
            },
            Err(e) => Err(e),
        }
    } else if is_prefix_op(k) {
        match parse_expr(toks, src, pos + 1, PREFIX_BINDING_POWER as nat) {
            Ok(operand) => Ok((ExprModel::PrefixOp(k, Box::new(operand.0)), operand.1)),
            Err(e) => Err(e),
        }
    } else {
        Err(ParseError::UnexpectedHead(k))
    }
}

/// The arguments of a call from `pos` up to and including the closing
/// parenthesis, after the arguments `acc` already read.
pub open spec fn parse_args(toks: Seq<Token>, src: Seq<u8>, pos: int, acc: Seq<ExprModel>) -> Result<
    (Seq<ExprModel>, int),
    ParseError,
>
    decreases toks.len() - pos, 3int,
{
    if peek_at(toks, pos) == TokenKind::RParen {
        Ok((acc, pos + 1))
    } else {
        match parse_expr(toks, src, pos, 0) {
            Ok(a) => if pos < a.1 <= toks.len() {
                let next = if peek_at(toks, a.1) == TokenKind::Comma {
                    a.1 + 1
                } else {
                    a.1
                };
                parse_args(toks, src, next, acc.push(a.0))
            } else {
                Err(ParseError::UnexpectedHead(TokenKind::Eof))
            },
            Err(e) => Err(e),
        }
    }
}

/// Folds infix operators binding at least as strongly as `bp` onto `lhs`, from `pos`.
pub open spec fn parse_infix(
    toks: Seq<Token>,
    src: Seq<u8>,
    pos: int,
    bp: nat,
    lhs: ExprModel,
) -> Parsed
    decreases toks.len() - pos, 0int,
{
    let k = peek_at(toks, pos);
    if is_operator(k) {
        match infix_bp(k) {
            Some(p) => if (p.0 as nat) < bp || !(0 <= pos < toks.len()) {
                Ok((lhs, pos))
            } else {
                match parse_expr(toks, src, pos + 1, p.1 as nat) {
                    Ok(r) => if pos < r.1 <= toks.len() {
                        parse_infix(
                            toks,
                            src,
                            r.1,
                            bp,
                            ExprModel::InfixOp(k, Box::new(lhs), Box::new(r.0)),
                        )
                    } else {
                        Ok((lhs, pos))
                    },
                    Err(e) => Err(e),
                }
            },
            None => Ok((lhs, pos)),
        }
    } else if is_terminator(k) {
        Ok((lhs, pos))
    } else {
        Err(ParseError::UnexpectedOperator(k))
    }
}


/// Parsing an expression consumes at least one token and stays within the
/// tokens; so the fallback branches of the functions above, which only serve
/// their termination, are never taken.
pub proof fn lemma_parse_expr_advances(toks: Seq<Token>, src: Seq<u8>, pos: int, bp: nat)
    requires
        0 <= pos <= toks.len(),
    ensures
        parse_expr(toks, src, pos, bp) matches Ok(r) ==> pos < r.1 <= toks.len(),
    decreases toks.len() - pos, 2int,
{
    lemma_parse_head_advances(toks, src, pos);
    if let Ok(h) = parse_head(toks, src, pos) {
        lemma_parse_infix_advances(toks, src, h.1, bp, h.0);
    }
}

pub proof fn lemma_parse_head_advances(toks: Seq<Token>, src: Seq<u8>, pos: int)
    requires
        0 <= pos <= toks.len(),
    ensures
        parse_head(toks, src, pos) matches Ok(r) ==> pos < r.1 <= toks.len(),
    decreases toks.len() - pos, 1int,
{
    if pos < toks.len() {
        let k = peek_at(toks, pos);
        if k == TokenKind::Identifier && peek_at(toks, pos + 1) == TokenKind::LParen {
            lemma_parse_args_advances(toks, src, pos + 2, seq![]);
        } else if k == TokenKind::LParen || is_prefix_op(k) {
            lemma_parse_expr_advances(toks, src, pos + 1, 0);
            lemma_parse_expr_advances(toks, src, pos + 1, PREFIX_BINDING_POWER as nat);
        }
    }
}

pub proof fn lemma_parse_args_advances(
    toks: Seq<Token>,
    src: Seq<u8>,
    pos: int,
    acc: Seq<ExprModel>,
)
    requires
        0 <= pos <= toks.len(),
    ensures
        parse_args(toks, src, pos, acc) matches Ok(r) ==> pos < r.1 <= toks.len(),
    decreases toks.len() - pos, 3int,
{
    if peek_at(toks, pos) != TokenKind::RParen {
        lemma_parse_expr_advances(toks, src, pos, 0);
        if let Ok(a) = parse_expr(toks, src, pos, 0) {
            let next = if peek_at(toks, a.1) == TokenKind::Comma {
                a.1 + 1
            } else {
                a.1
            };
            lemma_parse_args_advances(toks, src, next, acc.push(a.0));
        }
    }
}

pub proof fn lemma_parse_infix_advances(
    toks: Seq<Token>,
    src: Seq<u8>,
    pos: int,
    bp: nat,
    lhs: ExprModel,
)
    requires
        0 <= pos <= toks.len(),
    ensures
        parse_infix(toks, src, pos, bp, lhs) matches Ok(r) ==> pos <= r.1 <= toks.len(),
    decreases toks.len() - pos, 0int,
{
    let k = peek_at(toks, pos);
    if is_operator(k) && infix_bp(k) is Some && pos < toks.len() {
        let p = infix_bp(k)->0;
        lemma_parse_expr_advances(toks, src, pos + 1, p.1 as nat);
        if let Ok(r) = parse_expr(toks, src, pos + 1, p.1 as nat) {
            lemma_parse_infix_advances(
                toks,
                src,
                r.1,
                bp,
                ExprModel::InfixOp(k, Box::new(lhs), Box::new(r.0)),
            );
        }
    }
}


/// The kinds before which an expression parsed at binding power `bp` may end:
/// a terminator (end of input included), `!`, or an infix operator whose left
/// binding power is below `bp`.
pub open spec fn may_stop_before(k: TokenKind, bp: nat) -> bool {
    ||| is_terminator(k)
    ||| k == TokenKind::Bang
    ||| (infix_bp(k) matches Some(p) && (p.0 as nat) < bp)
}

/// A parsed expression ends only where `may_stop_before` allows: every
/// operator binding at least as strongly as the floor has been folded in.
pub proof fn lemma_parse_stops_where_allowed(toks: Seq<Token>, src: Seq<u8>, pos: int, bp: nat)
    requires
        0 <= pos <= toks.len(),
    ensures
        parse_expr(toks, src, pos, bp) matches Ok(r) ==> may_stop_before(peek_at(toks, r.1), bp),
{
    lemma_parse_head_advances(toks, src, pos);
    if let Ok(h) = parse_head(toks, src, pos) {
        lemma_infix_stops_where_allowed(toks, src, h.1, bp, h.0);
    }
}

proof fn lemma_infix_stops_where_allowed(
    toks: Seq<Token>,
    src: Seq<u8>,
    pos: int,
    bp: nat,
    lhs: ExprModel,
)
    requires
        0 <= pos <= toks.len(),
    ensures
        parse_infix(toks, src, pos, bp, lhs) matches Ok(r) ==> may_stop_before(
            peek_at(toks, r.1),
            bp,
        ),
    decreases toks.len() - pos,
{
    let k = peek_at(toks, pos);
    if is_operator(k) && infix_bp(k) is Some && pos < toks.len() {
        let p = infix_bp(k)->0;
        if (p.0 as nat) >= bp {
            lemma_parse_expr_advances(toks, src, pos + 1, p.1 as nat);
            if let Ok(r) = parse_expr(toks, src, pos + 1, p.1 as nat) {
                lemma_infix_stops_where_allowed(
                    toks,
                    src,
                    r.1,
                    bp,
                    ExprModel::InfixOp(k, Box::new(lhs), Box::new(r.0)),
                );
            }
        }
    }
}

} // verus!
