//! Token kinds, byte spans and tokens.
use vstd::prelude::*;
use vstd::string::StringSliceAdditionalSpecFns;
use vstd::utf8::{encode_utf8_valid_utf8, is_char_boundary};
use crate::boundary::lemma_char_boundary_shift;

verus! {

/// The closed set of lexical categories.
#[derive(Debug, PartialEq, Eq, Hash, Copy, Clone, Structural)]
pub enum TokenKind {
    // Single characters
    Plus,
    Minus,
    Times,
    Slash,
    Pow,
    Eq,
    Dot,
    Comma,
    Underscore,
    Bang,
    Ampersand,
    Bar,
    Colon,
    SemiColon,
    // Brackets
    LAngle,
    RAngle,
    LSquare,
    RSquare,
    LBrace,
    RBrace,
    LParen,
    RParen,
    // Multiple characters
    String,
    Comment,
    Int,
    Float,
    Identifier,
    KeywordLet,
    KeywordFn,
    KeywordStruct,
    KeywordIf,
    KeywordElse,
    // Operators
    And,
    Or,
    Eqq,
    Neq,
    Geq,
    Leq,
    // Misc
    Error,
    Whitespace,
    Eof,
}

/// The display text of a token kind.
pub open spec fn kind_text(k: TokenKind) -> Seq<char> {
    match k {
        TokenKind::Plus => "+"@,
        TokenKind::Minus => "-"@,
        TokenKind::Times => "*"@,
        TokenKind::Slash => "/"@,
        TokenKind::Pow => "^"@,
        TokenKind::Eq => "="@,
        TokenKind::Dot => "."@,
        TokenKind::Comma => ","@,
        TokenKind::Underscore => "_"@,
        TokenKind::Bang => "!"@,
        TokenKind::Ampersand => "&"@,
        TokenKind::Bar => "|"@,
        TokenKind::Colon => ":"@,
        TokenKind::SemiColon => ";"@,
        TokenKind::LAngle => "<"@,
        TokenKind::RAngle => ">"@,
        TokenKind::LSquare => "["@,
        TokenKind::RSquare => "]"@,
        TokenKind::LBrace => "{"@,
        TokenKind::RBrace => "}"@,
        TokenKind::LParen => "("@,
        TokenKind::RParen => ")"@,
        TokenKind::String => "String"@,
        TokenKind::Comment => "// Comment"@,
        TokenKind::Int => "Int"@,
        TokenKind::Float => "Float"@,
        TokenKind::Identifier => "Identifier"@,
        TokenKind::KeywordLet => "let"@,
        TokenKind::KeywordFn => "fn"@,
        TokenKind::KeywordStruct => "struct"@,
        TokenKind::KeywordIf => "if"@,
        TokenKind::KeywordElse => "else"@,
        TokenKind::And => "&&"@,
        TokenKind::Or => "||"@,
        TokenKind::Eqq => "=="@,
        TokenKind::Neq => "!="@,
        TokenKind::Geq => ">="@,
        TokenKind::Leq => "<="@,
        TokenKind::Error => "<?>"@,
        TokenKind::Whitespace => "<WS>"@,
        TokenKind::Eof => "<EOF>"@,
    }
}

impl TokenKind {
    /// The display text of this kind, as a static string.
    pub fn as_str(&self) -> (r: &'static str)
        ensures
            r@ == kind_text(*self),
    {
        match self {
            TokenKind::Plus => "+",
            TokenKind::Minus => "-",
            TokenKind::Times => "*",
            TokenKind::Slash => "/",
            TokenKind::Pow => "^",
            TokenKind::Eq => "=",
            TokenKind::Dot => ".",
            TokenKind::Comma => ",",
            TokenKind::Underscore => "_",
            TokenKind::Bang => "!",
            TokenKind::Ampersand => "&",
            TokenKind::Bar => "|",
            TokenKind::Colon => ":",
            TokenKind::SemiColon => ";",
            TokenKind::LAngle => "<",
            TokenKind::RAngle => ">",
            TokenKind::LSquare => "[",
            TokenKind::RSquare => "]",
            TokenKind::LBrace => "{",
            TokenKind::RBrace => "}",
            TokenKind::LParen => "(",
            TokenKind::RParen => ")",
            TokenKind::String => "String",
            TokenKind::Comment => "// Comment",
            TokenKind::Int => "Int",
            TokenKind::Float => "Float",
            TokenKind::Identifier => "Identifier",
            TokenKind::KeywordLet => "let",
            TokenKind::KeywordFn => "fn",
            TokenKind::KeywordStruct => "struct",
            TokenKind::KeywordIf => "if",
            TokenKind::KeywordElse => "else",
            TokenKind::And => "&&",
            TokenKind::Or => "||",
            TokenKind::Eqq => "==",
            TokenKind::Neq => "!=",
            TokenKind::Geq => ">=",
            TokenKind::Leq => "<=",
            TokenKind::Error => "<?>",
            TokenKind::Whitespace => "<WS>",
            TokenKind::Eof => "<EOF>",
        }
    }

    /// The display text of this kind, as an owned string.
    pub fn to_string(&self) -> (r: std::string::String)
        ensures
            r@ == kind_text(*self),
    {
        self.as_str().to_owned()
    }
}

/// A half-open byte range `[start, end)` into the source text.
#[derive(Debug, PartialEq, Eq, Hash, Copy, Clone, Structural)]
pub struct Span {
    pub start: usize,
    pub end: usize,
}

impl Span {
    /// A span is well formed when it does not run backwards.
    pub open spec fn wf(&self) -> bool {
        self.start <= self.end
    }
}

impl From<std::ops::Range<usize>> for Span {
    fn from(r: std::ops::Range<usize>) -> (s: Span)
        ensures
            s.start == r.start,
            s.end == r.end,
    {
        Span { start: r.start, end: r.end }
    }
}

impl vstd::std_specs::convert::FromSpecImpl<std::ops::Range<usize>> for Span {
    open spec fn obeys_from_spec() -> bool {
        true
    }

    open spec fn from_spec(r: std::ops::Range<usize>) -> Span {
        Span { start: r.start, end: r.end }
    }
}

/// A lexical unit: its kind and where it lies in the source.
#[derive(Debug, PartialEq, Eq, Hash, Copy, Clone, Structural)]
pub struct Token {
    pub kind: TokenKind,
    pub span: Span,
}

/// Whether `t` addresses a slice of `src` that begins and ends on character boundaries.
pub open spec fn token_within(t: Token, src: Seq<u8>) -> bool {
    &&& t.span.start <= t.span.end <= src.len()
    &&& is_char_boundary(src, t.span.start as int)
    &&& is_char_boundary(src, t.span.end as int)
}

impl Token {
    /// The number of bytes the token covers.
    pub fn len(&self) -> (r: usize)
        requires
            self.span.wf(),
        ensures
            r == self.span.end - self.span.start,
    {
        self.span.end - self.span.start
    }

    /// The display text of the token: that of its kind.
    pub fn to_string(&self) -> (r: std::string::String)
        ensures
            r@ == kind_text(self.kind),
    {
        self.kind.to_string()
    }

    /// The source text the token covers.
    pub fn text<'a>(&self, input: &'a str) -> (r: &'a str)
        requires
            token_within(*self, input.spec_bytes()),
        ensures
            r.spec_bytes() == input.spec_bytes().subrange(
                self.span.start as int,
                self.span.end as int,
            ),
    {
        slice_str(input, self.span.start, self.span.end)
    }
}

/// The part of `input` between two character boundaries.
pub fn slice_str<'a>(input: &'a str, a: usize, b: usize) -> (r: &'a str)
    requires
        a <= b <= input.spec_bytes().len(),
        is_char_boundary(input.spec_bytes(), a as int),
        is_char_boundary(input.spec_bytes(), b as int),
    ensures
        r.spec_bytes() == input.spec_bytes().subrange(a as int, b as int),
{
    let (_, tail) = input.split_at(a);
    proof {
        encode_utf8_valid_utf8(input@);
        lemma_char_boundary_shift(input.spec_bytes(), a as int, b as int);
    }
    let (r, _) = tail.split_at(b - a);
    r
}

} // verus!
