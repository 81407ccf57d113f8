//! The ordered rule table of the tokenizer, and the matcher of each rule.
//!
//! Every matcher looks at the source bytes `s` from position `p` and reports
//! the length of the token it recognizes there, if any.
use vstd::prelude::*;
use crate::token::TokenKind;

verus! {

/// Bytes treated as whitespace: space, tab and newline.
pub open spec fn is_space(b: u8) -> bool {
    b == 0x20u8 || b == 0x09u8 || b == 0x0au8
}

pub open spec fn is_digit(b: u8) -> bool {
    0x30u8 <= b <= 0x39u8
}

pub open spec fn is_ident_start(b: u8) -> bool {
    (0x41u8 <= b <= 0x5au8) || (0x61u8 <= b <= 0x7au8) || b == 0x5fu8
}

pub open spec fn is_ident_continue(b: u8) -> bool {
    is_ident_start(b) || is_digit(b)
}

/// The byte classes that a token may be a run of.
#[derive(Debug, PartialEq, Eq, Copy, Clone, Structural)]
pub enum ByteClass {
    Space,
    Digit,
    IdentContinue,
}

pub open spec fn in_class(c: ByteClass, b: u8) -> bool {
    match c {
        ByteClass::Space => is_space(b),
        ByteClass::Digit => is_digit(b),
        ByteClass::IdentContinue => is_ident_continue(b),
    }
}

/// The end of the longest run of bytes of class `c` that starts at `p`.
pub open spec fn run_end(c: ByteClass, s: Seq<u8>, p: int) -> int
    decreases s.len() - p,
{
    if 0 <= p < s.len() && in_class(c, s[p]) {
        run_end(c, s, p + 1)
    } else {
        p
    }
}

/// The keywords of the language.
#[derive(Debug, PartialEq, Eq, Copy, Clone, Structural)]
pub enum Keyword {
    Let,
    Fn,
    Struct,
    If,
    Else,
}

pub open spec fn keyword_bytes(k: Keyword) -> Seq<u8> {
    match k {
        Keyword::Let => seq![0x6cu8, 0x65u8, 0x74u8],
        Keyword::Fn => seq![0x66u8, 0x6eu8],
        Keyword::Struct => seq![0x73u8, 0x74u8, 0x72u8, 0x75u8, 0x63u8, 0x74u8],
        Keyword::If => seq![0x69u8, 0x66u8],
        Keyword::Else => seq![0x65u8, 0x6cu8, 0x73u8, 0x65u8],
    }
}

pub open spec fn keyword_kind(k: Keyword) -> TokenKind {
    match k {
        Keyword::Let => TokenKind::KeywordLet,
        Keyword::Fn => TokenKind::KeywordFn,
        Keyword::Struct => TokenKind::KeywordStruct,
        Keyword::If => TokenKind::KeywordIf,
        Keyword::Else => TokenKind::KeywordElse,
    }
}

/// The kind of a character that only ever forms a token of length one.
pub open spec fn unambiguous_kind(c: char) -> Option<TokenKind> {
    if c == '+' {
        Some(TokenKind::Plus)
    } else if c == '-' {
        Some(TokenKind::Minus)
    } else if c == '*' {
        Some(TokenKind::Times)
    } else if c == '^' {
        Some(TokenKind::Pow)
    } else if c == '.' {
        Some(TokenKind::Dot)
    } else if c == ',' {
        Some(TokenKind::Comma)
    } else if c == '[' {
        Some(TokenKind::LSquare)
    } else if c == ']' {
        Some(TokenKind::RSquare)
    } else if c == '{' {
        Some(TokenKind::LBrace)
    } else if c == '}' {
        Some(TokenKind::RBrace)
    } else if c == '(' {
        Some(TokenKind::LParen)
    } else if c == ')' {
        Some(TokenKind::RParen)
    } else if c == ':' {
        Some(TokenKind::Colon)
    } else if c == ';' {
        Some(TokenKind::SemiColon)
    } else {
        None
    }
}

/// If `c` only ever forms a token of length one, the kind of that token.
/// Characters such as `=` that may start a longer token (`==`) give `None`.
pub fn unambiguous_single_char(c: char) -> (r: Option<TokenKind>)
    ensures
        r == unambiguous_kind(c),
{
    match c {
        '+' => Some(TokenKind::Plus),
        '-' => Some(TokenKind::Minus),
        '*' => Some(TokenKind::Times),
        '^' => Some(TokenKind::Pow),
        '.' => Some(TokenKind::Dot),
        ',' => Some(TokenKind::Comma),
        '[' => Some(TokenKind::LSquare),
        ']' => Some(TokenKind::RSquare),
        '{' => Some(TokenKind::LBrace),
        '}' => Some(TokenKind::RBrace),
        '(' => Some(TokenKind::LParen),
        ')' => Some(TokenKind::RParen),
        ':' => Some(TokenKind::Colon),
        ';' => Some(TokenKind::SemiColon),
        _ => None,
    }
}


/// The shape of one tokenizer rule.
#[derive(Debug, PartialEq, Eq, Copy, Clone, Structural)]
pub enum Rule {
    /// A character that only ever forms a one-character token.
    Unambiguous,
    /// A run of whitespace.
    Spaces,
    /// One given character.
    Char(u8, TokenKind),
    /// Two given characters.
    Pair(u8, u8, TokenKind),
    /// A keyword, matched as a prefix.
    Word(Keyword),
    /// A double-quoted string literal, with `\"` and `\\` as escapes.
    StringLit,
    /// `//` up to and including the next newline.
    LineComment,
    /// A run of decimal digits.
    IntLit,
    /// Digits with an optional fraction, or a bare fraction, then an optional exponent.
    FloatLit,
    /// A letter or underscore, then letters, digits and underscores.
    Ident,
}

/// The end of a string literal whose body starts at `i`: just past the closing quote.
pub open spec fn string_close(s: Seq<u8>, i: int) -> Option<int>
    decreases s.len() - i,
{
    if i < 0 || i >= s.len() {
        None
    } else if s[i] == 0x22u8 {
        Some(i + 1)
    } else if s[i] == 0x5cu8 {
        if i + 1 < s.len() && (s[i + 1] == 0x22u8 || s[i + 1] == 0x5cu8) {
            string_close(s, i + 2)
        } else {
            None
        }
    } else {
        string_close(s, i + 1)
    }
}

/// Just past the first newline at or after `i`.
pub open spec fn line_close(s: Seq<u8>, i: int) -> Option<int>
    decreases s.len() - i,
{
    if i < 0 || i >= s.len() {
        None
    } else if s[i] == 0x0au8 {
        Some(i + 1)
    } else {
        line_close(s, i + 1)
    }
}

/// The end of the digits-and-fraction part of a number starting at `p`.
pub open spec fn mantissa_end(s: Seq<u8>, p: int) -> Option<int> {
    let d = run_end(ByteClass::Digit, s, p);
    if d > p {
        if d + 1 < s.len() && s[d] == 0x2eu8 && is_digit(s[d + 1]) {
            Some(run_end(ByteClass::Digit, s, d + 1))
        } else {
            Some(d)
        }
    } else if 0 <= p && p + 1 < s.len() && s[p] == 0x2eu8 && is_digit(s[p + 1]) {
        Some(run_end(ByteClass::Digit, s, p + 1))
    } else {
        None
    }
}

/// The end of an optional exponent (`e`/`E`, an optional sign, digits) starting at `m`.
pub open spec fn exponent_end(s: Seq<u8>, m: int) -> int {
    if 0 <= m < s.len() && (s[m] == 0x65u8 || s[m] == 0x45u8) {
        let q = if m + 1 < s.len() && (s[m + 1] == 0x2bu8 || s[m + 1] == 0x2du8) {
            m + 2
        } else {
            m + 1
        };
        if q < s.len() && is_digit(s[q]) {
            run_end(ByteClass::Digit, s, q)
        } else {
            m
        }
    } else {
        m
    }
}

pub open spec fn unambiguous_len(s: Seq<u8>, p: int) -> Option<nat> {
    if 0 <= p < s.len() && (unambiguous_kind(s[p] as char) is Some) {
        Some(1)
    } else {
        None
    }
}

pub open spec fn spaces_len(s: Seq<u8>, p: int) -> Option<nat> {
    if 0 <= p < s.len() && is_space(s[p]) {
        Some((run_end(ByteClass::Space, s, p) - p) as nat)
    } else {
        None
    }
}

pub open spec fn char_len(c: u8, s: Seq<u8>, p: int) -> Option<nat> {
    if 0 <= p < s.len() && s[p] == c {
        Some(1)
    } else {
        None
    }
}

pub open spec fn pair_len(c: u8, d: u8, s: Seq<u8>, p: int) -> Option<nat> {
    if 0 <= p && p + 1 < s.len() && s[p] == c && s[p + 1] == d {
        Some(2)
    } else {
        None
    }
}

pub open spec fn keyword_len(k: Keyword, s: Seq<u8>, p: int) -> Option<nat> {
    let w = keyword_bytes(k);
    if 0 <= p && p + w.len() <= s.len() && s.subrange(p, p + w.len()) == w {
        Some(w.len())
    } else {
        None
    }
}

pub open spec fn string_len(s: Seq<u8>, p: int) -> Option<nat> {
    if 0 <= p < s.len() && s[p] == 0x22u8 {
        match string_close(s, p + 1) {
            Some(e) => Some((e - p) as nat),
            None => None,
        }
    } else {
        None
    }
}

pub open spec fn comment_len(s: Seq<u8>, p: int) -> Option<nat> {
    if 0 <= p && p + 1 < s.len() && s[p] == 0x2fu8 && s[p + 1] == 0x2fu8 {
        match line_close(s, p + 2) {
            Some(e) => Some((e - p) as nat),
            None => None,
        }
    } else {
        None
    }
}

pub open spec fn int_len(s: Seq<u8>, p: int) -> Option<nat> {
    if 0 <= p < s.len() && is_digit(s[p]) {
        Some((run_end(ByteClass::Digit, s, p) - p) as nat)
    } else {
        None
    }
}

pub open spec fn float_len(s: Seq<u8>, p: int) -> Option<nat> {
    if 0 <= p < s.len() {
        match mantissa_end(s, p) {
            Some(m) => Some((exponent_end(s, m) - p) as nat),
            None => None,
        }
    } else {
        None
    }
}

pub open spec fn ident_len(s: Seq<u8>, p: int) -> Option<nat> {
    if 0 <= p < s.len() && is_ident_start(s[p]) {
        Some((run_end(ByteClass::IdentContinue, s, p + 1) - p) as nat)
    } else {
        None
    }
}

/// The length of the token that `r` recognizes at position `p` of `s`, if any.
pub open spec fn rule_match(r: Rule, s: Seq<u8>, p: int) -> Option<nat> {
    match r {
        Rule::Unambiguous => unambiguous_len(s, p),
        Rule::Spaces => spaces_len(s, p),
        Rule::Char(c, _) => char_len(c, s, p),
        Rule::Pair(c, d, _) => pair_len(c, d, s, p),
        Rule::Word(k) => keyword_len(k, s, p),
        Rule::StringLit => string_len(s, p),
        Rule::LineComment => comment_len(s, p),
        Rule::IntLit => int_len(s, p),
        Rule::FloatLit => float_len(s, p),
        Rule::Ident => ident_len(s, p),
    }
}

/// The kind of the token that `r` recognizes at position `p` of `s`.
pub open spec fn rule_kind(r: Rule, s: Seq<u8>, p: int) -> TokenKind {
    match r {
        Rule::Unambiguous => match unambiguous_kind(s[p] as char) {
            Some(k) => k,
            None => TokenKind::Error,
        },
        Rule::Spaces => TokenKind::Whitespace,
        Rule::Char(_, k) => k,
        Rule::Pair(_, _, k) => k,
        Rule::Word(k) => keyword_kind(k),
        Rule::StringLit => TokenKind::String,
        Rule::LineComment => TokenKind::Comment,
        Rule::IntLit => TokenKind::Int,
        Rule::FloatLit => TokenKind::Float,
        Rule::Ident => TokenKind::Identifier,
    }
}

/// The rules in declaration order; on a tie in length the earlier rule wins.
pub open spec fn rules() -> Seq<Rule> {
    seq![
        Rule::Unambiguous,
        Rule::Spaces,
        Rule::Char(0x21u8, TokenKind::Bang),
        Rule::Char(0x3du8, TokenKind::Eq),
        Rule::Char(0x2fu8, TokenKind::Slash),
        Rule::Char(0x5fu8, TokenKind::Underscore),
        Rule::Char(0x3cu8, TokenKind::LAngle),
        Rule::Char(0x3eu8, TokenKind::RAngle),
        Rule::Pair(0x3du8, 0x3du8, TokenKind::Eqq),
        Rule::Pair(0x21u8, 0x3du8, TokenKind::Neq),
        Rule::Pair(0x26u8, 0x26u8, TokenKind::And),
        Rule::Pair(0x7cu8, 0x7cu8, TokenKind::Or),
        Rule::Pair(0x3cu8, 0x3du8, TokenKind::Leq),
        Rule::Pair(0x3eu8, 0x3du8, TokenKind::Geq),
        Rule::Word(Keyword::Let),
        Rule::Word(Keyword::Fn),
        Rule::Word(Keyword::Struct),
        Rule::Word(Keyword::If),
        Rule::Word(Keyword::Else),
        Rule::StringLit,
        Rule::LineComment,
        Rule::IntLit,
        Rule::FloatLit,
        Rule::Ident,
    ]
}

/// The rule table, in declaration order.
pub fn get_rules() -> (r: Vec<Rule>)
    ensures
        r@ == rules(),
{
    let r = vec![
        Rule::Unambiguous,
        Rule::Spaces,
        Rule::Char(0x21u8, TokenKind::Bang),
        Rule::Char(0x3du8, TokenKind::Eq),
        Rule::Char(0x2fu8, TokenKind::Slash),
        Rule::Char(0x5fu8, TokenKind::Underscore),
        Rule::Char(0x3cu8, TokenKind::LAngle),
        Rule::Char(0x3eu8, TokenKind::RAngle),
        Rule::Pair(0x3du8, 0x3du8, TokenKind::Eqq),
        Rule::Pair(0x21u8, 0x3du8, TokenKind::Neq),
        Rule::Pair(0x26u8, 0x26u8, TokenKind::And),
        Rule::Pair(0x7cu8, 0x7cu8, TokenKind::Or),
        Rule::Pair(0x3cu8, 0x3du8, TokenKind::Leq),
        Rule::Pair(0x3eu8, 0x3du8, TokenKind::Geq),
        Rule::Word(Keyword::Let),
        Rule::Word(Keyword::Fn),
        Rule::Word(Keyword::Struct),
        Rule::Word(Keyword::If),
        Rule::Word(Keyword::Else),
        Rule::StringLit,
        Rule::LineComment,
        Rule::IntLit,
        Rule::FloatLit,
        Rule::Ident,
    ];
    assert(r@ =~= rules());
    r
}


pub proof fn lemma_string_close_bounds(s: Seq<u8>, i: int)
    requires
        0 <= i,
    ensures
        string_close(s, i) matches Some(e) ==> i < e <= s.len() && s[e - 1] == 0x22u8,
    decreases s.len() - i,
{
    if 0 <= i < s.len() && s[i] != 0x22u8 {
        if s[i] == 0x5cu8 {
            if i + 1 < s.len() && (s[i + 1] == 0x22u8 || s[i + 1] == 0x5cu8) {
                lemma_string_close_bounds(s, i + 2);
            }
        } else {
            lemma_string_close_bounds(s, i + 1);
        }
    }
}

pub proof fn lemma_line_close_bounds(s: Seq<u8>, i: int)
    requires
        0 <= i,
    ensures
        line_close(s, i) matches Some(e) ==> i < e <= s.len() && s[e - 1] == 0x0au8,
    decreases s.len() - i,
{
    if 0 <= i < s.len() && s[i] != 0x0au8 {
        lemma_line_close_bounds(s, i + 1);
    }
}

/// A match of any rule is non-empty, stays within the input, and both its
/// first and its last byte are ASCII.
pub proof fn lemma_rule_match_bounds(r: Rule, s: Seq<u8>, p: int)
    requires
        rules().contains(r),
        rule_match(r, s, p) is Some,
    ensures
        0 <= p < s.len(),
        1 <= rule_match(r, s, p)->0 <= s.len() - p,
        s[p] < 0x80,
        s[p + rule_match(r, s, p)->0 - 1] < 0x80,
{
    match r {
        Rule::Unambiguous => {
            assert(s[p] < 0x80) by {
                if s[p] >= 0x80 {
                    assert((s[p] as char) as u32 >= 0x80);
                }
            }
        },
        Rule::Spaces => {
            lemma_run_end_bounds(ByteClass::Space, s, p);
        },
        Rule::Char(c, _) => {
            let i = choose|i: int| 0 <= i < rules().len() && rules()[i] == r;
        },
        Rule::Pair(c, d, _) => {
            let i = choose|i: int| 0 <= i < rules().len() && rules()[i] == r;
        },
        Rule::Word(k) => {
            let w = keyword_bytes(k);
            assert(s.subrange(p, p + w.len())[0] == s[p]);
            assert(s.subrange(p, p + w.len())[w.len() - 1] == s[p + w.len() - 1]);
        },
        Rule::StringLit => {
            lemma_string_close_bounds(s, p + 1);
        },
        Rule::LineComment => {
            lemma_line_close_bounds(s, p + 2);
        },
        Rule::IntLit => {
            lemma_run_end_bounds(ByteClass::Digit, s, p);
        },
        Rule::FloatLit => {
            lemma_run_end_bounds(ByteClass::Digit, s, p);
            let d = run_end(ByteClass::Digit, s, p);
            if d + 1 < s.len() {
                lemma_run_end_bounds(ByteClass::Digit, s, d + 1);
            }
            if p + 1 < s.len() {
                lemma_run_end_bounds(ByteClass::Digit, s, p + 1);
            }
            let m = mantissa_end(s, p)->0;
            if m + 2 <= s.len() {
                lemma_run_end_bounds(ByteClass::Digit, s, m + 2);
            }
            if m + 1 <= s.len() {
                lemma_run_end_bounds(ByteClass::Digit, s, m + 1);
            }
        },
        Rule::Ident => {
            lemma_run_end_bounds(ByteClass::IdentContinue, s, p + 1);
        },
    }
}

/// `o` reports the same length as the spec-level match `m`.
pub open spec fn same_match(o: Option<usize>, m: Option<nat>) -> bool {
    match o {
        Some(n) => m == Some(n as nat),
        None => m is None,
    }
}

fn byte_in_class(c: ByteClass, b: u8) -> (r: bool)
    ensures
        r == in_class(c, b),
{
    match c {
        ByteClass::Space => b == 0x20u8 || b == 0x09u8 || b == 0x0au8,
        ByteClass::Digit => 0x30u8 <= b && b <= 0x39u8,
        ByteClass::IdentContinue => (0x41u8 <= b && b <= 0x5au8) || (0x61u8 <= b && b <= 0x7au8)
            || b == 0x5fu8 || (0x30u8 <= b && b <= 0x39u8),
    }
}

/// The end of the run of class `c` starting at `p`.
fn scan_run(c: ByteClass, s: &[u8], p: usize) -> (r: usize)
    requires
        p <= s@.len(),
    ensures
        r == run_end(c, s@, p as int),
        p <= r <= s@.len(),
{
    let mut i = p;
    while i < s.len() && byte_in_class(c, s[i])
        invariant
            p <= i <= s@.len(),
            run_end(c, s@, p as int) == run_end(c, s@, i as int),
        decreases s@.len() - i,
    {
        i = i + 1;
    }
    i
}

/// The end of the run of class `c` lies between its start and the end of the input.
pub proof fn lemma_run_end_bounds(c: ByteClass, s: Seq<u8>, p: int)
    requires
        0 <= p <= s.len(),
    ensures
        p <= run_end(c, s, p) <= s.len(),
        run_end(c, s, p) < s.len() ==> !in_class(c, s[run_end(c, s, p)]),
        forall|j: int| p <= j < run_end(c, s, p) ==> in_class(c, #[trigger] s[j]),
    decreases s.len() - p,
{
    if p < s.len() && in_class(c, s[p]) {
        lemma_run_end_bounds(c, s, p + 1);
    }
}

fn match_single_char(s: &[u8], p: usize, c: u8) -> (r: Option<usize>)
    requires
        p <= s@.len(),
    ensures
        r == (if p < s@.len() && s@[p as int] == c { Some(1usize) } else { None::<usize> }),
{
    if p < s.len() && s[p] == c {
        Some(1)
    } else {
        None
    }
}

fn match_two_chars(s: &[u8], p: usize, c: u8, d: u8) -> (r: Option<usize>)
    requires
        p <= s@.len(),
    ensures
        r == (if p + 1 < s@.len() && s@[p as int] == c && s@[p + 1] == d {
            Some(2usize)
        } else {
            None::<usize>
        }),
{
    if s.len() - p > 1 && s[p] == c && s[p + 1] == d {
        Some(2)
    } else {
        None
    }
}

fn keyword_text(k: Keyword) -> (r: Vec<u8>)
    ensures
        r@ == keyword_bytes(k),
{
    let r = match k {
        Keyword::Let => vec![0x6cu8, 0x65u8, 0x74u8],
        Keyword::Fn => vec![0x66u8, 0x6eu8],
        Keyword::Struct => vec![0x73u8, 0x74u8, 0x72u8, 0x75u8, 0x63u8, 0x74u8],
        Keyword::If => vec![0x69u8, 0x66u8],
        Keyword::Else => vec![0x65u8, 0x6cu8, 0x73u8, 0x65u8],
    };
    assert(r@ =~= keyword_bytes(k));
    r
}

fn match_keyword(s: &[u8], p: usize, k: Keyword) -> (r: Option<usize>)
    requires
        p < s@.len(),
    ensures
        same_match(r, rule_match(Rule::Word(k), s@, p as int)),
{
    let w = keyword_text(k);
    let n = s.len();
    if w.len() > n - p {
        return None;
    }
    let mut j: usize = 0;
    while j < w.len()
        invariant
            0 <= j <= w@.len(),
            w@ == keyword_bytes(k),
            n == s@.len(),
            p + w@.len() <= n,
            forall|i: int| 0 <= i < j ==> s@[p + i] == w@[i],
        decreases w@.len() - j,
    {
        if s[p + j] != w[j] {
            assert(s@.subrange(p as int, p + w@.len())[j as int] != w@[j as int]);
            return None;
        }
        j = j + 1;
    }
    assert(s@.subrange(p as int, p + w@.len()) =~= w@);
    Some(w.len())
}

fn match_string(s: &[u8], p: usize) -> (r: Option<usize>)
    requires
        p < s@.len(),
    ensures
        same_match(r, rule_match(Rule::StringLit, s@, p as int)),
{
    let n = s.len();
    if s[p] != 0x22u8 {
        return None;
    }
    let mut i = p + 1;
    while i < n
        invariant
            n == s@.len(),
            p < i <= n,
            s@[p as int] == 0x22u8,
            string_close(s@, p + 1) == string_close(s@, i as int),
        decreases s@.len() - i,
    {
        if s[i] == 0x22u8 {
            return Some(i + 1 - p);
        } else if s[i] == 0x5cu8 {
            if n - i > 1 && (s[i + 1] == 0x22u8 || s[i + 1] == 0x5cu8) {
                i = i + 2;
            } else {
                return None;
            }
        } else {
            i = i + 1;
        }
    }
    None
}

fn match_comment(s: &[u8], p: usize) -> (r: Option<usize>)
    requires
        p < s@.len(),
    ensures
        same_match(r, rule_match(Rule::LineComment, s@, p as int)),
{
    let n = s.len();
    if !(n - p > 1 && s[p] == 0x2fu8 && s[p + 1] == 0x2fu8) {
        return None;
    }
    let mut i = p + 2;
    while i < n
        invariant
            n == s@.len(),
            p + 2 <= i <= n,
            s@[p as int] == 0x2fu8,
            s@[p + 1] == 0x2fu8,
            line_close(s@, p + 2) == line_close(s@, i as int),
        decreases s@.len() - i,
    {
        if s[i] == 0x0au8 {
            return Some(i + 1 - p);
        }
        i = i + 1;
    }
    None
}

fn is_digit_byte(b: u8) -> (r: bool)
    ensures
        r == is_digit(b),
{
    0x30u8 <= b && b <= 0x39u8
}

fn match_int(s: &[u8], p: usize) -> (r: Option<usize>)
    requires
        p < s@.len(),
    ensures
        same_match(r, rule_match(Rule::IntLit, s@, p as int)),
{
    if is_digit_byte(s[p]) {
        let e = scan_run(ByteClass::Digit, s, p);
        Some(e - p)
    } else {
        None
    }
}

fn match_float(s: &[u8], p: usize) -> (r: Option<usize>)
    requires
        p < s@.len(),
    ensures
        same_match(r, rule_match(Rule::FloatLit, s@, p as int)),
{
    let n = s.len();
    let d = scan_run(ByteClass::Digit, s, p);
    let m = if d > p {
        if d < n && n - d > 1 && s[d] == 0x2eu8 && is_digit_byte(s[d + 1]) {
            scan_run(ByteClass::Digit, s, d + 1)
        } else {
            d
        }
    } else if n - p > 1 && s[p] == 0x2eu8 && is_digit_byte(s[p + 1]) {
        scan_run(ByteClass::Digit, s, p + 1)
    } else {
        return None;
    };
    assert(mantissa_end(s@, p as int) == Some(m as int));
    let mut e = m;
    if m < n && (s[m] == 0x65u8 || s[m] == 0x45u8) {
        let q = if n - m > 1 && (s[m + 1] == 0x2bu8 || s[m + 1] == 0x2du8) {
            m + 2
        } else {
            m + 1
        };
        if q < n && is_digit_byte(s[q]) {
            e = scan_run(ByteClass::Digit, s, q);
        }
    }
    assert(exponent_end(s@, m as int) == e as int);
    Some(e - p)
}

fn match_ident(s: &[u8], p: usize) -> (r: Option<usize>)
    requires
        p < s@.len(),
    ensures
        same_match(r, rule_match(Rule::Ident, s@, p as int)),
{
    let b = s[p];
    if (0x41u8 <= b && b <= 0x5au8) || (0x61u8 <= b && b <= 0x7au8) || b == 0x5fu8 {
        let e = scan_run(ByteClass::IdentContinue, s, p + 1);
        Some(e - p)
    } else {
        None
    }
}

/// The length of the token that rule `r` recognizes at position `p`, if any.
pub fn rule_matches(r: Rule, s: &[u8], p: usize) -> (res: Option<usize>)
    requires
        p < s@.len(),
    ensures
        same_match(res, rule_match(r, s@, p as int)),
{
    match r {
        Rule::Unambiguous => {
            if unambiguous_single_char(s[p] as char).is_some() {
                Some(1)
            } else {
                None
            }
        },
        Rule::Spaces => {
            if byte_in_class(ByteClass::Space, s[p]) {
                let e = scan_run(ByteClass::Space, s, p);
                Some(e - p)
            } else {
                None
            }
        },
        Rule::Char(c, _) => match_single_char(s, p, c),
        Rule::Pair(c, d, _) => match_two_chars(s, p, c, d),
        Rule::Word(k) => match_keyword(s, p, k),
        Rule::StringLit => match_string(s, p),
        Rule::LineComment => match_comment(s, p),
        Rule::IntLit => match_int(s, p),
        Rule::FloatLit => match_float(s, p),
        Rule::Ident => match_ident(s, p),
    }
}

/// The kind of the token that rule `r` recognizes at position `p`.
pub fn kind_of_rule(r: Rule, s: &[u8], p: usize) -> (k: TokenKind)
    requires
        p < s@.len(),
    ensures
        k == rule_kind(r, s@, p as int),
{
    match r {
        Rule::Unambiguous => match unambiguous_single_char(s[p] as char) {
            Some(k) => k,
            None => TokenKind::Error,
        },
        Rule::Spaces => TokenKind::Whitespace,
        Rule::Char(_, k) => k,
        Rule::Pair(_, _, k) => k,
        Rule::Word(k) => match k {
            Keyword::Let => TokenKind::KeywordLet,
            Keyword::Fn => TokenKind::KeywordFn,
            Keyword::Struct => TokenKind::KeywordStruct,
            Keyword::If => TokenKind::KeywordIf,
            Keyword::Else => TokenKind::KeywordElse,
        },
        Rule::StringLit => TokenKind::String,
        Rule::LineComment => TokenKind::Comment,
        Rule::IntLit => TokenKind::Int,
        Rule::FloatLit => TokenKind::Float,
        Rule::Ident => TokenKind::Identifier,
    }
}

} // verus!
