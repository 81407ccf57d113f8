//! The tokenizer: longest match over the rule table, ties to the earlier
//! rule, unrecognized runs coalesced into one error token.
use vstd::prelude::*;
use vstd::string::StringSliceAdditionalSpecFns;
use crate::rules::{
    get_rules, kind_of_rule, lemma_rule_match_bounds, rule_kind, rule_match, rule_matches, rules,
    unambiguous_kind, Rule,
};
use crate::token::{Span, Token, TokenKind};

verus! {

/// Among the first `n` rules, the longest match at `p`, as its length and the
/// index of its rule. A later rule replaces the best so far only when it is
/// strictly longer.
pub open spec fn best_match(n: int, s: Seq<u8>, p: int) -> Option<(nat, nat)>
    decreases n,
{
    if n <= 0 {
        None
    } else {
        let prev = best_match(n - 1, s, p);
        match rule_match(rules()[n - 1], s, p) {
            Some(l) => match prev {
                Some(b) => if b.0 >= l {
                    prev
                } else {
                    Some((l, (n - 1) as nat))
                },
                None => Some((l, (n - 1) as nat)),
            },
            None => prev,
        }
    }
}

/// The winning match at `p` over the whole rule table.
pub open spec fn longest_match(s: Seq<u8>, p: int) -> Option<(nat, nat)> {
    best_match(rules().len() as int, s, p)
}

/// The first position at or after `q` where some rule matches, or the end of the input.
pub open spec fn next_match(s: Seq<u8>, q: int) -> int
    decreases s.len() - q,
{
    if q < 0 || q >= s.len() {
        s.len() as int
    } else if longest_match(s, q) is Some {
        q
    } else {
        next_match(s, q + 1)
    }
}

/// The token that starts at position `p` of `s`.
#[verifier::opaque]
pub open spec fn token_at(s: Seq<u8>, p: int) -> Token {
    match longest_match(s, p) {
        Some(m) => Token {
            kind: rule_kind(rules()[m.1 as int], s, p),
            span: Span { start: p as usize, end: (p + m.0) as usize },
        },
        None => Token {
            kind: TokenKind::Error,
            span: Span { start: p as usize, end: next_match(s, p + 1) as usize },
        },
    }
}

/// The end-of-input marker for an input of `n` bytes.
pub open spec fn eof_token(n: int) -> Token {
    Token { kind: TokenKind::Eof, span: Span { start: n as usize, end: n as usize } }
}

/// The tokens of `s` from position `p` on, ending with the end-of-input marker.
/// Every token advances (`lemma_token_at_bounds`), so the empty fallback,
/// which only serves termination, is never taken.
pub open spec fn tokens_from(s: Seq<u8>, p: int) -> Seq<Token>
    decreases s.len() - p,
{
    if p >= s.len() {
        seq![eof_token(s.len() as int)]
    } else {
        let t = token_at(s, p);
        if p < t.span.end <= s.len() {
            seq![t] + tokens_from(s, t.span.end as int)
        } else {
            seq![]
        }
    }
}

/// The tokens of the whole of `s`.
pub open spec fn tokens_of(s: Seq<u8>) -> Seq<Token> {
    tokens_from(s, 0)
}

pub proof fn lemma_best_match_bounds(n: int, s: Seq<u8>, p: int)
    requires
        n <= rules().len(),
    ensures
        best_match(n, s, p) matches Some(m) ==> {
            &&& m.1 < n
            &&& rule_match(rules()[m.1 as int], s, p) == Some(m.0)
            &&& 0 <= p < s.len()
            &&& 1 <= m.0 <= s.len() - p
            &&& s[p] < 0x80
            &&& s[p + m.0 - 1] < 0x80
        },
    decreases n,
{
    if n > 0 {
        lemma_best_match_bounds(n - 1, s, p);
        if best_match(n, s, p) is Some {
            let m = best_match(n, s, p)->0;
            assert(rules().contains(rules()[m.1 as int]));
            lemma_rule_match_bounds(rules()[m.1 as int], s, p);
        }
    }
}

pub proof fn lemma_next_match_bounds(s: Seq<u8>, q: int)
    requires
        0 <= q,
    ensures
        q <= next_match(s, q) <= s.len() || (q > s.len() && next_match(s, q) == s.len()),
        next_match(s, q) < s.len() ==> longest_match(s, next_match(s, q)) is Some,
        forall|j: int| q <= j < next_match(s, q) ==> longest_match(s, j) is None,
    decreases s.len() - q,
{
    if q < s.len() && longest_match(s, q) is None {
        lemma_next_match_bounds(s, q + 1);
    }
}

/// The token at any position inside the input is non-empty and stays within it.
pub proof fn lemma_token_at_bounds(s: Seq<u8>, p: int)
    requires
        0 <= p < s.len() <= usize::MAX,
    ensures
        token_at(s, p).span.start == p,
        p < token_at(s, p).span.end <= s.len(),
        token_at(s, p).kind != TokenKind::Eof,
{
    reveal(token_at);
    lemma_best_match_bounds(rules().len() as int, s, p);
    lemma_next_match_bounds(s, p + 1);
    if longest_match(s, p) is Some {
        let m = longest_match(s, p)->0;
        let r = rules()[m.1 as int];
        assert(rule_kind(r, s, p) != TokenKind::Eof) by {
            if r is Unambiguous {
                assert(unambiguous_kind(s[p] as char) != Some(TokenKind::Eof));
            }
        }
    }
}

/// The spec-level match `m` as reported by the executable matcher.
pub open spec fn same_best(o: Option<(usize, usize)>, m: Option<(nat, nat)>) -> bool {
    match o {
        Some(b) => m == Some((b.0 as nat, b.1 as nat)),
        None => m is None,
    }
}

/// The longest match at `p`, as (length, rule index).
fn longest_at(s: &[u8], p: usize, table: &Vec<Rule>) -> (r: Option<(usize, usize)>)
    requires
        p < s@.len(),
        table@ == rules(),
    ensures
        same_best(r, longest_match(s@, p as int)),
{
    let mut best: Option<(usize, usize)> = None;
    let mut i: usize = 0;
    while i < table.len()
        invariant
            0 <= i <= table@.len(),
            table@ == rules(),
            p < s@.len(),
            same_best(best, best_match(i as int, s@, p as int)),
        decreases table@.len() - i,
    {
        proof {
            lemma_best_match_bounds(i as int, s@, p as int);
        }
        match rule_matches(table[i], s, p) {
            Some(l) => {
                match best {
                    Some(b) => {
                        if b.0 < l {
                            best = Some((l, i));
                        }
                    },
                    None => {
                        best = Some((l, i));
                    },
                }
            },
            None => {},
        }
        i = i + 1;
    }
    best
}

/// The token at `p` when some rule matches there.
fn valid_token(s: &[u8], p: usize, table: &Vec<Rule>) -> (r: Option<Token>)
    requires
        p < s@.len(),
        table@ == rules(),
    ensures
        r is Some <==> longest_match(s@, p as int) is Some,
        r matches Some(t) ==> t == token_at(s@, p as int),
{
    reveal(token_at);
    let n = s.len();
    match longest_at(s, p, table) {
        Some(m) => {
            proof {
                lemma_best_match_bounds(rules().len() as int, s@, p as int);
            }
            let kind = kind_of_rule(table[m.1], s, p);
            Some(Token { kind, span: Span { start: p, end: p + m.0 } })
        },
        None => None,
    }
}

/// The error token at `p`, which runs up to the next position where some rule
/// matches, or to the end of the input.
fn invalid_token(s: &[u8], p: usize, table: &Vec<Rule>) -> (r: Token)
    requires
        p < s@.len(),
        table@ == rules(),
        longest_match(s@, p as int) is None,
    ensures
        r == token_at(s@, p as int),
{
    reveal(token_at);
    let n = s.len();
    let mut q = p + 1;
    while q < n && valid_token(s, q, table).is_none()
        invariant
            p < q <= s@.len(),
            n == s@.len(),
            table@ == rules(),
            next_match(s@, p + 1) == next_match(s@, q as int),
        decreases s@.len() - q,
    {
        q = q + 1;
    }
    Token { kind: TokenKind::Error, span: Span { start: p, end: q } }
}

/// The token at `p`.
fn token_at_pos(s: &[u8], p: usize, table: &Vec<Rule>) -> (r: Token)
    requires
        p < s@.len(),
        table@ == rules(),
    ensures
        r == token_at(s@, p as int),
{
    match valid_token(s, p, table) {
        Some(t) => t,
        None => invalid_token(s, p, table),
    }
}

/// A tokenizer over one source text.
pub struct Lexer<'a> {
    pub input: &'a str,
}

impl<'a> Lexer<'a> {
    /// The source bytes this lexer reads.
    pub open spec fn source(&self) -> Seq<u8> {
        self.input.spec_bytes()
    }

    pub fn new(input: &'a str) -> (r: Lexer<'a>)
        ensures
            r.input == input,
    {
        Lexer { input }
    }

    /// The token at the start of `input`, which must not be empty.
    pub fn next_token(&self, input: &str) -> (r: Token)
        requires
            input.spec_bytes().len() > 0,
        ensures
            r == token_at(input.spec_bytes(), 0),
    {
        let table = get_rules();
        token_at_pos(input.as_bytes(), 0, &table)
    }

    /// All tokens of the source, whitespace and comments included, followed by
    /// exactly one end-of-input token.
    pub fn tokenize(&self) -> (r: Vec<Token>)
        ensures
            r@ == tokens_of(self.source()),
    {
        let s = self.input.as_bytes();
        let table = get_rules();
        let mut out: Vec<Token> = Vec::new();
        let mut p: usize = 0;
        while p < s.len()
            invariant
                p <= s@.len(),
                s@ == self.source(),
                table@ == rules(),
                out@ + tokens_from(s@, p as int) == tokens_of(s@),
            decreases s@.len() - p,
        {
            let t = token_at_pos(s, p, &table);
            proof {
                lemma_token_at_bounds(s@, p as int);
                assert(tokens_from(s@, p as int) == seq![t] + tokens_from(s@, t.span.end as int));
                assert(out@.push(t) + tokens_from(s@, t.span.end as int) =~= out@ + tokens_from(
                    s@,
                    p as int,
                ));
            }
            out.push(t);
            p = t.span.end;
        }
        let n = s.len();
        out.push(Token { kind: TokenKind::Eof, span: Span { start: n, end: n } });
        assert(out@ =~= tokens_of(s@));
        out
    }
}

} // verus!
