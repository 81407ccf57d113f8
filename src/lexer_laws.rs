//! Properties of the token sequence, proved from the tokenizer's model.
use vstd::prelude::*;
use vstd::utf8::{is_char_boundary, valid_utf8};
use crate::boundary::{lemma_after_ascii_is_boundary, lemma_ascii_is_boundary};
use crate::lexer::{
    best_match, eof_token, lemma_best_match_bounds, lemma_next_match_bounds,
    lemma_token_at_bounds, longest_match, token_at, tokens_from, tokens_of,
};
use crate::rules::{
    lemma_string_close_bounds, rule_kind, rule_match, rules, unambiguous_kind, Rule,
};
use crate::token::{token_within, Token, TokenKind};

verus! {

/// The source bytes that the tokens `ts` address, in order.
pub open spec fn concat_slices(s: Seq<u8>, ts: Seq<Token>) -> Seq<u8>
    decreases ts.len(),
{
    if ts.len() == 0 {
        seq![]
    } else {
        s.subrange(ts[0].span.start as int, ts[0].span.end as int) + concat_slices(
            s,
            ts.drop_first(),
        )
    }
}

proof fn lemma_tokens_from_shape(s: Seq<u8>, p: int)
    requires
        0 <= p <= s.len() <= usize::MAX,
    ensures
        tokens_from(s, p).len() >= 1,
        tokens_from(s, p).last() == eof_token(s.len() as int),
        forall|i: int|
            0 <= i < tokens_from(s, p).len() - 1 ==> {
                &&& p <= (#[trigger] tokens_from(s, p)[i]).span.start
                &&& tokens_from(s, p)[i].span.start < tokens_from(s, p)[i].span.end <= s.len()
                &&& tokens_from(s, p)[i] == token_at(s, tokens_from(s, p)[i].span.start as int)
            },
        forall|i: int, j: int|
            0 <= i && j == i + 1 && j < tokens_from(s, p).len() - 1 ==> (#[trigger] tokens_from(
                s,
                p,
            )[i]).span.end == (#[trigger] tokens_from(s, p)[j]).span.start,
        tokens_from(s, p).len() > 1 ==> tokens_from(s, p)[0].span.start == p
            && tokens_from(s, p)[tokens_from(s, p).len() - 2].span.end == s.len(),
        concat_slices(s, tokens_from(s, p).drop_last()) == s.subrange(p, s.len() as int),
    decreases s.len() - p,
{
    let ts = tokens_from(s, p);
    if p >= s.len() {
        assert(ts.drop_last() =~= Seq::<Token>::empty());
        assert(s.subrange(p, s.len() as int) =~= Seq::<u8>::empty());
    } else {
        let t = token_at(s, p);
        lemma_token_at_bounds(s, p);
        let e = t.span.end as int;
        lemma_tokens_from_shape(s, e);
        let rest = tokens_from(s, e);
        assert(ts == seq![t] + rest);
        assert(ts.drop_last() =~= seq![t] + rest.drop_last());
        assert((seq![t] + rest.drop_last()).drop_first() =~= rest.drop_last());
        assert(s.subrange(p, s.len() as int) =~= s.subrange(p, e) + s.subrange(e, s.len() as int));
        assert forall|i: int, j: int| 0 <= i && j == i + 1 && j < ts.len() - 1 implies (
        #[trigger] ts[i]).span.end == (#[trigger] ts[j]).span.start by {
            if i > 0 {
                assert(ts[i] == rest[i - 1]);
                assert(ts[j] == rest[j - 1]);
            }
        }
        assert forall|i: int| 0 <= i < ts.len() - 1 implies {
            &&& p <= (#[trigger] ts[i]).span.start
            &&& ts[i].span.start < ts[i].span.end <= s.len()
            &&& ts[i] == token_at(s, ts[i].span.start as int)
        } by {
            if i > 0 {
                assert(ts[i] == rest[i - 1]);
            }
        }
        if rest.len() > 1 {
            assert(ts[ts.len() - 2] == rest[rest.len() - 2]);
        }
    }
}

/// Concatenating the source slices of all tokens but the end-of-input marker
/// gives back the source; the spans are non-empty, start at zero, and each
/// starts where the one before it ends.
pub proof fn lemma_spans_partition(s: Seq<u8>)
    requires
        s.len() <= usize::MAX,
    ensures
        concat_slices(s, tokens_of(s).drop_last()) == s,
        forall|i: int|
            0 <= i < tokens_of(s).len() - 1 ==> (#[trigger] tokens_of(s)[i]).span.start
                < tokens_of(s)[i].span.end,
        forall|i: int, j: int|
            0 <= i && j == i + 1 && j < tokens_of(s).len() - 1 ==> (#[trigger] tokens_of(s)[i]).span.end
                == (#[trigger] tokens_of(s)[j]).span.start,
        tokens_of(s).len() > 1 ==> tokens_of(s)[0].span.start == 0
            && tokens_of(s)[tokens_of(s).len() - 2].span.end == s.len(),
{
    lemma_tokens_from_shape(s, 0);
    assert(s.subrange(0, s.len() as int) =~= s);
}

/// The token sequence ends with exactly one end-of-input token, whose span is
/// the empty range at the end of the source.
pub proof fn lemma_eof_sentinel(s: Seq<u8>)
    requires
        s.len() <= usize::MAX,
    ensures
        tokens_of(s).len() >= 1,
        tokens_of(s).last() == eof_token(s.len() as int),
        tokens_of(s).last().span.start == s.len() && tokens_of(s).last().span.end == s.len(),
        forall|i: int|
            0 <= i < tokens_of(s).len() - 1 ==> (#[trigger] tokens_of(s)[i]).kind
                != TokenKind::Eof,
{
    lemma_tokens_from_shape(s, 0);
    let ts = tokens_of(s);
    assert forall|i: int| 0 <= i < ts.len() - 1 implies (#[trigger] ts[i]).kind
        != TokenKind::Eof by {
        lemma_token_at_bounds(s, ts[i].span.start as int);
    }
}

proof fn lemma_best_match_dominates(n: int, s: Seq<u8>, p: int, i: int)
    requires
        0 <= i < n <= rules().len(),
        rule_match(rules()[i], s, p) is Some,
    ensures
        best_match(n, s, p) matches Some(m) && (m.0 > rule_match(rules()[i], s, p)->0 || (m.0
            == rule_match(rules()[i], s, p)->0 && m.1 <= i)),
    decreases n,
{
    lemma_best_match_bounds(n - 1, s, p);
    if i < n - 1 {
        lemma_best_match_dominates(n - 1, s, p, i);
    }
}

/// At any position, the token comes from the longest match of any rule, and
/// among matches of that length from the earliest rule: no rule matches
/// longer, and a rule with a match of the same length is not declared before
/// the winner.
pub proof fn lemma_longest_match_wins(s: Seq<u8>, p: int, i: int)
    requires
        0 <= i < rules().len(),
        rule_match(rules()[i], s, p) is Some,
        s.len() <= usize::MAX,
    ensures
        longest_match(s, p) matches Some(m) && {
            &&& rule_match(rules()[m.1 as int], s, p) == Some(m.0)
            &&& m.0 >= rule_match(rules()[i], s, p)->0
            &&& m.0 == rule_match(rules()[i], s, p)->0 ==> m.1 <= i
            &&& token_at(s, p).kind == rule_kind(rules()[m.1 as int], s, p)
            &&& token_at(s, p).span.end == p + m.0
        },
{
    reveal(token_at);
    lemma_best_match_dominates(rules().len() as int, s, p, i);
    lemma_best_match_bounds(rules().len() as int, s, p);
}

/// An error token covers a maximal run of positions at which no rule matches:
/// none matches anywhere inside it, and one matches where it ends, unless the
/// source ends there.
pub proof fn lemma_error_tokens_maximal(s: Seq<u8>, k: int)
    requires
        s.len() <= usize::MAX,
        0 <= k < tokens_of(s).len(),
        tokens_of(s)[k].kind == TokenKind::Error,
    ensures
        forall|j: int|
            tokens_of(s)[k].span.start <= j < tokens_of(s)[k].span.end ==> longest_match(s, j)
                is None,
        tokens_of(s)[k].span.end < s.len() ==> longest_match(s, tokens_of(s)[k].span.end as int)
            is Some,
        k + 1 < tokens_of(s).len() ==> tokens_of(s)[k + 1].kind != TokenKind::Error,
{
    lemma_tokens_from_shape(s, 0);
    let ts = tokens_of(s);
    let t = ts[k];
    let p = t.span.start as int;
    assert(k < ts.len() - 1);
    lemma_error_only_without_match(s, p);
    lemma_next_match_bounds(s, p + 1);
    reveal(token_at);
    if k + 1 < ts.len() - 1 {
        let u = ts[k + 1];
        assert(u.span.start == t.span.end);
        lemma_winner_kind_not_error(s, u.span.start as int);
    }
}

proof fn lemma_winner_kind_not_error(s: Seq<u8>, p: int)
    requires
        longest_match(s, p) is Some,
    ensures
        token_at(s, p).kind != TokenKind::Error,
{
    reveal(token_at);
    lemma_best_match_bounds(rules().len() as int, s, p);
    let m = longest_match(s, p)->0;
    let r = rules()[m.1 as int];
    if r is Unambiguous {
        assert(unambiguous_kind(s[p] as char) != Some(TokenKind::Error));
    }
}

proof fn lemma_error_only_without_match(s: Seq<u8>, p: int)
    requires
        token_at(s, p).kind == TokenKind::Error,
    ensures
        longest_match(s, p) is None,
{
    reveal(token_at);
    if longest_match(s, p) is Some {
        lemma_winner_kind_not_error(s, p);
    }
}

/// Every token of valid UTF-8 text starts and ends on a character boundary,
/// so its text can be sliced out of the source.
pub proof fn lemma_tokens_on_char_boundaries(s: Seq<u8>)
    requires
        s.len() <= usize::MAX,
        valid_utf8(s),
    ensures
        forall|i: int| 0 <= i < tokens_of(s).len() ==> token_within(#[trigger] tokens_of(s)[i], s),
{
    lemma_tokens_from_shape(s, 0);
    let ts = tokens_of(s);
    vstd::utf8::is_char_boundary_start_end_of_seq(s);
    assert forall|i: int| 0 <= i < ts.len() implies token_within(#[trigger] ts[i], s) by {
        if i < ts.len() - 1 {
            lemma_end_is_boundary(s, ts[i].span.start as int);
            if i > 0 {
                lemma_end_is_boundary(s, ts[i - 1].span.start as int);
            }
        }
    }
}

/// A string-literal token spans at least its two quotes, and begins and ends
/// with a double quote.
pub proof fn lemma_string_tokens_quoted(s: Seq<u8>, i: int)
    requires
        s.len() <= usize::MAX,
        0 <= i < tokens_of(s).len(),
        tokens_of(s)[i].kind == TokenKind::String,
    ensures
        tokens_of(s)[i].span.start + 2 <= tokens_of(s)[i].span.end <= s.len(),
        s[tokens_of(s)[i].span.start as int] == 0x22u8,
        s[tokens_of(s)[i].span.end - 1] == 0x22u8,
{
    lemma_tokens_from_shape(s, 0);
    let ts = tokens_of(s);
    let p = ts[i].span.start as int;
    assert(i < ts.len() - 1);
    reveal(token_at);
    lemma_best_match_bounds(rules().len() as int, s, p);
    let m = longest_match(s, p)->0;
    let r = rules()[m.1 as int];
    if r is Unambiguous {
        assert(unambiguous_kind(s[p] as char) != Some(TokenKind::String));
    }
    assert(r == Rule::StringLit);
    lemma_string_close_bounds(s, p + 1);
}

proof fn lemma_end_is_boundary(s: Seq<u8>, p: int)
    requires
        0 <= p < s.len() <= usize::MAX,
        valid_utf8(s),
    ensures
        is_char_boundary(s, token_at(s, p).span.end as int),
{
    reveal(token_at);
    lemma_token_at_bounds(s, p);
    lemma_best_match_bounds(rules().len() as int, s, p);
    lemma_next_match_bounds(s, p + 1);
    vstd::utf8::is_char_boundary_start_end_of_seq(s);
    let e = token_at(s, p).span.end as int;
    if longest_match(s, p) is Some {
        lemma_after_ascii_is_boundary(s, e - 1);
    } else if e < s.len() {
        lemma_best_match_bounds(rules().len() as int, s, e);
        lemma_ascii_is_boundary(s, e);
    }
}

} // verus!
