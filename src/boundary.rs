//! Facts about character boundaries in UTF-8 text.
use vstd::prelude::*;
use vstd::utf8::*;

verus! {

broadcast use {
    is_char_boundary_iff_not_is_continuation_byte,
    is_char_boundary_start_end_of_seq,
    encode_utf8_valid_utf8,
};

/// A boundary of `b` at or after `i` is a boundary of the tail of `b` from `i`.
pub proof fn lemma_char_boundary_shift(b: Seq<u8>, i: int, j: int)
    requires
        valid_utf8(b),
        0 <= i <= j <= b.len(),
        is_char_boundary(b, i),
        is_char_boundary(b, j),
    ensures
        valid_utf8(b.subrange(i, b.len() as int)),
        is_char_boundary(b.subrange(i, b.len() as int), j - i),
{
    valid_utf8_split(b, i);
    let tail = b.subrange(i, b.len() as int);
    if j < b.len() {
        assert(tail[j - i] == b[j]);
        is_char_boundary_iff_not_is_continuation_byte(b, j);
        is_char_boundary_iff_not_is_continuation_byte(tail, j - i);
    }
}

/// The position just after an ASCII byte is a character boundary.
pub proof fn lemma_after_ascii_is_boundary(b: Seq<u8>, i: int)
    requires
        valid_utf8(b),
        0 <= i < b.len(),
        b[i] < 0x80,
    ensures
        is_char_boundary(b, i + 1),
    decreases b.len(),
{
    let l = length_of_first_scalar(b);
    if i == 0 {
        reveal_with_fuel(is_char_boundary, 2);
        assert(pop_first_scalar(b).len() == b.len() - 1);
    } else {
        assert(l >= 1);
        if i < l {
            assert(is_continuation_byte(b[i]));
        } else {
            let rest = pop_first_scalar(b);
            assert(rest[i - l] == b[i]);
            lemma_after_ascii_is_boundary(rest, i - l);
            reveal_with_fuel(is_char_boundary, 2);
        }
    }
}

/// Positions holding an ASCII byte are character boundaries.
pub proof fn lemma_ascii_is_boundary(b: Seq<u8>, i: int)
    requires
        valid_utf8(b),
        0 <= i < b.len(),
        b[i] < 0x80,
    ensures
        is_char_boundary(b, i),
{
    is_char_boundary_iff_not_is_continuation_byte(b, i);
}

} // verus!
