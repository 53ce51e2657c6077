use vstd::prelude::*;
use vstd::utf8::{
    valid_utf8, is_char_boundary, pop_first_scalar, length_of_first_scalar,
    valid_utf8_split, is_char_boundary_start_end_of_seq,
    is_char_boundary_iff_not_is_continuation_byte,
};

verus! {

/// The position after an ASCII byte that starts a char is a char boundary.
pub proof fn lemma_ascii_next_boundary(b: Seq<u8>, i: int)
    requires
        valid_utf8(b),
        0 <= i < b.len(),
        is_char_boundary(b, i),
        b[i] < 0x80,
    ensures
        is_char_boundary(b, i + 1),
    decreases b.len(),
{
    let l = length_of_first_scalar(b);
    let rest = pop_first_scalar(b);
    reveal_with_fuel(valid_utf8, 2);
    if i == 0 {
        assert(l == 1);
        reveal_with_fuel(is_char_boundary, 2);
    } else {
        reveal_with_fuel(is_char_boundary, 2);
        assert(is_char_boundary(rest, i - l));
        assert(i - l >= 0);
        assert(rest[i - l] == b[i]);
        assert(rest.len() < b.len());
        lemma_ascii_next_boundary(rest, i - l);
        assert(is_char_boundary(b, i + 1));
    }
}

/// An ASCII byte starts a char.
pub proof fn lemma_ascii_boundary(b: Seq<u8>, i: int)
    requires
        valid_utf8(b),
        0 <= i < b.len(),
        b[i] < 0x80,
    ensures
        is_char_boundary(b, i),
{
    is_char_boundary_iff_not_is_continuation_byte(b, i);
}

/// The bytes between two char boundaries are valid UTF-8.
pub proof fn lemma_piece_valid(b: Seq<u8>, x: int, y: int)
    requires
        valid_utf8(b),
        0 <= x <= y <= b.len(),
        is_char_boundary(b, x),
        is_char_boundary(b, y),
    ensures
        valid_utf8(b.subrange(x, y)),
{
    valid_utf8_split(b, x);
    let s = b.subrange(x, b.len() as int);
    if y == b.len() {
        is_char_boundary_start_end_of_seq(s);
        assert(s.len() == y - x);
    } else {
        is_char_boundary_iff_not_is_continuation_byte(b, y);
        assert(s[y - x] == b[y]);
        is_char_boundary_iff_not_is_continuation_byte(s, y - x);
    }
    valid_utf8_split(s, y - x);
    assert(s.subrange(0, y - x) =~= b.subrange(x, y));
}

} // verus!
