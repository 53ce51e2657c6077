use vstd::prelude::*;
use vstd::utf8::*;

verus! {

/// Number of bytes of the UTF-8 encoding of a `char` (what `char::len_utf8` documents).
pub open spec fn char_width(c: char) -> nat {
    if (c as u32) < 0x80 {
        1
    } else if (c as u32) < 0x800 {
        2
    } else if (c as u32) < 0x10000 {
        3
    } else {
        4
    }
}

/// Number of bytes of the UTF-8 encoding of a sequence of `char`s.
pub open spec fn byte_len(s: Seq<char>) -> nat
    decreases s.len(),
{
    if s.len() == 0 {
        0
    } else {
        char_width(s[0]) + byte_len(s.drop_first())
    }
}

/// Byte offset of the `k`-th char boundary of `s`.
pub open spec fn boundary(s: Seq<char>, k: int) -> nat {
    byte_len(s.take(k))
}

pub fn char_width_exec(c: char) -> (w: usize)
    ensures
        w == char_width(c),
        1 <= w <= 4,
{
    let v = c as u32;
    if v < 0x80 {
        1
    } else if v < 0x800 {
        2
    } else if v < 0x10000 {
        3
    } else {
        4
    }
}

pub proof fn lemma_byte_len_concat(a: Seq<char>, b: Seq<char>)
    ensures
        byte_len(a + b) == byte_len(a) + byte_len(b),
    decreases a.len(),
{
    if a.len() == 0 {
        assert(a + b =~= b);
    } else {
        assert((a + b).drop_first() =~= a.drop_first() + b);
        lemma_byte_len_concat(a.drop_first(), b);
    }
}

pub proof fn lemma_byte_len_single(c: char)
    ensures
        byte_len(seq![c]) == char_width(c),
{
    assert(seq![c].drop_first() =~= Seq::<char>::empty());
    assert(seq![c][0] == c);
    reveal_with_fuel(byte_len, 2);
}

/// A text has at least as many bytes as chars.
pub proof fn lemma_len_le_byte_len(s: Seq<char>)
    ensures
        s.len() <= byte_len(s),
{
    assert(s.take(0) =~= Seq::<char>::empty());
    lemma_boundary_full(s);
    if s.len() > 0 {
        lemma_boundary_strict(s, 0, s.len() as int);
    }
}

pub proof fn lemma_boundary_step(s: Seq<char>, k: int)
    requires
        0 <= k < s.len(),
    ensures
        boundary(s, k + 1) == boundary(s, k) + char_width(s[k]),
{
    assert(s.take(k + 1) =~= s.take(k) + seq![s[k]]);
    lemma_byte_len_concat(s.take(k), seq![s[k]]);
    lemma_byte_len_single(s[k]);
}

/// Char boundaries grow strictly with the char index.
pub proof fn lemma_boundary_strict(s: Seq<char>, i: int, j: int)
    requires
        0 <= i < j <= s.len(),
    ensures
        boundary(s, i) < boundary(s, j),
        boundary(s, j) - boundary(s, i) >= j - i,
    decreases j - i,
{
    lemma_boundary_step(s, j - 1);
    if i < j - 1 {
        lemma_boundary_strict(s, i, j - 1);
    }
}

pub proof fn lemma_boundary_mono(s: Seq<char>, i: int, j: int)
    requires
        0 <= i <= j <= s.len(),
    ensures
        boundary(s, i) <= boundary(s, j),
{
    if i < j {
        lemma_boundary_strict(s, i, j);
    }
}

pub proof fn lemma_boundary_full(s: Seq<char>)
    ensures
        boundary(s, s.len() as int) == byte_len(s),
{
    assert(s.take(s.len() as int) =~= s);
}

proof fn lemma_encode_scalar_len(c: char)
    ensures
        encode_scalar(c as u32).len() == char_width(c),
{
    char_is_scalar(c);
}

/// The UTF-8 encoding of `s` has `byte_len(s)` bytes.
pub proof fn lemma_encode_len(s: Seq<char>)
    ensures
        encode_utf8(s).len() == byte_len(s),
    decreases s.len(),
{
    if s.len() > 0 {
        lemma_encode_scalar_len(s[0]);
        lemma_encode_len(s.drop_first());
    }
}

/// The byte offset of each char index is a char boundary of the encoding.
pub proof fn lemma_boundary_is_char_boundary(s: Seq<char>, k: int)
    requires
        0 <= k <= s.len(),
    ensures
        is_char_boundary(encode_utf8(s), boundary(s, k) as int),
    decreases k,
{
    encode_utf8_valid_utf8(s);
    if k == 0 {
        assert(s.take(0) =~= Seq::<char>::empty());
    } else {
        let bytes = encode_utf8(s);
        let rest = s.drop_first();
        encode_utf8_first_scalar(s);
        assert(pop_first_scalar(bytes) =~= encode_utf8(rest));
        lemma_encode_scalar_len(s[0]);
        assert(s.take(k) =~= seq![s[0]] + rest.take(k - 1));
        lemma_byte_len_concat(seq![s[0]], rest.take(k - 1));
        lemma_byte_len_single(s[0]);
        lemma_boundary_is_char_boundary(rest, k - 1);
        lemma_boundary_mono(s, k, s.len() as int);
        lemma_boundary_full(s);
        lemma_encode_len(s);
        assert(boundary(s, k) == char_width(s[0]) + boundary(rest, k - 1));
    }
}

} // verus!
