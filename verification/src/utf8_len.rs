//! Byte lengths and byte offsets of character sequences in UTF-8.
use vstd::prelude::*;
use vstd::utf8::{encode_scalar, encode_utf8};

verus! {

broadcast use vstd::utf8::char_is_scalar;

/// Number of bytes that `c` takes in UTF-8.
pub open spec fn width(c: char) -> nat {
    let v = c as u32;
    if v <= 0x7f {
        1
    } else if v <= 0x7ff {
        2
    } else if v <= 0xffff {
        3
    } else {
        4
    }
}

/// Byte offset of the character at index `i` of `s`.
pub open spec fn byte_off(s: Seq<char>, i: int) -> nat {
    encode_utf8(s.take(i)).len()
}

/// Byte length of `s`.
pub open spec fn byte_len(s: Seq<char>) -> nat {
    encode_utf8(s).len()
}

pub proof fn lemma_scalar_len(c: char)
    ensures
        encode_scalar(c as u32).len() == width(c),
{
}

pub proof fn lemma_encode_concat(a: Seq<char>, b: Seq<char>)
    ensures
        encode_utf8(a + b) == encode_utf8(a) + encode_utf8(b),
    decreases a.len(),
{
    if a.len() == 0 {
        assert(a + b =~= b);
        assert(encode_utf8(a) =~= Seq::<u8>::empty());
        assert(encode_utf8(a) + encode_utf8(b) =~= encode_utf8(b));
    } else {
        assert((a + b).drop_first() =~= a.drop_first() + b);
        lemma_encode_concat(a.drop_first(), b);
        assert(encode_utf8(a + b) =~= encode_scalar(a[0] as u32) + encode_utf8(a.drop_first() + b));
        assert(encode_utf8(a) + encode_utf8(b) =~= encode_scalar(a[0] as u32) + (encode_utf8(
            a.drop_first(),
        ) + encode_utf8(b)));
    }
}

pub proof fn lemma_encode_single(c: char)
    ensures
        encode_utf8(seq![c]).len() == width(c),
{
    assert(seq![c].drop_first() =~= Seq::<char>::empty());
    assert(encode_utf8(Seq::<char>::empty()) =~= Seq::<u8>::empty());
    assert(encode_utf8(seq![c]) =~= encode_scalar(c as u32));
    lemma_scalar_len(c);
}

/// Offsets grow by the width of each character.
pub proof fn lemma_byte_off_step(s: Seq<char>, i: int)
    requires
        0 <= i < s.len(),
    ensures
        byte_off(s, i + 1) == byte_off(s, i) + width(s[i]),
{
    assert(s.take(i + 1) =~= s.take(i) + seq![s[i]]);
    lemma_encode_concat(s.take(i), seq![s[i]]);
    lemma_encode_single(s[i]);
}

pub proof fn lemma_byte_off_zero(s: Seq<char>)
    ensures
        byte_off(s, 0) == 0,
{
    assert(s.take(0) =~= Seq::<char>::empty());
}

pub proof fn lemma_byte_off_full(s: Seq<char>)
    ensures
        byte_off(s, s.len() as int) == byte_len(s),
{
    assert(s.take(s.len() as int) =~= s);
}

/// Offsets are strictly increasing.
pub proof fn lemma_byte_off_mono(s: Seq<char>, i: int, j: int)
    requires
        0 <= i <= j <= s.len(),
    ensures
        byte_off(s, i) + (j - i) <= byte_off(s, j),
    decreases j - i,
{
    if i < j {
        lemma_byte_off_mono(s, i, j - 1);
        lemma_byte_off_step(s, j - 1);
    }
}

/// A sequence of ASCII characters takes one byte per character.
pub proof fn lemma_ascii_len(s: Seq<char>)
    requires
        forall|k: int| 0 <= k < s.len() ==> (s[k] as u32) <= 0x7f,
    ensures
        byte_len(s) == s.len(),
    decreases s.len(),
{
    if s.len() > 0 {
        lemma_ascii_len(s.drop_first());
        lemma_scalar_len(s[0]);
    }
}

/// Every character takes at least one byte.
pub proof fn lemma_len_le_byte_len(s: Seq<char>)
    ensures
        s.len() <= byte_len(s),
{
    lemma_byte_off_zero(s);
    lemma_byte_off_mono(s, 0, s.len() as int);
    lemma_byte_off_full(s);
}

/// Number of bytes that `c` takes in UTF-8 (`char::len_utf8`).
pub fn char_width(c: char) -> (w: usize)
    ensures
        w == width(c),
{
    let v = c as u32;
    if v <= 0x7f {
        1
    } else if v <= 0x7ff {
        2
    } else if v <= 0xffff {
        3
    } else {
        4
    }
}


/// The byte offset of every character of `s`, and of its end.
pub fn byte_offsets(s: &Vec<char>) -> (r: Vec<u128>)
    ensures
        r@.len() == s@.len() + 1,
        forall|i: int| 0 <= i <= s@.len() ==> #[trigger] r@[i] == byte_off(s@, i),
        forall|i: int| 0 <= i <= s@.len() ==> #[trigger] r@[i] <= 4 * i,
{
    let mut r: Vec<u128> = Vec::new();
    let mut off: u128 = 0;
    proof {
        lemma_byte_off_zero(s@);
    }
    r.push(0);
    let mut i: usize = 0;
    while i < s.len()
        invariant
            0 <= i <= s@.len(),
            r@.len() == i + 1,
            off == byte_off(s@, i as int),
            off <= 4 * i,
            forall|k: int| 0 <= k <= i ==> #[trigger] r@[k] == byte_off(s@, k),
            forall|k: int| 0 <= k <= i ==> #[trigger] r@[k] <= 4 * k,
        decreases s@.len() - i,
    {
        proof {
            lemma_byte_off_step(s@, i as int);
        }
        off = off + char_width(s[i]) as u128;
        r.push(off);
        i = i + 1;
    }
    r
}

} // verus!
