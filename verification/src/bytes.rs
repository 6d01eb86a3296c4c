//! Offsets in bytes: how far into the UTF-8 form of a text a position in
//! characters lies.

use vstd::prelude::*;
use vstd::utf8::{char_is_scalar, encode_scalar, encode_utf8};

verus! {

/// The offset in bytes, within the UTF-8 form of `s`, of the character at
/// position `at`.
pub open spec fn byte_offset_of(s: Seq<char>, at: int) -> int {
    encode_utf8(s.take(at)).len() as int
}

/// The UTF-8 form of a text followed by another is the form of the one
/// followed by the form of the other.
pub proof fn lemma_encode_concat(a: Seq<char>, b: Seq<char>)
    ensures
        encode_utf8(a + b) == encode_utf8(a) + encode_utf8(b),
    decreases a.len(),
{
    if a.len() == 0 {
        assert(a + b =~= b);
        assert(encode_utf8(a) + encode_utf8(b) =~= encode_utf8(b));
    } else {
        let first = encode_scalar(a[0] as u32);
        assert((a + b)[0] == a[0]);
        assert((a + b).drop_first() =~= a.drop_first() + b);
        lemma_encode_concat(a.drop_first(), b);
        assert(first + (encode_utf8(a.drop_first()) + encode_utf8(b)) =~= (first + encode_utf8(
            a.drop_first(),
        )) + encode_utf8(b));
    }
}

/// One character further, the byte offset grows by the width of the
/// character that was passed; and no offset lies behind the end of the text.
pub proof fn lemma_byte_offset_step(s: Seq<char>, at: int)
    requires
        0 <= at < s.len(),
    ensures
        byte_offset_of(s, at + 1) == byte_offset_of(s, at) + encode_scalar(s[at] as u32).len(),
        byte_offset_of(s, at + 1) <= encode_utf8(s).len(),
{
    let one = seq![s[at]];
    assert(s.take(at + 1) =~= s.take(at) + one);
    lemma_encode_concat(s.take(at), one);
    let width = encode_scalar(s[at] as u32);
    assert(one[0] == s[at]);
    assert(one.drop_first() =~= Seq::<char>::empty());
    assert(encode_utf8(one.drop_first()) == Seq::<u8>::empty());
    assert(encode_utf8(one) == width + encode_utf8(one.drop_first()));
    assert(width + Seq::<u8>::empty() =~= width);
    assert(s =~= s.take(at + 1) + s.skip(at + 1));
    lemma_encode_concat(s.take(at + 1), s.skip(at + 1));
}

/// The number of bytes that a character takes in UTF-8.
pub fn utf8_width(c: char) -> (w: usize)
    ensures
        w == encode_scalar(c as u32).len(),
        1 <= w <= 4,
{
    proof {
        char_is_scalar(c);
    }
    let v = c as u32;
    if v <= 0x7F {
        1
    } else if v <= 0x7FF {
        2
    } else if v <= 0xFFFF {
        3
    } else {
        4
    }
}

} // verus!
