//! Positions in UTF-8 text: how byte offsets and characters of a string relate.

use vstd::prelude::*;
use vstd::utf8::*;

verus! {

/// The offset, in bytes, of character `i` in the UTF-8 encoding of `chars`.
pub open spec fn byte_offset(chars: Seq<char>, i: int) -> int {
    encode_utf8(chars.take(i)).len() as int
}

/// The number of bytes of a character in UTF-8.
pub open spec fn char_width(c: char) -> int {
    if (c as u32) < 0x80 {
        1
    } else if (c as u32) < 0x800 {
        2
    } else if (c as u32) < 0x10000 {
        3
    } else {
        4
    }
}

/// A concatenation is encoded as the concatenation of the encodings.
pub proof fn lemma_encode_concat(a: Seq<char>, b: Seq<char>)
    ensures
        encode_utf8(a + b) == encode_utf8(a) + encode_utf8(b),
    decreases a.len(),
{
    if a.len() == 0 {
        assert(a + b =~= b);
        assert(encode_utf8(a) + encode_utf8(b) =~= encode_utf8(b));
    } else {
        assert((a + b).drop_first() =~= a.drop_first() + b);
        lemma_encode_concat(a.drop_first(), b);
        assert(encode_utf8(a + b) =~= encode_utf8(a) + encode_utf8(b));
    }
}

/// The end of `text` is its length in bytes, and the start is zero.
pub proof fn lemma_offset_ends(chars: Seq<char>)
    ensures
        byte_offset(chars, 0) == 0,
        byte_offset(chars, chars.len() as int) == encode_utf8(chars).len(),
{
    assert(chars.take(chars.len() as int) =~= chars);
}

/// What stands at the offset of character `k`.
pub proof fn lemma_char_at(chars: Seq<char>, k: int)
    requires
        0 <= k < chars.len(),
    ensures
        byte_offset(chars, k + 1) == byte_offset(chars, k) + char_width(chars[k]),
        0 <= byte_offset(chars, k) < byte_offset(chars, k + 1) <= encode_utf8(chars).len(),
        encode_utf8(chars).subrange(byte_offset(chars, k), encode_utf8(chars).len() as int)
            == encode_utf8(chars.skip(k)),
        (chars[k] as u32) < 0x80 ==> encode_utf8(chars)[byte_offset(chars, k)] == chars[k] as u8,
        (chars[k] as u32) >= 0x80 ==> encode_utf8(chars)[byte_offset(chars, k)] >= 0x80,
        is_char_boundary(encode_utf8(chars), byte_offset(chars, k)),
{
    let bytes = encode_utf8(chars);
    let pos = byte_offset(chars, k);
    let c = chars[k] as u32;
    char_is_scalar(chars[k]);
    assert(chars =~= chars.take(k) + chars.skip(k));
    lemma_encode_concat(chars.take(k), chars.skip(k));
    assert(chars.take(k + 1) =~= chars.take(k) + seq![chars[k]]);
    lemma_encode_concat(chars.take(k), seq![chars[k]]);
    assert(seq![chars[k]].drop_first() =~= Seq::<char>::empty());
    assert(encode_utf8(seq![chars[k]]) =~= encode_scalar(c)) by {
        reveal_with_fuel(encode_utf8, 2);
    }
    let rest = chars.skip(k);
    assert(rest[0] == chars[k]);
    assert(bytes.subrange(pos, bytes.len() as int) =~= encode_utf8(rest));
    assert(encode_utf8(rest) == encode_scalar(c) + encode_utf8(rest.drop_first()));
    assert(bytes[pos] == encode_utf8(rest)[0]);
    assert(encode_scalar(c).len() == char_width(chars[k]));
    assert(bytes[pos] == encode_scalar(c)[0]);
    lemma_leading_byte(c);
    if c < 0x80 {
        assert(has_width_1_encoding(c));
        assert(encode_scalar(c)[0] == leading_byte_width_1(c));
        lemma_char_value(chars[k]);
    }
    lemma_boundary(chars, k);
}

/// A character is its scalar value.
pub proof fn lemma_char_value(c: char)
    ensures
        (c as u32) as int == c as int,
        (c as u32) < 0x80 ==> c as u8 == (c as u32) as u8,
        (c as u32) < 0x80 ==> (c as u8) as int == c as int,
{
}

/// The first byte of an encoding tells ASCII from the rest.
proof fn lemma_leading_byte(c: u32)
    ensures
        c < 0x80 ==> leading_byte_width_1(c) == c as u8,
        leading_byte_width_2(c) >= 0x80,
        leading_byte_width_3(c) >= 0x80,
        leading_byte_width_4(c) >= 0x80,
{
    assert(c < 0x80 ==> (c & 0x7F) as u8 == c as u8) by (bit_vector);
    assert(0xC0u8 | ((c >> 6) & 0x1F) as u8 >= 0x80u8) by (bit_vector);
    assert(0xE0u8 | ((c >> 12) & 0x0F) as u8 >= 0x80u8) by (bit_vector);
    assert(0xF0u8 | ((c >> 18) & 0x7) as u8 >= 0x80u8) by (bit_vector);
}

/// Every character starts at a character boundary of the encoding.
proof fn lemma_boundary(chars: Seq<char>, k: int)
    requires
        0 <= k <= chars.len(),
    ensures
        is_char_boundary(encode_utf8(chars), byte_offset(chars, k)),
    decreases k,
{
    let bytes = encode_utf8(chars);
    encode_utf8_valid_utf8(chars);
    if k == 0 {
        lemma_offset_ends(chars);
    } else {
        let rest = chars.drop_first();
        encode_utf8_first_scalar(chars);
        assert(pop_first_scalar(bytes) =~= encode_utf8(rest));
        lemma_boundary(rest, k - 1);
        assert(chars.take(k).drop_first() =~= rest.take(k - 1));
        assert(chars.take(k)[0] == chars[0]);
        assert(byte_offset(chars, k) == length_of_first_scalar(bytes) + byte_offset(rest, k - 1));
        assert(chars =~= chars.take(k) + chars.skip(k));
        lemma_encode_concat(chars.take(k), chars.skip(k));
        assert(byte_offset(chars, k) <= bytes.len());
        assert(byte_offset(chars, k) > 0);
    }
}

/// Offsets grow with the character.
pub proof fn lemma_offset_monotone(chars: Seq<char>, i: int, j: int)
    requires
        0 <= i < j <= chars.len(),
    ensures
        byte_offset(chars, i) < byte_offset(chars, j),
        byte_offset(chars, j) <= encode_utf8(chars).len(),
    decreases j - i,
{
    lemma_char_at(chars, j - 1);
    if i < j - 1 {
        lemma_offset_monotone(chars, i, j - 1);
    }
}

/// A run of ASCII bytes from the offset of character `k` on is a run of as many characters.
pub proof fn lemma_ascii_run(chars: Seq<char>, k: int, len: int)
    requires
        0 <= k <= chars.len(),
        0 <= len,
        byte_offset(chars, k) + len <= encode_utf8(chars).len(),
        forall|j: int|
            byte_offset(chars, k) <= j < byte_offset(chars, k) + len ==> encode_utf8(chars)[j]
                < 0x80,
    ensures
        k + len <= chars.len(),
        forall|m: int|
            #![trigger byte_offset(chars, m)]
            k <= m <= k + len ==> byte_offset(chars, m) == byte_offset(chars, k) + (m - k),
        forall|m: int|
            #![trigger chars[m]]
            k <= m < k + len ==> (chars[m] as u32) < 0x80 && chars[m] as u8 == encode_utf8(
                chars,
            )[byte_offset(chars, k) + (m - k)],
    decreases len,
{
    lemma_offset_ends(chars);
    if len > 0 {
        lemma_ascii_run(chars, k, len - 1);
        let m = k + len - 1;
        assert(byte_offset(chars, m) == byte_offset(chars, k) + (len - 1));
        assert(m < chars.len());
        lemma_char_at(chars, m);
        assert(encode_utf8(chars)[byte_offset(chars, m)] < 0x80);
    }
}

/// The character of `text` that starts at byte `pos`.
pub(crate) fn char_at(text: &str, pos: usize, k: Ghost<int>) -> (c: char)
    requires
        0 <= k@ < text@.len(),
        pos == byte_offset(text@, k@),
    ensures
        c == text@[k@],
{
    proof {
        lemma_char_at(text@, k@);
    }
    let (_, rest) = text.split_at(pos);
    proof {
        encode_utf8_decode_utf8(rest@);
        encode_utf8_decode_utf8(text@.skip(k@));
        assert(rest@ == text@.skip(k@));
    }
    let mut chars = rest.chars();
    let first = chars.next();
    match first {
        Some(c) => c,
        None => '\0',
    }
}

/// The number of bytes that `c` takes in UTF-8.
pub(crate) fn utf8_width(c: char) -> (width: usize)
    ensures
        width == char_width(c),
{
    let code: u32 = c as u32;
    if code < 0x80 {
        1
    } else if code < 0x800 {
        2
    } else if code < 0x10000 {
        3
    } else {
        4
    }
}

} // verus!
