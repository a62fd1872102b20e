//! Portable SWAR (SIMD within a register): classifying the eight bytes of a machine word at a
//! time with plain integer arithmetic.

use vstd::prelude::*;

verus! {

/// Number of bytes classified per word.
pub const WORD_BYTES: usize = 8;

/// The high bit of every byte lane.
pub const SWAR_HIGH: u64 = 0x8080_8080_8080_8080;

/// `0x01` in every byte lane.
pub const SWAR_ONES: u64 = 0x0101_0101_0101_0101;

/// Byte lane `i` of `x`, lane 0 being the least significant.
pub open spec fn lane(x: u64, i: u64) -> u8 {
    ((x >> ((8 * i) as u64)) & 0xff) as u8
}

/// Every lane of `mask` is `0x80` where `class` holds of that lane of `x`, and zero elsewhere.
pub open spec fn marks(mask: u64, x: u64, class: spec_fn(u8) -> bool) -> bool {
    forall|i: u64| i < 8 ==> #[trigger] lane(mask, i) == if class(lane(x, i)) {
        0x80u8
    } else {
        0u8
    }
}

/// Loads the eight bytes at `pos`, the first of them in lane 0.
pub fn load_chunk(bytes: &[u8], pos: usize) -> (chunk: u64)
    requires
        pos + WORD_BYTES <= bytes@.len(),
    ensures
        forall|i: u64| i < 8 ==> #[trigger] lane(chunk, i) == bytes@[pos + i],
{
    let b0: u64 = bytes[pos] as u64;
    let b1: u64 = bytes[pos + 1] as u64;
    let b2: u64 = bytes[pos + 2] as u64;
    let b3: u64 = bytes[pos + 3] as u64;
    let b4: u64 = bytes[pos + 4] as u64;
    let b5: u64 = bytes[pos + 5] as u64;
    let b6: u64 = bytes[pos + 6] as u64;
    let b7: u64 = bytes[pos + 7] as u64;
    let chunk: u64 = b0 | (b1 << 8) | (b2 << 16) | (b3 << 24) | (b4 << 32) | (b5 << 40) | (b6
        << 48) | (b7 << 56);
    assert(lane(chunk, 0) == b0 && lane(chunk, 1) == b1 && lane(chunk, 2) == b2 && lane(chunk, 3)
        == b3 && lane(chunk, 4) == b4 && lane(chunk, 5) == b5 && lane(chunk, 6) == b6 && lane(
        chunk,
        7,
    ) == b7) by (bit_vector)
        requires
            b0 < 256,
            b1 < 256,
            b2 < 256,
            b3 < 256,
            b4 < 256,
            b5 < 256,
            b6 < 256,
            b7 < 256,
            chunk == b0 | (b1 << 8) | (b2 << 16) | (b3 << 24) | (b4 << 32) | (b5 << 40) | (b6
                << 48) | (b7 << 56),
    ;
    chunk
}

/// Marks the lanes of `x` whose byte lies in `lo..=hi`. Bytes from 0x80 on never match.
///
/// The comparisons run on the low seven bits of each lane, so no addition carries into the next
/// lane; lanes with the high bit set are masked out at the end.
pub fn swar_in_range(x: u64, lo: u8, hi: u8) -> (mask: u64)
    requires
        lo <= hi <= 0x7f,
    ensures
        marks(mask, x, |b: u8| lo <= b <= hi),
{
    let lo7: u64 = x & !SWAR_HIGH;
    assert(0x0101_0101_0101_0101u64 * (0x80 - lo as u64) <= 0x8080_8080_8080_8080
        && 0x0101_0101_0101_0101u64 * (0x7f - hi as u64) <= 0x7f7f_7f7f_7f7f_7f7f
        && lo7 <= 0x7f7f_7f7f_7f7f_7f7f) by (bit_vector)
        requires
            lo <= hi <= 0x7f,
            lo7 == x & !0x8080_8080_8080_8080u64,
    ;
    let ge_lo: u64 = lo7.wrapping_add(SWAR_ONES * (0x80 - lo as u64));
    let gt_hi: u64 = lo7.wrapping_add(SWAR_ONES * (0x7f - hi as u64));
    let mask: u64 = ge_lo & !gt_hi & !x & SWAR_HIGH;
    assert forall|i: u64| i < 8 implies #[trigger] lane(mask, i) == if lo <= lane(x, i) <= hi {
        0x80u8
    } else {
        0u8
    } by {
        assert(lane(mask, i) == if lo <= lane(x, i) && lane(x, i) <= hi {
            0x80u8
        } else {
            0u8
        }) by (bit_vector)
            requires
                i < 8,
                lo <= hi <= 0x7f,
                lo7 == x & !0x8080_8080_8080_8080u64,
                ge_lo == lo7 + 0x0101_0101_0101_0101u64 * (0x80 - lo as u64),
                gt_hi == lo7 + 0x0101_0101_0101_0101u64 * (0x7f - hi as u64),
                mask == ge_lo & !gt_hi & !x & 0x8080_8080_8080_8080u64,
        ;
    }
    mask
}

/// Only high bits of lanes are set in `mask`.
pub open spec fn high_bits_only(mask: u64) -> bool {
    mask & !SWAR_HIGH == 0
}

/// A mask whose lanes are `0x80` or zero holds nothing but high bits.
pub proof fn lemma_marks_high_bits(mask: u64, x: u64, class: spec_fn(u8) -> bool)
    requires
        marks(mask, x, class),
    ensures
        high_bits_only(mask),
        mask == 0 <==> forall|i: u64| i < 8 ==> !class(#[trigger] lane(x, i)),
{
    assert(lane(mask, 0) == 0 || lane(mask, 0) == 0x80);
    assert(lane(mask, 1) == 0 || lane(mask, 1) == 0x80);
    assert(lane(mask, 2) == 0 || lane(mask, 2) == 0x80);
    assert(lane(mask, 3) == 0 || lane(mask, 3) == 0x80);
    assert(lane(mask, 4) == 0 || lane(mask, 4) == 0x80);
    assert(lane(mask, 5) == 0 || lane(mask, 5) == 0x80);
    assert(lane(mask, 6) == 0 || lane(mask, 6) == 0x80);
    assert(lane(mask, 7) == 0 || lane(mask, 7) == 0x80);
    assert(mask & !0x8080_8080_8080_8080u64 == 0 && (mask == 0 <==> lane(mask, 0) == 0 && lane(
        mask,
        1,
    ) == 0 && lane(mask, 2) == 0 && lane(mask, 3) == 0 && lane(mask, 4) == 0 && lane(mask, 5) == 0
        && lane(mask, 6) == 0 && lane(mask, 7) == 0)) by (bit_vector)
        requires
            lane(mask, 0) == 0 || lane(mask, 0) == 0x80,
            lane(mask, 1) == 0 || lane(mask, 1) == 0x80,
            lane(mask, 2) == 0 || lane(mask, 2) == 0x80,
            lane(mask, 3) == 0 || lane(mask, 3) == 0x80,
            lane(mask, 4) == 0 || lane(mask, 4) == 0x80,
            lane(mask, 5) == 0 || lane(mask, 5) == 0x80,
            lane(mask, 6) == 0 || lane(mask, 6) == 0x80,
            lane(mask, 7) == 0 || lane(mask, 7) == 0x80,
    ;
    if forall|i: u64| i < 8 ==> !class(#[trigger] lane(x, i)) {
        assert forall|i: u64| i < 8 implies lane(mask, i) == 0 by {
            assert(!class(lane(x, i)));
        }
    }
}

/// The first lane of `mask` that is set, of a mask in which only high bits are.
pub fn first_boundary_byte(mask: u64) -> (first: usize)
    requires
        mask != 0,
        high_bits_only(mask),
    ensures
        first < 8,
        lane(mask, first as u64) != 0,
        forall|i: u64| i < first ==> #[trigger] lane(mask, i) == 0,
{
    let zeros: u32 = mask.trailing_zeros();
    proof {
        vstd::std_specs::bits::axiom_u64_trailing_zeros(mask);
        let t: u64 = zeros as u64;
        let first: u64 = (zeros / 8) as u64;
        assert(first < 8 && lane(mask, first) != 0) by (bit_vector)
            requires
                t < 64,
                first == t / 8,
                (mask >> t) & 1 == 1,
        ;
        assert forall|i: u64| i < first implies #[trigger] lane(mask, i) == 0 by {
            assert(lane(mask, i) == 0) by (bit_vector)
                requires
                    t < 64,
                    first == t / 8,
                    i < first,
                    mask << ((64 - t) as u64) == 0,
            ;
        }
    }
    (zeros / 8) as usize
}

/// Tells whether a lane of `mask` before the first set lane of `boundary` is set.
pub fn any_before_boundary(mask: u64, boundary: u64) -> (found: bool)
    requires
        high_bits_only(mask),
        boundary != 0,
        high_bits_only(boundary),
    ensures
        found <==> exists|i: u64|
            i < 8 && #[trigger] lane(mask, i) != 0 && forall|j: u64|
                j <= i ==> #[trigger] lane(boundary, j) == 0,
{
    // The lowest set bit of `boundary`; what is below it belongs to the lanes before.
    let consumed_mask: u64 = boundary & 0u64.wrapping_sub(boundary);
    assert(consumed_mask > 0) by (bit_vector)
        requires
            boundary != 0,
            consumed_mask == boundary & ((0x1_0000_0000_0000_0000 - boundary) as u64),
    ;
    let found: bool = (mask & (consumed_mask - 1)) != 0;
    assert(found <==> (lane(mask, 0) != 0 && lane(boundary, 0) == 0)
        || (lane(mask, 1) != 0 && lane(boundary, 0) == 0 && lane(boundary, 1) == 0)
        || (lane(mask, 2) != 0 && lane(boundary, 0) == 0 && lane(boundary, 1) == 0
        && lane(boundary, 2) == 0)
        || (lane(mask, 3) != 0 && lane(boundary, 0) == 0 && lane(boundary, 1) == 0
        && lane(boundary, 2) == 0 && lane(boundary, 3) == 0)
        || (lane(mask, 4) != 0 && lane(boundary, 0) == 0 && lane(boundary, 1) == 0
        && lane(boundary, 2) == 0 && lane(boundary, 3) == 0 && lane(boundary, 4) == 0)
        || (lane(mask, 5) != 0 && lane(boundary, 0) == 0 && lane(boundary, 1) == 0
        && lane(boundary, 2) == 0 && lane(boundary, 3) == 0 && lane(boundary, 4) == 0
        && lane(boundary, 5) == 0)
        || (lane(mask, 6) != 0 && lane(boundary, 0) == 0 && lane(boundary, 1) == 0
        && lane(boundary, 2) == 0 && lane(boundary, 3) == 0 && lane(boundary, 4) == 0
        && lane(boundary, 5) == 0 && lane(boundary, 6) == 0)
        || (lane(mask, 7) != 0 && lane(boundary, 0) == 0 && lane(boundary, 1) == 0
        && lane(boundary, 2) == 0 && lane(boundary, 3) == 0 && lane(boundary, 4) == 0
        && lane(boundary, 5) == 0 && lane(boundary, 6) == 0 && lane(boundary, 7) == 0)) by (bit_vector)
        requires
            mask & !0x8080_8080_8080_8080u64 == 0,
            boundary & !0x8080_8080_8080_8080u64 == 0,
            boundary != 0,
            consumed_mask == boundary & ((0x1_0000_0000_0000_0000 - boundary) as u64),
            found == ((mask & ((consumed_mask - 1) as u64)) != 0),
    ;
    found
}

} // verus!
