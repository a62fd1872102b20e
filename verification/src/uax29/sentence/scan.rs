//! Scanning the interior of a sentence, which holds most of a text.

use vstd::prelude::*;

use crate::uax29::swar;
use crate::uax29::swar::{
    first_boundary_byte, load_chunk, swar_in_range, SWAR_HIGH, WORD_BYTES,
};

verus! {

/// A byte that the automaton must inspect from inside of a sentence: one outside of ASCII, or one
/// of `\n`, `\r`, `!`, `.` and `?`. `\x0B` and `\x0C` are among them for free: to stop at them is
/// harmless.
pub open spec fn is_stop_byte(b: u8) -> bool {
    b >= 0x80 || 0x0a <= b <= 0x0d || b == '!' as u8 || b == '.' as u8 || b == '?' as u8
}

/// `start..end` is the longest run of bytes from `start` on that are no stop bytes.
pub open spec fn is_interior_run(bytes: Seq<u8>, start: int, end: int) -> bool {
    &&& start <= end
    &&& start < end ==> end <= bytes.len()
    &&& forall|j: int| start <= j < end ==> !is_stop_byte(#[trigger] bytes[j])
    &&& end < bytes.len() ==> is_stop_byte(bytes[end])
}

/// The scan of a run is determined by the bytes: however many of them are classified at a time, it
/// ends at the same place.
pub proof fn lemma_scans_agree(bytes: Seq<u8>, start: int, first: int, second: int)
    requires
        0 <= start,
        is_interior_run(bytes, start, first),
        is_interior_run(bytes, start, second),
    ensures
        first == second,
{
    if first < second {
        assert(!is_stop_byte(bytes[first]));
    }
    if second < first {
        assert(!is_stop_byte(bytes[second]));
    }
}

/// Tells whether `b` must be inspected from inside of a sentence.
pub fn is_sentence_stop_byte(b: u8) -> (stop: bool)
    ensures
        stop == is_stop_byte(b),
{
    b >= 0x80 || b == 0x0a || b == 0x0b || b == 0x0c || b == 0x0d || b == '!' as u8 || b
        == '.' as u8 || b == '?' as u8
}

/// Marks the lanes of `chunk` that hold a stop byte.
fn stop_mask(chunk: u64) -> (stop: u64)
    ensures
        swar::marks(stop, chunk, |b: u8| is_stop_byte(b)),
{
    let lines: u64 = swar_in_range(chunk, 0x0a, 0x0d);
    let exclamation: u64 = swar_in_range(chunk, '!' as u8, '!' as u8);
    let period: u64 = swar_in_range(chunk, '.' as u8, '.' as u8);
    let question: u64 = swar_in_range(chunk, '?' as u8, '?' as u8);
    let stop: u64 = (chunk & SWAR_HIGH) | lines | exclamation | period | question;
    assert forall|i: u64| i < 8 implies #[trigger] swar::lane(stop, i) == if is_stop_byte(
        swar::lane(chunk, i),
    ) {
        0x80u8
    } else {
        0u8
    } by {
        let b = swar::lane(chunk, i);
        let l = swar::lane(lines, i);
        let e = swar::lane(exclamation, i);
        let p = swar::lane(period, i);
        let q = swar::lane(question, i);
        assert(swar::lane(stop, i) == (b & 0x80) | l | e | p | q) by (bit_vector)
            requires
                i < 8,
                b == swar::lane(chunk, i),
                l == swar::lane(lines, i),
                e == swar::lane(exclamation, i),
                p == swar::lane(period, i),
                q == swar::lane(question, i),
                stop == (chunk & 0x8080_8080_8080_8080u64) | lines | exclamation | period
                    | question,
        ;
        assert((b & 0x80) | l | e | p | q == if b >= 0x80 || l != 0 || e != 0 || p != 0 || q != 0 {
            0x80u8
        } else {
            0u8
        }) by (bit_vector)
            requires
                l == 0 || l == 0x80,
                e == 0 || e == 0x80,
                p == 0 || p == 0x80,
                q == 0 || q == 0x80,
        ;
    }
    stop
}

/// Scans the interior of a sentence from `start` on, and hands back where the first stop byte
/// stands, or the length where there is none.
pub fn scan_sentence_interior(bytes: &[u8], start: usize) -> (end: usize)
    ensures
        is_interior_run(bytes@, start as int, end as int),
{
    let mut pos: usize = start;
    // One machine word at a time.
    while pos < bytes.len() && bytes.len() - pos >= WORD_BYTES
        invariant
            start <= pos,
            start < pos ==> pos <= bytes@.len(),
            forall|j: int| start <= j < pos ==> !is_stop_byte(#[trigger] bytes@[j]),
        decreases bytes@.len() - pos,
    {
        let chunk: u64 = load_chunk(bytes, pos);
        let stop: u64 = stop_mask(chunk);
        proof {
            swar::lemma_marks_high_bits(stop, chunk, |b: u8| is_stop_byte(b));
        }
        if stop == 0 {
            proof {
                assert forall|j: int| start <= j < pos + 8 implies !is_stop_byte(
                    #[trigger] bytes@[j],
                ) by {
                    if j >= pos {
                        let i = (j - pos) as u64;
                        assert(swar::lane(chunk, i) == bytes@[pos + i]);
                        assert(!is_stop_byte(swar::lane(chunk, i)));
                    }
                }
            }
            pos = pos + WORD_BYTES;
        } else {
            let first: usize = first_boundary_byte(stop);
            proof {
                assert(swar::lane(chunk, first as u64) == bytes@[pos + first]);
                assert forall|j: int| start <= j < pos + first implies !is_stop_byte(
                    #[trigger] bytes@[j],
                ) by {
                    if j >= pos {
                        let i = (j - pos) as u64;
                        assert(swar::lane(chunk, i) == bytes@[pos + i]);
                        assert(swar::lane(stop, i) == 0);
                    }
                }
            }
            return pos + first;
        }
    }
    // What is left, one byte at a time.
    while pos < bytes.len() && !is_sentence_stop_byte(bytes[pos])
        invariant
            start <= pos,
            start < pos ==> pos <= bytes@.len(),
            forall|j: int| start <= j < pos ==> !is_stop_byte(#[trigger] bytes@[j]),
        decreases bytes@.len() - pos,
    {
        pos = pos + 1;
    }
    pos
}

} // verus!
