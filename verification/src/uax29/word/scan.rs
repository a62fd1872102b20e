//! Scanning the ASCII "word-continue" run `[a-zA-Z0-9_]`, the hottest loop of the word tokenizer.
//!
//! The backends differ in how many bytes they classify at a time and in how they reduce the
//! classification; what they return is the same.

use vstd::prelude::*;

use crate::uax29::swar;
use crate::uax29::swar::{
    any_before_boundary, first_boundary_byte, load_chunk, swar_in_range, SWAR_HIGH, SWAR_ONES,
    WORD_BYTES,
};

verus! {

/// An ASCII letter or digit.
pub open spec fn is_alnum_byte(b: u8) -> bool {
    ('a' as u8) <= b <= 'z' as u8 || ('A' as u8) <= b <= 'Z' as u8 || ('0' as u8) <= b <= '9' as u8
}

/// An ASCII uppercase letter.
pub open spec fn is_upper_byte(b: u8) -> bool {
    ('A' as u8) <= b <= 'Z' as u8
}

/// A byte that continues a word: an ASCII letter, a digit or `_`.
pub open spec fn is_continue_byte(b: u8) -> bool {
    is_alnum_byte(b) || b == '_' as u8
}

/// `start..end` is the longest run of word-continue bytes from `start` on.
pub open spec fn is_word_run(bytes: Seq<u8>, start: int, end: int) -> bool {
    &&& start <= end
    &&& start < end ==> end <= bytes.len()
    &&& forall|j: int| start <= j < end ==> is_continue_byte(#[trigger] bytes[j])
    &&& end < bytes.len() ==> !is_continue_byte(bytes[end])
}

/// Some byte of `bytes[start..end]` is a letter or a digit.
pub open spec fn any_alnum(bytes: Seq<u8>, start: int, end: int) -> bool {
    exists|j: int| start <= j < end && is_alnum_byte(#[trigger] bytes[j])
}

/// Some byte of `bytes[start..end]` is an uppercase letter.
pub open spec fn any_upper(bytes: Seq<u8>, start: int, end: int) -> bool {
    exists|j: int| start <= j < end && is_upper_byte(#[trigger] bytes[j])
}

/// `scan` is where the run from `start` on ends, whether it holds a letter or a digit, and, where
/// that was asked for, whether it holds an uppercase letter.
pub open spec fn is_word_scan(
    bytes: Seq<u8>,
    start: int,
    ascii_uppercase: bool,
    scan: (usize, bool, bool),
) -> bool {
    &&& is_word_run(bytes, start, scan.0 as int)
    &&& scan.1 == any_alnum(bytes, start, scan.0 as int)
    &&& scan.2 == (ascii_uppercase && any_upper(bytes, start, scan.0 as int))
}

/// The scan of a run is determined by the bytes: two backends that meet [`is_word_scan`] return
/// the same.
pub proof fn lemma_scans_agree(
    bytes: Seq<u8>,
    start: int,
    ascii_uppercase: bool,
    first: (usize, bool, bool),
    second: (usize, bool, bool),
)
    requires
        0 <= start,
        is_word_scan(bytes, start, ascii_uppercase, first),
        is_word_scan(bytes, start, ascii_uppercase, second),
    ensures
        first == second,
{
    if first.0 < second.0 {
        assert(is_continue_byte(bytes[first.0 as int]));
    }
    if second.0 < first.0 {
        assert(is_continue_byte(bytes[second.0 as int]));
    }
}

/// Tells whether `b` is one of `[a-zA-Z0-9]`.
pub fn is_ascii_alnum(b: u8) -> (alnum: bool)
    ensures
        alnum == is_alnum_byte(b),
{
    assert((0x61 <= b | 0x20 && b | 0x20 <= 0x7a) <==> (0x61 <= b && b <= 0x7a || 0x41 <= b && b
        <= 0x5a)) by (bit_vector);
    let is_alpha: bool = (b | 0x20).wrapping_sub('a' as u8) < 26;
    let is_digit: bool = b.wrapping_sub('0' as u8) < 10;
    is_alpha || is_digit
}

/// Finishes a word-continue run one byte at a time from `pos` on, folding what it sees into
/// `word_like` and `has_upper`.
pub fn scan_word_continue_tail<const ASCII_UPPERCASE: bool>(
    bytes: &[u8],
    pos: usize,
    word_like: bool,
    has_upper: bool,
) -> (scan: (usize, bool, bool))
    ensures
        is_word_run(bytes@, pos as int, scan.0 as int),
        scan.1 == (word_like || any_alnum(bytes@, pos as int, scan.0 as int)),
        scan.2 == (has_upper || ASCII_UPPERCASE && any_upper(bytes@, pos as int, scan.0 as int)),
{
    let start: usize = pos;
    let word_like_before: bool = word_like;
    let has_upper_before: bool = has_upper;
    let mut pos: usize = pos;
    let mut word_like: bool = word_like;
    let mut has_upper: bool = has_upper;
    while pos < bytes.len()
        invariant
            start <= pos,
            start < pos ==> pos <= bytes@.len(),
            forall|j: int| start <= j < pos ==> is_continue_byte(#[trigger] bytes@[j]),
            word_like == (word_like_before || any_alnum(bytes@, start as int, pos as int)),
            has_upper == (has_upper_before || ASCII_UPPERCASE && any_upper(
                bytes@,
                start as int,
                pos as int,
            )),
        ensures
            pos < bytes@.len() ==> !is_continue_byte(bytes@[pos as int]),
        decreases bytes.len() - pos,
    {
        let b: u8 = bytes[pos];
        let is_alnum: bool = is_ascii_alnum(b);
        if !(is_alnum || b == '_' as u8) {
            break;
        }
        word_like = word_like || is_alnum;
        if ASCII_UPPERCASE {
            has_upper = has_upper || (('A' as u8) <= b && b <= 'Z' as u8);
        }
        pos += 1;
    }
    (pos, word_like, has_upper)
}

/// Classifies the eight lanes of `chunk` for the word-continue scan: the lanes that hold a letter
/// or a digit, those that hold an uppercase letter (none unless that was asked for), and those
/// that end the run.
pub fn swar_classify_word<const ASCII_UPPERCASE: bool>(chunk: u64) -> (masks: (u64, u64, u64))
    ensures
        swar::marks(masks.0, chunk, |b: u8| is_alnum_byte(b)),
        swar::marks(masks.1, chunk, |b: u8| ASCII_UPPERCASE && is_upper_byte(b)),
        swar::marks(masks.2, chunk, |b: u8| !is_continue_byte(b)),
{
    let lowered: u64 = chunk | (SWAR_ONES * 0x20);
    let is_alpha: u64 = swar_in_range(lowered, 'a' as u8, 'z' as u8);
    let digit: u64 = swar_in_range(chunk, '0' as u8, '9' as u8);
    let alnum: u64 = is_alpha | digit;
    // The case bit of each lane, shifted into that lane's high bit, tells upper from lower.
    let upper: u64 = if ASCII_UPPERCASE {
        is_alpha & !(chunk << 2) & SWAR_HIGH
    } else {
        0
    };
    let connector: u64 = swar_in_range(chunk, '_' as u8, '_' as u8);
    let cont: u64 = alnum | connector;
    let boundary: u64 = (!cont) & SWAR_HIGH;
    proof {
        assert forall|i: u64|
            #![trigger swar::lane(alnum, i)]
            #![trigger swar::lane(upper, i)]
            #![trigger swar::lane(boundary, i)]
            i < 8 implies {
            &&& swar::lane(alnum, i) == if is_alnum_byte(swar::lane(chunk, i)) {
                0x80u8
            } else {
                0u8
            }
            &&& swar::lane(upper, i) == if ASCII_UPPERCASE && is_upper_byte(swar::lane(chunk, i)) {
                0x80u8
            } else {
                0u8
            }
            &&& swar::lane(boundary, i) == if !is_continue_byte(swar::lane(chunk, i)) {
                0x80u8
            } else {
                0u8
            }
        } by {
            let b = swar::lane(chunk, i);
            assert(swar::lane(is_alpha, i) == if 0x61 <= swar::lane(lowered, i) <= 0x7a {
                0x80u8
            } else {
                0u8
            });
            assert(swar::lane(digit, i) == if 0x30 <= b <= 0x39 {
                0x80u8
            } else {
                0u8
            });
            assert(swar::lane(connector, i) == if b == 0x5f {
                0x80u8
            } else {
                0u8
            });
            assert(swar::lane(lowered, i) == b | 0x20) by (bit_vector)
                requires
                    i < 8,
                    b == swar::lane(chunk, i),
                    lowered == chunk | 0x2020_2020_2020_2020u64,
            ;
            assert((0x61 <= b | 0x20 && b | 0x20 <= 0x7a) <==> (0x61 <= b && b <= 0x7a || 0x41 <= b
                && b <= 0x5a)) by (bit_vector);
            assert(swar::lane(alnum, i) == swar::lane(is_alpha, i) | swar::lane(digit, i)
                && swar::lane(boundary, i) == (!(swar::lane(is_alpha, i) | swar::lane(digit, i)
                | swar::lane(connector, i))) & 0x80 && swar::lane(
                is_alpha & !(chunk << 2) & 0x8080_8080_8080_8080u64,
                i,
            ) == swar::lane(is_alpha, i) & !(b << 2) & 0x80) by (bit_vector)
                requires
                    i < 8,
                    b == swar::lane(chunk, i),
                    alnum == is_alpha | digit,
                    boundary == (!(alnum | connector)) & 0x8080_8080_8080_8080u64,
            ;
            assert(0x80u8 | 0x80u8 == 0x80u8 && 0x80u8 | 0u8 == 0x80u8 && 0u8 | 0x80u8 == 0x80u8
                && 0u8 | 0u8 == 0u8 && (!0x80u8) & 0x80u8 == 0u8 && (!0u8) & 0x80u8 == 0x80u8)
                by (bit_vector);
            assert(0x80u8 & !(b << 2) & 0x80u8 == (if b & 0x20 == 0 {
                0x80u8
            } else {
                0u8
            }) && 0u8 & !(b << 2) & 0x80u8 == 0u8 && (0x41 <= b && b <= 0x5a ==> b & 0x20 == 0) && (
            0x61 <= b && b <= 0x7a ==> b & 0x20 != 0)) by (bit_vector);
            assert(swar::lane(0, i) == 0) by (bit_vector)
                requires
                    i < 8,
            ;
        }
    }
    (alnum, upper, boundary)
}

/// `masks` classify the eight bytes at `pos`.
spec fn is_classified(
    bytes: Seq<u8>,
    pos: int,
    ascii_uppercase: bool,
    masks: (u64, u64, u64),
) -> bool {
    &&& swar::high_bits_only(masks.0)
    &&& swar::high_bits_only(masks.1)
    &&& swar::high_bits_only(masks.2)
    &&& forall|i: u64|
        i < 8 ==> (#[trigger] swar::lane(masks.0, i) != 0 <==> is_alnum_byte(bytes[pos + i]))
    &&& forall|i: u64|
        i < 8 ==> (#[trigger] swar::lane(masks.1, i) != 0 <==> ascii_uppercase && is_upper_byte(
            bytes[pos + i],
        ))
    &&& forall|i: u64|
        i < 8 ==> (#[trigger] swar::lane(masks.2, i) != 0 <==> !is_continue_byte(bytes[pos + i]))
    &&& masks.0 != 0 <==> any_alnum(bytes, pos, pos + 8)
    &&& masks.1 != 0 <==> ascii_uppercase && any_upper(bytes, pos, pos + 8)
    &&& masks.2 == 0 <==> forall|j: int|
        pos <= j < pos + 8 ==> is_continue_byte(#[trigger] bytes[j])
}

/// The masks of the word that holds the eight bytes at `pos` classify them.
proof fn lemma_chunk_masks(
    bytes: Seq<u8>,
    pos: int,
    chunk: u64,
    ascii_uppercase: bool,
    masks: (u64, u64, u64),
)
    requires
        0 <= pos,
        pos + 8 <= bytes.len(),
        forall|i: u64| i < 8 ==> #[trigger] swar::lane(chunk, i) == bytes[pos + i],
        swar::marks(masks.0, chunk, |b: u8| is_alnum_byte(b)),
        swar::marks(masks.1, chunk, |b: u8| ascii_uppercase && is_upper_byte(b)),
        swar::marks(masks.2, chunk, |b: u8| !is_continue_byte(b)),
    ensures
        is_classified(bytes, pos, ascii_uppercase, masks),
{
    let alnum = |b: u8| is_alnum_byte(b);
    let upper = |b: u8| ascii_uppercase && is_upper_byte(b);
    let ends = |b: u8| !is_continue_byte(b);
    swar::lemma_marks_high_bits(masks.0, chunk, alnum);
    swar::lemma_marks_high_bits(masks.1, chunk, upper);
    swar::lemma_marks_high_bits(masks.2, chunk, ends);
    assert forall|i: u64| i < 8 implies (#[trigger] swar::lane(masks.0, i) != 0 <==> is_alnum_byte(
        bytes[pos + i],
    )) by {
        assert(swar::lane(chunk, i) == bytes[pos + i]);
    }
    assert forall|i: u64| i < 8 implies (#[trigger] swar::lane(masks.1, i) != 0 <==> ascii_uppercase
        && is_upper_byte(bytes[pos + i])) by {
        assert(swar::lane(chunk, i) == bytes[pos + i]);
    }
    assert forall|i: u64| i < 8 implies (#[trigger] swar::lane(masks.2, i) != 0 <==> !is_continue_byte(
        bytes[pos + i],
    )) by {
        assert(swar::lane(chunk, i) == bytes[pos + i]);
    }
    assert forall|j: int| pos <= j < pos + 8 implies #[trigger] bytes[j] == swar::lane(
        chunk,
        (j - pos) as u64,
    ) by {
        assert(swar::lane(chunk, (j - pos) as u64) == bytes[pos + (j - pos) as u64]);
    }
    if masks.0 != 0 {
        let i = choose|i: u64| i < 8 && alnum(#[trigger] swar::lane(chunk, i));
        assert(is_alnum_byte(bytes[pos + i]));
    }
    if masks.1 != 0 {
        let i = choose|i: u64| i < 8 && upper(#[trigger] swar::lane(chunk, i));
        assert(is_upper_byte(bytes[pos + i]));
    }
    if masks.2 != 0 {
        let i = choose|i: u64| i < 8 && ends(#[trigger] swar::lane(chunk, i));
        assert(!is_continue_byte(bytes[pos + i]));
    }
    if any_alnum(bytes, pos, pos + 8) {
        let j = choose|j: int| pos <= j < pos + 8 && is_alnum_byte(#[trigger] bytes[j]);
        assert(alnum(swar::lane(chunk, (j - pos) as u64)));
    }
    if ascii_uppercase && any_upper(bytes, pos, pos + 8) {
        let j = choose|j: int| pos <= j < pos + 8 && is_upper_byte(#[trigger] bytes[j]);
        assert(upper(swar::lane(chunk, (j - pos) as u64)));
    }
    if masks.2 == 0 {
        assert forall|j: int| pos <= j < pos + 8 implies is_continue_byte(#[trigger] bytes[j]) by {
            assert(!ends(swar::lane(chunk, (j - pos) as u64)));
        }
    }
}

/// Portable core: classifies eight bytes per iteration while a full word remains, and leaves the
/// rest to [`scan_word_continue_tail`].
pub fn scan_word_continue_swar<const ASCII_UPPERCASE: bool>(
    bytes: &[u8],
    start: usize,
) -> (scan: (usize, bool, bool))
    ensures
        is_word_scan(bytes@, start as int, ASCII_UPPERCASE, scan),
{
    let mut pos: usize = start;
    let mut word_like: bool = false;
    let mut has_upper: bool = false;
    while pos < bytes.len() && bytes.len() - pos >= WORD_BYTES
        invariant
            start <= pos,
            start < pos ==> pos <= bytes@.len(),
            forall|j: int| start <= j < pos ==> is_continue_byte(#[trigger] bytes@[j]),
            word_like == any_alnum(bytes@, start as int, pos as int),
            has_upper == (ASCII_UPPERCASE && any_upper(bytes@, start as int, pos as int)),
        decreases bytes.len() - pos,
    {
        let chunk: u64 = load_chunk(bytes, pos);
        let (alnum, upper, boundary) = swar_classify_word::<ASCII_UPPERCASE>(chunk);
        proof {
            lemma_chunk_masks(
                bytes@,
                pos as int,
                chunk,
                ASCII_UPPERCASE,
                (alnum, upper, boundary),
            );
        }
        if boundary == 0 {
            proof {
                lemma_any_split(bytes@, start as int, pos as int, pos + 8);
            }
            word_like = word_like || alnum != 0;
            if ASCII_UPPERCASE {
                has_upper = has_upper || upper != 0;
            }
            pos += WORD_BYTES;
        } else {
            let off: usize = first_boundary_byte(boundary);
            proof {
                lemma_partial_chunk(
                    bytes@,
                    pos as int,
                    ASCII_UPPERCASE,
                    (alnum, upper, boundary),
                    off as u64,
                );
                lemma_any_split(bytes@, start as int, pos as int, pos + off);
            }
            word_like = word_like || any_before_boundary(alnum, boundary);
            if ASCII_UPPERCASE {
                has_upper = has_upper || any_before_boundary(upper, boundary);
            }
            return (pos + off, word_like, has_upper);
        }
    }
    let scan = scan_word_continue_tail::<ASCII_UPPERCASE>(bytes, pos, word_like, has_upper);
    proof {
        lemma_any_split(bytes@, start as int, pos as int, scan.0 as int);
    }
    scan
}

/// What holds of some byte of a run holds of some byte of one of its two parts.
proof fn lemma_any_split(bytes: Seq<u8>, start: int, mid: int, end: int)
    requires
        start <= mid <= end,
    ensures
        any_alnum(bytes, start, end) == (any_alnum(bytes, start, mid) || any_alnum(
            bytes,
            mid,
            end,
        )),
        any_upper(bytes, start, end) == (any_upper(bytes, start, mid) || any_upper(
            bytes,
            mid,
            end,
        )),
{
}

/// What the masks say of the lanes before the first boundary, lane `off`.
proof fn lemma_partial_chunk(
    bytes: Seq<u8>,
    pos: int,
    ascii_uppercase: bool,
    masks: (u64, u64, u64),
    off: u64,
)
    requires
        0 <= pos,
        pos + 8 <= bytes.len(),
        is_classified(bytes, pos, ascii_uppercase, masks),
        off < 8,
        swar::lane(masks.2, off) != 0,
        forall|i: u64| i < off ==> #[trigger] swar::lane(masks.2, i) == 0,
    ensures
        is_word_run(bytes, pos, pos + off),
        any_alnum(bytes, pos, pos + off) <==> exists|i: u64|
            i < 8 && #[trigger] swar::lane(masks.0, i) != 0 && forall|j: u64|
                j <= i ==> #[trigger] swar::lane(masks.2, j) == 0,
        ascii_uppercase && any_upper(bytes, pos, pos + off) <==> exists|i: u64|
            i < 8 && #[trigger] swar::lane(masks.1, i) != 0 && forall|j: u64|
                j <= i ==> #[trigger] swar::lane(masks.2, j) == 0,
{
    assert forall|j: int| pos <= j < pos + off implies is_continue_byte(#[trigger] bytes[j]) by {
        assert(swar::lane(masks.2, (j - pos) as u64) == 0);
        assert(bytes[pos + (j - pos) as u64] == bytes[j]);
    }
    if any_alnum(bytes, pos, pos + off) {
        let j = choose|j: int| pos <= j < pos + off && is_alnum_byte(#[trigger] bytes[j]);
        let i = (j - pos) as u64;
        assert(bytes[pos + i] == bytes[j]);
        assert(swar::lane(masks.0, i) != 0);
    }
    if ascii_uppercase && any_upper(bytes, pos, pos + off) {
        let j = choose|j: int| pos <= j < pos + off && is_upper_byte(#[trigger] bytes[j]);
        let i = (j - pos) as u64;
        assert(bytes[pos + i] == bytes[j]);
        assert(swar::lane(masks.1, i) != 0);
    }
    if exists|i: u64|
        i < 8 && #[trigger] swar::lane(masks.0, i) != 0 && forall|j: u64|
            j <= i ==> #[trigger] swar::lane(masks.2, j) == 0 {
        let i = choose|i: u64|
            i < 8 && #[trigger] swar::lane(masks.0, i) != 0 && forall|j: u64|
                j <= i ==> #[trigger] swar::lane(masks.2, j) == 0;
        assert(is_alnum_byte(bytes[pos + i]));
        assert(i < off);
    }
    if exists|i: u64|
        i < 8 && #[trigger] swar::lane(masks.1, i) != 0 && forall|j: u64|
            j <= i ==> #[trigger] swar::lane(masks.2, j) == 0 {
        let i = choose|i: u64|
            i < 8 && #[trigger] swar::lane(masks.1, i) != 0 && forall|j: u64|
                j <= i ==> #[trigger] swar::lane(masks.2, j) == 0;
        assert(is_upper_byte(bytes[pos + i]));
        assert(i < off);
    }
}

/// Lane count of the two wide backends: a 16-byte register, held as two words.
pub const SIMD_LANES: usize = 16;

/// Bytes that a run must survive in the word-at-a-time prefix of [`scan_word_continue_neon`]
/// before the wide loop takes over.
pub const NEON_SWAR_PREFIX: usize = 16;

/// The masks of a 16-byte register: of its first and of its last eight lanes.
pub struct WideMasks {
    pub lo: (u64, u64, u64),
    pub hi: (u64, u64, u64),
}

/// Classifies the sixteen bytes at `pos`.
fn classify_wide<const ASCII_UPPERCASE: bool>(bytes: &[u8], pos: usize) -> (wide: WideMasks)
    requires
        pos + SIMD_LANES <= bytes@.len(),
    ensures
        is_classified(bytes@, pos as int, ASCII_UPPERCASE, wide.lo),
        is_classified(bytes@, pos + 8, ASCII_UPPERCASE, wide.hi),
{
    assert(bytes.len() <= usize::MAX);
    let first: u64 = load_chunk(bytes, pos);
    let second: u64 = load_chunk(bytes, pos + WORD_BYTES);
    let lo = swar_classify_word::<ASCII_UPPERCASE>(first);
    let hi = swar_classify_word::<ASCII_UPPERCASE>(second);
    proof {
        lemma_chunk_masks(bytes@, pos as int, first, ASCII_UPPERCASE, lo);
        lemma_chunk_masks(bytes@, pos + 8, second, ASCII_UPPERCASE, hi);
    }
    WideMasks { lo, hi }
}

/// Reduces a register in which the run ends: the lane of the boundary, and whether a letter or a
/// digit, or an uppercase letter, stands before it.
fn reduce_wide<const ASCII_UPPERCASE: bool>(
    wide: &WideMasks,
    bytes: Ghost<Seq<u8>>,
    pos: Ghost<int>,
) -> (reduced: (usize, bool, bool))
    requires
        0 <= pos@,
        pos@ + SIMD_LANES <= bytes@.len(),
        is_classified(bytes@, pos@, ASCII_UPPERCASE, wide.lo),
        is_classified(bytes@, pos@ + 8, ASCII_UPPERCASE, wide.hi),
        wide.lo.2 != 0 || wide.hi.2 != 0,
    ensures
        reduced.0 < SIMD_LANES,
        is_word_run(bytes@, pos@, pos@ + reduced.0),
        reduced.1 == any_alnum(bytes@, pos@, pos@ + reduced.0),
        reduced.2 == (ASCII_UPPERCASE && any_upper(bytes@, pos@, pos@ + reduced.0)),
{
    if wide.lo.2 != 0 {
        let off: usize = first_boundary_byte(wide.lo.2);
        proof {
            lemma_partial_chunk(bytes@, pos@, ASCII_UPPERCASE, wide.lo, off as u64);
        }
        let word_like: bool = any_before_boundary(wide.lo.0, wide.lo.2);
        let has_upper: bool = any_before_boundary(wide.lo.1, wide.lo.2);
        (off, word_like, has_upper)
    } else {
        let off: usize = first_boundary_byte(wide.hi.2);
        proof {
            lemma_partial_chunk(bytes@, pos@ + 8, ASCII_UPPERCASE, wide.hi, off as u64);
            lemma_any_split(bytes@, pos@, pos@ + 8, pos@ + 8 + off);
        }
        let word_like: bool = wide.lo.0 != 0 || any_before_boundary(wide.hi.0, wide.hi.2);
        let has_upper: bool = wide.lo.1 != 0 || any_before_boundary(wide.hi.1, wide.hi.2);
        (WORD_BYTES + off, word_like, has_upper)
    }
}

/// Sixteen bytes per iteration, each reduced at once: the shape for a cheap movemask.
pub fn scan_word_continue_sse2<const ASCII_UPPERCASE: bool>(
    bytes: &[u8],
    start: usize,
) -> (scan: (usize, bool, bool))
    ensures
        is_word_scan(bytes@, start as int, ASCII_UPPERCASE, scan),
{
    let mut pos: usize = start;
    let mut word_like: bool = false;
    let mut has_upper: bool = false;
    while pos < bytes.len() && bytes.len() - pos >= SIMD_LANES
        invariant
            start <= pos,
            start < pos ==> pos <= bytes@.len(),
            forall|j: int| start <= j < pos ==> is_continue_byte(#[trigger] bytes@[j]),
            word_like == any_alnum(bytes@, start as int, pos as int),
            has_upper == (ASCII_UPPERCASE && any_upper(bytes@, start as int, pos as int)),
        decreases bytes.len() - pos,
    {
        let wide = classify_wide::<ASCII_UPPERCASE>(bytes, pos);
        if wide.lo.2 == 0 && wide.hi.2 == 0 {
            proof {
                lemma_any_split(bytes@, pos as int, pos + 8, pos + 16);
                lemma_any_split(bytes@, start as int, pos as int, pos + 16);
            }
            word_like = word_like || wide.lo.0 != 0 || wide.hi.0 != 0;
            has_upper = has_upper || (ASCII_UPPERCASE && (wide.lo.1 != 0 || wide.hi.1 != 0));
            pos += SIMD_LANES;
        } else {
            let (off, some_alnum, some_upper) = reduce_wide::<ASCII_UPPERCASE>(
                &wide,
                Ghost(bytes@),
                Ghost(pos as int),
            );
            proof {
                lemma_any_split(bytes@, start as int, pos as int, pos + off);
            }
            return (pos + off, word_like || some_alnum, has_upper || some_upper);
        }
    }
    let scan = scan_word_continue_tail::<ASCII_UPPERCASE>(bytes, pos, word_like, has_upper);
    proof {
        lemma_any_split(bytes@, start as int, pos as int, scan.0 as int);
    }
    scan
}

/// A word-at-a-time prefix, which settles short words, and then a wide loop whose reductions are
/// deferred until the run ends: the shape for an expensive movemask.
pub fn scan_word_continue_neon<const ASCII_UPPERCASE: bool>(
    bytes: &[u8],
    start: usize,
) -> (scan: (usize, bool, bool))
    ensures
        is_word_scan(bytes@, start as int, ASCII_UPPERCASE, scan),
{
    let mut pos: usize = start;
    let mut word_like: bool = false;
    let mut has_upper: bool = false;
    while pos < bytes.len() && bytes.len() - pos >= WORD_BYTES && pos - start < NEON_SWAR_PREFIX
        invariant
            start <= pos,
            start < pos ==> pos <= bytes@.len(),
            forall|j: int| start <= j < pos ==> is_continue_byte(#[trigger] bytes@[j]),
            word_like == any_alnum(bytes@, start as int, pos as int),
            has_upper == (ASCII_UPPERCASE && any_upper(bytes@, start as int, pos as int)),
        decreases bytes.len() - pos,
    {
        let chunk: u64 = load_chunk(bytes, pos);
        let (alnum, upper, boundary) = swar_classify_word::<ASCII_UPPERCASE>(chunk);
        let ghost masks = (alnum, upper, boundary);
        proof {
            lemma_chunk_masks(bytes@, pos as int, chunk, ASCII_UPPERCASE, masks);
        }
        if boundary != 0 {
            let off: usize = first_boundary_byte(boundary);
            proof {
                lemma_partial_chunk(bytes@, pos as int, ASCII_UPPERCASE, masks, off as u64);
                lemma_any_split(bytes@, start as int, pos as int, pos + off);
            }
            word_like = word_like || any_before_boundary(alnum, boundary);
            if ASCII_UPPERCASE {
                has_upper = has_upper || any_before_boundary(upper, boundary);
            }
            return (pos + off, word_like, has_upper);
        }
        proof {
            lemma_any_split(bytes@, start as int, pos as int, pos + 8);
        }
        word_like = word_like || alnum != 0;
        if ASCII_UPPERCASE {
            has_upper = has_upper || upper != 0;
        }
        pos += WORD_BYTES;
    }

    let wide_start: usize = pos;
    let mut alnum_acc: u64 = 0;
    let mut upper_acc: u64 = 0;
    while pos < bytes.len() && bytes.len() - pos >= SIMD_LANES
        invariant
            start <= wide_start <= pos,
            start < pos ==> pos <= bytes@.len(),
            forall|j: int| start <= j < pos ==> is_continue_byte(#[trigger] bytes@[j]),
            word_like == any_alnum(bytes@, start as int, wide_start as int),
            has_upper == (ASCII_UPPERCASE && any_upper(bytes@, start as int, wide_start as int)),
            alnum_acc != 0 <==> any_alnum(bytes@, wide_start as int, pos as int),
            upper_acc != 0 <==> ASCII_UPPERCASE && any_upper(
                bytes@,
                wide_start as int,
                pos as int,
            ),
        decreases bytes.len() - pos,
    {
        let wide = classify_wide::<ASCII_UPPERCASE>(bytes, pos);
        if wide.lo.2 == 0 && wide.hi.2 == 0 {
            proof {
                lemma_any_split(bytes@, pos as int, pos + 8, pos + 16);
                lemma_any_split(bytes@, wide_start as int, pos as int, pos + 16);
                lemma_or_nonzero(alnum_acc, wide.lo.0, wide.hi.0);
                lemma_or_nonzero(upper_acc, wide.lo.1, wide.hi.1);
            }
            alnum_acc = alnum_acc | wide.lo.0 | wide.hi.0;
            if ASCII_UPPERCASE {
                upper_acc = upper_acc | wide.lo.1 | wide.hi.1;
            }
            pos += SIMD_LANES;
        } else {
            let (off, some_alnum, some_upper) = reduce_wide::<ASCII_UPPERCASE>(
                &wide,
                Ghost(bytes@),
                Ghost(pos as int),
            );
            proof {
                lemma_any_split(bytes@, wide_start as int, pos as int, pos + off);
                lemma_any_split(bytes@, start as int, wide_start as int, pos + off);
            }
            word_like = word_like || alnum_acc != 0 || some_alnum;
            has_upper = has_upper || (ASCII_UPPERCASE && (upper_acc != 0 || some_upper));
            return (pos + off, word_like, has_upper);
        }
    }
    proof {
        lemma_any_split(bytes@, start as int, wide_start as int, pos as int);
    }
    word_like = word_like || alnum_acc != 0;
    if ASCII_UPPERCASE {
        has_upper = has_upper || upper_acc != 0;
    }
    let scan = scan_word_continue_tail::<ASCII_UPPERCASE>(bytes, pos, word_like, has_upper);
    proof {
        lemma_any_split(bytes@, start as int, pos as int, scan.0 as int);
    }
    scan
}

/// A union of masks is empty where all of them are.
proof fn lemma_or_nonzero(a: u64, b: u64, c: u64)
    ensures
        a | b | c != 0 <==> a != 0 || b != 0 || c != 0,
{
    assert(a | b | c != 0 <==> a != 0 || b != 0 || c != 0) by (bit_vector);
}

/// Scans the word-continue run `[a-zA-Z0-9_]` from `start` on: the index of the first byte past
/// it, whether it holds a letter or a digit (a run of `_` alone does not), and, where
/// `ASCII_UPPERCASE` asks for that, whether it holds one of `[A-Z]`.
pub fn scan_word_continue<const ASCII_UPPERCASE: bool>(
    bytes: &[u8],
    start: usize,
) -> (scan: (usize, bool, bool))
    ensures
        is_word_scan(bytes@, start as int, ASCII_UPPERCASE, scan),
{
    scan_word_continue_swar::<ASCII_UPPERCASE>(bytes, start)
}

} // verus!
