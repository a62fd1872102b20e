//! Sentence tokenization: the scan and the boundaries.

use alyze::uax29::sentence::scan::{is_sentence_stop_byte, scan_sentence_interior};
use alyze::uax29::sentence::{tokenize, Options};

/// Trivially-correct reference: byte-at-a-time scan that stops at the first byte the sentence
/// automaton must inspect.
fn scan_reference(bytes: &[u8], start: usize) -> usize {
    let mut pos = start;
    while pos < bytes.len() && !is_sentence_stop_byte(bytes[pos]) {
        pos += 1;
    }
    pos
}

#[test]
fn scan_sentence_interior_matches_reference() {
    // Exhaustive: every single byte value, at every alignment offset within a chunk, with an
    // interior-byte prefix so the SWAR lane containing the byte varies.
    for prefix in 0..=16usize {
        for b in 0..=255u8 {
            let mut buf = vec![b'a'; prefix];
            buf.push(b);
            buf.extend_from_slice(b"bc de.");
            assert_eq!(
                scan_sentence_interior(&buf, 0),
                scan_reference(&buf, 0),
                "prefix={prefix} byte={b:#04x}"
            );
        }
    }

    // Randomized multi-byte inputs across the full byte range (biased toward interior bytes so
    // we exercise long runs and boundaries at every offset).
    let mut state: u64 = 0x243F6A8885A308D3;
    let mut rng = || {
        state ^= state << 13;
        state ^= state >> 7;
        state ^= state << 17;
        state
    };
    for _ in 0..200_000 {
        let len = (rng() % 40) as usize;
        let buf: Vec<u8> = (0..len)
            .map(|_| {
                let r = rng();
                if r % 4 == 0 {
                    (r >> 8) as u8 // full range, includes non-ASCII & stop bytes
                } else {
                    let alphabet = b"abcXYZ0189 ,.!?\n";
                    alphabet[(r >> 8) as usize % alphabet.len()]
                }
            })
            .collect();
        let start = if len == 0 {
            0
        } else {
            (rng() as usize) % (len + 1)
        };
        assert_eq!(
            scan_sentence_interior(&buf, start),
            scan_reference(&buf, start),
            "buf={buf:?} start={start}"
        );
    }
}

#[test]
fn mod_tokenizer_sanity() {
    fn assert_breaks(s: &str, expected: Vec<usize>) {
        let mut breakpoints = Vec::new();
        tokenize(s, Options::default(), |bp| {
            breakpoints.push(bp);
            true
        });
        assert_eq!(breakpoints, expected, "input: {:?}", s);
    }

    // Empty string yields no breakpoints.
    assert_breaks("", vec![]);

    // Non-empty strings break at the start & end.
    assert_breaks("a", vec![0, 1]);
    assert_breaks(".", vec![0, 1]);

    // SB998: don't break within a sentence.
    assert_breaks("Hello world", vec![0, 11]);

    // SB3: CR × LF (don't break between CR and LF)
    assert_breaks("\r\n", vec![0, 2]);

    // SB4: Break after paragraph separators (Sep, CR, LF).
    assert_breaks("a\nb", vec![0, 2, 3]);
    assert_breaks("a\r\nb", vec![0, 3, 4]);
    assert_breaks("a\rb", vec![0, 2, 3]);

    // SB5: Extend and Format are transparent.
    assert_breaks("a\u{0308}b", vec![0, 4]); // a + combining diaeresis + b

    // SB6: ATerm × Numeric — don't break between "." and a digit.
    assert_breaks("3.4", vec![0, 3]);

    // SB7: (Upper | Lower) ATerm × Upper — abbreviations like U.S.A.
    assert_breaks("U.S.A.", vec![0, 6]);
    assert_breaks("U.S.", vec![0, 4]);
    assert_breaks("c.D", vec![0, 3]);

    // SB8: ATerm Close* Sp* × (¬(OLetter|Upper|Lower|ParaSep|SATerm))* Lower
    // Don't break after "." when eventually followed by a lowercase letter.
    assert_breaks("c.d", vec![0, 3]);
    assert_breaks("etc. the", vec![0, 8]);
    assert_breaks("the resp. leaders are", vec![0, 21]);

    // SB8: with Close and Sp between ATerm and Lower.
    assert_breaks("etc.)'\u{a0}the", vec![0, 11]);

    // SB8a: SATerm Close* Sp* × (SContinue | SATerm)
    // Don't break before continuation punctuation after sentence terminators.
    assert_breaks(".,", vec![0, 2]); // ATerm × SContinue
    assert_breaks("..", vec![0, 2]); // ATerm × ATerm
    assert_breaks("!,", vec![0, 2]); // STerm × SContinue
    assert_breaks("!.", vec![0, 2]); // STerm × ATerm

    // SB9/SB10/SB11: Break after sentence terminators,
    // but include trailing Close, Sp, and ParaSep in the sentence.
    assert_breaks("Hello. World", vec![0, 7, 12]);
    assert_breaks("Hello!) World", vec![0, 8, 13]);
    assert_breaks("Hello.  World", vec![0, 8, 13]);
    assert_breaks("Hello.\nWorld", vec![0, 7, 12]);

    // SB11: STerm breaks even when followed by lowercase.
    assert_breaks("Hello! world", vec![0, 7, 12]);

    // SB8 vs SB11: ATerm followed by OLetter or Upper DOES break (SB8 fails).
    assert_breaks("Hello. World", vec![0, 7, 12]);

    // Forbidden breaks on "." (should NOT break)
    assert_breaks("c.d", vec![0, 3]);
    assert_breaks("3.4", vec![0, 3]);
    assert_breaks("U.S.", vec![0, 4]);
    assert_breaks("the resp. leaders are", vec![0, 21]);
    assert_breaks("etc.)\u{2019}\u{a0}\u{2018}(the", vec![0, 17]);

    // Allowed breaks on "." (SHOULD break)
    assert_breaks(
        "She said \"See spot run.\" John shook his head.",
        vec![0, 25, 45],
    );
}
