//! Word tokenization: the scans, the boundaries and the properties of tokens.

use alyze::uax29::word::scan::{
    scan_word_continue, scan_word_continue_neon, scan_word_continue_sse2, scan_word_continue_swar,
};
use alyze::uax29::word::{tokenize, tokenize_with_ascii_uppercase, Options, TokenProperties};

/// Trivially-correct reference: byte-at-a-time `[a-zA-Z0-9_]` scan.
fn scan_reference(bytes: &[u8], start: usize) -> (usize, bool, bool) {
    let mut pos = start;
    let mut word_like = false;
    let mut has_upper = false;
    while pos < bytes.len() {
        let b = bytes[pos];
        let is_alnum = b.is_ascii_alphanumeric();
        if !(is_alnum || b == b'_') {
            break;
        }
        word_like |= is_alnum;
        has_upper |= b.is_ascii_uppercase();
        pos += 1;
    }
    (pos, word_like, has_upper)
}

/// Runs the full differential battery (exhaustive single-byte-at-every-offset + 200k randomized
/// inputs) against the trivial scalar reference. `scan` is the implementation under test; it
/// must agree with `scan_reference` on every `(end, word_like, has_upper)` triple.
fn assert_scan_matches_reference(scan: impl Fn(&[u8], usize) -> (usize, bool, bool)) {
    // Exhaustive: every single byte value, at every alignment offset within a chunk, with a
    // word-continue prefix so the SWAR/SIMD lane that contains the byte varies.
    for prefix in 0..=16usize {
        for b in 0..=255u8 {
            let mut buf = vec![b'a'; prefix];
            buf.push(b);
            buf.extend_from_slice(b"z9_more");
            assert_eq!(
                scan(&buf, 0),
                scan_reference(&buf, 0),
                "prefix={prefix} byte={b:#04x}"
            );
        }
    }

    // Randomized multi-byte inputs across the full byte range (biased toward word chars so we
    // exercise long runs and boundaries at every offset).
    let mut state: u64 = 0x9E3779B97F4A7C15;
    let mut rng = || {
        state ^= state << 13;
        state ^= state >> 7;
        state ^= state << 17;
        state
    };
    for _ in 0..200_000 {
        let len = (rng() % 40) as usize;
        let buf: Vec<u8> = (0..len)
            .map(|_| {
                let r = rng();
                if r % 4 == 0 {
                    (r >> 8) as u8 // full range, includes non-ASCII & punctuation
                } else {
                    let alphabet = b"abcXYZ0189_ .,";
                    alphabet[(r >> 8) as usize % alphabet.len()]
                }
            })
            .collect();
        let start = if len == 0 {
            0
        } else {
            (rng() as usize) % (len + 1)
        };
        assert_eq!(
            scan(&buf, start),
            scan_reference(&buf, start),
            "buf={buf:?} start={start}"
        );
    }
}

#[test]
fn scan_word_continue_matches_reference() {
    // The dispatcher (whichever backend the host selects) and the portable SWAR core must both
    // match the reference. The `false` variant must agree on boundary + word-like and never
    // report uppercase (that work is `const`-eliminated).
    assert_scan_matches_reference(scan_word_continue::<true>);
    assert_scan_matches_reference(scan_word_continue_swar::<true>);
    // The `false` variant must agree on boundary + word-like and never derive uppercase (that
    // work is `const`-eliminated). Return its `(end, word_like)` paired with the reference's
    // real `has_upper`, so the harness verifies the first two while we assert the third here.
    assert_scan_matches_reference(|b, s| {
        let (end, word_like, has_upper) = scan_word_continue::<false>(b, s);
        assert!(!has_upper, "false-variant reported uppercase: {b:?} @ {s}");
        (end, word_like, scan_reference(b, s).2)
    });
}

/// The NEON backend must be bit-identical to the scalar reference (and therefore to SWAR).
#[test]
fn scan_word_continue_neon_matches_reference() {
    assert_scan_matches_reference(scan_word_continue_neon::<true>);
}

/// The SSE2 backend must be bit-identical to the scalar reference (and therefore to SWAR).
#[test]
fn scan_word_continue_sse2_matches_reference() {
    assert_scan_matches_reference(scan_word_continue_sse2::<true>);
}

#[test]
fn tokenizer_sanity() {
    fn assert_breaks(s: &str, expected: Vec<usize>) {
        let mut breakpoints = Vec::new();
        tokenize(s, Options::default(), |bp, _props| {
            breakpoints.push(bp);
            true
        });
        assert_eq!(breakpoints, expected, "input: {:?}", s);
    }

    // Empty string yields no breakpoints.
    assert_breaks("", vec![]);

    // Non-empty strings break at the start & end.
    assert_breaks("a", vec![0, 1]);
    assert_breaks(".", vec![0, 1]);
    assert_breaks("\n", vec![0, 1]);

    // WB5: ALetter × ALetter
    assert_breaks("hello", vec![0, 5]);

    // WB8: Numeric × Numeric
    assert_breaks("123", vec![0, 3]);

    // WB9/WB10: ALetter × Numeric, Numeric × ALetter
    assert_breaks("abc123", vec![0, 6]);
    assert_breaks("123abc", vec![0, 6]);
    assert_breaks("a1b2", vec![0, 4]);

    // WB3: CR × LF (stay together)
    assert_breaks("\r\n", vec![0, 2]);
    assert_breaks("\r\n\r\n", vec![0, 2, 4]);

    // CR and LF alone break normally
    assert_breaks("\r", vec![0, 1]);
    assert_breaks("\n\n", vec![0, 1, 2]);

    // Mixed with newlines
    assert_breaks("a\r\nb", vec![0, 1, 3, 4]);
    assert_breaks("ab\r\ncd", vec![0, 2, 4, 6]);

    // Keep horizontal whitespace together (WB3d)
    assert_breaks("a   c", vec![0, 1, 4, 5]);

    // Do not break letters across certain punctuation, such as within "e.g." or "example.com".
    assert_breaks("e.g. hello", vec![0, 3, 4, 5, 10]);
    assert_breaks("example.com", vec![0, 11]);
    assert_breaks("won't", vec![0, 5]);

    // WB13a/WB13b: ExtendNumLet connects letters, numbers, katakana
    assert_breaks("a_1", vec![0, 3]);
    assert_breaks("_a", vec![0, 2]);

    // Edge cases with deferred breaks.
    assert_breaks("can'", vec![0, 3, 4]);
    assert_breaks("can' hi", vec![0, 3, 4, 5, 7]);

    // WB7a and WB6/WB7 with Hebrew_Letter and Single_Quote.
    assert_breaks("א'", vec![0, "א'".len()]);
    assert_breaks("א'א", vec![0, "א'א".len()]);
    assert_breaks("א'\u{2060}א", vec![0, "א'\u{2060}א".len()]);
    assert_breaks("א'a", vec![0, "א'a".len()]);
    assert_breaks("הצ'קרות", vec![0, "הצ'קרות".len()]);
    assert_breaks(
        "לייף אנרג'י",
        vec![0, "לייף".len(), "לייף ".len(), "לייף אנרג'י".len()],
    );

    // WB7b/WB7c: Hebrew_Letter × Double_Quote × Hebrew_Letter (gershayim acronyms
    // like צה״ל). With letters on both sides the gershayim is absorbed into the
    // word; with whitespace on either side it must emit as its own standalone
    // token (UAX #29 prescribes a break — no MidLetter/DoubleQuote rule applies).
    assert_breaks("צה\u{05F4}ל", vec![0, "צה\u{05F4}ל".len()]);
    // Closing gershayim followed by space: standalone token.
    assert_breaks(
        "אקספרס\u{05F4} מהיום",
        vec![
            0,
            "אקספרס".len(),
            "אקספרס\u{05F4}".len(),
            "אקספרס\u{05F4} ".len(),
            "אקספרס\u{05F4} מהיום".len(),
        ],
    );
    // Full quoted-word pattern: both opening and closing gershayim are standalone.
    assert_breaks(
        "\u{05F4}אקספרס\u{05F4} מהיום",
        vec![
            0,
            "\u{05F4}".len(),
            "\u{05F4}אקספרס".len(),
            "\u{05F4}אקספרס\u{05F4}".len(),
            "\u{05F4}אקספרס\u{05F4} ".len(),
            "\u{05F4}אקספרס\u{05F4} מהיום".len(),
        ],
    );

    // WB3c: ZWJ × Extended_Pictographic (emoji ZWJ sequences)
    assert_breaks("👨\u{200D}👩", vec![0, 11]);
    assert_breaks("👨👩", vec![0, 4, 8]);

    // Weird edge case: Letters that are also extended pictographic
    assert_breaks("🇦", vec![0, 4]);
    assert_breaks("🇦🇦", vec![0, 8]);
    assert_breaks("🇦🇦🇦", vec![0, 8, 12]);

    // Circled letters
    assert_breaks("\u{200d}Ⓜ", vec![0, 6]);
}

#[test]
fn tokenizer_properties_sanity() {
    // Each emit reports properties of the span just closed; the leading boundary at 0 has
    // no preceding span, so it carries default props.
    fn assert_props(s: &str, expected: Vec<(usize, bool)>) {
        let mut got: Vec<(usize, bool)> = Vec::new();
        tokenize(s, Options::default(), |bp, props| {
            got.push((bp, props.is_ascii()));
            true
        });
        assert_eq!(got, expected, "input: {:?}", s);
    }

    // Leading boundary at 0 is vacuously is_ascii=true.
    assert_props("hello", vec![(0, true), (5, true)]);
    assert_props("🛑", vec![(0, true), (4, false)]);

    // The sharp case: the breaking char is non-ASCII but starts the *next* token, so "ab"
    // must still report is_ascii=true and "🛑" must report is_ascii=false.
    assert_props("ab🛑", vec![(0, true), (2, true), (6, false)]);
}

fn assert_word_like(s: &str, expected: Vec<(usize, bool)>) {
    let mut got: Vec<(usize, bool)> = Vec::new();
    tokenize(s, Options::default(), |bp, props| {
        got.push((bp, props.is_word_like()));
        true
    });
    assert_eq!(got, expected, "input: {:?}", s);
}

/// ASCII subset of the word-like contract: any token containing an ASCII letter or digit is
/// word-like; pure-connector / whitespace / punctuation tokens are not. The leading boundary
/// at 0 has no preceding span, so word_like is vacuously false.
#[test]
fn tokenizer_word_like_ascii_sanity() {
    // ASCII letters / digits / mixed / contractions.
    assert_word_like("hello", vec![(0, false), (5, true)]);
    assert_word_like("123", vec![(0, false), (3, true)]);
    assert_word_like("abc123", vec![(0, false), (6, true)]);
    assert_word_like("won't", vec![(0, false), (5, true)]);

    // Connectors only (ExtendNumLet) — `_` is not a letter or digit.
    assert_word_like("___", vec![(0, false), (3, false)]);
    // Whitespace only.
    assert_word_like("   ", vec![(0, false), (3, false)]);
    // ASCII punctuation: each '!' breaks separately, none word-like.
    assert_word_like("!!!", vec![(0, false), (1, false), (2, false), (3, false)]);
}

/// The `has_ascii_uppercase` bit must be set iff the token contains an ASCII `[A-Z]` byte.
/// This is the signal the analyzer uses to skip re-scanning already-lowercase tokens, so it
/// has to agree exactly with a trivial per-byte check across single-char, SWAR-run, and
/// mixed spans.
#[test]
fn tokenizer_has_ascii_uppercase_sanity() {
    fn assert_upper(s: &str, expected: Vec<(usize, bool)>) {
        let mut got: Vec<(usize, bool)> = Vec::new();
        tokenize_with_ascii_uppercase(s, Options::default(), |bp, props| {
            got.push((bp, props.has_ascii_uppercase()));
            true
        });
        assert_eq!(got, expected, "input: {:?}", s);

        // The plain `tokenize` entry point never derives the bit (it's `const`-eliminated).
        let mut plain: Vec<(usize, bool)> = Vec::new();
        tokenize(s, Options::default(), |bp, props| {
            plain.push((bp, props.has_ascii_uppercase()));
            true
        });
        assert!(
            plain.iter().all(|&(_, upper)| !upper),
            "plain tokenize must not report uppercase: {:?}",
            s
        );
    }

    // All-lowercase / no letters → no uppercase bit.
    assert_upper("hello", vec![(0, false), (5, false)]);
    assert_upper("123", vec![(0, false), (3, false)]);
    // Single uppercase char (single-char path).
    assert_upper("A", vec![(0, false), (1, true)]);
    // Uppercase inside a long run (exercises the SWAR fast lane past one word).
    assert_upper("abcdefghijK", vec![(0, false), (11, true)]);
    // Uppercase exactly at a chunk boundary, then a non-word break char.
    assert_upper("abcdefgH iJ", vec![
        (0, false),
        (8, true),  // "abcdefgH"
        (9, false), // " "
        (11, true), // "iJ"
    ]);
    // Mixed token whose only uppercase is ASCII while it's also non-ASCII overall: the bit
    // still reflects the ASCII uppercase, even though the consumer ignores it for non-ASCII.
    assert_upper("Café", vec![(0, false), ("Café".len(), true)]);
    // Underscore-connected: uppercase tracked across ExtendNumLet joins.
    assert_upper("a_B", vec![(0, false), (3, true)]);
}

/// Strict cases that need Script / Ideographic / OtherNumber / ExtPict lookups beyond the
/// WordBreak property.
#[test]
fn tokenizer_word_like_strict_sanity() {
    // Hebrew (HebrewLetter prop)
    assert_word_like("ש", vec![(0, false), (2, true)]);

    // CJK ideograph: WordBreak=Other, Script=Han.
    assert_word_like("中", vec![(0, false), (3, true)]);
    // Ideographic iteration mark: WordBreak=Other, Script=Common, Ideographic=true.
    assert_word_like("々", vec![(0, false), (3, true)]);
    // Circled digit: WordBreak=Other, GeneralCategory=OtherNumber.
    assert_word_like("①", vec![(0, false), (3, true)]);
    // Devanagari letter: WordBreak=Other, Script=Devanagari.
    assert_word_like("अ", vec![(0, false), (3, true)]);
    // Thai letter: WordBreak=Other, Script=Thai.
    assert_word_like("ก", vec![(0, false), (3, true)]);
    // Emoji: WordBreak=Other (or ExtPict), Script=Common, ExtendedPictographic=true.
    assert_word_like("👍", vec![(0, false), (4, true)]);

    // Real Katakana letter: WordBreak=Katakana, Script=Katakana → word-like.
    assert_word_like("リ", vec![(0, false), (3, true)]);
    // Katakana-Hiragana extender: WordBreak=Katakana, Script=Common → NOT word-like.
    // Locks in why we can't just OR `WordBreakProperty::Katakana → WORD_LIKE`; we need to
    // additionally check the char's Script.
    assert_word_like("ー", vec![(0, false), (3, false)]);

    // HEBREW PUNCTUATION GERSHAYIM (U+05F4): WordBreak=MidLetter (not word-like via
    // cheap path), Script=Hebrew (word-like via strict). Standalone token is word-like.
    assert_word_like("\u{05F4}", vec![(0, false), ("\u{05F4}".len(), true)]);
}

/// A deferred break must not strand the deferred char's properties on the preceding
/// token. For `אקספרס״ `, the closing gershayim emerges as a standalone token via
/// `DeferredBreak` from `ALetterMid`; its `WORD_LIKE` bit (via Script=Hebrew) belongs
/// to that standalone token, not to the Hebrew word that precedes it.
#[test]
fn deferred_break_does_not_misattribute_props() {
    let s = "אקספרס\u{05F4} ";
    assert_word_like(
        s,
        vec![
            (0, false),
            ("אקספרס".len(), true),         // אקספרס (Hebrew letters)
            ("אקספרס\u{05F4}".len(), true), // ״ standalone — Script=Hebrew
            (s.len(), false),               // trailing space
        ],
    );

    // Same shape with Hebrew word after the space — the four-quote pattern from
    // real documents (`״אקספרס״ מהיום …`). All four standalone gershayim
    // tokens must be word-like; the one to watch is the trailing one.
    let s = "\u{05F4}אקספרס\u{05F4} מהיום";
    assert_word_like(
        s,
        vec![
            (0, false),
            ("\u{05F4}".len(), true),                 // leading ״
            ("\u{05F4}אקספרס".len(), true),           // אקספרס
            ("\u{05F4}אקספרס\u{05F4}".len(), true),   // trailing ״
            ("\u{05F4}אקספרס\u{05F4} ".len(), false), // space
            (s.len(), true),                          // מהיום
        ],
    );
}

#[test]
fn from_ascii_byte_matches_inline_classification() {
    for b in 0u8..128 {
        let is_alnum = (b | 0x20).wrapping_sub(b'a') < 26 || b.wrapping_sub(b'0') < 10;
        let base = if is_alnum {
            TokenProperties::of_word_like()
        } else {
            TokenProperties::empty()
        };
        let mut expected = base;
        if b.is_ascii_uppercase() {
            expected |= TokenProperties::of_ascii_uppercase();
        }
        assert_eq!(TokenProperties::from_ascii_byte(b), expected, "byte {b:#04x}");
        assert_eq!(
            TokenProperties::from_ascii_byte(b).without_ascii_uppercase(),
            base,
            "byte {b:#04x} without uppercase"
        );
    }
    assert_eq!(TokenProperties::empty(), TokenProperties::default());
}
