//! Random texts, segmented by this library and by `unicode-segmentation`.

use alyze::uax29::{sentence, word};
use unicode_segmentation::UnicodeSegmentation;

/// Characters of every class but ZWJ, which `unicode-segmentation` does not look past where WB6,
/// WB7b and WB12 do.
fn alphabet() -> Vec<char> {
    vec![
        'a', 'B', '1', '_', ' ', '\'', '"', '.', ',', ':', ';', '!', '?', '(', '-', '#', '\n', '\r',
        '\u{b}', '\u{85}', '\u{308}', '\u{ad}', '\u{1f1e6}', '\u{30ab}', '\u{5d0}',
        '\u{e9}', '\u{2019}', '\u{b7}', '\u{660}', '\u{3000}', '\u{4e2d}', '\u{1f6d1}',
        '\u{a9}', '\u{2024}', '\u{3002}', '\u{ab}', '\u{2029}', '\u{a0}',
    ]
}

fn random_texts(seed: u64, count: usize) -> Vec<String> {
    let alphabet = alphabet();
    let mut state = seed;
    let mut rng = || {
        state ^= state << 13;
        state ^= state >> 7;
        state ^= state << 17;
        state
    };
    (0..count)
        .map(|_| {
            let len = (rng() % 14) as usize;
            (0..len).map(|_| alphabet[(rng() >> 8) as usize % alphabet.len()]).collect()
        })
        .collect()
}

#[test]
fn words_agree_with_unicode_segmentation() {
    for text in random_texts(0x9E3779B97F4A7C15, 60_000) {
        let mut expected: Vec<usize> = text.split_word_bound_indices().map(|(i, _)| i).collect();
        if !text.is_empty() {
            expected.push(text.len());
        }
        let mut got = Vec::new();
        word::tokenize(&text, word::Options::default(), |bp, _props| {
            got.push(bp);
            true
        });
        assert_eq!(got, expected, "input: {:?}", text);
    }
}

#[test]
fn sentences_agree_with_unicode_segmentation() {
    for text in random_texts(0x243F6A8885A308D3, 60_000) {
        let mut expected: Vec<usize> =
            text.split_sentence_bound_indices().map(|(i, _)| i).collect();
        if !text.is_empty() {
            expected.push(text.len());
        }
        let mut got = Vec::new();
        sentence::tokenize(&text, sentence::Options::default(), |bp| {
            got.push(bp);
            true
        });
        assert_eq!(got, expected, "input: {:?}", text);
    }
}
