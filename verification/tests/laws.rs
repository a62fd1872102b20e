//! What holds of all texts, on some of them.

use alyze::uax29::{sentence, word};

fn words(text: &str) -> Vec<(usize, word::TokenProperties)> {
    let mut reports = Vec::new();
    word::tokenize(text, word::Options::default(), |bp, props| {
        reports.push((bp, props));
        true
    });
    reports
}

fn words_with_uppercase(text: &str) -> Vec<(usize, word::TokenProperties)> {
    let mut reports = Vec::new();
    word::tokenize_with_ascii_uppercase(text, word::Options::default(), |bp, props| {
        reports.push((bp, props));
        true
    });
    reports
}

fn word_offsets(text: &str) -> Vec<usize> {
    words(text).into_iter().map(|r| r.0).collect()
}

fn sentences(text: &str) -> Vec<usize> {
    let mut reports = Vec::new();
    sentence::tokenize(text, sentence::Options::default(), |bp| {
        reports.push(bp);
        true
    });
    reports
}

fn samples() -> Vec<&'static str> {
    vec![
        "",
        "a",
        " ",
        "\r\n",
        "The quick (\u{201c}brown\u{201d}) fox can't jump 32.3 feet, right?",
        "Mr. Smith went. to Washington! He said \"Hi.\" Then left.\r\nNew line.",
        "\u{5e9}\u{5f4}\u{5e9} \u{30ab}\u{30bf}\u{30ab}\u{30ca}_x \u{1f1e6}\u{1f1e7}\u{1f1e8}",
        "Caf\u{e9} na\u{ef}ve A_B \u{1f468}\u{200d}\u{1f469}\u{200d}\u{1f467} end",
        "\u{308}\u{308}a.\u{308} \u{308}b",
    ]
}

#[test]
fn a_text_starts_and_ends_with_a_boundary() {
    for text in samples() {
        for offsets in [word_offsets(text), sentences(text)] {
            if text.is_empty() {
                assert!(offsets.is_empty());
            } else {
                assert_eq!(offsets.first(), Some(&0));
                assert_eq!(offsets.last(), Some(&text.len()));
                assert!(offsets.len() >= 2);
            }
        }
    }
}

#[test]
fn the_first_report_is_of_the_empty_token() {
    for text in samples() {
        if let Some(first) = words_with_uppercase(text).first() {
            assert_eq!(*first, (0, word::TokenProperties::empty()));
        }
    }
}

#[test]
fn offsets_increase_along_character_boundaries() {
    for text in samples() {
        for offsets in [word_offsets(text), sentences(text)] {
            assert!(offsets.windows(2).all(|w| w[0] < w[1]), "input: {:?}", text);
            assert!(offsets.iter().all(|o| text.is_char_boundary(*o)), "input: {:?}", text);
        }
    }
}

#[test]
fn tokens_partition_the_text() {
    for text in samples() {
        for offsets in [word_offsets(text), sentences(text)] {
            let parts: Vec<&str> = offsets.windows(2).map(|w| &text[w[0]..w[1]]).collect();
            assert_eq!(parts.concat(), text);
        }
    }
}

#[test]
fn tokens_have_the_properties_of_their_characters() {
    for text in samples() {
        let reports = words_with_uppercase(text);
        for pair in reports.windows(2) {
            let token = &text[pair[0].0..pair[1].0];
            assert_eq!(pair[1].1.is_ascii(), token.is_ascii(), "token: {:?}", token);
            assert_eq!(
                pair[1].1.has_ascii_uppercase(),
                token.bytes().any(|b| b.is_ascii_uppercase()),
                "token: {:?}",
                token
            );
        }
    }
}

#[test]
fn uppercase_is_extra() {
    for text in samples() {
        let plain = words(text);
        let with = words_with_uppercase(text);
        assert_eq!(plain.len(), with.len());
        for (p, w) in plain.iter().zip(with.iter()) {
            assert_eq!(p.0, w.0);
            assert_eq!(p.1, w.1.without_ascii_uppercase());
            assert!(!p.1.has_ascii_uppercase());
        }
    }
}

#[test]
fn ascii_token_without_uppercase_is_lowercase() {
    let text = "abc dEf gh1 I _j_";
    for pair in words_with_uppercase(text).windows(2) {
        let token = &text[pair[0].0..pair[1].0];
        if pair[1].1.is_ascii() && !pair[1].1.has_ascii_uppercase() {
            assert_eq!(token.to_ascii_lowercase(), token);
        }
    }
}

#[test]
fn ascii_text_has_ascii_tokens() {
    assert!(words("It's 3.14, isn't it?").iter().all(|r| r.1.is_ascii()));
    assert_eq!(word_offsets("3.14, isn't"), vec![0, 4, 5, 6, 11]);
}

#[test]
fn a_reply_of_false_stops_the_words() {
    let text = "can't stop, won't. 'x' y'";
    let all = words(text);
    assert_eq!(all.len(), 15);
    for limit in 1..=all.len() {
        let mut seen = Vec::new();
        word::tokenize(text, word::Options::default(), |bp, props| {
            seen.push((bp, props));
            seen.len() < limit
        });
        assert_eq!(seen, all[..limit]);
    }
}

#[test]
fn a_reply_of_false_stops_the_sentences() {
    let text = "One. Two! 3. (4) five. 6. \u{ab}7";
    let all = sentences(text);
    for limit in 1..=all.len() {
        let mut seen = Vec::new();
        sentence::tokenize(text, sentence::Options::default(), |bp| {
            seen.push(bp);
            seen.len() < limit
        });
        assert_eq!(seen, all[..limit]);
    }
}

#[test]
fn line_separators_stand_alone() {
    assert_eq!(word_offsets("a\r\nb\u{2028}\u{308}c"), vec![0, 1, 3, 4, 7, 9, 10]);
    assert_eq!(word_offsets("\n\r"), vec![0, 1, 2]);
    assert_eq!(sentences("a\r\nb\u{2029}\u{308}c\n\rd"), vec![0, 3, 7, 11, 12, 13]);
}

#[test]
fn attached_characters_are_not_cut_off() {
    assert_eq!(word_offsets("a\u{308}\u{ad}\u{200d} b"), vec![0, 8, 9, 10]);
    assert_eq!(sentences("A.\u{308} \u{ad}B"), vec![0, 7, 8]);
}

#[test]
fn a_zwj_joins_what_is_pictographic() {
    // The pictographic character is what stands before what follows it.
    assert_eq!(word_offsets("a\u{200d}\u{1f6d1}b"), vec![0, 8, 9]);
    assert_eq!(word_offsets("a\u{200d}b"), vec![0, 5]);
    // A space before the ZWJ.
    assert_eq!(word_offsets(" \u{200d}\u{1f6d1}"), vec![0, 8]);
    // A position that was deferred before the ZWJ.
    assert_eq!(word_offsets("a'\u{200d}\u{1f6d1}"), vec![0, 1, 9]);
    // The ZWJ starts a token.
    assert_eq!(word_offsets("\n\u{200d}\u{1f6d1}"), vec![0, 1, 8]);
    // Only the last of several attached characters counts.
    assert_eq!(word_offsets("a\u{200d}\u{308}\u{1f6d1}"), vec![0, 6, 10]);
}

#[test]
fn deferred_positions_are_settled_by_what_follows() {
    assert_eq!(word_offsets("a.b"), vec![0, 3]);
    assert_eq!(word_offsets("a.1"), vec![0, 1, 2, 3]);
    assert_eq!(word_offsets("1.2"), vec![0, 3]);
    assert_eq!(word_offsets("1.a"), vec![0, 1, 2, 3]);
    assert_eq!(word_offsets("1."), vec![0, 1, 2]);
    assert_eq!(word_offsets("a:\n"), vec![0, 1, 2, 3]);
    assert_eq!(word_offsets("1,\u{308}2"), vec![0, 5]);
    assert_eq!(word_offsets("\u{5d0}\"\u{5d0}"), vec![0, 5]);
    assert_eq!(word_offsets("\u{5d0}\"a"), vec![0, 2, 3, 4]);
}

#[test]
fn lowercase_letters_continue_after_a_period_only() {
    assert_eq!(sentences("a. 1 b"), vec![0, 6]);
    assert_eq!(sentences("a. 1 B"), vec![0, 3, 6]);
    assert_eq!(sentences("a. 1"), vec![0, 3, 4]);
    assert_eq!(sentences("a! b"), vec![0, 3, 4]);
    assert_eq!(sentences("a! )b"), vec![0, 3, 5]);
    assert_eq!(sentences("a. )b"), vec![0, 5]);
    assert_eq!(sentences("a. )B"), vec![0, 3, 5]);
    assert_eq!(sentences("a.)1"), vec![0, 3, 4]);
    assert_eq!(sentences("a. #\nb"), vec![0, 3, 5, 6]);
    assert_eq!(sentences("a. #."), vec![0, 3, 5]);
    assert_eq!(sentences("1.A"), vec![0, 2, 3]);
    assert_eq!(sentences("a.\u{5d0}"), vec![0, 2, 4]);
    assert_eq!(sentences("a.; B"), vec![0, 5]);
}

#[test]
fn sentences_end_for_a_cause() {
    assert_eq!(sentences("no terminator, no end; (at all): 1 2 A b \u{5d0}"), vec![0, 43]);
}

#[test]
fn options_have_defaults() {
    let options = word::Options::default();
    let copy = options;
    word::tokenize("", copy, |_, _| unreachable!());
    word::tokenize("", options, |_, _| unreachable!());
    sentence::tokenize("", sentence::Options::default(), |_| unreachable!());
}
