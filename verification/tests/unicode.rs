//! The character properties: the ASCII tables against the database, and what the database answers.

use alyze::uax29::sentence::properties::{
    ascii_sentence_break_property, lookup_sentence_break_property,
    sentence_break_property_from_value, SentenceBreakProperty,
};
use alyze::uax29::word::properties::{
    ascii_word_break_property, decide_word_like_strict, is_word_like_strict,
    lookup_word_break_property_from_dictionary, word_break_property_from_value, WordBreakProperty,
    OTHER_NUMBER, SCRIPT_COMMON, SCRIPT_INHERITED, SCRIPT_UNKNOWN,
};
use alyze::uax29::word::word_break_contrib;
use alyze::uax29::word::TokenProperties;

#[test]
fn ascii_word_properties_are_those_of_the_database() {
    for b in 0u8..128 {
        assert_eq!(
            ascii_word_break_property(b),
            lookup_word_break_property_from_dictionary(b as char),
            "byte {b:#04x}"
        );
    }
}

#[test]
fn ascii_sentence_properties_are_those_of_the_database() {
    for b in 0u8..128 {
        assert_eq!(
            ascii_sentence_break_property(b),
            lookup_sentence_break_property(b as char),
            "byte {b:#04x}"
        );
    }
}

#[test]
fn ascii_is_word_like_by_letters_and_digits_alone() {
    for b in 0u8..128 {
        let c = b as char;
        if is_word_like_strict(c) {
            assert!(c.is_ascii_alphabetic(), "byte {b:#04x}");
        }
    }
}

#[test]
fn word_properties_of_single_characters() {
    let expected = [
        ('\u{85}', WordBreakProperty::Newline),
        ('\u{308}', WordBreakProperty::Extend),
        ('\u{200d}', WordBreakProperty::ZWJ),
        ('\u{ad}', WordBreakProperty::Format),
        ('\u{1f1e6}', WordBreakProperty::RegionalIndicator),
        ('\u{30ab}', WordBreakProperty::Katakana),
        ('\u{5d0}', WordBreakProperty::HebrewLetter),
        ('\u{e9}', WordBreakProperty::ALetter),
        ('\u{5f4}', WordBreakProperty::MidLetter),
        ('\u{2019}', WordBreakProperty::MidNumLet),
        ('\u{b7}', WordBreakProperty::MidLetter),
        ('\u{37e}', WordBreakProperty::MidNum),
        ('\u{660}', WordBreakProperty::Numeric),
        ('\u{203f}', WordBreakProperty::ExtendNumLet),
        ('\u{3000}', WordBreakProperty::WSegSpace),
        ('\u{4e2d}', WordBreakProperty::Other),
    ];
    for (c, property) in expected {
        assert_eq!(lookup_word_break_property_from_dictionary(c), property, "{:?}", c);
    }
}

#[test]
fn sentence_properties_of_single_characters() {
    let expected = [
        ('\u{85}', SentenceBreakProperty::Sep),
        ('\u{308}', SentenceBreakProperty::Extend),
        ('\u{ad}', SentenceBreakProperty::Format),
        ('\u{a0}', SentenceBreakProperty::Sp),
        ('\u{e9}', SentenceBreakProperty::Lower),
        ('\u{c9}', SentenceBreakProperty::Upper),
        ('\u{5d0}', SentenceBreakProperty::OLetter),
        ('\u{660}', SentenceBreakProperty::Numeric),
        ('\u{2024}', SentenceBreakProperty::ATerm),
        ('\u{2014}', SentenceBreakProperty::SContinue),
        ('\u{3002}', SentenceBreakProperty::STerm),
        ('\u{ab}', SentenceBreakProperty::Close),
        ('\u{20ac}', SentenceBreakProperty::Other),
    ];
    for (c, property) in expected {
        assert_eq!(lookup_sentence_break_property(c), property, "{:?}", c);
    }
}

#[test]
fn numbers_of_properties() {
    assert_eq!(word_break_property_from_value(0), WordBreakProperty::Other);
    assert_eq!(word_break_property_from_value(1), WordBreakProperty::ALetter);
    assert_eq!(word_break_property_from_value(17), WordBreakProperty::Other);
    assert_eq!(word_break_property_from_value(22), WordBreakProperty::WSegSpace);
    assert_eq!(word_break_property_from_value(255), WordBreakProperty::Other);
    assert_eq!(sentence_break_property_from_value(0), SentenceBreakProperty::Other);
    assert_eq!(sentence_break_property_from_value(14), SentenceBreakProperty::SContinue);
    assert_eq!(sentence_break_property_from_value(15), SentenceBreakProperty::Other);
}

#[test]
fn pictographic_characters() {
    assert!(WordBreakProperty::is_ext_pictographic('\u{1f6d1}'));
    assert!(WordBreakProperty::is_ext_pictographic('\u{a9}'));
    assert!(WordBreakProperty::is_ext_pictographic('\u{24c2}'));
    assert!(!WordBreakProperty::is_ext_pictographic('\u{1f1e6}'));
    assert!(!WordBreakProperty::is_ext_pictographic('#'));
    assert!(!WordBreakProperty::is_ext_pictographic('\u{4e2d}'));
}

#[test]
fn no_pictographic_character_is_of_a_class_that_excludes_it() {
    for code in 0..=0x10ffffu32 {
        if let Some(c) = char::from_u32(code) {
            if WordBreakProperty::is_ext_pictographic(c) {
                let property = lookup_word_break_property_from_dictionary(c);
                assert!(!property.is_newline_or_mid(), "{:?}", c);
            }
        }
    }
}

#[test]
fn word_like_by_each_of_the_four_properties() {
    assert!(!decide_word_like_strict(false, false, 0, SCRIPT_COMMON));
    assert!(!decide_word_like_strict(false, false, 0, SCRIPT_INHERITED));
    assert!(!decide_word_like_strict(false, false, 0, SCRIPT_UNKNOWN));
    assert!(decide_word_like_strict(true, false, 0, SCRIPT_COMMON));
    assert!(decide_word_like_strict(false, true, 0, SCRIPT_COMMON));
    assert!(decide_word_like_strict(false, false, OTHER_NUMBER, SCRIPT_COMMON));
    assert!(decide_word_like_strict(false, false, 0, 25));
}

#[test]
fn word_like_characters() {
    // Ideographic, of the script Common.
    assert!(is_word_like_strict('\u{3006}'));
    // Extended_Pictographic, of the script Common.
    assert!(is_word_like_strict('\u{1f44d}'));
    // Other_Number, of the script Common.
    assert!(is_word_like_strict('\u{b2}'));
    // Of a script of its own.
    assert!(is_word_like_strict('\u{e01}'));
    // Common, Inherited and Unknown.
    assert!(!is_word_like_strict('\u{2019}'));
    assert!(!is_word_like_strict('\u{308}'));
    assert!(!is_word_like_strict('\u{10ffff}'));
}

#[test]
fn contributions_of_properties() {
    assert_eq!(word_break_contrib(WordBreakProperty::Numeric), TokenProperties::of_word_like());
    assert_eq!(word_break_contrib(WordBreakProperty::Katakana), TokenProperties::empty());
    assert!(!TokenProperties::of_non_ascii().is_ascii());
    assert!(TokenProperties::of_ascii_uppercase().has_ascii_uppercase());
}
