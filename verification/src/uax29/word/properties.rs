//! The character properties that word segmentation reads.

use vstd::prelude::*;

use crate::uax29::unicode;
use crate::uax29::unicode::{
    general_category_value, is_extended_pictographic_char, is_ideographic_char, script_value,
    word_break_value,
};

verus! {

/// The values of the Word_Break property of UAX #29.
#[derive(Clone, Copy, Debug, PartialEq, Eq, Structural)]
pub enum WordBreakProperty {
    Other,
    CR,
    LF,
    Newline,
    Extend,
    ZWJ,
    Format,
    RegionalIndicator,
    Katakana,
    HebrewLetter,
    ALetter,
    SingleQuote,
    DoubleQuote,
    MidNumLet,
    MidLetter,
    MidNum,
    Numeric,
    ExtendNumLet,
    WSegSpace,
}

/// What the rules read of a character.
pub struct WordChar {
    /// Its Word_Break property.
    pub property: WordBreakProperty,
    /// It may follow a ZWJ without a break.
    pub pictographic: bool,
}

/// The Word_Break property of an ASCII character.
pub open spec fn ascii_word_break(b: u8) -> WordBreakProperty {
    if b == 0x0d {
        WordBreakProperty::CR
    } else if b == 0x0a {
        WordBreakProperty::LF
    } else if b == 0x0b || b == 0x0c {
        WordBreakProperty::Newline
    } else if b == ' ' as u8 {
        WordBreakProperty::WSegSpace
    } else if b == '"' as u8 {
        WordBreakProperty::DoubleQuote
    } else if b == '\'' as u8 {
        WordBreakProperty::SingleQuote
    } else if b == '.' as u8 {
        WordBreakProperty::MidNumLet
    } else if b == ':' as u8 {
        WordBreakProperty::MidLetter
    } else if b == ',' as u8 || b == ';' as u8 {
        WordBreakProperty::MidNum
    } else if b == '_' as u8 {
        WordBreakProperty::ExtendNumLet
    } else if '0' as u8 <= b <= '9' as u8 {
        WordBreakProperty::Numeric
    } else if 'a' as u8 <= b <= 'z' as u8 || 'A' as u8 <= b <= 'Z' as u8 {
        WordBreakProperty::ALetter
    } else {
        WordBreakProperty::Other
    }
}

/// The property that a value of ICU's `UWordBreakValues` enumeration stands for.
pub open spec fn word_break_from_value(value: u8) -> WordBreakProperty {
    if value == 1 {
        WordBreakProperty::ALetter
    } else if value == 2 {
        WordBreakProperty::Format
    } else if value == 3 {
        WordBreakProperty::Katakana
    } else if value == 4 {
        WordBreakProperty::MidLetter
    } else if value == 5 {
        WordBreakProperty::MidNum
    } else if value == 6 {
        WordBreakProperty::Numeric
    } else if value == 7 {
        WordBreakProperty::ExtendNumLet
    } else if value == 8 {
        WordBreakProperty::CR
    } else if value == 9 {
        WordBreakProperty::Extend
    } else if value == 10 {
        WordBreakProperty::LF
    } else if value == 11 {
        WordBreakProperty::MidNumLet
    } else if value == 12 {
        WordBreakProperty::Newline
    } else if value == 13 {
        WordBreakProperty::RegionalIndicator
    } else if value == 14 {
        WordBreakProperty::HebrewLetter
    } else if value == 15 {
        WordBreakProperty::SingleQuote
    } else if value == 16 {
        WordBreakProperty::DoubleQuote
    } else if value == 21 {
        WordBreakProperty::ZWJ
    } else if value == 22 {
        WordBreakProperty::WSegSpace
    } else {
        WordBreakProperty::Other
    }
}

/// The Word_Break property of a character.
pub open spec fn word_break(c: char) -> WordBreakProperty {
    if (c as u32) < 0x80 {
        ascii_word_break(c as u8)
    } else {
        word_break_from_value(unicode::word_break_of(c))
    }
}

/// One of the classes that the rules break around, or that they look at from both sides. Unicode
/// assigns them to no pictographic character.
pub open spec fn is_newline_or_mid(property: WordBreakProperty) -> bool {
    ||| property == WordBreakProperty::CR
    ||| property == WordBreakProperty::LF
    ||| property == WordBreakProperty::Newline
    ||| property == WordBreakProperty::SingleQuote
    ||| property == WordBreakProperty::DoubleQuote
    ||| property == WordBreakProperty::MidNumLet
    ||| property == WordBreakProperty::MidLetter
    ||| property == WordBreakProperty::MidNum
}

/// Extended_Pictographic, which no ASCII character is.
pub open spec fn is_pictographic(c: char) -> bool {
    c as u32 >= 0x80 && unicode::extended_pictographic_of(c)
}

/// What the rules read of `c`.
pub open spec fn word_char(c: char) -> WordChar {
    WordChar {
        property: word_break(c),
        pictographic: is_pictographic(c) && !is_newline_or_mid(word_break(c)),
    }
}

/// What the rules read of a text.
pub open spec fn word_chars(chars: Seq<char>) -> Seq<WordChar> {
    chars.map_values(|c: char| word_char(c))
}

/// A character is word-like by more than its Word_Break property where it is Ideographic or
/// Extended_Pictographic, where its general category is Other_Number, or where it belongs to a
/// script of its own, as opposed to Common, Inherited and Unknown.
pub open spec fn word_like_strict(
    ideographic: bool,
    pictographic: bool,
    general_category: u8,
    script: u16,
) -> bool {
    ||| ideographic
    ||| pictographic
    ||| general_category == OTHER_NUMBER
    ||| script != SCRIPT_COMMON && script != SCRIPT_INHERITED && script != SCRIPT_UNKNOWN
}

/// A letter, a Hebrew letter or a digit by its Word_Break property.
pub open spec fn is_letter_or_digit(property: WordBreakProperty) -> bool {
    ||| property == WordBreakProperty::ALetter
    ||| property == WordBreakProperty::HebrewLetter
    ||| property == WordBreakProperty::Numeric
}

/// A token that holds this character is word-like.
pub open spec fn is_word_like_char(c: char) -> bool {
    ||| is_letter_or_digit(word_break(c))
    ||| c as u32 >= 0x80 && word_like_strict(
        unicode::ideographic_of(c),
        unicode::extended_pictographic_of(c),
        unicode::general_category_of(c),
        unicode::script_of(c),
    )
}

/// ICU's number for the general category Other_Number.
pub const OTHER_NUMBER: u8 = 11;

/// ICU's number for the script Common.
pub const SCRIPT_COMMON: u16 = 0;

/// ICU's number for the script Inherited.
pub const SCRIPT_INHERITED: u16 = 1;

/// ICU's number for the script Unknown.
pub const SCRIPT_UNKNOWN: u16 = 103;

/// The Word_Break property of the ASCII character `b`.
pub fn ascii_word_break_property(b: u8) -> (property: WordBreakProperty)
    ensures
        property == ascii_word_break(b),
{
    if b == 0x0d {
        WordBreakProperty::CR
    } else if b == 0x0a {
        WordBreakProperty::LF
    } else if b == 0x0b || b == 0x0c {
        WordBreakProperty::Newline
    } else if b == ' ' as u8 {
        WordBreakProperty::WSegSpace
    } else if b == '"' as u8 {
        WordBreakProperty::DoubleQuote
    } else if b == '\'' as u8 {
        WordBreakProperty::SingleQuote
    } else if b == '.' as u8 {
        WordBreakProperty::MidNumLet
    } else if b == ':' as u8 {
        WordBreakProperty::MidLetter
    } else if b == ',' as u8 || b == ';' as u8 {
        WordBreakProperty::MidNum
    } else if b == '_' as u8 {
        WordBreakProperty::ExtendNumLet
    } else if '0' as u8 <= b && b <= '9' as u8 {
        WordBreakProperty::Numeric
    } else if ('a' as u8 <= b && b <= 'z' as u8) || ('A' as u8 <= b && b <= 'Z' as u8) {
        WordBreakProperty::ALetter
    } else {
        WordBreakProperty::Other
    }
}

/// The property that ICU's number `value` stands for.
pub fn word_break_property_from_value(value: u8) -> (property: WordBreakProperty)
    ensures
        property == word_break_from_value(value),
{
    match value {
        1 => WordBreakProperty::ALetter,
        2 => WordBreakProperty::Format,
        3 => WordBreakProperty::Katakana,
        4 => WordBreakProperty::MidLetter,
        5 => WordBreakProperty::MidNum,
        6 => WordBreakProperty::Numeric,
        7 => WordBreakProperty::ExtendNumLet,
        8 => WordBreakProperty::CR,
        9 => WordBreakProperty::Extend,
        10 => WordBreakProperty::LF,
        11 => WordBreakProperty::MidNumLet,
        12 => WordBreakProperty::Newline,
        13 => WordBreakProperty::RegionalIndicator,
        14 => WordBreakProperty::HebrewLetter,
        15 => WordBreakProperty::SingleQuote,
        16 => WordBreakProperty::DoubleQuote,
        21 => WordBreakProperty::ZWJ,
        22 => WordBreakProperty::WSegSpace,
        _ => WordBreakProperty::Other,
    }
}

/// Looks the Word_Break property of `c` up in the Unicode character database.
pub fn lookup_word_break_property_from_dictionary(c: char) -> (property: WordBreakProperty)
    ensures
        property == word_break_from_value(unicode::word_break_of(c)),
{
    word_break_property_from_value(word_break_value(c))
}

impl WordBreakProperty {
    /// Tells whether `c` is Extended_Pictographic.
    pub fn is_ext_pictographic(c: char) -> (pictographic: bool)
        ensures
            pictographic == is_pictographic(c),
    {
        c as u32 >= 0x80 && is_extended_pictographic_char(c)
    }

    /// Tells whether the rules break around this class or look at it from both sides.
    pub fn is_newline_or_mid(self) -> (found: bool)
        ensures
            found == is_newline_or_mid(self),
    {
        match self {
            WordBreakProperty::CR
            | WordBreakProperty::LF
            | WordBreakProperty::Newline
            | WordBreakProperty::SingleQuote
            | WordBreakProperty::DoubleQuote
            | WordBreakProperty::MidNumLet
            | WordBreakProperty::MidLetter
            | WordBreakProperty::MidNum => true,
            _ => false,
        }
    }
}

/// Decides [`word_like_strict`] from the four properties of a character.
pub fn decide_word_like_strict(
    ideographic: bool,
    pictographic: bool,
    general_category: u8,
    script: u16,
) -> (word_like: bool)
    ensures
        word_like == word_like_strict(ideographic, pictographic, general_category, script),
{
    ideographic || pictographic || general_category == OTHER_NUMBER || (script != SCRIPT_COMMON
        && script != SCRIPT_INHERITED && script != SCRIPT_UNKNOWN)
}

/// Tells whether `c` is word-like by more than its Word_Break property.
pub fn is_word_like_strict(c: char) -> (word_like: bool)
    ensures
        word_like == word_like_strict(
            unicode::ideographic_of(c),
            unicode::extended_pictographic_of(c),
            unicode::general_category_of(c),
            unicode::script_of(c),
        ),
{
    decide_word_like_strict(
        is_ideographic_char(c),
        is_extended_pictographic_char(c),
        general_category_value(c),
        script_value(c),
    )
}

} // verus!
