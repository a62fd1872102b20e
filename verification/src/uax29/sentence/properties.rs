//! The character property that sentence segmentation reads.

use vstd::prelude::*;

use crate::uax29::unicode;
use crate::uax29::unicode::sentence_break_value;

verus! {

/// The values of the Sentence_Break property of UAX #29.
#[derive(Clone, Copy, Debug, PartialEq, Eq, Structural)]
pub enum SentenceBreakProperty {
    Other,
    CR,
    LF,
    Sep,
    Extend,
    Format,
    Sp,
    Lower,
    Upper,
    OLetter,
    Numeric,
    ATerm,
    SContinue,
    STerm,
    Close,
}

/// The Sentence_Break property of an ASCII character.
pub open spec fn ascii_sentence_break(b: u8) -> SentenceBreakProperty {
    if b == 0x0d {
        SentenceBreakProperty::CR
    } else if b == 0x0a {
        SentenceBreakProperty::LF
    } else if b == 0x09 || b == 0x0b || b == 0x0c || b == ' ' as u8 {
        SentenceBreakProperty::Sp
    } else if 'a' as u8 <= b <= 'z' as u8 {
        SentenceBreakProperty::Lower
    } else if 'A' as u8 <= b <= 'Z' as u8 {
        SentenceBreakProperty::Upper
    } else if '0' as u8 <= b <= '9' as u8 {
        SentenceBreakProperty::Numeric
    } else if b == '.' as u8 {
        SentenceBreakProperty::ATerm
    } else if b == '!' as u8 || b == '?' as u8 {
        SentenceBreakProperty::STerm
    } else if b == ',' as u8 || b == '-' as u8 || b == ':' as u8 || b == ';' as u8 {
        SentenceBreakProperty::SContinue
    } else if b == '"' as u8 || b == '\'' as u8 || b == '(' as u8 || b == ')' as u8 || b
        == '[' as u8 || b == ']' as u8 || b == '{' as u8 || b == '}' as u8 {
        SentenceBreakProperty::Close
    } else {
        SentenceBreakProperty::Other
    }
}

/// The property that a value of ICU's `USentenceBreak` enumeration stands for.
pub open spec fn sentence_break_from_value(value: u8) -> SentenceBreakProperty {
    if value == 1 {
        SentenceBreakProperty::ATerm
    } else if value == 2 {
        SentenceBreakProperty::Close
    } else if value == 3 {
        SentenceBreakProperty::Format
    } else if value == 4 {
        SentenceBreakProperty::Lower
    } else if value == 5 {
        SentenceBreakProperty::Numeric
    } else if value == 6 {
        SentenceBreakProperty::OLetter
    } else if value == 7 {
        SentenceBreakProperty::Sep
    } else if value == 8 {
        SentenceBreakProperty::Sp
    } else if value == 9 {
        SentenceBreakProperty::STerm
    } else if value == 10 {
        SentenceBreakProperty::Upper
    } else if value == 11 {
        SentenceBreakProperty::CR
    } else if value == 12 {
        SentenceBreakProperty::Extend
    } else if value == 13 {
        SentenceBreakProperty::LF
    } else if value == 14 {
        SentenceBreakProperty::SContinue
    } else {
        SentenceBreakProperty::Other
    }
}

/// The Sentence_Break property of a character.
pub open spec fn sentence_break(c: char) -> SentenceBreakProperty {
    if (c as u32) < 0x80 {
        ascii_sentence_break(c as u8)
    } else {
        sentence_break_from_value(unicode::sentence_break_of(c))
    }
}

/// The properties of the characters of a text.
pub open spec fn sentence_classes(chars: Seq<char>) -> Seq<SentenceBreakProperty> {
    chars.map_values(|c: char| sentence_break(c))
}

/// The Sentence_Break property of the ASCII character `b`.
pub fn ascii_sentence_break_property(b: u8) -> (property: SentenceBreakProperty)
    ensures
        property == ascii_sentence_break(b),
{
    if b == 0x0d {
        SentenceBreakProperty::CR
    } else if b == 0x0a {
        SentenceBreakProperty::LF
    } else if b == 0x09 || b == 0x0b || b == 0x0c || b == ' ' as u8 {
        SentenceBreakProperty::Sp
    } else if 'a' as u8 <= b && b <= 'z' as u8 {
        SentenceBreakProperty::Lower
    } else if 'A' as u8 <= b && b <= 'Z' as u8 {
        SentenceBreakProperty::Upper
    } else if '0' as u8 <= b && b <= '9' as u8 {
        SentenceBreakProperty::Numeric
    } else if b == '.' as u8 {
        SentenceBreakProperty::ATerm
    } else if b == '!' as u8 || b == '?' as u8 {
        SentenceBreakProperty::STerm
    } else if b == ',' as u8 || b == '-' as u8 || b == ':' as u8 || b == ';' as u8 {
        SentenceBreakProperty::SContinue
    } else if b == '"' as u8 || b == '\'' as u8 || b == '(' as u8 || b == ')' as u8 || b
        == '[' as u8 || b == ']' as u8 || b == '{' as u8 || b == '}' as u8 {
        SentenceBreakProperty::Close
    } else {
        SentenceBreakProperty::Other
    }
}

/// The property that ICU's number `value` stands for.
pub fn sentence_break_property_from_value(value: u8) -> (property: SentenceBreakProperty)
    ensures
        property == sentence_break_from_value(value),
{
    match value {
        1 => SentenceBreakProperty::ATerm,
        2 => SentenceBreakProperty::Close,
        3 => SentenceBreakProperty::Format,
        4 => SentenceBreakProperty::Lower,
        5 => SentenceBreakProperty::Numeric,
        6 => SentenceBreakProperty::OLetter,
        7 => SentenceBreakProperty::Sep,
        8 => SentenceBreakProperty::Sp,
        9 => SentenceBreakProperty::STerm,
        10 => SentenceBreakProperty::Upper,
        11 => SentenceBreakProperty::CR,
        12 => SentenceBreakProperty::Extend,
        13 => SentenceBreakProperty::LF,
        14 => SentenceBreakProperty::SContinue,
        _ => SentenceBreakProperty::Other,
    }
}

/// Looks the Sentence_Break property of `c` up in the Unicode character database.
pub fn lookup_sentence_break_property(c: char) -> (property: SentenceBreakProperty)
    ensures
        property == sentence_break_from_value(unicode::sentence_break_of(c)),
{
    sentence_break_property_from_value(sentence_break_value(c))
}

} // verus!
