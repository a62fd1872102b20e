//! Where there is a boundary between words and where there is none, class by class: what stands
//! around a position decides, and what is attached to it does not count.

use vstd::prelude::*;

use super::laws;
use super::properties;
use super::properties::{WordBreakProperty, WordChar};
use super::reports;
use super::rules;
use super::scan;
use super::token::TokenProperties;
use crate::uax29::text;
use crate::uax29::unicode;

verus! {

/// Extend, Format and ZWJ: what belongs to the character before it.
pub open spec fn is_skipped(p: WordBreakProperty) -> bool {
    p == WordBreakProperty::Extend || p == WordBreakProperty::Format || p == WordBreakProperty::ZWJ
}

/// Characters `j` and `i` follow each other, but for what is attached to the first.
pub open spec fn are_neighbours(s: Seq<WordChar>, j: int, i: int) -> bool {
    &&& 0 <= j < i < s.len()
    &&& !is_skipped(s[j].property)
    &&& !is_skipped(s[i].property)
    &&& forall|m: int| j < m < i ==> is_skipped(#[trigger] s[m].property)
}

/// Letters, digits and connectors, all of which run together.
pub open spec fn is_word_part(p: WordBreakProperty) -> bool {
    ||| p == WordBreakProperty::ALetter
    ||| p == WordBreakProperty::HebrewLetter
    ||| p == WordBreakProperty::Numeric
    ||| p == WordBreakProperty::ExtendNumLet
}

/// Two classes that are never parted.
pub open spec fn is_tight(a: WordBreakProperty, b: WordBreakProperty) -> bool {
    ||| is_word_part(a) && is_word_part(b)
    ||| a == WordBreakProperty::Katakana && b == WordBreakProperty::Katakana
    ||| a == WordBreakProperty::Katakana && b == WordBreakProperty::ExtendNumLet
    ||| a == WordBreakProperty::ExtendNumLet && b == WordBreakProperty::Katakana
    ||| a == WordBreakProperty::HebrewLetter && b == WordBreakProperty::SingleQuote
}

/// Three classes of which the middle one holds the other two together.
pub open spec fn is_bridge(
    a: WordBreakProperty,
    b: WordBreakProperty,
    c: WordBreakProperty,
) -> bool {
    ||| {
        &&& a == WordBreakProperty::ALetter || a == WordBreakProperty::HebrewLetter
        &&& b == WordBreakProperty::MidLetter || b == WordBreakProperty::MidNumLet || b
            == WordBreakProperty::SingleQuote
        &&& c == WordBreakProperty::ALetter || c == WordBreakProperty::HebrewLetter
    }
    ||| {
        &&& a == WordBreakProperty::Numeric
        &&& b == WordBreakProperty::MidNum || b == WordBreakProperty::MidNumLet || b
            == WordBreakProperty::SingleQuote
        &&& c == WordBreakProperty::Numeric
    }
    ||| {
        &&& a == WordBreakProperty::HebrewLetter
        &&& b == WordBreakProperty::DoubleQuote
        &&& c == WordBreakProperty::HebrewLetter
    }
}

/// A pictographic character right after a ZWJ.
pub open spec fn follows_zwj(s: Seq<WordChar>, i: int) -> bool {
    0 < i < s.len() && s[i - 1].property == WordBreakProperty::ZWJ && s[i].pictographic
}

/// Of a character outside of ASCII the rules read what the database says, number by number.
pub proof fn lemma_database_property(chars: Seq<char>, i: int)
    requires
        0 <= i < chars.len(),
        chars[i] as u32 >= 0x80,
    ensures
        ({
            let p = properties::word_chars(chars)[i].property;
            let v = unicode::word_break_of(chars[i]);
            &&& p == properties::word_break_from_value(v)
            &&& p == WordBreakProperty::ALetter <==> v == 1
            &&& p == WordBreakProperty::Format <==> v == 2
            &&& p == WordBreakProperty::Katakana <==> v == 3
            &&& p == WordBreakProperty::MidLetter <==> v == 4
            &&& p == WordBreakProperty::MidNum <==> v == 5
            &&& p == WordBreakProperty::Numeric <==> v == 6
            &&& p == WordBreakProperty::ExtendNumLet <==> v == 7
            &&& p == WordBreakProperty::CR <==> v == 8
            &&& p == WordBreakProperty::Extend <==> v == 9
            &&& p == WordBreakProperty::LF <==> v == 10
            &&& p == WordBreakProperty::MidNumLet <==> v == 11
            &&& p == WordBreakProperty::Newline <==> v == 12
            &&& p == WordBreakProperty::RegionalIndicator <==> v == 13
            &&& p == WordBreakProperty::HebrewLetter <==> v == 14
            &&& p == WordBreakProperty::SingleQuote <==> v == 15
            &&& p == WordBreakProperty::DoubleQuote <==> v == 16
            &&& p == WordBreakProperty::ZWJ <==> v == 21
            &&& p == WordBreakProperty::WSegSpace <==> v == 22
            &&& p == WordBreakProperty::Other <==> v == 0 || 17 <= v <= 20 || v > 22
        }),
{
}

/// Of an ASCII character the rules read its class, character by character.
pub proof fn lemma_ascii_property(chars: Seq<char>, i: int)
    requires
        0 <= i < chars.len(),
        (chars[i] as u32) < 0x80,
    ensures
        ({
            let p = properties::word_chars(chars)[i].property;
            let c = chars[i];
            &&& p == WordBreakProperty::CR <==> c == '\r'
            &&& p == WordBreakProperty::LF <==> c == '\n'
            &&& p == WordBreakProperty::Newline <==> c as u32 == 0x0b || c as u32 == 0x0c
            &&& p == WordBreakProperty::WSegSpace <==> c == ' '
            &&& p == WordBreakProperty::DoubleQuote <==> c == '"'
            &&& p == WordBreakProperty::SingleQuote <==> c == '\''
            &&& p == WordBreakProperty::MidNumLet <==> c == '.'
            &&& p == WordBreakProperty::MidLetter <==> c == ':'
            &&& p == WordBreakProperty::MidNum <==> c == ',' || c == ';'
            &&& p == WordBreakProperty::ExtendNumLet <==> c == '_'
            &&& p == WordBreakProperty::Numeric <==> '0' <= c <= '9'
            &&& p == WordBreakProperty::ALetter <==> 'a' <= c <= 'z' || 'A' <= c <= 'Z'
            &&& !is_skipped(p)
            &&& p != WordBreakProperty::RegionalIndicator
            &&& p != WordBreakProperty::Katakana
            &&& p != WordBreakProperty::HebrewLetter
        }),
{
    text::lemma_char_value(chars[i]);
}

/// A character is pictographic to the rules if the database says so, unless it is in ASCII or one
/// that the rules break around or look at from both sides.
pub proof fn lemma_database_pictographic(chars: Seq<char>, i: int)
    requires
        0 <= i < chars.len(),
    ensures
        ({
            let v = unicode::word_break_of(chars[i]);
            properties::word_chars(chars)[i].pictographic <==> {
                &&& chars[i] as u32 >= 0x80
                &&& unicode::extended_pictographic_of(chars[i])
                &&& v != 4 && v != 5 && v != 8 && v != 10 && v != 11 && v != 12 && v != 15 && v
                    != 16
            }
        }),
{
    if chars[i] as u32 >= 0x80 {
        lemma_database_property(chars, i);
    }
}

/// What stands before `i` where `j` and `i` are neighbours.
proof fn lemma_left(s: Seq<WordChar>, j: int, i: int)
    requires
        are_neighbours(s, j, i),
    ensures
        rules::base_before(s, i) == j,
        rules::left(s, i) == s[j].property,
{
    rules::lemma_base_before(s, i);
    let b = rules::base_before(s, i);
    if b < j {
        assert(rules::is_attached(s[j].property));
    } else if b > j {
        assert(is_skipped(s[b].property));
    }
}

/// Before `i` stands a neighbour, or nothing but what is attached to the start.
proof fn lemma_left_cases(s: Seq<WordChar>, i: int)
    requires
        0 <= i < s.len(),
        !is_skipped(s[i].property),
    ensures
        rules::base_before(s, i) >= 0 ==> are_neighbours(s, rules::base_before(s, i), i),
        rules::base_before(s, i) < 0 ==> forall|m: int|
            0 <= m < i ==> is_skipped(#[trigger] s[m].property),
{
    rules::lemma_base_before(s, i);
    let b = rules::base_before(s, i);
    assert forall|m: int| b < m < i && 0 <= m implies is_skipped(#[trigger] s[m].property) by {
        assert(rules::is_attached(s[m].property));
    }
}

/// `base_from` is the first character from `i` on that is not attached.
proof fn lemma_base_from(s: Seq<WordChar>, i: int)
    requires
        0 <= i <= s.len(),
    ensures
        i <= rules::base_from(s, i) <= s.len(),
        rules::base_from(s, i) < s.len() ==> !is_skipped(s[rules::base_from(s, i)].property),
        forall|m: int| i <= m < rules::base_from(s, i) ==> is_skipped(#[trigger] s[m].property),
    decreases s.len() - i,
{
    if i < s.len() && rules::is_attached(s[i].property) {
        lemma_base_from(s, i + 1);
    }
}

/// What follows `i` where `i` and `m` are neighbours.
proof fn lemma_right(s: Seq<WordChar>, i: int, m: int)
    requires
        are_neighbours(s, i, m),
    ensures
        rules::property_from(s, i + 1) == s[m].property,
{
    lemma_base_from(s, i + 1);
    let b = rules::base_from(s, i + 1);
    if b < m {
        assert(is_skipped(s[b].property));
    } else if b > m {
        assert(is_skipped(s[m].property));
    }
}

/// Two classes that are never parted are not, whatever is attached to the first of them.
pub proof fn lemma_tight(chars: Seq<char>, j: int, i: int)
    requires
        are_neighbours(properties::word_chars(chars), j, i),
        is_tight(
            properties::word_chars(chars)[j].property,
            properties::word_chars(chars)[i].property,
        ),
    ensures
        !rules::is_word_break(properties::word_chars(chars), i),
{
    let s = properties::word_chars(chars);
    lemma_left(s, j, i);
    if j < i - 1 {
        assert(is_skipped(s[i - 1].property));
    }
}

/// What holds two characters together is parted from neither.
pub proof fn lemma_bridge(chars: Seq<char>, h: int, j: int, i: int)
    requires
        are_neighbours(properties::word_chars(chars), h, j),
        are_neighbours(properties::word_chars(chars), j, i),
        is_bridge(
            properties::word_chars(chars)[h].property,
            properties::word_chars(chars)[j].property,
            properties::word_chars(chars)[i].property,
        ),
    ensures
        !rules::is_word_break(properties::word_chars(chars), j),
        !rules::is_word_break(properties::word_chars(chars), i),
{
    let s = properties::word_chars(chars);
    lemma_left(s, h, j);
    lemma_left(s, j, i);
    lemma_right(s, j, i);
    if h < j - 1 {
        assert(is_skipped(s[j - 1].property));
    }
    if j < i - 1 {
        assert(is_skipped(s[i - 1].property));
    }
}

/// The first two regional indicators of a row are not parted.
pub proof fn lemma_first_flag(chars: Seq<char>, j: int, i: int)
    requires
        are_neighbours(properties::word_chars(chars), j, i),
        properties::word_chars(chars)[j].property == WordBreakProperty::RegionalIndicator,
        properties::word_chars(chars)[i].property == WordBreakProperty::RegionalIndicator,
        forall|h: int|
            are_neighbours(properties::word_chars(chars), h, j) ==> (
            #[trigger] properties::word_chars(chars)[h]).property
                != WordBreakProperty::RegionalIndicator,
    ensures
        !rules::is_word_break(properties::word_chars(chars), i),
{
    let s = properties::word_chars(chars);
    lemma_left(s, j, i);
    lemma_left_cases(s, j);
    let h = rules::base_before(s, j);
    if h >= 0 {
        assert(s[h].property != WordBreakProperty::RegionalIndicator);
    }
    assert(rules::left(s, j) != WordBreakProperty::RegionalIndicator);
    reveal_with_fuel(rules::regional_indicators_before, 2);
    assert(rules::regional_indicators_before(s, j) == 0);
    assert(rules::regional_indicators_before(s, i) == 1);
}

/// From then on, regional indicators are parted after every second one.
pub proof fn lemma_next_flag(chars: Seq<char>, h: int, j: int, i: int)
    requires
        are_neighbours(properties::word_chars(chars), h, j),
        are_neighbours(properties::word_chars(chars), j, i),
        properties::word_chars(chars)[h].property == WordBreakProperty::RegionalIndicator,
        properties::word_chars(chars)[j].property == WordBreakProperty::RegionalIndicator,
        properties::word_chars(chars)[i].property == WordBreakProperty::RegionalIndicator,
        !follows_zwj(properties::word_chars(chars), j),
        !follows_zwj(properties::word_chars(chars), i),
    ensures
        rules::is_word_break(properties::word_chars(chars), i) == !rules::is_word_break(
            properties::word_chars(chars),
            j,
        ),
{
    let s = properties::word_chars(chars);
    lemma_left(s, h, j);
    lemma_left(s, j, i);
    if h < j - 1 {
        assert(is_skipped(s[j - 1].property));
    }
    if j < i - 1 {
        assert(is_skipped(s[i - 1].property));
    }
    assert(rules::regional_indicators_before(s, i) == 1 + rules::regional_indicators_before(s, j));
}

/// Spaces of a row are not parted.
pub proof fn lemma_spaces(chars: Seq<char>, i: int)
    requires
        0 < i < chars.len(),
        properties::word_chars(chars)[i - 1].property == WordBreakProperty::WSegSpace,
        properties::word_chars(chars)[i].property == WordBreakProperty::WSegSpace,
    ensures
        !rules::is_word_break(properties::word_chars(chars), i),
{
}

/// A line separator, CR, LF or Newline, is parted from what stands on either side, attached
/// characters among it; only CR before LF is not.
pub proof fn lemma_lines(chars: Seq<char>, i: int)
    requires
        ({
            let a = properties::word_chars(chars)[i - 1].property;
            let b = properties::word_chars(chars)[i].property;
            &&& 0 < i < chars.len()
            &&& a == WordBreakProperty::CR || a == WordBreakProperty::LF || a
                == WordBreakProperty::Newline || b == WordBreakProperty::CR || b
                == WordBreakProperty::LF || b == WordBreakProperty::Newline
        }),
    ensures
        ({
            let a = properties::word_chars(chars)[i - 1].property;
            let b = properties::word_chars(chars)[i].property;
            rules::is_word_break(properties::word_chars(chars), i) <==> !(a
                == WordBreakProperty::CR && b == WordBreakProperty::LF)
        }),
{
}

/// Extend, Format and ZWJ are parted from nothing but a line separator, and what is pictographic
/// from no ZWJ.
pub proof fn lemma_skipped(chars: Seq<char>, i: int)
    requires
        0 < i < chars.len(),
        properties::word_chars(chars)[i - 1].property != WordBreakProperty::CR,
        properties::word_chars(chars)[i - 1].property != WordBreakProperty::LF,
        properties::word_chars(chars)[i - 1].property != WordBreakProperty::Newline,
        is_skipped(properties::word_chars(chars)[i].property) || follows_zwj(
            properties::word_chars(chars),
            i,
        ),
    ensures
        !rules::is_word_break(properties::word_chars(chars), i),
{
    if !is_skipped(properties::word_chars(chars)[i].property) {
        assert(rules::well_formed(properties::word_chars(chars)));
        assert(properties::word_chars(chars)[i].pictographic);
    }
}

/// Whatever is not held together by its classes is parted.
pub proof fn lemma_parted(chars: Seq<char>, j: int, i: int)
    requires
        ({
            let s = properties::word_chars(chars);
            let a = s[j].property;
            let b = s[i].property;
            &&& are_neighbours(s, j, i)
            &&& !is_tight(a, b)
            &&& forall|m: int|
                are_neighbours(s, i, m) ==> !is_bridge(a, b, (#[trigger] s[m]).property)
            &&& forall|h: int|
                are_neighbours(s, h, j) ==> !is_bridge((#[trigger] s[h]).property, a, b)
            &&& !(a == WordBreakProperty::RegionalIndicator && b
                == WordBreakProperty::RegionalIndicator)
            &&& !(j == i - 1 && a == WordBreakProperty::WSegSpace && b
                == WordBreakProperty::WSegSpace)
            &&& !(j == i - 1 && a == WordBreakProperty::CR && b == WordBreakProperty::LF)
            &&& !follows_zwj(s, i)
        }),
    ensures
        rules::is_word_break(properties::word_chars(chars), i),
{
    let s = properties::word_chars(chars);
    lemma_left(s, j, i);
    lemma_left_cases(s, j);
    lemma_base_from(s, i + 1);
    let h = rules::base_before(s, j);
    let m = rules::base_from(s, i + 1);
    if h >= 0 {
        assert(!is_bridge(s[h].property, s[j].property, s[i].property));
    }
    if m < s.len() {
        assert(are_neighbours(s, i, m));
        assert(!is_bridge(s[j].property, s[i].property, s[m].property));
    }
    if j < i - 1 {
        assert(is_skipped(s[i - 1].property));
    }
    reveal_with_fuel(rules::regional_indicators_before, 2);
}

/// What is attached to the start of the text is parted from what follows.
pub proof fn lemma_parted_from_start(chars: Seq<char>, i: int)
    requires
        0 < i < chars.len(),
        !is_skipped(properties::word_chars(chars)[i].property),
        forall|m: int|
            0 <= m < i ==> is_skipped(#[trigger] properties::word_chars(chars)[m].property),
        !follows_zwj(properties::word_chars(chars), i),
    ensures
        rules::is_word_break(properties::word_chars(chars), i),
{
    let s = properties::word_chars(chars);
    lemma_left_cases(s, i);
    assert(rules::base_before(s, i) < 0);
    assert(is_skipped(s[i - 1].property));
    assert(rules::left(s, i) == WordBreakProperty::Other);
    assert(rules::left_of_left(s, i) == WordBreakProperty::Other);
}

/// The offset of a character is reported if and only if there is a boundary before it.
pub proof fn lemma_reported_boundary(chars: Seq<char>, ascii_uppercase: bool, i: int)
    requires
        vstd::utf8::encode_utf8(chars).len() <= usize::MAX,
        0 <= i <= chars.len(),
    ensures
        rules::is_word_break(properties::word_chars(chars), i) <==> exists|a: int|
            0 <= a < reports::word_reports(chars, ascii_uppercase).len()
                && #[trigger] reports::word_reports(chars, ascii_uppercase)[a].0
                == text::byte_offset(chars, i),
{
    let s = properties::word_chars(chars);
    text::lemma_offset_ends(chars);
    if i < chars.len() {
        text::lemma_offset_monotone(chars, i, chars.len() as int);
    }
    laws::lemma_exact(chars, ascii_uppercase, text::byte_offset(chars, i) as usize);
    if exists|j: int| #[trigger]
        rules::is_word_break(s, j) && text::byte_offset(chars, j) == text::byte_offset(chars, i) {
        let j = choose|j: int| #[trigger]
            rules::is_word_break(s, j) && text::byte_offset(chars, j) == text::byte_offset(
                chars,
                i,
            );
        if j < i {
            text::lemma_offset_monotone(chars, j, i);
        } else if i < j {
            text::lemma_offset_monotone(chars, i, j);
        }
    }
}

/// No boundary is reported between two letters outside of ASCII, nor between a letter and a digit:
/// the database numbers letters 1, digits 6 and Hebrew letters 14.
pub proof fn lemma_letters_stay_together(
    chars: Seq<char>,
    ascii_uppercase: bool,
    i: int,
    a: int,
)
    requires
        vstd::utf8::encode_utf8(chars).len() <= usize::MAX,
        0 < i < chars.len(),
        chars[i - 1] as u32 >= 0x80,
        chars[i] as u32 >= 0x80,
        unicode::word_break_of(chars[i - 1]) == 1 || unicode::word_break_of(chars[i - 1]) == 6
            || unicode::word_break_of(chars[i - 1]) == 14,
        unicode::word_break_of(chars[i]) == 1 || unicode::word_break_of(chars[i]) == 6
            || unicode::word_break_of(chars[i]) == 14,
        0 <= a < reports::word_reports(chars, ascii_uppercase).len(),
    ensures
        reports::word_reports(chars, ascii_uppercase)[a].0 != text::byte_offset(chars, i),
{
    lemma_database_property(chars, i - 1);
    lemma_database_property(chars, i);
    lemma_tight(chars, i - 1, i);
    lemma_reported_boundary(chars, ascii_uppercase, i);
}

/// What makes a token word-like: a letter or a digit, of ASCII or by the database's numbers, or a
/// character outside of ASCII that is ideographic, pictographic, of the general category 11
/// (Other_Number), or of a script other than 0 (Common), 1 (Inherited) and 103 (Unknown).
pub open spec fn makes_word_like(c: char) -> bool {
    if (c as u32) < 0x80 {
        'a' <= c <= 'z' || 'A' <= c <= 'Z' || '0' <= c <= '9'
    } else {
        ||| unicode::word_break_of(c) == 1
        ||| unicode::word_break_of(c) == 6
        ||| unicode::word_break_of(c) == 14
        ||| unicode::ideographic_of(c)
        ||| unicode::extended_pictographic_of(c)
        ||| unicode::general_category_of(c) == 11
        ||| {
            &&& unicode::script_of(c) != 0
            &&& unicode::script_of(c) != 1
            &&& unicode::script_of(c) != 103
        }
    }
}

/// Each of the four properties of a character makes it word-like by itself, and nothing else does:
/// among the scripts all but 0, 1 and 103.
pub proof fn lemma_word_like_strict(
    ideographic: bool,
    pictographic: bool,
    general_category: u8,
    script: u16,
)
    ensures
        ideographic ==> properties::word_like_strict(
            ideographic,
            pictographic,
            general_category,
            script,
        ),
        pictographic ==> properties::word_like_strict(
            ideographic,
            pictographic,
            general_category,
            script,
        ),
        general_category == 11 ==> properties::word_like_strict(
            ideographic,
            pictographic,
            general_category,
            script,
        ),
        script != 0 && script != 1 && script != 103 ==> properties::word_like_strict(
            ideographic,
            pictographic,
            general_category,
            script,
        ),
        !ideographic && !pictographic && general_category != 11 && (script == 0 || script == 1
            || script == 103) ==> !properties::word_like_strict(
            ideographic,
            pictographic,
            general_category,
            script,
        ),
{
}

/// A token is word-like if and only if one of its characters makes it so; it is outside of ASCII if
/// and only if one of them is; and, where that was asked for, it has an uppercase letter if and
/// only if one of them is in `A..=Z`.
pub proof fn lemma_token_flags(
    chars: Seq<char>,
    ascii_uppercase: bool,
    a: int,
    start: int,
    end: int,
)
    requires
        vstd::utf8::encode_utf8(chars).len() <= usize::MAX,
        0 < a < reports::word_reports(chars, ascii_uppercase).len(),
        0 <= start <= chars.len(),
        0 <= end <= chars.len(),
        text::byte_offset(chars, start) == reports::word_reports(chars, ascii_uppercase)[a - 1].0,
        text::byte_offset(chars, end) == reports::word_reports(chars, ascii_uppercase)[a].0,
    ensures
        ({
            let props = reports::word_reports(chars, ascii_uppercase)[a].1;
            &&& start < end
            &&& props.word_like() <==> exists|i: int|
                start <= i < end && makes_word_like(#[trigger] chars[i])
            &&& props.non_ascii() <==> exists|i: int|
                start <= i < end && #[trigger] chars[i] as u32 >= 0x80
            &&& props.ascii_uppercase() <==> ascii_uppercase && exists|i: int|
                start <= i < end && 'A' <= #[trigger] chars[i] <= 'Z'
        }),
{
    broadcast use TokenProperties::lemma_of;

    laws::lemma_token_properties(chars, ascii_uppercase, a, start, end);
    laws::lemma_offsets_increase(chars, ascii_uppercase, a - 1, a);
    if end < start {
        text::lemma_offset_monotone(chars, end, start);
    }
    assert forall|i: int| start <= i < end implies properties::is_word_like_char(#[trigger] chars[i])
        == makes_word_like(chars[i]) by {
        lemma_word_like_char(chars, i);
    }
    let props = reports::word_reports(chars, ascii_uppercase)[a].1;
    if props.word_like() {
        let i = choose|i: int| start <= i < end && properties::is_word_like_char(#[trigger] chars[i]);
        assert(makes_word_like(chars[i]));
    }
    if exists|i: int| start <= i < end && makes_word_like(#[trigger] chars[i]) {
        let i = choose|i: int| start <= i < end && makes_word_like(#[trigger] chars[i]);
        assert(properties::is_word_like_char(chars[i]));
    }
    if props.ascii_uppercase() {
        let i = choose|i: int| start <= i < end && reports::is_upper_char(#[trigger] chars[i]);
        assert('A' <= chars[i] <= 'Z');
    }
    if ascii_uppercase && exists|i: int| start <= i < end && 'A' <= #[trigger] chars[i] <= 'Z' {
        let i = choose|i: int| start <= i < end && 'A' <= #[trigger] chars[i] <= 'Z';
        assert(reports::is_upper_char(chars[i]));
    }
}

/// A character is word-like by what makes it so.
proof fn lemma_word_like_char(chars: Seq<char>, i: int)
    requires
        0 <= i < chars.len(),
    ensures
        properties::is_word_like_char(chars[i]) == makes_word_like(chars[i]),
{
    if (chars[i] as u32) < 0x80 {
        lemma_ascii_property(chars, i);
    } else {
        lemma_database_property(chars, i);
        lemma_word_like_strict(
            unicode::ideographic_of(chars[i]),
            unicode::extended_pictographic_of(chars[i]),
            unicode::general_category_of(chars[i]),
            unicode::script_of(chars[i]),
        );
    }
}

/// A token that holds a character outside of ASCII of a script of its own is word-like.
pub proof fn lemma_script_is_word_like(
    chars: Seq<char>,
    ascii_uppercase: bool,
    a: int,
    start: int,
    end: int,
    i: int,
)
    requires
        vstd::utf8::encode_utf8(chars).len() <= usize::MAX,
        0 < a < reports::word_reports(chars, ascii_uppercase).len(),
        0 <= start <= i < end <= chars.len(),
        text::byte_offset(chars, start) == reports::word_reports(chars, ascii_uppercase)[a - 1].0,
        text::byte_offset(chars, end) == reports::word_reports(chars, ascii_uppercase)[a].0,
        chars[i] as u32 >= 0x80,
        unicode::script_of(chars[i]) != 0,
        unicode::script_of(chars[i]) != 1,
        unicode::script_of(chars[i]) != 103,
    ensures
        reports::word_reports(chars, ascii_uppercase)[a].1.word_like(),
{
    lemma_token_flags(chars, ascii_uppercase, a, start, end);
    assert(makes_word_like(chars[i]));
}

/// The bytes that a scan takes for part of a word are those of the classes that run together, and
/// those that it takes for word-like or uppercase are those that make a token so.
pub proof fn lemma_scanned_classes(b: u8)
    ensures
        scan::is_continue_byte(b) <==> is_word_part(properties::ascii_word_break(b)),
        scan::is_alnum_byte(b) <==> b < 0x80 && makes_word_like(b as char),
        scan::is_upper_byte(b) <==> 0x41 <= b <= 0x5a,
{
}

/// A scan takes every byte of a word and stops at the first that is none, however long the word is;
/// from anywhere inside of the word it stops at the same place.
pub proof fn lemma_word_run(bytes: Seq<u8>, start: int, mid: int, end: int)
    requires
        0 <= start <= mid <= end,
        scan::is_word_run(bytes, start, end),
    ensures
        forall|j: int|
            start <= j < end ==> j < bytes.len() && is_word_part(
                properties::ascii_word_break(#[trigger] bytes[j]),
            ),
        end < bytes.len() ==> !is_word_part(properties::ascii_word_break(bytes[end])),
        scan::is_word_run(bytes, mid, end),
{
    assert forall|j: int| start <= j < end implies j < bytes.len() && is_word_part(
        properties::ascii_word_break(#[trigger] bytes[j]),
    ) by {
        lemma_scanned_classes(bytes[j]);
    }
    if end < bytes.len() {
        lemma_scanned_classes(bytes[end]);
    }
}

/// A scan finds a letter or a digit, and an uppercase letter, if and only if the run holds one.
pub proof fn lemma_word_scan(
    bytes: Seq<u8>,
    start: int,
    ascii_uppercase: bool,
    scan: (usize, bool, bool),
)
    requires
        0 <= start,
        scan::is_word_scan(bytes, start, ascii_uppercase, scan),
    ensures
        scan::is_word_run(bytes, start, scan.0 as int),
        scan.1 <==> exists|j: int|
            start <= j < scan.0 && (0x30 <= #[trigger] bytes[j] <= 0x39 || 0x41 <= bytes[j] <= 0x5a
                || 0x61 <= bytes[j] <= 0x7a),
        scan.2 <==> ascii_uppercase && exists|j: int|
            start <= j < scan.0 && 0x41 <= #[trigger] bytes[j] <= 0x5a,
{
    if scan.1 {
        let j = choose|j: int| start <= j < scan.0 && scan::is_alnum_byte(#[trigger] bytes[j]);
        assert(0x30 <= bytes[j] <= 0x39 || 0x41 <= bytes[j] <= 0x5a || 0x61 <= bytes[j] <= 0x7a);
    }
    if scan.2 {
        let j = choose|j: int| start <= j < scan.0 && scan::is_upper_byte(#[trigger] bytes[j]);
        assert(0x41 <= bytes[j] <= 0x5a);
    }
    assert forall|j: int| start <= j < scan.0 implies {
        &&& 0x30 <= #[trigger] bytes[j] <= 0x39 || 0x41 <= bytes[j] <= 0x5a || 0x61 <= bytes[j]
            <= 0x7a ==> scan::any_alnum(bytes, start, scan.0 as int)
        &&& 0x41 <= bytes[j] <= 0x5a ==> scan::any_upper(bytes, start, scan.0 as int)
    } by {
        if scan::is_alnum_byte(bytes[j]) {
            assert(scan::any_alnum(bytes, start, scan.0 as int));
        }
        if scan::is_upper_byte(bytes[j]) {
            assert(scan::any_upper(bytes, start, scan.0 as int));
        }
    }
}

} // verus!
