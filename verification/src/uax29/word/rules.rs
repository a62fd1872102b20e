//! The word boundary rules of UAX #29, stated over the properties of the characters of a text.

use vstd::prelude::*;

use super::properties;
use super::properties::{WordBreakProperty, WordChar};

verus! {

/// The characters that WB4 attaches to what stands before them.
pub open spec fn is_attached(property: WordBreakProperty) -> bool {
    ||| property == WordBreakProperty::Extend
    ||| property == WordBreakProperty::Format
    ||| property == WordBreakProperty::ZWJ
}

/// The line separators of WB3a and WB3b.
pub open spec fn is_newline(property: WordBreakProperty) -> bool {
    ||| property == WordBreakProperty::CR
    ||| property == WordBreakProperty::LF
    ||| property == WordBreakProperty::Newline
}

/// AHLetter: a letter, Hebrew or other.
pub open spec fn is_letter(property: WordBreakProperty) -> bool {
    property == WordBreakProperty::ALetter || property == WordBreakProperty::HebrewLetter
}

/// MidLetter or MidNumLetQ: what may stand between two letters of a word.
pub open spec fn is_mid_letter(property: WordBreakProperty) -> bool {
    ||| property == WordBreakProperty::MidLetter
    ||| property == WordBreakProperty::MidNumLet
    ||| property == WordBreakProperty::SingleQuote
}

/// MidNum or MidNumLetQ: what may stand between two digits of a number.
pub open spec fn is_mid_number(property: WordBreakProperty) -> bool {
    ||| property == WordBreakProperty::MidNum
    ||| property == WordBreakProperty::MidNumLet
    ||| property == WordBreakProperty::SingleQuote
}

/// The last character before position `i` that is not attached to another one, or -1.
pub open spec fn base_before(s: Seq<WordChar>, i: int) -> int
    decreases i,
{
    if i <= 0 {
        -1
    } else if !is_attached(s[i - 1].property) {
        i - 1
    } else {
        base_before(s, i - 1)
    }
}

/// The first character from position `i` on that is not attached to another one, or the end.
pub open spec fn base_from(s: Seq<WordChar>, i: int) -> int
    decreases s.len() - i,
{
    if i >= s.len() {
        s.len() as int
    } else if !is_attached(s[i].property) {
        i
    } else {
        base_from(s, i + 1)
    }
}

/// The property of character `i`. Where there is none, it is one that no rule reads.
pub open spec fn property_at(s: Seq<WordChar>, i: int) -> WordBreakProperty {
    if 0 <= i < s.len() {
        s[i].property
    } else {
        WordBreakProperty::Other
    }
}

/// The property before position `i`, as WB4 sees it.
pub open spec fn left(s: Seq<WordChar>, i: int) -> WordBreakProperty {
    property_at(s, base_before(s, i))
}

/// The property before that one.
pub open spec fn left_of_left(s: Seq<WordChar>, i: int) -> WordBreakProperty {
    left(s, base_before(s, i))
}

/// The property of the first character from position `i` on, as WB4 sees it.
pub open spec fn property_from(s: Seq<WordChar>, i: int) -> WordBreakProperty {
    property_at(s, base_from(s, i))
}

/// How many regional indicators stand in a row before position `i`.
pub open spec fn regional_indicators_before(s: Seq<WordChar>, i: int) -> nat
    decreases i,
    via regional_indicators_decreases
{
    if left(s, i) == WordBreakProperty::RegionalIndicator {
        1 + regional_indicators_before(s, base_before(s, i))
    } else {
        0
    }
}

#[via_fn]
proof fn regional_indicators_decreases(s: Seq<WordChar>, i: int) {
    lemma_base_before(s, i);
}

/// `base_before` is the last character before `i` that is not attached.
pub proof fn lemma_base_before(s: Seq<WordChar>, i: int)
    ensures
        -1 <= base_before(s, i),
        i >= 0 ==> base_before(s, i) < i,
        i < 0 ==> base_before(s, i) == -1,
        base_before(s, i) >= 0 ==> !is_attached(s[base_before(s, i)].property),
        forall|j: int| base_before(s, i) < j < i && 0 <= j ==> is_attached(#[trigger] s[j].property),
    decreases i,
{
    if i > 0 && is_attached(s[i - 1].property) {
        lemma_base_before(s, i - 1);
    }
}

/// The rules from WB5 on that forbid a break between `before` and `after`: `before_that` is what
/// stands before `before`, and `after_that` what follows `after`.
pub open spec fn rule_joins(
    before_that: WordBreakProperty,
    before: WordBreakProperty,
    after: WordBreakProperty,
    after_that: WordBreakProperty,
) -> bool {
    // WB5
    ||| is_letter(before) && is_letter(after)
    // WB6
    ||| is_letter(before) && is_mid_letter(after) && is_letter(after_that)
    // WB7
    ||| is_letter(before_that) && is_mid_letter(before) && is_letter(after)
    // WB7a
    ||| before == WordBreakProperty::HebrewLetter && after == WordBreakProperty::SingleQuote
    // WB7b
    ||| before == WordBreakProperty::HebrewLetter && after == WordBreakProperty::DoubleQuote
        && after_that == WordBreakProperty::HebrewLetter
    // WB7c
    ||| before_that == WordBreakProperty::HebrewLetter && before == WordBreakProperty::DoubleQuote
        && after == WordBreakProperty::HebrewLetter
    // WB8
    ||| before == WordBreakProperty::Numeric && after == WordBreakProperty::Numeric
    // WB9
    ||| is_letter(before) && after == WordBreakProperty::Numeric
    // WB10
    ||| before == WordBreakProperty::Numeric && is_letter(after)
    // WB11
    ||| before_that == WordBreakProperty::Numeric && is_mid_number(before) && after
        == WordBreakProperty::Numeric
    // WB12
    ||| before == WordBreakProperty::Numeric && is_mid_number(after) && after_that
        == WordBreakProperty::Numeric
    // WB13
    ||| before == WordBreakProperty::Katakana && after == WordBreakProperty::Katakana
    // WB13a
    ||| (is_letter(before) || before == WordBreakProperty::Numeric || before
        == WordBreakProperty::Katakana || before == WordBreakProperty::ExtendNumLet) && after
        == WordBreakProperty::ExtendNumLet
    // WB13b
    ||| before == WordBreakProperty::ExtendNumLet && (is_letter(after) || after
        == WordBreakProperty::Numeric || after == WordBreakProperty::Katakana)
}

/// There is a word boundary at position `i` of a text, that is, before its character `i`.
pub open spec fn is_word_break(s: Seq<WordChar>, i: int) -> bool {
    if i < 0 || i > s.len() || s.len() == 0 {
        false
    } else if i == 0 || i == s.len() {
        // WB1, WB2
        true
    } else if s[i - 1].property == WordBreakProperty::CR && s[i].property == WordBreakProperty::LF {
        // WB3
        false
    } else if is_newline(s[i - 1].property) || is_newline(s[i].property) {
        // WB3a, WB3b
        true
    } else if s[i - 1].property == WordBreakProperty::ZWJ && s[i].pictographic {
        // WB3c
        false
    } else if s[i - 1].property == WordBreakProperty::WSegSpace && s[i].property
        == WordBreakProperty::WSegSpace {
        // WB3d
        false
    } else if is_attached(s[i].property) {
        // WB4
        false
    } else if rule_joins(left_of_left(s, i), left(s, i), s[i].property, property_from(s, i + 1)) {
        // WB5 to WB13b
        false
    } else if s[i].property == WordBreakProperty::RegionalIndicator && regional_indicators_before(
        s,
        i,
    ) % 2 == 1 {
        // WB15, WB16
        false
    } else {
        // WB999
        true
    }
}

/// No pictographic character is of a class that excludes it.
pub open spec fn well_formed(s: Seq<WordChar>) -> bool {
    forall|i: int|
        0 <= i < s.len() && #[trigger] s[i].pictographic ==> !properties::is_newline_or_mid(
            s[i].property,
        )
}

} // verus!
