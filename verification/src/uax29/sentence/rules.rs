//! The sentence boundary rules of UAX #29, stated over the properties of the characters of a text.

use vstd::prelude::*;

use super::properties::SentenceBreakProperty;

verus! {

/// The characters that SB5 attaches to what stands before them.
pub open spec fn is_attached(property: SentenceBreakProperty) -> bool {
    property == SentenceBreakProperty::Extend || property == SentenceBreakProperty::Format
}

/// ParaSep: what ends a paragraph.
pub open spec fn is_para_sep(property: SentenceBreakProperty) -> bool {
    ||| property == SentenceBreakProperty::Sep
    ||| property == SentenceBreakProperty::CR
    ||| property == SentenceBreakProperty::LF
}

/// SATerm: what may end a sentence.
pub open spec fn is_terminator(property: SentenceBreakProperty) -> bool {
    property == SentenceBreakProperty::STerm || property == SentenceBreakProperty::ATerm
}

/// A letter that has case.
pub open spec fn is_cased(property: SentenceBreakProperty) -> bool {
    property == SentenceBreakProperty::Upper || property == SentenceBreakProperty::Lower
}

/// What SB8 does not look past on its way to a lowercase letter.
pub open spec fn stops_lookahead(property: SentenceBreakProperty) -> bool {
    ||| property == SentenceBreakProperty::OLetter
    ||| is_cased(property)
    ||| is_para_sep(property)
    ||| is_terminator(property)
}

/// The last character before position `i` that is not attached to another one, or -1.
pub open spec fn base_before(s: Seq<SentenceBreakProperty>, i: int) -> int
    decreases i,
{
    if i <= 0 {
        -1
    } else if !is_attached(s[i - 1]) {
        i - 1
    } else {
        base_before(s, i - 1)
    }
}

/// The property before position `i`, as SB5 sees it. Where there is none, it is one that no rule
/// reads.
pub open spec fn left(s: Seq<SentenceBreakProperty>, i: int) -> SentenceBreakProperty {
    if base_before(s, i) >= 0 {
        s[base_before(s, i)]
    } else {
        SentenceBreakProperty::Other
    }
}

/// The property before that one.
pub open spec fn left_of_left(s: Seq<SentenceBreakProperty>, i: int) -> SentenceBreakProperty {
    left(s, base_before(s, i))
}

/// The property before `Close*`, where that stands before position `i`.
pub open spec fn before_close(s: Seq<SentenceBreakProperty>, i: int) -> SentenceBreakProperty
    decreases i,
    via before_close_decreases
{
    if left(s, i) == SentenceBreakProperty::Close {
        before_close(s, base_before(s, i))
    } else {
        left(s, i)
    }
}

#[via_fn]
proof fn before_close_decreases(s: Seq<SentenceBreakProperty>, i: int) {
    lemma_base_before(s, i);
}

/// The property before `Close* Sp*`, where that stands before position `i`.
pub open spec fn before_close_sp(s: Seq<SentenceBreakProperty>, i: int) -> SentenceBreakProperty
    decreases i,
    via before_close_sp_decreases
{
    if left(s, i) == SentenceBreakProperty::Sp {
        before_close_sp(s, base_before(s, i))
    } else {
        before_close(s, i)
    }
}

#[via_fn]
proof fn before_close_sp_decreases(s: Seq<SentenceBreakProperty>, i: int) {
    lemma_base_before(s, i);
}

/// From position `i` on, the first character that SB8 does not look past is a lowercase letter.
pub open spec fn lower_follows(s: Seq<SentenceBreakProperty>, i: int) -> bool {
    exists|j: int|
        i <= j < s.len() && #[trigger] s[j] == SentenceBreakProperty::Lower && forall|m: int|
            i <= m < j ==> !stops_lookahead(#[trigger] s[m])
}

/// `base_before` is the last character before `i` that is not attached.
pub proof fn lemma_base_before(s: Seq<SentenceBreakProperty>, i: int)
    ensures
        -1 <= base_before(s, i),
        i >= 0 ==> base_before(s, i) < i,
        i < 0 ==> base_before(s, i) == -1,
        base_before(s, i) >= 0 ==> !is_attached(s[base_before(s, i)]),
        forall|j: int| base_before(s, i) < j < i && 0 <= j ==> is_attached(#[trigger] s[j]),
    decreases i,
{
    if i > 0 && is_attached(s[i - 1]) {
        lemma_base_before(s, i - 1);
    }
}

/// There is a sentence boundary at position `i` of a text, that is, before its character `i`.
pub open spec fn is_sentence_break(s: Seq<SentenceBreakProperty>, i: int) -> bool {
    if i < 0 || i > s.len() || s.len() == 0 {
        false
    } else if i == 0 || i == s.len() {
        // SB1, SB2
        true
    } else if s[i - 1] == SentenceBreakProperty::CR && s[i] == SentenceBreakProperty::LF {
        // SB3
        false
    } else if is_para_sep(s[i - 1]) {
        // SB4
        true
    } else if is_attached(s[i]) {
        // SB5
        false
    } else if left(s, i) == SentenceBreakProperty::ATerm && s[i] == SentenceBreakProperty::Numeric {
        // SB6
        false
    } else if is_cased(left_of_left(s, i)) && left(s, i) == SentenceBreakProperty::ATerm && s[i]
        == SentenceBreakProperty::Upper {
        // SB7
        false
    } else if before_close_sp(s, i) == SentenceBreakProperty::ATerm && lower_follows(s, i) {
        // SB8
        false
    } else if is_terminator(before_close_sp(s, i)) && (s[i] == SentenceBreakProperty::SContinue
        || is_terminator(s[i])) {
        // SB8a
        false
    } else if is_terminator(before_close(s, i)) && (s[i] == SentenceBreakProperty::Close || s[i]
        == SentenceBreakProperty::Sp || is_para_sep(s[i])) {
        // SB9
        false
    } else if is_terminator(before_close_sp(s, i)) && (s[i] == SentenceBreakProperty::Sp
        || is_para_sep(s[i])) {
        // SB10
        false
    } else {
        // SB11, SB998
        is_terminator(before_close_sp(s, i))
    }
}

} // verus!
