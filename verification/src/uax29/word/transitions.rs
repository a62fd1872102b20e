//! The automaton that decides the word boundary rules from left to right.

use vstd::prelude::*;

use super::properties;
use super::properties::{ascii_word_break_property, WordBreakProperty, WordChar};
use super::rules;
use super::scan;
use super::token::TokenProperties;
use crate::uax29::Action;

verus! {

/// The states of the automaton: what the rules need to know of the text read so far.
#[derive(Clone, Copy, Debug, PartialEq, Eq, Structural)]
pub enum State {
    StartOfText,
    /// After a character that no rule looks back at.
    Other,
    CR,
    /// After LF or another line separator.
    Newline,
    WSegSpace,
    ALetter,
    HLetter,
    Numeric,
    Katakana,
    ExtendNumLet,
    /// After an odd number of regional indicators.
    RegionalIndicator,
    /// After an even number of them.
    RegionalIndicatorPair,
    /// After a Hebrew letter and a single quote.
    HLetterSQ,
    /// After a letter and what may stand between two letters. Deferred.
    ALetterMid,
    /// After a Hebrew letter and a double quote. Deferred.
    HLetterDQ,
    /// After a digit and what may stand between two digits. Deferred.
    NumericMid,
}

/// In a deferred state it depends on what follows whether there was a break before the last
/// character.
pub open spec fn is_deferred_state(state: State) -> bool {
    state == State::ALetterMid || state == State::HLetterDQ || state == State::NumericMid
}

/// The state after a character of this property at the start of a token.
pub open spec fn state_after(property: WordBreakProperty) -> State {
    match property {
        WordBreakProperty::CR => State::CR,
        WordBreakProperty::LF => State::Newline,
        WordBreakProperty::Newline => State::Newline,
        WordBreakProperty::WSegSpace => State::WSegSpace,
        WordBreakProperty::ALetter => State::ALetter,
        WordBreakProperty::HebrewLetter => State::HLetter,
        WordBreakProperty::Numeric => State::Numeric,
        WordBreakProperty::Katakana => State::Katakana,
        WordBreakProperty::ExtendNumLet => State::ExtendNumLet,
        WordBreakProperty::RegionalIndicator => State::RegionalIndicator,
        _ => State::Other,
    }
}

/// The transition of the automaton on a character of this property.
pub open spec fn transition_of(state: State, property: WordBreakProperty) -> (State, Action) {
    let breaks = (state_after(property), Action::Break);
    let joins = (state_after(property), Action::NoBreak);
    let settles = (State::Other, Action::DeferredBreak);
    if state == State::CR && property == WordBreakProperty::LF {
        joins
    } else if state == State::StartOfText || state == State::CR || state == State::Newline {
        breaks
    } else if rules::is_newline(property) {
        if is_deferred_state(state) {
            settles
        } else {
            breaks
        }
    } else if rules::is_attached(property) {
        if state == State::WSegSpace {
            (State::Other, Action::NoBreak)
        } else {
            (state, Action::Transparent)
        }
    } else {
        match state {
            State::WSegSpace => if property == WordBreakProperty::WSegSpace {
                joins
            } else {
                breaks
            },
            State::ALetter | State::HLetter => if rules::is_letter(property) || property
                == WordBreakProperty::Numeric || property == WordBreakProperty::ExtendNumLet {
                joins
            } else if state == State::HLetter && property == WordBreakProperty::SingleQuote {
                (State::HLetterSQ, Action::NoBreak)
            } else if state == State::HLetter && property == WordBreakProperty::DoubleQuote {
                (State::HLetterDQ, Action::NoBreak)
            } else if rules::is_mid_letter(property) {
                (State::ALetterMid, Action::NoBreak)
            } else {
                breaks
            },
            State::HLetterSQ => if rules::is_letter(property) {
                joins
            } else {
                breaks
            },
            State::ALetterMid => if rules::is_letter(property) {
                joins
            } else {
                settles
            },
            State::HLetterDQ => if property == WordBreakProperty::HebrewLetter {
                joins
            } else {
                settles
            },
            State::Numeric => if rules::is_letter(property) || property == WordBreakProperty::Numeric
                || property == WordBreakProperty::ExtendNumLet {
                joins
            } else if rules::is_mid_number(property) {
                (State::NumericMid, Action::NoBreak)
            } else {
                breaks
            },
            State::NumericMid => if property == WordBreakProperty::Numeric {
                joins
            } else {
                settles
            },
            State::Katakana => if property == WordBreakProperty::Katakana || property
                == WordBreakProperty::ExtendNumLet {
                joins
            } else {
                breaks
            },
            State::ExtendNumLet => if rules::is_letter(property) || property
                == WordBreakProperty::Numeric || property == WordBreakProperty::Katakana || property
                == WordBreakProperty::ExtendNumLet {
                joins
            } else {
                breaks
            },
            State::RegionalIndicator => if property == WordBreakProperty::RegionalIndicator {
                (State::RegionalIndicatorPair, Action::NoBreak)
            } else {
                breaks
            },
            _ => breaks,
        }
    }
}

/// The states from which a letter, a digit or a connector continues the word.
pub open spec fn continues_word(state: State) -> bool {
    ||| state == State::ALetter
    ||| state == State::HLetter
    ||| state == State::Numeric
    ||| state == State::ExtendNumLet
}

/// The properties of the ASCII letters, digits and `_`.
pub open spec fn is_word_continue(property: WordBreakProperty) -> bool {
    ||| property == WordBreakProperty::ALetter
    ||| property == WordBreakProperty::Numeric
    ||| property == WordBreakProperty::ExtendNumLet
}

/// The automaton is in `state` after the first `k` characters.
#[verifier::opaque]
pub open spec fn is_reached(state: State, s: Seq<WordChar>, k: int) -> bool {
    let before = rules::left(s, k);
    let before_that = rules::left_of_left(s, k);
    let next = rules::property_from(s, k);
    if k == 0 {
        state == State::StartOfText
    } else {
        let last = s[k - 1].property;
        match state {
            State::StartOfText => false,
            State::CR => last == WordBreakProperty::CR,
            State::Newline => last == WordBreakProperty::LF || last == WordBreakProperty::Newline,
            State::WSegSpace => last == WordBreakProperty::WSegSpace,
            State::ALetter => before == WordBreakProperty::ALetter,
            State::HLetter => before == WordBreakProperty::HebrewLetter,
            State::Numeric => before == WordBreakProperty::Numeric,
            State::Katakana => before == WordBreakProperty::Katakana,
            State::ExtendNumLet => before == WordBreakProperty::ExtendNumLet,
            State::RegionalIndicator => before == WordBreakProperty::RegionalIndicator
                && rules::regional_indicators_before(s, k) % 2 == 1,
            State::RegionalIndicatorPair => before == WordBreakProperty::RegionalIndicator
                && rules::regional_indicators_before(s, k) % 2 == 0,
            State::HLetterSQ => before == WordBreakProperty::SingleQuote && before_that
                == WordBreakProperty::HebrewLetter,
            State::ALetterMid => rules::is_mid_letter(before) && rules::is_letter(before_that) && !(before
                == WordBreakProperty::SingleQuote && before_that
                == WordBreakProperty::HebrewLetter),
            State::HLetterDQ => before == WordBreakProperty::DoubleQuote && before_that
                == WordBreakProperty::HebrewLetter,
            State::NumericMid => rules::is_mid_number(before) && before_that
                == WordBreakProperty::Numeric,
            State::Other => {
                &&& !rules::is_newline(last) && last != WordBreakProperty::WSegSpace
                &&& !rules::is_letter(before)
                &&& before != WordBreakProperty::Numeric
                &&& before != WordBreakProperty::Katakana
                &&& before != WordBreakProperty::ExtendNumLet
                &&& before != WordBreakProperty::RegionalIndicator
                &&& !(rules::is_mid_letter(before) && rules::is_letter(before_that)
                    && rules::is_letter(next))
                &&& !(before == WordBreakProperty::DoubleQuote && before_that
                    == WordBreakProperty::HebrewLetter && next == WordBreakProperty::HebrewLetter)
                &&& !(rules::is_mid_number(before) && before_that == WordBreakProperty::Numeric && next
                    == WordBreakProperty::Numeric)
            },
        }
    }
}

/// One step of the automaton decides what the rules say: of the position before the character,
/// or of the one that was deferred.
#[verifier::rlimit(40)]
pub proof fn lemma_step(state: State, s: Seq<WordChar>, k: int)
    requires
        rules::well_formed(s),
        0 <= k < s.len(),
        is_reached(state, s, k),
    ensures
        ({
            let (next, action) = transition_of(state, s[k].property);
            let after_zwj = k > 0 && s[k - 1].property == WordBreakProperty::ZWJ;
            match action {
                Action::Break => {
                    &&& rules::is_word_break(s, k) == !(after_zwj && s[k].pictographic)
                    &&& !is_deferred_state(state)
                    &&& !is_deferred_state(next)
                    &&& is_reached(next, s, k + 1)
                },
                Action::NoBreak => {
                    &&& is_reached(next, s, k + 1)
                    &&& is_deferred_state(next) ==> {
                        &&& !is_deferred_state(state)
                        &&& rules::base_before(s, k + 1) == k
                    }
                    &&& !is_deferred_state(next) ==> !rules::is_word_break(s, k)
                    &&& is_deferred_state(state) ==> !rules::is_word_break(s, rules::base_before(s, k))
                },
                Action::DeferredBreak => {
                    &&& is_deferred_state(state)
                    &&& !is_deferred_state(next)
                    &&& rules::is_word_break(s, rules::base_before(s, k))
                    &&& is_reached(next, s, k)
                },
                Action::Transparent => {
                    &&& !rules::is_word_break(s, k)
                    &&& is_reached(state, s, k + 1)
                    &&& rules::base_before(s, k + 1) == rules::base_before(s, k)
                },
            }
        }),
{
    reveal(is_reached);
    let d = rules::base_before(s, k);
    let p = s[k].property;
    let (next, action) = transition_of(state, p);
    rules::lemma_base_before(s, k);
    rules::lemma_base_before(s, d);
    reveal_with_fuel(rules::base_before, 2);
    reveal_with_fuel(rules::base_from, 2);
    if !rules::is_attached(p) {
        assert(rules::base_before(s, k + 1) == k);
        assert(rules::left(s, k + 1) == p);
        assert(rules::left_of_left(s, k + 1) == rules::left(s, k));
        assert(rules::property_from(s, k) == p);
        if p == WordBreakProperty::RegionalIndicator {
            assert(rules::regional_indicators_before(s, k + 1) == 1
                + rules::regional_indicators_before(s, k));
        }
    } else {
        assert(rules::base_before(s, k + 1) == d);
        assert(rules::left(s, k + 1) == rules::left(s, k));
        assert(rules::left_of_left(s, k + 1) == rules::left_of_left(s, k));
        assert(rules::property_from(s, k + 1) == rules::property_from(s, k));
    }
    if is_deferred_state(state) {
        assert(0 < d < k);
        lemma_base_from_skips(s, d + 1, k);
        assert(rules::left(s, d) == rules::left_of_left(s, k));
        assert(!rules::is_newline(s[d - 1].property));
        assert(s[d - 1].property != WordBreakProperty::WSegSpace);
    }
    match action {
        Action::Break => {
            assert(!is_deferred_state(state));
            assert(is_reached(next, s, k + 1));
            assert(rules::is_word_break(s, k) == !(k > 0 && s[k - 1].property == WordBreakProperty::ZWJ
                && s[k].pictographic));
        },
        Action::NoBreak => {
            assert(is_reached(next, s, k + 1));
            assert(!is_deferred_state(next) ==> !rules::is_word_break(s, k));
            assert(is_deferred_state(state) ==> !rules::is_word_break(s, d));
        },
        Action::DeferredBreak => {
            assert(rules::is_word_break(s, d));
            assert(is_reached(next, s, k));
        },
        Action::Transparent => {
            assert(!rules::is_word_break(s, k));
            assert(is_reached(state, s, k + 1));
        },
    }
}

/// At the start of a text the automaton is in its first state.
pub proof fn lemma_start(s: Seq<WordChar>)
    ensures
        is_reached(State::StartOfText, s, 0),
{
    reveal(is_reached);
}

/// From a letter, a digit or a connector, a run of letters, digits and connectors is one step.
pub proof fn lemma_run(state: State, s: Seq<WordChar>, k: int, m: int)
    requires
        rules::well_formed(s),
        0 <= k < m <= s.len(),
        is_reached(state, s, k),
        continues_word(state),
        forall|i: int| k <= i < m ==> is_word_continue(#[trigger] s[i].property),
    ensures
        forall|i: int| k <= i < m ==> !rules::is_word_break(s, i),
        is_reached(state_after(s[m - 1].property), s, m),
        continues_word(state_after(s[m - 1].property)),
        s[m - 1].property != WordBreakProperty::ZWJ,
    decreases m - k,
{
    if k < m - 1 {
        lemma_run(state, s, k, m - 1);
        assert(is_word_continue(s[m - 2].property));
        assert(is_word_continue(s[m - 1].property));
        lemma_step(state_after(s[m - 2].property), s, m - 1);
    } else {
        assert(is_word_continue(s[k].property));
        lemma_step(state, s, k);
    }
}

/// Behind a deferred position there are only attached characters, and no boundary.
pub proof fn lemma_deferred(state: State, s: Seq<WordChar>, k: int)
    requires
        rules::well_formed(s),
        0 <= k <= s.len(),
        is_reached(state, s, k),
        is_deferred_state(state),
    ensures
        0 < rules::base_before(s, k) < k,
        forall|i: int| rules::base_before(s, k) < i < k ==> !rules::is_word_break(s, i),
        k == s.len() ==> rules::is_word_break(s, rules::base_before(s, k)),
{
    reveal(is_reached);
    let d = rules::base_before(s, k);
    rules::lemma_base_before(s, k);
    rules::lemma_base_before(s, d);
    assert forall|i: int| d < i < k implies !rules::is_word_break(s, i) by {
        assert(rules::is_attached(s[i].property));
        if i - 1 > d {
            assert(rules::is_attached(s[i - 1].property));
        }
    }
    if k == s.len() {
        lemma_base_from_skips(s, d + 1, k);
        assert(rules::left(s, d) == rules::left_of_left(s, k));
        assert(!rules::is_newline(s[d - 1].property));
    }
}

/// Attached characters are skipped on the way to the next character.
proof fn lemma_base_from_skips(s: Seq<WordChar>, i: int, k: int)
    requires
        0 <= i <= k <= s.len(),
        forall|j: int| i <= j < k ==> rules::is_attached(#[trigger] s[j].property),
    ensures
        rules::base_from(s, i) == rules::base_from(s, k),
    decreases k - i,
{
    if i < k {
        assert(rules::is_attached(s[i].property));
        lemma_base_from_skips(s, i + 1, k);
    }
}

/// The state after a character of this property at the start of a token.
fn state_after_property(property: WordBreakProperty) -> (state: State)
    ensures
        state == state_after(property),
{
    match property {
        WordBreakProperty::CR => State::CR,
        WordBreakProperty::LF | WordBreakProperty::Newline => State::Newline,
        WordBreakProperty::WSegSpace => State::WSegSpace,
        WordBreakProperty::ALetter => State::ALetter,
        WordBreakProperty::HebrewLetter => State::HLetter,
        WordBreakProperty::Numeric => State::Numeric,
        WordBreakProperty::Katakana => State::Katakana,
        WordBreakProperty::ExtendNumLet => State::ExtendNumLet,
        WordBreakProperty::RegionalIndicator => State::RegionalIndicator,
        _ => State::Other,
    }
}

/// Steps the automaton: from `state`, on a character of this property.
pub fn transition(state: State, property: WordBreakProperty) -> (step: (State, Action))
    ensures
        step == transition_of(state, property),
{
    let after = state_after_property(property);
    let newline = match property {
        WordBreakProperty::CR | WordBreakProperty::LF | WordBreakProperty::Newline => true,
        _ => false,
    };
    let attached = match property {
        WordBreakProperty::Extend | WordBreakProperty::Format | WordBreakProperty::ZWJ => true,
        _ => false,
    };
    let at_line_start = match state {
        State::StartOfText | State::CR | State::Newline => true,
        _ => false,
    };
    if at_line_start {
        if state == State::CR && property == WordBreakProperty::LF {
            return (after, Action::NoBreak);
        }
        return (after, Action::Break);
    }
    if newline {
        if state.is_deferred() {
            return (State::Other, Action::DeferredBreak);
        }
        return (after, Action::Break);
    }
    if attached {
        if state == State::WSegSpace {
            return (State::Other, Action::NoBreak);
        }
        return (state, Action::Transparent);
    }
    match (state, property) {
        (State::WSegSpace, WordBreakProperty::WSegSpace) => (after, Action::NoBreak),
        (
            State::ALetter | State::HLetter | State::Numeric | State::ExtendNumLet,
            WordBreakProperty::ALetter
            | WordBreakProperty::HebrewLetter
            | WordBreakProperty::Numeric
            | WordBreakProperty::ExtendNumLet,
        ) => (after, Action::NoBreak),
        (State::HLetter, WordBreakProperty::SingleQuote) => (State::HLetterSQ, Action::NoBreak),
        (State::HLetter, WordBreakProperty::DoubleQuote) => (State::HLetterDQ, Action::NoBreak),
        (
            State::ALetter | State::HLetter,
            WordBreakProperty::MidLetter
            | WordBreakProperty::MidNumLet
            | WordBreakProperty::SingleQuote,
        ) => (State::ALetterMid, Action::NoBreak),
        (
            State::Numeric,
            WordBreakProperty::MidNum
            | WordBreakProperty::MidNumLet
            | WordBreakProperty::SingleQuote,
        ) => (State::NumericMid, Action::NoBreak),
        (
            State::HLetterSQ | State::ALetterMid,
            WordBreakProperty::ALetter | WordBreakProperty::HebrewLetter,
        ) => (after, Action::NoBreak),
        (State::HLetterDQ, WordBreakProperty::HebrewLetter) => (after, Action::NoBreak),
        (State::NumericMid, WordBreakProperty::Numeric) => (after, Action::NoBreak),
        (
            State::Katakana,
            WordBreakProperty::Katakana | WordBreakProperty::ExtendNumLet,
        ) => (after, Action::NoBreak),
        (State::ExtendNumLet, WordBreakProperty::Katakana) => (after, Action::NoBreak),
        (State::RegionalIndicator, WordBreakProperty::RegionalIndicator) => (
            State::RegionalIndicatorPair,
            Action::NoBreak,
        ),
        (State::ALetterMid | State::HLetterDQ | State::NumericMid, _) => (
            State::Other,
            Action::DeferredBreak,
        ),
        _ => (after, Action::Break),
    }
}

impl State {
    /// Tells whether what follows decides on the position before the last character.
    pub fn is_deferred(self) -> (deferred: bool)
        ensures
            deferred == is_deferred_state(self),
    {
        match self {
            State::ALetterMid | State::HLetterDQ | State::NumericMid => true,
            _ => false,
        }
    }
}

/// One step of the automaton on an ASCII character, with what the character adds to the
/// properties of its token.
pub struct AsciiCell {
    pub next_state: State,
    pub action: Action,
    pub char_props: TokenProperties,
}

/// Steps the automaton on the ASCII character `b`.
pub fn ascii_word_transition(state: State, b: u8) -> (cell: AsciiCell)
    ensures
        (cell.next_state, cell.action) == transition_of(state, properties::ascii_word_break(b)),
        cell.char_props == TokenProperties::of(scan::is_alnum_byte(b), false, scan::is_upper_byte(b)),
{
    let (next_state, action) = transition(state, ascii_word_break_property(b));
    AsciiCell { next_state, action, char_props: TokenProperties::from_ascii_byte(b) }
}

} // verus!
