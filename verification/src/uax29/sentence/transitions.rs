//! The automaton that decides the sentence boundary rules from left to right.

use vstd::prelude::*;

use super::properties::SentenceBreakProperty;
use super::rules;
use crate::uax29::Action;

verus! {

/// The states of the automaton: what the rules need to know of the text read so far.
#[derive(Clone, Copy, Debug, PartialEq, Eq, Structural)]
pub enum State {
    StartOfText,
    /// Inside of a sentence, after a character that no rule looks back at.
    Any,
    CR,
    /// After LF or another paragraph separator.
    ParaSep,
    Upper,
    Lower,
    /// After an ATerm that follows no letter that has case.
    ATerm,
    /// After an ATerm that follows such a letter.
    LetterATerm,
    /// After an ATerm and what closes it.
    ATermClose,
    /// After an ATerm, what closes it, and space.
    ATermSp,
    STerm,
    /// After an STerm and what closes it.
    STermClose,
    /// After an STerm, what closes it, and space.
    STermSp,
    /// Past the position where a sentence may end, on the way to a lowercase letter. Deferred.
    Lookahead,
}

/// In a deferred state it depends on what follows whether there was a break at the position that
/// was deferred.
pub open spec fn is_deferred_state(state: State) -> bool {
    state == State::Lookahead
}

/// The state after a character of this property that follows no terminator and no letter.
pub open spec fn state_after(property: SentenceBreakProperty) -> State {
    match property {
        SentenceBreakProperty::CR => State::CR,
        SentenceBreakProperty::LF => State::ParaSep,
        SentenceBreakProperty::Sep => State::ParaSep,
        SentenceBreakProperty::Upper => State::Upper,
        SentenceBreakProperty::Lower => State::Lower,
        SentenceBreakProperty::ATerm => State::ATerm,
        SentenceBreakProperty::STerm => State::STerm,
        _ => State::Any,
    }
}

/// The transition of the automaton on a character of this property.
pub open spec fn transition_of(state: State, property: SentenceBreakProperty) -> (State, Action) {
    let breaks = (state_after(property), Action::Break);
    let joins = (state_after(property), Action::NoBreak);
    let defers = (State::Lookahead, Action::NoBreak);
    if state == State::CR && property == SentenceBreakProperty::LF {
        joins
    } else if state == State::StartOfText || state == State::CR || state == State::ParaSep {
        breaks
    } else if rules::is_attached(property) {
        (state, Action::Transparent)
    } else {
        match state {
            State::Upper | State::Lower => if property == SentenceBreakProperty::ATerm {
                (State::LetterATerm, Action::NoBreak)
            } else {
                joins
            },
            State::ATerm | State::LetterATerm | State::ATermClose | State::ATermSp => {
                let right_after = state == State::ATerm || state == State::LetterATerm;
                match property {
                    SentenceBreakProperty::Numeric => if right_after {
                        joins
                    } else {
                        defers
                    },
                    SentenceBreakProperty::Upper => if state == State::LetterATerm {
                        joins
                    } else {
                        breaks
                    },
                    SentenceBreakProperty::OLetter => breaks,
                    SentenceBreakProperty::Close => if state == State::ATermSp {
                        defers
                    } else {
                        (State::ATermClose, Action::NoBreak)
                    },
                    SentenceBreakProperty::Sp => (State::ATermSp, Action::NoBreak),
                    SentenceBreakProperty::Other => defers,
                    _ => joins,
                }
            },
            State::STerm | State::STermClose | State::STermSp => match property {
                SentenceBreakProperty::Close => if state == State::STermSp {
                    breaks
                } else {
                    (State::STermClose, Action::NoBreak)
                },
                SentenceBreakProperty::Sp => (State::STermSp, Action::NoBreak),
                SentenceBreakProperty::SContinue
                | SentenceBreakProperty::ATerm
                | SentenceBreakProperty::STerm
                | SentenceBreakProperty::Sep
                | SentenceBreakProperty::CR
                | SentenceBreakProperty::LF => joins,
                _ => breaks,
            },
            State::Lookahead => if property == SentenceBreakProperty::Lower {
                joins
            } else if rules::stops_lookahead(property) {
                (State::Any, Action::DeferredBreak)
            } else {
                defers
            },
            _ => joins,
        }
    }
}

/// Position `k` follows no terminator that SB6 to SB11 see.
pub open spec fn is_unterminated(s: Seq<SentenceBreakProperty>, k: int) -> bool {
    &&& !rules::is_para_sep(s[k - 1])
    &&& !rules::is_cased(rules::left(s, k))
    &&& !rules::is_terminator(rules::left(s, k))
    &&& !rules::is_terminator(rules::before_close(s, k))
    &&& !rules::is_terminator(rules::before_close_sp(s, k))
}

/// Position `d` is a boundary unless a lowercase letter follows by SB8, and up to position `k`
/// that is open.
pub open spec fn is_open(s: Seq<SentenceBreakProperty>, d: int, k: int) -> bool {
    &&& 0 < d < k
    &&& !rules::is_para_sep(s[d - 1])
    &&& !rules::is_attached(s[d])
    &&& rules::before_close_sp(s, d) == SentenceBreakProperty::ATerm
    &&& !(rules::left(s, d) == SentenceBreakProperty::ATerm && s[d]
        == SentenceBreakProperty::Numeric)
    &&& s[d] != SentenceBreakProperty::SContinue
    &&& s[d] != SentenceBreakProperty::Sp
    &&& s[d] == SentenceBreakProperty::Close ==> !rules::is_terminator(rules::before_close(s, d))
    &&& forall|j: int| d <= j < k ==> !rules::stops_lookahead(#[trigger] s[j])
    &&& forall|j: int| d < j < k ==> !rules::is_sentence_break(s, j)
}

/// The automaton is in `state` after the first `k` characters, with position `d` deferred in a
/// deferred state.
pub open spec fn is_reached(state: State, s: Seq<SentenceBreakProperty>, k: int, d: int) -> bool {
    let before = rules::left(s, k);
    let cased = rules::is_cased(rules::left_of_left(s, k));
    if k == 0 {
        state == State::StartOfText
    } else {
        let last = s[k - 1];
        match state {
            State::StartOfText => false,
            State::CR => last == SentenceBreakProperty::CR,
            State::ParaSep => last == SentenceBreakProperty::LF || last
                == SentenceBreakProperty::Sep,
            State::Any => is_unterminated(s, k),
            State::Upper => before == SentenceBreakProperty::Upper,
            State::Lower => before == SentenceBreakProperty::Lower,
            State::ATerm => before == SentenceBreakProperty::ATerm && !cased,
            State::LetterATerm => before == SentenceBreakProperty::ATerm && cased,
            State::ATermClose => before == SentenceBreakProperty::Close && rules::before_close(s, k)
                == SentenceBreakProperty::ATerm,
            State::ATermSp => before == SentenceBreakProperty::Sp && rules::before_close_sp(s, k)
                == SentenceBreakProperty::ATerm,
            State::STerm => before == SentenceBreakProperty::STerm,
            State::STermClose => before == SentenceBreakProperty::Close && rules::before_close(s, k)
                == SentenceBreakProperty::STerm,
            State::STermSp => before == SentenceBreakProperty::Sp && rules::before_close_sp(s, k)
                == SentenceBreakProperty::STerm,
            State::Lookahead => is_unterminated(s, k) && is_open(s, d, k),
        }
    }
}

/// One step of the automaton decides what the rules say: of the position before the character, or
/// of the one that was deferred.
#[verifier::rlimit(40)]
pub proof fn lemma_step(state: State, s: Seq<SentenceBreakProperty>, k: int, d: int)
    requires
        0 <= k < s.len(),
        is_reached(state, s, k, d),
    ensures
        ({
            let (next, action) = transition_of(state, s[k]);
            match action {
                Action::Break => {
                    &&& rules::is_sentence_break(s, k)
                    &&& !is_deferred_state(state)
                    &&& !is_deferred_state(next)
                    &&& is_reached(next, s, k + 1, d)
                },
                Action::NoBreak => {
                    if is_deferred_state(next) {
                        is_reached(next, s, k + 1, if is_deferred_state(state) { d } else { k })
                    } else {
                        &&& !rules::is_sentence_break(s, k)
                        &&& is_deferred_state(state) ==> !rules::is_sentence_break(s, d)
                        &&& is_reached(next, s, k + 1, d)
                    }
                },
                Action::DeferredBreak => {
                    &&& is_deferred_state(state)
                    &&& !is_deferred_state(next)
                    &&& rules::is_sentence_break(s, d)
                    &&& is_reached(next, s, k, d)
                },
                Action::Transparent => {
                    &&& !rules::is_sentence_break(s, k)
                    &&& is_reached(state, s, k + 1, d)
                },
            }
        }),
{
    let p = s[k];
    let (next, action) = transition_of(state, p);
    rules::lemma_base_before(s, k);
    reveal_with_fuel(rules::base_before, 2);
    reveal_with_fuel(rules::before_close, 2);
    reveal_with_fuel(rules::before_close_sp, 2);
    if !rules::is_attached(p) {
        assert(rules::base_before(s, k + 1) == k);
        assert(rules::left(s, k + 1) == p);
        assert(rules::left_of_left(s, k + 1) == rules::left(s, k));
    } else {
        assert(rules::base_before(s, k + 1) == rules::base_before(s, k));
        assert(rules::left(s, k + 1) == rules::left(s, k));
        assert(rules::before_close(s, k + 1) == rules::before_close(s, k));
        assert(rules::before_close_sp(s, k + 1) == rules::before_close_sp(s, k));
    }
    lemma_lookahead(s, k, k);
    if state == State::Lookahead {
        lemma_lookahead(s, d, k);
    }
}

/// What SB8 sees from position `d` on is decided at the first character that stops it.
proof fn lemma_lookahead(s: Seq<SentenceBreakProperty>, d: int, k: int)
    requires
        0 <= d <= k <= s.len(),
        forall|j: int| d <= j < k ==> !rules::stops_lookahead(#[trigger] s[j]),
    ensures
        k == s.len() ==> !rules::lower_follows(s, d),
        k < s.len() && rules::stops_lookahead(s[k]) ==> rules::lower_follows(s, d) == (s[k]
            == SentenceBreakProperty::Lower),
{
    if rules::lower_follows(s, d) {
        let j = choose|j: int|
            d <= j < s.len() && #[trigger] s[j] == SentenceBreakProperty::Lower && forall|m: int|
                d <= m < j ==> !rules::stops_lookahead(#[trigger] s[m]);
        assert(j >= k) by {
            if j < k {
                assert(!rules::stops_lookahead(s[j]));
            }
        }
        if j > k {
            assert(!rules::stops_lookahead(s[k]));
        }
    }
}

/// The states inside of a sentence, where no terminator is near.
pub open spec fn is_interior(state: State) -> bool {
    state == State::Any || state == State::Upper || state == State::Lower
}

/// From inside of a sentence, a run of characters that end neither the sentence nor the paragraph
/// is one step.
pub proof fn lemma_run(state: State, s: Seq<SentenceBreakProperty>, k: int, d: int, m: int)
    requires
        0 <= k < m <= s.len(),
        is_interior(state),
        is_reached(state, s, k, d),
        forall|j: int|
            k <= j < m ==> !rules::is_para_sep(#[trigger] s[j]) && !rules::is_terminator(s[j])
                && !rules::is_attached(s[j]),
    ensures
        forall|j: int| k <= j < m ==> !rules::is_sentence_break(s, j),
        is_interior(state_after(s[m - 1])),
        is_reached(state_after(s[m - 1]), s, m, d),
    decreases m - k,
{
    if k < m - 1 {
        lemma_run(state, s, k, d, m - 1);
        lemma_step(state_after(s[m - 2]), s, m - 1, d);
    } else {
        lemma_step(state, s, k, d);
    }
}

/// At the end of the text a deferred position is a boundary.
pub proof fn lemma_deferred_end(s: Seq<SentenceBreakProperty>, d: int)
    requires
        is_open(s, d, s.len() as int),
    ensures
        rules::is_sentence_break(s, d),
{
    lemma_lookahead(s, d, s.len() as int);
    assert(!rules::stops_lookahead(s[d]));
}

/// The state after a character of this property that follows no terminator and no letter.
fn state_after_property(property: SentenceBreakProperty) -> (state: State)
    ensures
        state == state_after(property),
{
    match property {
        SentenceBreakProperty::CR => State::CR,
        SentenceBreakProperty::LF | SentenceBreakProperty::Sep => State::ParaSep,
        SentenceBreakProperty::Upper => State::Upper,
        SentenceBreakProperty::Lower => State::Lower,
        SentenceBreakProperty::ATerm => State::ATerm,
        SentenceBreakProperty::STerm => State::STerm,
        _ => State::Any,
    }
}

/// Steps the automaton: from `state`, on a character of this property.
pub fn transition(state: State, property: SentenceBreakProperty) -> (step: (State, Action))
    ensures
        step == transition_of(state, property),
{
    let after = state_after_property(property);
    match (state, property) {
        (State::CR, SentenceBreakProperty::LF) => (after, Action::NoBreak),
        (State::StartOfText | State::CR | State::ParaSep, _) => (after, Action::Break),
        (_, SentenceBreakProperty::Extend | SentenceBreakProperty::Format) => (
            state,
            Action::Transparent,
        ),
        (State::Any, _) => (after, Action::NoBreak),
        (State::Upper | State::Lower, SentenceBreakProperty::ATerm) => (
            State::LetterATerm,
            Action::NoBreak,
        ),
        (State::Upper | State::Lower, _) => (after, Action::NoBreak),
        (State::LetterATerm, SentenceBreakProperty::Upper) => (after, Action::NoBreak),
        (
            State::ATerm | State::LetterATerm | State::ATermClose | State::ATermSp,
            SentenceBreakProperty::Upper | SentenceBreakProperty::OLetter,
        ) => (after, Action::Break),
        (State::ATermClose | State::ATermSp, SentenceBreakProperty::Numeric) => (
            State::Lookahead,
            Action::NoBreak,
        ),
        (State::ATermSp, SentenceBreakProperty::Close) => (State::Lookahead, Action::NoBreak),
        (
            State::ATerm | State::LetterATerm | State::ATermClose,
            SentenceBreakProperty::Close,
        ) => (State::ATermClose, Action::NoBreak),
        (
            State::ATerm | State::LetterATerm | State::ATermClose | State::ATermSp,
            SentenceBreakProperty::Sp,
        ) => (State::ATermSp, Action::NoBreak),
        (
            State::ATerm | State::LetterATerm | State::ATermClose | State::ATermSp,
            SentenceBreakProperty::Other,
        ) => (State::Lookahead, Action::NoBreak),
        (State::ATerm | State::LetterATerm | State::ATermClose | State::ATermSp, _) => (
            after,
            Action::NoBreak,
        ),
        (State::STerm | State::STermClose, SentenceBreakProperty::Close) => (
            State::STermClose,
            Action::NoBreak,
        ),
        (State::STerm | State::STermClose | State::STermSp, SentenceBreakProperty::Sp) => (
            State::STermSp,
            Action::NoBreak,
        ),
        (
            State::STerm | State::STermClose | State::STermSp,
            SentenceBreakProperty::SContinue
            | SentenceBreakProperty::ATerm
            | SentenceBreakProperty::STerm
            | SentenceBreakProperty::Sep
            | SentenceBreakProperty::CR
            | SentenceBreakProperty::LF,
        ) => (after, Action::NoBreak),
        (State::STerm | State::STermClose | State::STermSp, _) => (after, Action::Break),
        (State::Lookahead, SentenceBreakProperty::Lower) => (after, Action::NoBreak),
        (
            State::Lookahead,
            SentenceBreakProperty::OLetter
            | SentenceBreakProperty::Upper
            | SentenceBreakProperty::Sep
            | SentenceBreakProperty::CR
            | SentenceBreakProperty::LF
            | SentenceBreakProperty::ATerm
            | SentenceBreakProperty::STerm,
        ) => (State::Any, Action::DeferredBreak),
        (State::Lookahead, _) => (State::Lookahead, Action::NoBreak),
    }
}

impl State {
    /// Tells whether what follows decides on the position that was deferred.
    pub fn is_deferred(self) -> (deferred: bool)
        ensures
            deferred == is_deferred_state(self),
    {
        matches!(self, State::Lookahead)
    }
}

} // verus!
