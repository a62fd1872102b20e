//! What the word tokenizer knows in the middle of a text, and how each step keeps it.

use vstd::prelude::*;

use super::properties;
use super::properties::{WordBreakProperty, WordChar};
use super::reports;
use super::rules;
use super::scan;
use super::token::TokenProperties;
use super::transitions;
use super::transitions::State;
use crate::uax29::text;
use crate::uax29::Action;

verus! {

/// The first position that the automaton has not decided on yet.
pub open spec fn undecided(state: State, s: Seq<WordChar>, k: int) -> int {
    if transitions::is_deferred_state(state) {
        rules::base_before(s, k)
    } else {
        k
    }
}

/// What the tokenizer knows after the first `k` characters: the state of the automaton, whether a
/// ZWJ stands right before, the position that is deferred, the properties of what stands before it
/// in the current token and of what follows it, and the reports made.
pub closed spec fn is_progress(
    chars: Seq<char>,
    ascii_uppercase: bool,
    k: int,
    state: State,
    last_was_zwj: bool,
    deferred_break_pos: Option<usize>,
    token_props: TokenProperties,
    deferred_props: TokenProperties,
    reported: Seq<(usize, TokenProperties)>,
) -> bool {
    let s = properties::word_chars(chars);
    let d = undecided(state, s, k);
    &&& 0 <= k <= chars.len()
    &&& transitions::is_reached(state, s, k)
    &&& last_was_zwj == (k > 0 && s[k - 1].property == WordBreakProperty::ZWJ)
    &&& deferred_break_pos == (if transitions::is_deferred_state(state) {
        Some(text::byte_offset(chars, d) as usize)
    } else {
        None
    })
    &&& token_props == reports::span_properties(
        chars,
        reports::token_start(s, d),
        d,
        ascii_uppercase,
    )
    &&& deferred_props == reports::span_properties(chars, d, k, ascii_uppercase)
    &&& reported == reports::word_reports_before(chars, ascii_uppercase, d)
}

/// What the rules read of a text is well-formed.
proof fn lemma_well_formed(chars: Seq<char>)
    ensures
        rules::well_formed(properties::word_chars(chars)),
{
}

/// A run of word-continue bytes is a run of characters that continue the word, and the scan of it
/// tells their properties.
pub proof fn lemma_scanned_run(
    chars: Seq<char>,
    ascii_uppercase: bool,
    k: int,
    scan: (usize, bool, bool),
)
    requires
        0 <= k <= chars.len(),
        scan::is_word_scan(
            vstd::utf8::encode_utf8(chars),
            text::byte_offset(chars, k),
            ascii_uppercase,
            scan,
        ),
        text::byte_offset(chars, k) < scan.0,
    ensures
        ({
            let m = k + (scan.0 - text::byte_offset(chars, k));
            let s = properties::word_chars(chars);
            let last = vstd::utf8::encode_utf8(chars)[scan.0 - 1];
            &&& k < m <= chars.len()
            &&& text::byte_offset(chars, m) == scan.0
            &&& forall|i: int| k <= i < m ==> transitions::is_word_continue(#[trigger] s[i].property)
            &&& s[m - 1].property == properties::ascii_word_break(last)
            &&& scan::is_continue_byte(last)
            &&& reports::span_properties(chars, k, m, ascii_uppercase) == TokenProperties::of(
                scan.1,
                false,
                scan.2,
            )
        }),
{
    let bytes = vstd::utf8::encode_utf8(chars);
    let start = text::byte_offset(chars, k);
    let len = scan.0 - start;
    let m = k + len;
    let s = properties::word_chars(chars);
    text::lemma_ascii_run(chars, k, len);
    assert(text::byte_offset(chars, m) == scan.0);
    assert forall|i: int| k <= i < m implies {
        &&& (chars[i] as u32) < 0x80
        &&& chars[i] as u8 == bytes[start + (i - k)]
        &&& scan::is_continue_byte(chars[i] as u8)
        &&& (#[trigger] s[i]).property == properties::ascii_word_break(chars[i] as u8)
        &&& properties::is_word_like_char(chars[i]) == scan::is_alnum_byte(chars[i] as u8)
        &&& reports::is_upper_char(chars[i]) == scan::is_upper_byte(chars[i] as u8)
    } by {
        text::lemma_char_value(chars[i]);
    }
    if scan.1 {
        let j = choose|j: int| start <= j < scan.0 && scan::is_alnum_byte(#[trigger] bytes[j]);
        let i = k + (j - start);
        assert(s[i].property == properties::ascii_word_break(bytes[j]));
        assert(properties::is_word_like_char(chars[i]));
    }
    if scan::any_upper(bytes, start, scan.0 as int) {
        let j = choose|j: int| start <= j < scan.0 && scan::is_upper_byte(#[trigger] bytes[j]);
        let i = k + (j - start);
        assert(s[i].property == properties::ascii_word_break(bytes[j]));
        assert(chars[i] as u8 == bytes[j]);
        assert(reports::is_upper_char(chars[i]));
    }
    assert forall|i: int| k <= i < m implies (chars[i] as u32) < 0x80 && (
    properties::is_word_like_char(chars[i]) ==> scan.1) && (reports::is_upper_char(#[trigger] chars[i])
        ==> scan::any_upper(bytes, start, scan.0 as int)) by {
        assert(s[i].property == s[i].property);
        let j = start + (i - k);
        assert(bytes[j] == chars[i] as u8);
    }
    assert(s[m - 1].property == properties::ascii_word_break(bytes[scan.0 - 1]));
}

/// At the start nothing is known and nothing is reported.
pub proof fn lemma_start(chars: Seq<char>, ascii_uppercase: bool)
    ensures
        is_progress(
            chars,
            ascii_uppercase,
            0,
            State::StartOfText,
            false,
            None,
            TokenProperties::of(false, false, false),
            TokenProperties::of(false, false, false),
            Seq::<(usize, TokenProperties)>::empty(),
        ),
{
    transitions::lemma_start(properties::word_chars(chars));
    reports::lemma_short_spans(chars, 0, ascii_uppercase);
}

/// What follows from progress alone.
pub proof fn lemma_progress(
    chars: Seq<char>,
    ascii_uppercase: bool,
    k: int,
    state: State,
    last_was_zwj: bool,
    deferred_break_pos: Option<usize>,
    token_props: TokenProperties,
    deferred_props: TokenProperties,
    reported: Seq<(usize, TokenProperties)>,
)
    requires
        is_progress(
            chars,
            ascii_uppercase,
            k,
            state,
            last_was_zwj,
            deferred_break_pos,
            token_props,
            deferred_props,
            reported,
        ),
    ensures
        ({
            let s = properties::word_chars(chars);
            let d = undecided(state, s, k);
            &&& 0 <= k <= chars.len()
            &&& 0 <= reports::token_start(s, d) <= d <= k
            &&& token_props == reports::span_properties(
                chars,
                reports::token_start(s, d),
                d,
                ascii_uppercase,
            )
            &&& deferred_props == reports::span_properties(chars, d, k, ascii_uppercase)
            &&& deferred_break_pos is Some == transitions::is_deferred_state(state)
        }),
{
    let s = properties::word_chars(chars);
    rules::lemma_base_before(s, k);
    lemma_well_formed(chars);
    if transitions::is_deferred_state(state) {
        transitions::lemma_deferred(state, s, k);
    }
    reports::lemma_token_start(s, undecided(state, s, k));
}

/// A break before character `k`.
pub proof fn lemma_break(
    chars: Seq<char>,
    ascii_uppercase: bool,
    k: int,
    state: State,
    last_was_zwj: bool,
    deferred_break_pos: Option<usize>,
    token_props: TokenProperties,
    deferred_props: TokenProperties,
    reported: Seq<(usize, TokenProperties)>,
)
    requires
        is_progress(
            chars,
            ascii_uppercase,
            k,
            state,
            last_was_zwj,
            deferred_break_pos,
            token_props,
            deferred_props,
            reported,
        ),
        k < chars.len(),
        transitions::transition_of(state, properties::word_break(chars[k])).1 == Action::Break,
        !(last_was_zwj && properties::word_char(chars[k]).pictographic),
    ensures
        ({
            let next = transitions::transition_of(state, properties::word_break(chars[k])).0;
            &&& rules::is_word_break(properties::word_chars(chars), k)
            &&& (text::byte_offset(chars, k) as usize, token_props) == reports::word_report(
                chars,
                ascii_uppercase,
                k,
            )
            &&& reported == reports::word_reports_before(chars, ascii_uppercase, k)
            &&& !transitions::is_deferred_state(state)
            &&& !transitions::is_deferred_state(next)
            &&& is_progress(
                chars,
                ascii_uppercase,
                k + 1,
                next,
                properties::word_break(chars[k]) == WordBreakProperty::ZWJ,
                None,
                reports::span_properties(chars, k, k + 1, ascii_uppercase),
                TokenProperties::of(false, false, false),
                reports::word_reports_before(chars, ascii_uppercase, k + 1),
            )
        }),
{
    let s = properties::word_chars(chars);
    let d = undecided(state, s, k);
    lemma_well_formed(chars);
    transitions::lemma_step(state, s, k);
    reports::lemma_short_spans(chars, k, ascii_uppercase);
    reports::lemma_short_spans(chars, k + 1, ascii_uppercase);
}

/// A pictographic character after a ZWJ joins the token, though the automaton would break.
pub proof fn lemma_join(
    chars: Seq<char>,
    ascii_uppercase: bool,
    k: int,
    state: State,
    last_was_zwj: bool,
    deferred_break_pos: Option<usize>,
    token_props: TokenProperties,
    deferred_props: TokenProperties,
    reported: Seq<(usize, TokenProperties)>,
)
    requires
        is_progress(
            chars,
            ascii_uppercase,
            k,
            state,
            last_was_zwj,
            deferred_break_pos,
            token_props,
            deferred_props,
            reported,
        ),
        k < chars.len(),
        transitions::transition_of(state, properties::word_break(chars[k])).1 == Action::Break,
        last_was_zwj,
        properties::word_char(chars[k]).pictographic,
    ensures
        ({
            let next = transitions::transition_of(state, properties::word_break(chars[k])).0;
            let start = reports::token_start(properties::word_chars(chars), k);
            &&& !transitions::is_deferred_state(state)
            &&& !transitions::is_deferred_state(next)
            &&& is_progress(
                chars,
                ascii_uppercase,
                k + 1,
                next,
                properties::word_break(chars[k]) == WordBreakProperty::ZWJ,
                None,
                reports::span_properties(chars, start, k + 1, ascii_uppercase),
                TokenProperties::of(false, false, false),
                reported,
            )
        }),
{
    let s = properties::word_chars(chars);
    let d = undecided(state, s, k);
    lemma_well_formed(chars);
    transitions::lemma_step(state, s, k);
    reports::lemma_short_spans(chars, k, ascii_uppercase);
    reports::lemma_short_spans(chars, k + 1, ascii_uppercase);
    reports::lemma_no_reports(chars, ascii_uppercase, k, k + 1);
}

/// The automaton defers the position before character `k`.
pub proof fn lemma_defer(
    chars: Seq<char>,
    ascii_uppercase: bool,
    k: int,
    state: State,
    last_was_zwj: bool,
    deferred_break_pos: Option<usize>,
    token_props: TokenProperties,
    deferred_props: TokenProperties,
    reported: Seq<(usize, TokenProperties)>,
)
    requires
        is_progress(
            chars,
            ascii_uppercase,
            k,
            state,
            last_was_zwj,
            deferred_break_pos,
            token_props,
            deferred_props,
            reported,
        ),
        k < chars.len(),
        transitions::transition_of(state, properties::word_break(chars[k])).1 == Action::NoBreak,
        transitions::is_deferred_state(
            transitions::transition_of(state, properties::word_break(chars[k])).0,
        ),
    ensures
        ({
            let next = transitions::transition_of(state, properties::word_break(chars[k])).0;
            &&& !transitions::is_deferred_state(state)
            &&& is_progress(
                chars,
                ascii_uppercase,
                k + 1,
                next,
                properties::word_break(chars[k]) == WordBreakProperty::ZWJ,
                Some(text::byte_offset(chars, k) as usize),
                token_props,
                reports::span_properties(chars, k, k + 1, ascii_uppercase),
                reported,
            )
        }),
{
    let s = properties::word_chars(chars);
    let d = undecided(state, s, k);
    lemma_well_formed(chars);
    transitions::lemma_step(state, s, k);
    reports::lemma_short_spans(chars, k, ascii_uppercase);
    reports::lemma_short_spans(chars, k + 1, ascii_uppercase);
}

/// No break before character `k`, nor at the position that was deferred.
#[verifier::rlimit(40)]
pub proof fn lemma_no_break(
    chars: Seq<char>,
    ascii_uppercase: bool,
    k: int,
    state: State,
    last_was_zwj: bool,
    deferred_break_pos: Option<usize>,
    token_props: TokenProperties,
    deferred_props: TokenProperties,
    reported: Seq<(usize, TokenProperties)>,
)
    requires
        is_progress(
            chars,
            ascii_uppercase,
            k,
            state,
            last_was_zwj,
            deferred_break_pos,
            token_props,
            deferred_props,
            reported,
        ),
        k < chars.len(),
        transitions::transition_of(state, properties::word_break(chars[k])).1 == Action::NoBreak,
        !transitions::is_deferred_state(
            transitions::transition_of(state, properties::word_break(chars[k])).0,
        ),
    ensures
        ({
            let next = transitions::transition_of(state, properties::word_break(chars[k])).0;
            let s = properties::word_chars(chars);
            let start = reports::token_start(s, undecided(state, s, k));
            &&& is_progress(
                chars,
                ascii_uppercase,
                k + 1,
                next,
                properties::word_break(chars[k]) == WordBreakProperty::ZWJ,
                None,
                reports::span_properties(chars, start, k + 1, ascii_uppercase),
                TokenProperties::of(false, false, false),
                reported,
            )
        }),
{
    let s = properties::word_chars(chars);
    let d = undecided(state, s, k);
    lemma_well_formed(chars);
    transitions::lemma_step(state, s, k);
    reports::lemma_short_spans(chars, k, ascii_uppercase);
    reports::lemma_short_spans(chars, k + 1, ascii_uppercase);
    if transitions::is_deferred_state(state) {
        transitions::lemma_deferred(state, s, k);
    }
    reports::lemma_no_reports(chars, ascii_uppercase, d, k + 1);
}

/// A break at the position that was deferred.
pub proof fn lemma_deferred_break(
    chars: Seq<char>,
    ascii_uppercase: bool,
    k: int,
    state: State,
    last_was_zwj: bool,
    deferred_break_pos: Option<usize>,
    token_props: TokenProperties,
    deferred_props: TokenProperties,
    reported: Seq<(usize, TokenProperties)>,
)
    requires
        is_progress(
            chars,
            ascii_uppercase,
            k,
            state,
            last_was_zwj,
            deferred_break_pos,
            token_props,
            deferred_props,
            reported,
        ),
        k < chars.len() ==> transitions::transition_of(state, properties::word_break(chars[k])).1
            == Action::DeferredBreak,
        k == chars.len() ==> transitions::is_deferred_state(state),
    ensures
        ({
            let s = properties::word_chars(chars);
            let d = undecided(state, s, k);
            &&& transitions::is_deferred_state(state)
            &&& 0 <= d <= chars.len()
            &&& rules::is_word_break(s, d)
            &&& deferred_break_pos is Some
            &&& (deferred_break_pos->0, token_props) == reports::word_report(
                chars,
                ascii_uppercase,
                d,
            )
            &&& reported == reports::word_reports_before(chars, ascii_uppercase, d)
            &&& k < chars.len() ==> {
                let next = transitions::transition_of(state, properties::word_break(chars[k])).0;
                &&& !transitions::is_deferred_state(next)
                &&& is_progress(
                    chars,
                    ascii_uppercase,
                    k,
                    next,
                    last_was_zwj,
                    None,
                    deferred_props,
                    TokenProperties::of(false, false, false),
                    reports::word_reports_before(chars, ascii_uppercase, d + 1),
                )
            }
            &&& k == chars.len() ==> {
                &&& deferred_props == reports::span_properties(
                    chars,
                    reports::token_start(s, k),
                    k,
                    ascii_uppercase,
                )
                &&& reports::word_reports_before(chars, ascii_uppercase, d + 1)
                    == reports::word_reports_before(chars, ascii_uppercase, k)
            }
        }),
{
    let s = properties::word_chars(chars);
    let d = undecided(state, s, k);
    lemma_well_formed(chars);
    reports::lemma_short_spans(chars, k, ascii_uppercase);
    if k < chars.len() {
        transitions::lemma_step(state, s, k);
    }
    transitions::lemma_deferred(state, s, k);
    reports::lemma_no_reports(chars, ascii_uppercase, d + 1, k);
}

/// Character `k` is attached to what stands before it.
pub proof fn lemma_transparent(
    chars: Seq<char>,
    ascii_uppercase: bool,
    k: int,
    state: State,
    last_was_zwj: bool,
    deferred_break_pos: Option<usize>,
    token_props: TokenProperties,
    deferred_props: TokenProperties,
    reported: Seq<(usize, TokenProperties)>,
)
    requires
        is_progress(
            chars,
            ascii_uppercase,
            k,
            state,
            last_was_zwj,
            deferred_break_pos,
            token_props,
            deferred_props,
            reported,
        ),
        k < chars.len(),
        transitions::transition_of(state, properties::word_break(chars[k])).1 == Action::Transparent,
    ensures
        ({
            let s = properties::word_chars(chars);
            let d = undecided(state, s, k);
            let start = reports::token_start(s, d);
            &&& transitions::is_deferred_state(state) ==> {
                &&& is_progress(
                    chars,
                    ascii_uppercase,
                    k + 1,
                    state,
                    properties::word_break(chars[k]) == WordBreakProperty::ZWJ,
                    deferred_break_pos,
                    token_props,
                    reports::span_properties(chars, d, k + 1, ascii_uppercase),
                    reported,
                )
            }
            &&& !transitions::is_deferred_state(state) ==> {
                &&& is_progress(
                    chars,
                    ascii_uppercase,
                    k + 1,
                    state,
                    properties::word_break(chars[k]) == WordBreakProperty::ZWJ,
                    None,
                    reports::span_properties(chars, start, k + 1, ascii_uppercase),
                    TokenProperties::of(false, false, false),
                    reported,
                )
            }
        }),
{
    let s = properties::word_chars(chars);
    let d = undecided(state, s, k);
    lemma_well_formed(chars);
    transitions::lemma_step(state, s, k);
    reports::lemma_short_spans(chars, k, ascii_uppercase);
    reports::lemma_short_spans(chars, k + 1, ascii_uppercase);
    reports::lemma_no_reports(chars, ascii_uppercase, k, k + 1);
}

/// A run of characters that continue the word is one step.
pub proof fn lemma_run(
    chars: Seq<char>,
    ascii_uppercase: bool,
    k: int,
    state: State,
    last_was_zwj: bool,
    deferred_break_pos: Option<usize>,
    token_props: TokenProperties,
    deferred_props: TokenProperties,
    reported: Seq<(usize, TokenProperties)>,
    m: int,
)
    requires
        is_progress(
            chars,
            ascii_uppercase,
            k,
            state,
            last_was_zwj,
            deferred_break_pos,
            token_props,
            deferred_props,
            reported,
        ),
        k < m <= chars.len(),
        transitions::continues_word(state),
        forall|i: int|
            k <= i < m ==> transitions::is_word_continue(
                #[trigger] properties::word_chars(chars)[i].property,
            ),
    ensures
        ({
            let next = transitions::state_after(properties::word_break(chars[m - 1]));
            let start = reports::token_start(properties::word_chars(chars), k);
            &&& !transitions::is_deferred_state(next)
            &&& is_progress(
                chars,
                ascii_uppercase,
                m,
                next,
                false,
                None,
                reports::span_properties(chars, start, m, ascii_uppercase),
                TokenProperties::of(false, false, false),
                reported,
            )
        }),
{
    let s = properties::word_chars(chars);
    lemma_well_formed(chars);
    transitions::lemma_run(state, s, k, m);
    reports::lemma_no_reports(chars, ascii_uppercase, k, m);
    reports::lemma_short_spans(chars, m, ascii_uppercase);
}

/// At the end of the text, with nothing deferred, the last boundary is left to report.
pub proof fn lemma_end(
    chars: Seq<char>,
    ascii_uppercase: bool,
    k: int,
    state: State,
    last_was_zwj: bool,
    deferred_break_pos: Option<usize>,
    token_props: TokenProperties,
    deferred_props: TokenProperties,
    reported: Seq<(usize, TokenProperties)>,
)
    requires
        is_progress(
            chars,
            ascii_uppercase,
            k,
            state,
            last_was_zwj,
            deferred_break_pos,
            token_props,
            deferred_props,
            reported,
        ),
        k == chars.len(),
        k > 0,
        !transitions::is_deferred_state(state),
    ensures
        rules::is_word_break(properties::word_chars(chars), k),
        (text::byte_offset(chars, k) as usize, token_props) == reports::word_report(
            chars,
            ascii_uppercase,
            k,
        ),
        reported == reports::word_reports_before(chars, ascii_uppercase, k),
{
}

} // verus!
