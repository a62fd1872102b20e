//! Word boundaries.

use std::ops::BitOrAssign;

use vstd::prelude::*;

use self::properties::{
    is_word_like_strict, lookup_word_break_property_from_dictionary, WordBreakProperty,
};
use self::reporter::Reporter;
use self::scan::scan_word_continue;
pub use self::token::TokenProperties;
use self::transitions::{ascii_word_transition, transition, State};
use crate::uax29::delivery;
use crate::uax29::text;
use crate::uax29::text::{char_at, utf8_width};
use crate::uax29::Action;

pub mod laws;
pub mod progress;
pub mod properties;
pub mod reporter;
pub mod reports;
pub mod rule_laws;
pub mod rules;
pub mod scan;
pub mod token;
pub mod transitions;

verus! {

/// How to tokenize. There is nothing to choose yet.
#[derive(Clone, Copy, Debug)]
#[non_exhaustive]
pub struct Options {}

impl Default for Options {
    fn default() -> (options: Self)
        ensures
            options == (Options {}),
    {
        Options {  }
    }
}

/// Adds to the properties of the characters `start..mid` those of the characters `mid..end`.
fn extend(
    props: &mut TokenProperties,
    more: TokenProperties,
    chars: Ghost<Seq<char>>,
    start: Ghost<int>,
    mid: Ghost<int>,
    end: Ghost<int>,
    ascii_uppercase: Ghost<bool>,
)
    requires
        start@ <= mid@ <= end@,
        *old(props) == reports::span_properties(chars@, start@, mid@, ascii_uppercase@),
        more == reports::span_properties(chars@, mid@, end@, ascii_uppercase@),
    ensures
        *final(props) == reports::span_properties(chars@, start@, end@, ascii_uppercase@),
{
    proof {
        broadcast use TokenProperties::lemma_of;

    }
    props.bitor_assign(more);
    proof {
        reports::lemma_spans_add(chars@, start@, mid@, end@, ascii_uppercase@, *props);
    }
}

/// What a character outside of ASCII adds to the properties of its token.
fn non_ascii_props(c: char, property: WordBreakProperty) -> (props: TokenProperties)
    requires
        c as u32 >= 0x80,
        property == properties::word_break(c),
    ensures
        props == TokenProperties::of(properties::is_word_like_char(c), true, false),
{
    proof {
        broadcast use TokenProperties::lemma_of;

    }
    let mut props = TokenProperties::of_non_ascii();
    props.bitor_assign(word_break_contrib(property));
    if !props.is_word_like() && is_word_like_strict(c) {
        props.bitor_assign(TokenProperties::of_word_like());
    }
    proof {
        props.lemma_determined();
    }
    props
}

/// What a character of this property adds to the properties of its token.
pub fn word_break_contrib(property: WordBreakProperty) -> (props: TokenProperties)
    ensures
        props == TokenProperties::of(properties::is_letter_or_digit(property), false, false),
{
    match property {
        WordBreakProperty::ALetter
        | WordBreakProperty::HebrewLetter
        | WordBreakProperty::Numeric => TokenProperties::of_word_like(),
        _ => TokenProperties::empty(),
    }
}

/// The callback may be called with each of the reports.
pub open spec fn accepts_reports<F: FnMut(usize, TokenProperties) -> bool>(
    on_breakpoint: F,
    all: Seq<(usize, TokenProperties)>,
) -> bool {
    reporter::accepts(on_breakpoint, all)
}

/// The callback was called with the first of the reports and returned `replies`: with all of them,
/// or with those up to and with the first that it answered with `false`.
pub open spec fn answers_reports<F: FnMut(usize, TokenProperties) -> bool>(
    on_breakpoint: F,
    all: Seq<(usize, TokenProperties)>,
    replies: Seq<bool>,
) -> bool {
    &&& delivery::is_answered(all, replies)
    &&& forall|i: int|
        0 <= i < replies.len() ==> call_ensures(on_breakpoint, all[i], #[trigger] replies[i])
}

/// Reports the boundary at position `i`, after those before it.
fn report_boundary<F: FnMut(usize, TokenProperties) -> bool>(
    reporter: &mut Reporter<usize, TokenProperties, F>,
    boundary: usize,
    props: TokenProperties,
    chars: Ghost<Seq<char>>,
    i: Ghost<int>,
    ascii_uppercase: Ghost<bool>,
) -> (go_on: bool)
    requires
        0 <= i@ <= chars@.len(),
        rules::is_word_break(properties::word_chars(chars@), i@),
        (boundary, props) == reports::word_report(chars@, ascii_uppercase@, i@),
        old(reporter).well_formed(),
        old(reporter).reports() == reports::word_reports_before(chars@, ascii_uppercase@, i@),
        delivery::all_positive(old(reporter).replies()),
        old(reporter).expected() == reports::word_reports(chars@, ascii_uppercase@),
    ensures
        final(reporter).well_formed(),
        final(reporter).callback() == old(reporter).callback(),
        final(reporter).expected() == old(reporter).expected(),
        final(reporter).reports() == reports::word_reports_before(
            chars@,
            ascii_uppercase@,
            i@ + 1,
        ),
        go_on ==> delivery::all_positive(final(reporter).replies()),
        !go_on || i@ == chars@.len() ==> is_delivered(
            reports::word_reports(chars@, ascii_uppercase@),
            final(reporter),
        ),
{
    proof {
        let all = reports::word_reports(chars@, ascii_uppercase@);
        let before = reports::word_reports_before(chars@, ascii_uppercase@, i@);
        reports::lemma_reports_prefix(chars@, ascii_uppercase@, i@ + 1, chars@.len() as int + 1);
        let with = reports::word_reports_before(chars@, ascii_uppercase@, i@ + 1);
        assert(with == before.push((boundary, props)));
        assert(all[before.len() as int] == with[before.len() as int]);
    }
    reporter.report(boundary, props)
}

/// The callback was given the first of the reports, in order, and nothing else: all of them, or
/// those up to and with the first that it answered with `false`.
pub open spec fn is_delivered<F: FnMut(usize, TokenProperties) -> bool>(
    all: Seq<(usize, TokenProperties)>,
    reporter: &Reporter<usize, TokenProperties, F>,
) -> bool {
    &&& reporter.well_formed()
    &&& delivery::is_answered(all, reporter.replies())
    &&& reporter.reports() == all.take(reporter.replies().len() as int)
}

/// The properties of a run of ASCII characters.
fn run_properties(word_like: bool, has_upper: bool) -> (props: TokenProperties)
    ensures
        props == TokenProperties::of(word_like, false, has_upper),
{
    proof {
        broadcast use TokenProperties::lemma_of;

    }
    let mut props = TokenProperties::empty();
    if word_like {
        props.bitor_assign(TokenProperties::of_word_like());
    }
    if has_upper {
        props.bitor_assign(TokenProperties::of_ascii_uppercase());
    }
    proof {
        props.lemma_determined();
    }
    props
}

/// A character of a text, as the tokenizer reads it: one step of the automaton on it, what it adds
/// to the properties of its token, and how many bytes it takes.
struct CharStep {
    c: char,
    next_state: State,
    action: Action,
    char_props: TokenProperties,
    char_len: usize,
    is_zwj: bool,
}

/// Reads the character of `text` at byte `pos`, its character `k`.
fn read_char<const ASCII_UPPERCASE: bool>(
    text: &str,
    pos: usize,
    state: State,
    k: Ghost<int>,
) -> (step: CharStep)
    requires
        0 <= k@ < text@.len(),
        pos == text::byte_offset(text@, k@),
    ensures
        step.c == text@[k@],
        (step.next_state, step.action) == transitions::transition_of(
            state,
            properties::word_break(text@[k@]),
        ),
        step.char_props == reports::span_properties(text@, k@, k@ + 1, ASCII_UPPERCASE),
        step.char_len == text::char_width(text@[k@]),
        step.is_zwj == (properties::word_break(text@[k@]) == WordBreakProperty::ZWJ),
{
    broadcast use TokenProperties::lemma_of;

    let bytes = text.as_bytes();
    proof {
        text::lemma_char_at(text@, k@);
        text::lemma_char_value(text@[k@]);
        reports::lemma_short_spans(text@, k@, ASCII_UPPERCASE);
    }
    let b = bytes[pos];
    if b < 0x80 {
        // No ASCII character is a ZWJ.
        let cell = ascii_word_transition(state, b);
        let char_props = if ASCII_UPPERCASE {
            cell.char_props
        } else {
            cell.char_props.without_ascii_uppercase()
        };
        proof {
            char_props.lemma_determined();
        }
        CharStep {
            c: b as char,
            next_state: cell.next_state,
            action: cell.action,
            char_props,
            char_len: 1,
            is_zwj: false,
        }
    } else {
        let c = char_at(text, pos, k);
        let property = lookup_word_break_property_from_dictionary(c);
        let (next_state, action) = transition(state, property);
        CharStep {
            c,
            next_state,
            action,
            char_props: non_ascii_props(c, property),
            char_len: utf8_width(c),
            is_zwj: matches!(property, WordBreakProperty::ZWJ),
        }
    }
}

/// Tells whether `c` joins a ZWJ before it.
fn joins_zwj(c: char) -> (joins: bool)
    ensures
        joins == properties::word_char(c).pictographic,
{
    if !WordBreakProperty::is_ext_pictographic(c) {
        return false;
    }
    !lookup_word_break_property_from_dictionary(c).is_newline_or_mid()
}

/// Tokenizes `text` into words, and reports the boundaries to `reporter`.
///
/// The automaton steps through the text one character at a time; from a letter, a digit or `_` it
/// first skips over what continues the word.
#[verifier::rlimit(60)]
pub fn tokenize_impl<const ASCII_UPPERCASE: bool, F: FnMut(usize, TokenProperties) -> bool>(
    text: &str,
    _options: Options,
    reporter: &mut Reporter<usize, TokenProperties, F>,
)
    requires
        old(reporter).well_formed(),
        old(reporter).reports() == Seq::<(usize, TokenProperties)>::empty(),
        old(reporter).expected() == reports::word_reports(text@, ASCII_UPPERCASE),
    ensures
        final(reporter).callback() == old(reporter).callback(),
        is_delivered(reports::word_reports(text@, ASCII_UPPERCASE), final(reporter)),
{
    let ghost chars = text@;
    let ghost all = reports::word_reports(chars, ASCII_UPPERCASE);
    let bytes = text.as_bytes();
    if bytes.len() == 0 {
        proof {
            if chars.len() > 0 {
                text::lemma_char_at(chars, 0);
            }
            reveal_with_fuel(reports::word_reports_before, 2);
            assert(all.len() == 0);
            assert(reporter.reports() =~= all.take(0));
        }
        return;
    }
    let mut state = State::StartOfText;
    let mut deferred_break_pos: Option<usize> = None;
    let mut pos: usize = 0;
    // WB3c and WB4 tell a pictographic character after a ZWJ from one that is not. A flag for that
    // takes the place of one more state for each state there is.
    let mut last_was_zwj = false;
    // The properties of the current token, up to the position that is deferred.
    let mut token_props = TokenProperties::default();
    // The properties of what stands behind the position that is deferred: it is not known yet
    // which token these characters belong to.
    let mut deferred_props = TokenProperties::default();
    let ghost mut k: int = 0;
    proof {
        text::lemma_offset_ends(chars);
        progress::lemma_start(chars, ASCII_UPPERCASE);
        if chars.len() == 0 {
            assert(chars =~= Seq::<char>::empty());
        }
    }
    while pos < bytes.len()
        invariant
            chars == text@,
            all == reports::word_reports(chars, ASCII_UPPERCASE),
            bytes@ == vstd::utf8::encode_utf8(chars),
            chars.len() > 0,
            0 <= k <= chars.len(),
            pos == text::byte_offset(chars, k),
            progress::is_progress(
                chars,
                ASCII_UPPERCASE,
                k,
                state,
                last_was_zwj,
                deferred_break_pos,
                token_props,
                deferred_props,
                reporter.reports(),
            ),
            reporter.well_formed(),
            reporter.callback() == old(reporter).callback(),
            delivery::all_positive(reporter.replies()),
            reporter.expected() == all,
        decreases chars.len() - k, if transitions::is_deferred_state(state) { 1int } else { 0int },
    {
        let ghost s = properties::word_chars(chars);
        let ghost d = progress::undecided(state, s, k);
        let ghost start = reports::token_start(s, d);
        proof {
            text::lemma_offset_ends(chars);
            text::lemma_char_at(chars, k);
            reports::lemma_short_spans(chars, k, ASCII_UPPERCASE);
            progress::lemma_progress(
                chars,
                ASCII_UPPERCASE,
                k,
                state,
                last_was_zwj,
                deferred_break_pos,
                token_props,
                deferred_props,
                reporter.reports(),
            );
        }
        // From inside of a word, skip the automaton as long as the word goes on in ASCII.
        if matches!(state, State::ALetter | State::Numeric | State::ExtendNumLet | State::HLetter) {
            let (end, word_like, has_upper) = scan_word_continue::<ASCII_UPPERCASE>(bytes, pos);
            if end > pos {
                let ghost m = k + (end - pos);
                proof {
                    progress::lemma_scanned_run(
                        chars,
                        ASCII_UPPERCASE,
                        k,
                        (end, word_like, has_upper),
                    );
                    assert(s[m - 1].property == properties::word_break(chars[m - 1]));
                    progress::lemma_run(
                        chars,
                        ASCII_UPPERCASE,
                        k,
                        state,
                        last_was_zwj,
                        deferred_break_pos,
                        token_props,
                        deferred_props,
                        reporter.reports(),
                        m,
                    );
                }
                extend(
                    &mut token_props,
                    run_properties(word_like, has_upper),
                    Ghost(chars),
                    Ghost(start),
                    Ghost(k),
                    Ghost(m),
                    Ghost(ASCII_UPPERCASE),
                );
                pos = end;
                let last = bytes[pos - 1];
                state = if '0' as u8 <= last && last <= '9' as u8 {
                    State::Numeric
                } else if last == '_' as u8 {
                    State::ExtendNumLet
                } else {
                    State::ALetter
                };
                last_was_zwj = false;
                proof {
                    k = m;
                }
                continue;
            }
        }
        let step = read_char::<ASCII_UPPERCASE>(text, pos, state, Ghost(k));
        let char_props = step.char_props;
        match step.action {
            Action::Break => {
                let boundary: usize = pos;
                if last_was_zwj && joins_zwj(step.c) {
                    proof {
                        progress::lemma_join(
                            chars,
                            ASCII_UPPERCASE,
                            k,
                            state,
                            last_was_zwj,
                            deferred_break_pos,
                            token_props,
                            deferred_props,
                            reporter.reports(),
                        );
                    }
                    extend(
                        &mut token_props,
                        char_props,
                        Ghost(chars),
                        Ghost(start),
                        Ghost(k),
                        Ghost(k + 1),
                        Ghost(ASCII_UPPERCASE),
                    );
                } else {
                    proof {
                        progress::lemma_break(
                            chars,
                            ASCII_UPPERCASE,
                            k,
                            state,
                            last_was_zwj,
                            deferred_break_pos,
                            token_props,
                            deferred_props,
                            reporter.reports(),
                        );
                    }
                    let finished = token_props;
                    token_props = TokenProperties::default();
                    if !report_boundary(
                        reporter,
                        boundary,
                        finished,
                        Ghost(chars),
                        Ghost(k),
                        Ghost(ASCII_UPPERCASE),
                    ) {
                        return;
                    }
                    // The character starts the next token.
                    extend(
                        &mut token_props,
                        char_props,
                        Ghost(chars),
                        Ghost(k),
                        Ghost(k),
                        Ghost(k + 1),
                        Ghost(ASCII_UPPERCASE),
                    );
                }
                last_was_zwj = step.is_zwj;
                state = step.next_state;
                pos = pos + step.char_len;
                proof {
                    k = k + 1;
                }
            },
            Action::NoBreak => {
                if step.next_state.is_deferred() {
                    proof {
                        progress::lemma_defer(
                            chars,
                            ASCII_UPPERCASE,
                            k,
                            state,
                            last_was_zwj,
                            deferred_break_pos,
                            token_props,
                            deferred_props,
                            reporter.reports(),
                        );
                    }
                    deferred_break_pos = Some(pos);
                    extend(
                        &mut deferred_props,
                        char_props,
                        Ghost(chars),
                        Ghost(k),
                        Ghost(k),
                        Ghost(k + 1),
                        Ghost(ASCII_UPPERCASE),
                    );
                } else {
                    proof {
                        progress::lemma_no_break(
                            chars,
                            ASCII_UPPERCASE,
                            k,
                            state,
                            last_was_zwj,
                            deferred_break_pos,
                            token_props,
                            deferred_props,
                            reporter.reports(),
                        );
                    }
                    if deferred_break_pos.take().is_some() {
                        // The word goes on: what was deferred belongs to it.
                        let deferred = deferred_props;
                        deferred_props = TokenProperties::default();
                        extend(
                            &mut token_props,
                            deferred,
                            Ghost(chars),
                            Ghost(start),
                            Ghost(d),
                            Ghost(k),
                            Ghost(ASCII_UPPERCASE),
                        );
                    }
                    extend(
                        &mut token_props,
                        char_props,
                        Ghost(chars),
                        Ghost(start),
                        Ghost(k),
                        Ghost(k + 1),
                        Ghost(ASCII_UPPERCASE),
                    );
                }
                last_was_zwj = step.is_zwj;
                state = step.next_state;
                pos = pos + step.char_len;
                proof {
                    k = k + 1;
                }
            },
            Action::DeferredBreak => {
                proof {
                    progress::lemma_deferred_break(
                        chars,
                        ASCII_UPPERCASE,
                        k,
                        state,
                        last_was_zwj,
                        deferred_break_pos,
                        token_props,
                        deferred_props,
                        reporter.reports(),
                    );
                }
                let boundary: usize = deferred_break_pos.take().unwrap();
                if !report_boundary(
                    reporter,
                    boundary,
                    token_props,
                    Ghost(chars),
                    Ghost(d),
                    Ghost(ASCII_UPPERCASE),
                ) {
                    return;
                }
                // What was deferred starts the next token. The character is examined again.
                token_props = deferred_props;
                deferred_props = TokenProperties::default();
                state = step.next_state;
            },
            Action::Transparent => {
                proof {
                    progress::lemma_transparent(
                        chars,
                        ASCII_UPPERCASE,
                        k,
                        state,
                        last_was_zwj,
                        deferred_break_pos,
                        token_props,
                        deferred_props,
                        reporter.reports(),
                    );
                }
                if deferred_break_pos.is_some() {
                    extend(
                        &mut deferred_props,
                        char_props,
                        Ghost(chars),
                        Ghost(d),
                        Ghost(k),
                        Ghost(k + 1),
                        Ghost(ASCII_UPPERCASE),
                    );
                } else {
                    extend(
                        &mut token_props,
                        char_props,
                        Ghost(chars),
                        Ghost(start),
                        Ghost(k),
                        Ghost(k + 1),
                        Ghost(ASCII_UPPERCASE),
                    );
                }
                last_was_zwj = step.is_zwj;
                pos = pos + step.char_len;
                proof {
                    k = k + 1;
                }
            },
        }
    }
    proof {
        text::lemma_offset_ends(chars);
        if k < chars.len() {
            text::lemma_char_at(chars, k);
        }
    }
    // What was deferred at the end of the text starts a token.
    if state.is_deferred() {
        proof {
            progress::lemma_progress(
                chars,
                ASCII_UPPERCASE,
                k,
                state,
                last_was_zwj,
                deferred_break_pos,
                token_props,
                deferred_props,
                reporter.reports(),
            );
            progress::lemma_deferred_break(
                chars,
                ASCII_UPPERCASE,
                k,
                state,
                last_was_zwj,
                deferred_break_pos,
                token_props,
                deferred_props,
                reporter.reports(),
            );
        }
        let boundary: usize = deferred_break_pos.take().unwrap();
        if !report_boundary(
            reporter,
            boundary,
            token_props,
            Ghost(chars),
            Ghost(progress::undecided(state, properties::word_chars(chars), k)),
            Ghost(ASCII_UPPERCASE),
        ) {
            return;
        }
        token_props = deferred_props;
    } else {
        proof {
            progress::lemma_end(
                chars,
                ASCII_UPPERCASE,
                k,
                state,
                last_was_zwj,
                deferred_break_pos,
                token_props,
                deferred_props,
                reporter.reports(),
            );
        }
    }
    // WB2: the end of the text is a boundary.
    let _ = report_boundary(
        reporter,
        bytes.len(),
        token_props,
        Ghost(chars),
        Ghost(k),
        Ghost(ASCII_UPPERCASE),
    );
}

/// Tokenizes `text` into words by the word boundary rules of UAX #29, and hands each boundary to
/// `on_breakpoint`, with the properties of the token that ends there, until it returns `false`.
///
/// The boundaries are those of the text in order, from its start to its end; an empty text has
/// none. No properties hold the ASCII uppercase one.
///
/// A [`Reporter`] makes the calls, and nothing else can: each of them is of the next boundary, so
/// that no boundary is handed out twice or out of order, and none after a reply of `false`.
pub fn tokenize(
    text: &str,
    options: Options,
    on_breakpoint: impl FnMut(usize, TokenProperties) -> bool,
)
    requires
        accepts_reports(on_breakpoint, reports::word_reports(text@, false)),
    ensures
        exists|replies: Seq<bool>| #[trigger]
            answers_reports(on_breakpoint, reports::word_reports(text@, false), replies),
{
    let mut reporter = Reporter::new(on_breakpoint, Ghost(reports::word_reports(text@, false)));
    tokenize_impl::<false, _>(text, options, &mut reporter);
    assert(answers_reports(
        on_breakpoint,
        reports::word_reports(text@, false),
        reporter.replies(),
    ));
}

/// Does what [`tokenize`] does, and tells of each token whether it holds an ASCII uppercase letter.
pub fn tokenize_with_ascii_uppercase(
    text: &str,
    options: Options,
    on_breakpoint: impl FnMut(usize, TokenProperties) -> bool,
)
    requires
        accepts_reports(on_breakpoint, reports::word_reports(text@, true)),
    ensures
        exists|replies: Seq<bool>| #[trigger]
            answers_reports(on_breakpoint, reports::word_reports(text@, true), replies),
{
    let mut reporter = Reporter::new(on_breakpoint, Ghost(reports::word_reports(text@, true)));
    tokenize_impl::<true, _>(text, options, &mut reporter);
    assert(answers_reports(on_breakpoint, reports::word_reports(text@, true), reporter.replies()));
}

} // verus!
