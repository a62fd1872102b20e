//! Sentence boundaries.

use vstd::prelude::*;

use self::properties::{ascii_sentence_break_property, lookup_sentence_break_property};
use self::reporter::Reporter;
use self::scan::scan_sentence_interior;
use self::transitions::{transition, State};
use crate::uax29::delivery;
use crate::uax29::text;
use crate::uax29::text::{char_at, utf8_width};
use crate::uax29::Action;

pub mod laws;
pub mod properties;
pub mod reporter;
pub mod reports;
pub mod rule_laws;
pub mod rules;
pub mod scan;
pub mod transitions;

verus! {

/// How to tokenize. There is nothing to choose yet.
#[non_exhaustive]
pub struct Options {}

impl Default for Options {
    fn default() -> (options: Self)
        ensures
            options == (Options {}),
    {
        Options {  }
    }
}

/// The callback may be called with each of the reports.
pub open spec fn accepts_reports<F: FnMut(usize) -> bool>(
    on_breakpoint: F,
    all: Seq<usize>,
) -> bool {
    reporter::accepts(on_breakpoint, all)
}

/// The callback was called with the first of the reports and returned `replies`: with all of them,
/// or with those up to and with the first that it answered with `false`.
pub open spec fn answers_reports<F: FnMut(usize) -> bool>(
    on_breakpoint: F,
    all: Seq<usize>,
    replies: Seq<bool>,
) -> bool {
    &&& delivery::is_answered(all, replies)
    &&& forall|i: int|
        0 <= i < replies.len() ==> call_ensures(on_breakpoint, (all[i],), #[trigger] replies[i])
}

/// The callback was given the first of the reports, in order, and nothing else: all of them, or
/// those up to and with the first that it answered with `false`.
pub open spec fn is_delivered<F: FnMut(usize) -> bool>(
    all: Seq<usize>,
    reporter: &Reporter<usize, F>,
) -> bool {
    &&& reporter.well_formed()
    &&& delivery::is_answered(all, reporter.replies())
    &&& reporter.reports() == all.take(reporter.replies().len() as int)
}

/// Reports the boundary at position `i`, after those before it.
fn report_boundary<F: FnMut(usize) -> bool>(
    reporter: &mut Reporter<usize, F>,
    boundary: usize,
    chars: Ghost<Seq<char>>,
    i: Ghost<int>,
) -> (go_on: bool)
    requires
        0 <= i@ <= chars@.len(),
        rules::is_sentence_break(properties::sentence_classes(chars@), i@),
        boundary == text::byte_offset(chars@, i@),
        old(reporter).well_formed(),
        old(reporter).reports() == reports::sentence_reports_before(chars@, i@),
        delivery::all_positive(old(reporter).replies()),
        old(reporter).expected() == reports::sentence_reports(chars@),
    ensures
        final(reporter).well_formed(),
        final(reporter).callback() == old(reporter).callback(),
        final(reporter).expected() == old(reporter).expected(),
        final(reporter).reports() == reports::sentence_reports_before(chars@, i@ + 1),
        go_on ==> delivery::all_positive(final(reporter).replies()),
        !go_on || i@ == chars@.len() ==> is_delivered(
            reports::sentence_reports(chars@),
            final(reporter),
        ),
{
    proof {
        let all = reports::sentence_reports(chars@);
        let before = reports::sentence_reports_before(chars@, i@);
        let with = reports::sentence_reports_before(chars@, i@ + 1);
        reports::lemma_reports_prefix(chars@, i@ + 1, chars@.len() as int + 1);
        assert(with == before.push(boundary));
        assert(all[before.len() as int] == with[before.len() as int]);
    }
    reporter.report(boundary)
}

/// A run of bytes that are no stop bytes is a run of characters inside of a sentence.
proof fn lemma_scanned_run(chars: Seq<char>, k: int, end: int)
    requires
        0 <= k <= chars.len(),
        scan::is_interior_run(
            vstd::utf8::encode_utf8(chars),
            text::byte_offset(chars, k),
            end,
        ),
        text::byte_offset(chars, k) < end,
    ensures
        ({
            let m = k + (end - text::byte_offset(chars, k));
            let s = properties::sentence_classes(chars);
            &&& k < m <= chars.len()
            &&& text::byte_offset(chars, m) == end
            &&& s[m - 1] == properties::ascii_sentence_break(
                vstd::utf8::encode_utf8(chars)[end - 1],
            )
            &&& forall|j: int|
                k <= j < m ==> !rules::is_para_sep(#[trigger] s[j]) && !rules::is_terminator(s[j])
                    && !rules::is_attached(s[j])
        }),
{
    let bytes = vstd::utf8::encode_utf8(chars);
    let start = text::byte_offset(chars, k);
    let m = k + (end - start);
    let s = properties::sentence_classes(chars);
    text::lemma_ascii_run(chars, k, end - start);
    assert(text::byte_offset(chars, m) == end);
    assert forall|j: int| k <= j < m implies {
        &&& (#[trigger] s[j]) == properties::ascii_sentence_break(bytes[start + (j - k)])
        &&& !scan::is_stop_byte(bytes[start + (j - k)])
    } by {
        text::lemma_char_value(chars[j]);
    }
}

/// Reads the character of `text` at byte `pos`, its character `k`: its property, and how many
/// bytes it takes.
fn read_char(text: &str, pos: usize, k: Ghost<int>) -> (read: (
    properties::SentenceBreakProperty,
    usize,
))
    requires
        0 <= k@ < text@.len(),
        pos == text::byte_offset(text@, k@),
    ensures
        read.0 == properties::sentence_break(text@[k@]),
        read.1 == text::char_width(text@[k@]),
{
    let bytes = text.as_bytes();
    proof {
        text::lemma_char_at(text@, k@);
        text::lemma_char_value(text@[k@]);
    }
    let b = bytes[pos];
    if b < 0x80 {
        (ascii_sentence_break_property(b), 1)
    } else {
        let c = char_at(text, pos, k);
        (lookup_sentence_break_property(c), utf8_width(c))
    }
}

/// The first position that the automaton has not decided on yet.
pub open spec fn undecided(state: State, k: int, d: int) -> int {
    if transitions::is_deferred_state(state) {
        d
    } else {
        k
    }
}

/// Tokenizes `text` into sentences, and reports the boundaries to `reporter`.
///
/// The automaton steps through the text one character at a time; from inside of a sentence it
/// first skips over what cannot end it.
#[verifier::rlimit(60)]
pub fn tokenize_impl<F: FnMut(usize) -> bool>(
    text: &str,
    _options: Options,
    reporter: &mut Reporter<usize, F>,
)
    requires
        old(reporter).well_formed(),
        old(reporter).reports() == Seq::<usize>::empty(),
        old(reporter).expected() == reports::sentence_reports(text@),
    ensures
        final(reporter).callback() == old(reporter).callback(),
        is_delivered(reports::sentence_reports(text@), final(reporter)),
{
    let ghost chars = text@;
    let ghost s = properties::sentence_classes(chars);
    let ghost all = reports::sentence_reports(chars);
    let bytes = text.as_bytes();
    if bytes.len() == 0 {
        proof {
            if chars.len() > 0 {
                text::lemma_char_at(chars, 0);
            }
            reveal_with_fuel(reports::sentence_reports_before, 2);
            assert(all.len() == 0);
            assert(reporter.reports() =~= all.take(0));
        }
        return;
    }
    let mut state = State::StartOfText;
    let mut deferred_break_pos: Option<usize> = None;
    let mut pos: usize = 0;
    let ghost mut k: int = 0;
    let ghost mut d: int = 0;
    proof {
        text::lemma_offset_ends(chars);
        if chars.len() == 0 {
            assert(chars =~= Seq::<char>::empty());
        }
    }
    while pos < bytes.len()
        invariant
            chars == text@,
            s == properties::sentence_classes(chars),
            all == reports::sentence_reports(chars),
            bytes@ == vstd::utf8::encode_utf8(chars),
            chars.len() > 0,
            0 <= k <= chars.len(),
            pos == text::byte_offset(chars, k),
            transitions::is_reached(state, s, k, d),
            deferred_break_pos is Some == transitions::is_deferred_state(state),
            deferred_break_pos is Some ==> 0 <= d < k && deferred_break_pos->0
                == text::byte_offset(chars, d),
            reporter.well_formed(),
            reporter.callback() == old(reporter).callback(),
            reporter.reports() == reports::sentence_reports_before(chars, undecided(state, k, d)),
            delivery::all_positive(reporter.replies()),
            reporter.expected() == all,
        decreases chars.len() - k, if transitions::is_deferred_state(state) { 1int } else { 0int },
    {
        proof {
            text::lemma_offset_ends(chars);
            text::lemma_char_at(chars, k);
            transitions::lemma_step(state, s, k, d);
        }
        if matches!(state, State::Any | State::Upper | State::Lower) {
            let end: usize = scan_sentence_interior(bytes, pos);
            if end > pos {
                let ghost m = k + (end - pos);
                proof {
                    lemma_scanned_run(chars, k, end as int);
                    transitions::lemma_run(state, s, k, d, m);
                    reports::lemma_no_reports(chars, k, m);
                }
                // A letter is kept in mind for SB7.
                let last = bytes[end - 1];
                state = if 'A' as u8 <= last && last <= 'Z' as u8 {
                    State::Upper
                } else if 'a' as u8 <= last && last <= 'z' as u8 {
                    State::Lower
                } else {
                    State::Any
                };
                pos = end;
                proof {
                    k = m;
                }
                continue;
            }
        }
        let (property, char_len) = read_char(text, pos, Ghost(k));
        let (next_state, action) = transition(state, property);
        match action {
            Action::Break => {
                if !report_boundary(reporter, pos, Ghost(chars), Ghost(k)) {
                    return;
                }
                state = next_state;
                pos = pos + char_len;
                proof {
                    k = k + 1;
                }
            },
            Action::NoBreak => {
                if next_state.is_deferred() {
                    if deferred_break_pos.is_none() {
                        deferred_break_pos = Some(pos);
                        proof {
                            d = k;
                        }
                    }
                } else {
                    proof {
                        reports::lemma_no_reports(chars, undecided(state, k, d), k + 1);
                    }
                    deferred_break_pos = None;
                }
                state = next_state;
                pos = pos + char_len;
                proof {
                    k = k + 1;
                }
            },
            Action::Transparent => {
                proof {
                    reports::lemma_no_reports(chars, k, k + 1);
                }
                pos = pos + char_len;
                proof {
                    k = k + 1;
                }
            },
            Action::DeferredBreak => {
                let boundary: usize = deferred_break_pos.take().unwrap();
                if !report_boundary(reporter, boundary, Ghost(chars), Ghost(d)) {
                    return;
                }
                proof {
                    reports::lemma_no_reports(chars, d + 1, k);
                }
                // The character is examined again.
                state = next_state;
            },
        }
    }
    proof {
        text::lemma_offset_ends(chars);
        if k < chars.len() {
            text::lemma_char_at(chars, k);
        }
    }
    // No lowercase letter follows any more.
    if state.is_deferred() {
        proof {
            transitions::lemma_deferred_end(s, d);
        }
        if !report_boundary(reporter, deferred_break_pos.unwrap(), Ghost(chars), Ghost(d)) {
            return;
        }
        proof {
            reports::lemma_no_reports(chars, d + 1, k);
        }
    }
    // SB2: the end of the text is a boundary.
    let _ = report_boundary(reporter, bytes.len(), Ghost(chars), Ghost(k));
}

/// Tokenizes `text` into sentences by the sentence boundary rules of UAX #29, and hands each
/// boundary to `on_breakpoint` until it returns `false`.
///
/// The boundaries are those of the text in order, from its start to its end; an empty text has
/// none.
///
/// A [`Reporter`] makes the calls, and nothing else can: each of them is of the next boundary, so
/// that no boundary is handed out twice or out of order, and none after a reply of `false`.
pub fn tokenize(text: &str, options: Options, on_breakpoint: impl FnMut(usize) -> bool)
    requires
        accepts_reports(on_breakpoint, reports::sentence_reports(text@)),
    ensures
        exists|replies: Seq<bool>| #[trigger]
            answers_reports(on_breakpoint, reports::sentence_reports(text@), replies),
{
    let mut reporter = Reporter::new(on_breakpoint, Ghost(reports::sentence_reports(text@)));
    tokenize_impl(text, options, &mut reporter);
    assert(answers_reports(on_breakpoint, reports::sentence_reports(text@), reporter.replies()));
}

} // verus!
