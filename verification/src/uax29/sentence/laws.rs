//! What holds of the sentence boundaries of every text.

use vstd::prelude::*;

use super::properties;
use super::properties::SentenceBreakProperty;
use super::reporter::Reporter;
use super::reports;
use super::rules;
use crate::uax29::boundaries;
use crate::uax29::text;

verus! {

/// The positions of the sentence boundaries before `m`, in order.
pub open spec fn sentence_positions(chars: Seq<char>, m: int) -> Seq<int> {
    boundaries::positions_before(
        |i: int| rules::is_sentence_break(properties::sentence_classes(chars), i),
        m,
    )
}

/// There is one report for each boundary, in order.
proof fn lemma_one_report_each(chars: Seq<char>, m: int)
    requires
        0 <= m,
    ensures
        ({
            let reported = reports::sentence_reports_before(chars, m);
            let positions = sentence_positions(chars, m);
            &&& positions.len() == reported.len()
            &&& forall|a: int|
                0 <= a < positions.len() ==> #[trigger] reported[a] == text::byte_offset(
                    chars,
                    positions[a],
                ) as usize
        }),
    decreases m,
{
    if m > 0 {
        lemma_one_report_each(chars, m - 1);
    }
}

/// What is known of the positions of all the boundaries of a text.
proof fn lemma_all_positions(chars: Seq<char>) -> (positions: Seq<int>)
    ensures
        positions == sentence_positions(chars, chars.len() as int + 1),
        ({
            let n = chars.len() as int;
            let s = properties::sentence_classes(chars);
            let all = reports::sentence_reports(chars);
            &&& positions.len() == all.len()
            &&& forall|a: int|
                0 <= a < positions.len() ==> {
                    &&& 0 <= #[trigger] positions[a] <= n
                    &&& rules::is_sentence_break(s, positions[a])
                    &&& all[a] == text::byte_offset(chars, positions[a]) as usize
                }
            &&& forall|a: int, b: int|
                0 <= a < b < positions.len() ==> #[trigger] positions[a] < #[trigger] positions[b]
        }),
{
    let n = chars.len() as int;
    let is_break = |i: int| rules::is_sentence_break(properties::sentence_classes(chars), i);
    boundaries::lemma_positions(is_break, n + 1);
    lemma_one_report_each(chars, n + 1);
    let positions = sentence_positions(chars, n + 1);
    assert forall|a: int| 0 <= a < positions.len() implies rules::is_sentence_break(
        properties::sentence_classes(chars),
        #[trigger] positions[a],
    ) by {
        assert(is_break(positions[a]));
    }
    positions
}

/// Every boundary of a text is reported.
proof fn lemma_reported(chars: Seq<char>, i: int) -> (a: int)
    requires
        rules::is_sentence_break(properties::sentence_classes(chars), i),
    ensures
        0 <= a < reports::sentence_reports(chars).len(),
        reports::sentence_reports(chars)[a] == text::byte_offset(chars, i) as usize,
        sentence_positions(chars, chars.len() as int + 1)[a] == i,
{
    let n = chars.len() as int;
    let is_break = |i: int| rules::is_sentence_break(properties::sentence_classes(chars), i);
    boundaries::lemma_positions(is_break, n + 1);
    lemma_one_report_each(chars, n + 1);
    let positions = sentence_positions(chars, n + 1);
    assert(is_break(i));
    assert(positions.contains(i));
    choose|a: int| 0 <= a < positions.len() && positions[a] == i
}

/// An empty text has no boundaries. Any other text starts and ends with one.
pub proof fn lemma_ends(chars: Seq<char>)
    requires
        vstd::utf8::encode_utf8(chars).len() <= usize::MAX,
    ensures
        ({
            let all = reports::sentence_reports(chars);
            &&& chars.len() == 0 ==> all.len() == 0
            &&& chars.len() > 0 ==> {
                &&& all.len() >= 2
                &&& all.first() == 0
                &&& all.last() == vstd::utf8::encode_utf8(chars).len()
            }
        }),
{
    let n = chars.len() as int;
    let s = properties::sentence_classes(chars);
    let positions = lemma_all_positions(chars);
    text::lemma_offset_ends(chars);
    if n > 0 {
        assert(rules::is_sentence_break(s, 0) && rules::is_sentence_break(s, n));
        let a = lemma_reported(chars, 0);
        let b = lemma_reported(chars, n);
        if a > 0 {
            assert(positions[0] < positions[a]);
        }
        if b < positions.len() - 1 {
            assert(positions[b] < positions[positions.len() - 1]);
        }
        assert(positions[0] == 0);
        assert(positions[positions.len() - 1] == n);
    } else {
        if positions.len() > 0 {
            assert(rules::is_sentence_break(s, positions[0]));
        }
    }
}

/// The offsets of the boundaries increase strictly: no boundary is reported twice, and no
/// sentence is empty.
pub proof fn lemma_offsets_increase(chars: Seq<char>, a: int, b: int)
    requires
        vstd::utf8::encode_utf8(chars).len() <= usize::MAX,
        0 <= a < b < reports::sentence_reports(chars).len(),
    ensures
        reports::sentence_reports(chars)[a] < reports::sentence_reports(chars)[b],
{
    let positions = lemma_all_positions(chars);
    assert(positions[a] < positions[b]);
    text::lemma_offset_monotone(chars, positions[a], positions[b]);
}

/// An offset is reported if and only if it is that of a character, or the end of the text, where
/// the rules put a boundary.
pub proof fn lemma_exact(chars: Seq<char>, offset: usize)
    requires
        vstd::utf8::encode_utf8(chars).len() <= usize::MAX,
    ensures
        (exists|a: int|
            0 <= a < reports::sentence_reports(chars).len()
                && #[trigger] reports::sentence_reports(chars)[a] == offset) <==> (
        exists|i: int| #[trigger]
            rules::is_sentence_break(properties::sentence_classes(chars), i) && text::byte_offset(
                chars,
                i,
            ) == offset),
{
    let n = chars.len() as int;
    let s = properties::sentence_classes(chars);
    let all = reports::sentence_reports(chars);
    let positions = lemma_all_positions(chars);
    assert forall|i: int| 0 <= i <= n implies 0 <= #[trigger] text::byte_offset(chars, i)
        <= usize::MAX by {
        text::lemma_offset_ends(chars);
        if i < n {
            text::lemma_offset_monotone(chars, i, n);
        }
    }
    if exists|a: int| 0 <= a < all.len() && #[trigger] all[a] == offset {
        let a = choose|a: int| 0 <= a < all.len() && #[trigger] all[a] == offset;
        assert(rules::is_sentence_break(s, positions[a]));
    }
    if exists|i: int| #[trigger]
        rules::is_sentence_break(s, i) && text::byte_offset(chars, i) == offset {
        let i = choose|i: int| #[trigger]
            rules::is_sentence_break(s, i) && text::byte_offset(chars, i) == offset;
        let a = lemma_reported(chars, i);
        assert(all[a] == offset);
    }
}

/// The sentences partition the text: every character lies between two boundaries that follow each
/// other, and between no other two.
pub proof fn lemma_partition(chars: Seq<char>, k: int)
    requires
        vstd::utf8::encode_utf8(chars).len() <= usize::MAX,
        0 <= k < chars.len(),
    ensures
        ({
            let all = reports::sentence_reports(chars);
            let offset = text::byte_offset(chars, k);
            &&& exists|a: int|
                0 < a < all.len() && all[a - 1] <= offset && offset < #[trigger] all[a]
            &&& forall|a: int, b: int|
                0 < a < all.len() && 0 < b < all.len() && all[a - 1] <= offset && offset
                    < #[trigger] all[a] && all[b - 1] <= offset && offset < #[trigger] all[b]
                    ==> a == b
        }),
{
    let all = reports::sentence_reports(chars);
    let offset = text::byte_offset(chars, k);
    text::lemma_char_at(chars, k);
    lemma_ends(chars);
    lemma_first_past(chars, offset, all.len() as int - 1);
    assert forall|a: int, b: int|
        0 < a < all.len() && 0 < b < all.len() && all[a - 1] <= offset && offset
            < #[trigger] all[a] && all[b - 1] <= offset && offset
            < #[trigger] all[b] implies a == b by {
        if a < b {
            if a < b - 1 {
                lemma_offsets_increase(chars, a, b - 1);
            }
        } else if b < a {
            if b < a - 1 {
                lemma_offsets_increase(chars, b, a - 1);
            }
        }
    }
}

/// There is a first boundary past an offset.
proof fn lemma_first_past(chars: Seq<char>, offset: int, b: int)
    requires
        0 <= offset,
        0 <= b < reports::sentence_reports(chars).len(),
        reports::sentence_reports(chars)[0] <= offset,
        offset < reports::sentence_reports(chars)[b],
    ensures
        exists|a: int|
            0 < a < reports::sentence_reports(chars).len() && reports::sentence_reports(chars)[a - 1]
                <= offset && offset < #[trigger] reports::sentence_reports(chars)[a],
    decreases b,
{
    if reports::sentence_reports(chars)[b - 1] > offset {
        lemma_first_past(chars, offset, b - 1);
    }
}

/// A paragraph separator ends a sentence, except CR before LF, which does not.
pub proof fn lemma_paragraphs(chars: Seq<char>, i: int)
    requires
        0 < i < chars.len(),
        rules::is_para_sep(properties::sentence_break(chars[i - 1])),
    ensures
        rules::is_sentence_break(properties::sentence_classes(chars), i) == !(
        properties::sentence_break(chars[i - 1]) == SentenceBreakProperty::CR
            && properties::sentence_break(chars[i]) == SentenceBreakProperty::LF),
{
}

/// Nothing ends a sentence inside of a text but a paragraph separator, or a terminator with what
/// closes it and the space that follows.
pub proof fn lemma_ends_need_a_cause(chars: Seq<char>, i: int)
    requires
        0 < i < chars.len(),
        rules::is_sentence_break(properties::sentence_classes(chars), i),
    ensures
        rules::is_para_sep(properties::sentence_break(chars[i - 1])) || rules::is_terminator(
            rules::before_close_sp(properties::sentence_classes(chars), i),
        ),
{
}

/// A terminator of STerm, with what closes it and the space that follows, ends the sentence before
/// any letter or digit, a lowercase letter among them.
pub proof fn lemma_sterm_ends(chars: Seq<char>, i: int)
    requires
        0 < i < chars.len(),
        rules::before_close_sp(properties::sentence_classes(chars), i)
            == SentenceBreakProperty::STerm,
        properties::sentence_break(chars[i]) == SentenceBreakProperty::Lower
            || properties::sentence_break(chars[i]) == SentenceBreakProperty::Upper
            || properties::sentence_break(chars[i]) == SentenceBreakProperty::OLetter
            || properties::sentence_break(chars[i]) == SentenceBreakProperty::Numeric,
    ensures
        rules::is_sentence_break(properties::sentence_classes(chars), i),
{
    let s = properties::sentence_classes(chars);
    lemma_sterm_not_aterm(s, i);
}

/// Where an STerm stands before `Close* Sp*`, no ATerm stands right before.
proof fn lemma_sterm_not_aterm(s: Seq<SentenceBreakProperty>, i: int)
    requires
        rules::before_close_sp(s, i) == SentenceBreakProperty::STerm,
    ensures
        rules::left(s, i) != SentenceBreakProperty::ATerm,
{
}

/// Nothing is cut off from what extends it: where no paragraph separator stands before, there is
/// no boundary before a character that is attached to another one.
pub proof fn lemma_attached(chars: Seq<char>, i: int)
    requires
        0 < i < chars.len(),
        rules::is_attached(properties::sentence_break(chars[i])),
        !rules::is_para_sep(properties::sentence_break(chars[i - 1])),
    ensures
        !rules::is_sentence_break(properties::sentence_classes(chars), i),
{
}

/// At every moment the calls that a callback has received are of boundaries of the text, each of
/// them once, and in order. None follows one that it answered with `false`, and none follows that
/// of the end of the text.
pub proof fn lemma_calls<F: FnMut(usize) -> bool>(reporter: Reporter<usize, F>, chars: Seq<char>)
    requires
        vstd::utf8::encode_utf8(chars).len() <= usize::MAX,
        reporter.well_formed(),
        reporter.expected() == reports::sentence_reports(chars),
    ensures
        forall|a: int, b: int|
            0 <= a < b < reporter.reports().len() ==> #[trigger] reporter.reports()[a]
                < #[trigger] reporter.reports()[b],
        forall|a: int|
            0 <= a < reporter.reports().len() ==> exists|i: int| #[trigger]
                rules::is_sentence_break(properties::sentence_classes(chars), i)
                    && #[trigger] reporter.reports()[a] == text::byte_offset(chars, i),
        reporter.replies().len() == reporter.reports().len(),
        forall|a: int|
            0 <= a < reporter.reports().len() - 1 ==> #[trigger] reporter.replies()[a]
                && #[trigger] reporter.reports()[a] < vstd::utf8::encode_utf8(chars).len(),
{
    let all = reports::sentence_reports(chars);
    let n = reporter.reports().len() as int;
    assert forall|a: int| 0 <= a < n implies #[trigger] reporter.reports()[a] == all[a] by {
        assert(all.take(n)[a] == all[a]);
    }
    assert forall|a: int, b: int| 0 <= a < b < n implies #[trigger] reporter.reports()[a]
        < #[trigger] reporter.reports()[b] by {
        lemma_offsets_increase(chars, a, b);
    }
    assert forall|a: int| 0 <= a < n implies exists|i: int| #[trigger]
        rules::is_sentence_break(properties::sentence_classes(chars), i)
            && #[trigger] reporter.reports()[a] == text::byte_offset(chars, i) by {
        lemma_exact(chars, all[a]);
        assert(all[a] == reporter.reports()[a]);
    }
    lemma_ends(chars);
    assert forall|a: int| 0 <= a < n - 1 implies #[trigger] reporter.replies()[a]
        && #[trigger] reporter.reports()[a] < vstd::utf8::encode_utf8(chars).len() by {
        if chars.len() > 0 {
            lemma_offsets_increase(chars, a, all.len() as int - 1);
        }
    }
}

/// When a tokenizer is done, the callback has received a call for every boundary, or its last reply
/// was `false`.
pub proof fn lemma_done<F: FnMut(usize) -> bool>(
    on_breakpoint: F,
    all: Seq<usize>,
    replies: Seq<bool>,
)
    requires
        super::answers_reports(on_breakpoint, all, replies),
    ensures
        replies.len() == all.len() || 0 < replies.len() < all.len() && !replies[replies.len() - 1],
        forall|a: int| 0 <= a < replies.len() - 1 ==> #[trigger] replies[a],
        forall|a: int|
            0 <= a < replies.len() ==> call_ensures(
                on_breakpoint,
                (all[a],),
                #[trigger] replies[a],
            ),
{
}

} // verus!
