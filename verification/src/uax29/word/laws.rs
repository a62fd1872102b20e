//! What holds of the word boundaries of every text.

use vstd::prelude::*;

use super::properties;
use super::properties::WordBreakProperty;
use super::reporter::Reporter;
use super::reports;
use super::rules;
use super::token::TokenProperties;
use crate::uax29::boundaries;
use crate::uax29::text;

verus! {

/// The positions of the word boundaries before `m`, in order.
pub open spec fn word_positions(chars: Seq<char>, m: int) -> Seq<int> {
    boundaries::positions_before(
        |i: int| rules::is_word_break(properties::word_chars(chars), i),
        m,
    )
}

/// There is one report for each boundary, in order, and a token starts at the boundary before it.
proof fn lemma_one_report_each(chars: Seq<char>, ascii_uppercase: bool, m: int)
    requires
        0 <= m,
    ensures
        ({
            let s = properties::word_chars(chars);
            let reported = reports::word_reports_before(chars, ascii_uppercase, m);
            let positions = word_positions(chars, m);
            &&& positions.len() == reported.len()
            &&& forall|a: int|
                0 <= a < positions.len() ==> #[trigger] reported[a] == reports::word_report(
                    chars,
                    ascii_uppercase,
                    positions[a],
                )
            &&& forall|a: int|
                0 <= a < positions.len() ==> reports::token_start(s, #[trigger] positions[a]) == (
                if a > 0 {
                    positions[a - 1]
                } else {
                    0
                })
            &&& reports::token_start(s, m) == (if positions.len() > 0 {
                positions.last()
            } else {
                0
            })
        }),
    decreases m,
{
    if m > 0 {
        lemma_one_report_each(chars, ascii_uppercase, m - 1);
    }
}

/// What is known of the positions of all the boundaries of a text.
proof fn lemma_all_positions(chars: Seq<char>, ascii_uppercase: bool) -> (positions: Seq<int>)
    ensures
        positions == word_positions(chars, chars.len() as int + 1),
        ({
            let n = chars.len() as int;
            let s = properties::word_chars(chars);
            let all = reports::word_reports(chars, ascii_uppercase);
            &&& positions.len() == all.len()
            &&& forall|a: int|
                0 <= a < positions.len() ==> {
                    &&& 0 <= #[trigger] positions[a] <= n
                    &&& rules::is_word_break(s, positions[a])
                    &&& all[a] == reports::word_report(chars, ascii_uppercase, positions[a])
                    &&& reports::token_start(s, positions[a]) == (if a > 0 {
                        positions[a - 1]
                    } else {
                        0
                    })
                }
            &&& forall|a: int, b: int|
                0 <= a < b < positions.len() ==> #[trigger] positions[a] < #[trigger] positions[b]
        }),
{
    let n = chars.len() as int;
    let is_break = |i: int| rules::is_word_break(properties::word_chars(chars), i);
    boundaries::lemma_positions(is_break, n + 1);
    lemma_one_report_each(chars, ascii_uppercase, n + 1);
    let positions = word_positions(chars, n + 1);
    assert forall|a: int| 0 <= a < positions.len() implies rules::is_word_break(
        properties::word_chars(chars),
        #[trigger] positions[a],
    ) by {
        assert(is_break(positions[a]));
    }
    positions
}

/// Every boundary of a text is reported.
proof fn lemma_reported(chars: Seq<char>, ascii_uppercase: bool, i: int) -> (a: int)
    requires
        rules::is_word_break(properties::word_chars(chars), i),
    ensures
        0 <= a < reports::word_reports(chars, ascii_uppercase).len(),
        reports::word_reports(chars, ascii_uppercase)[a] == reports::word_report(
            chars,
            ascii_uppercase,
            i,
        ),
        word_positions(chars, chars.len() as int + 1)[a] == i,
{
    let n = chars.len() as int;
    let is_break = |i: int| rules::is_word_break(properties::word_chars(chars), i);
    boundaries::lemma_positions(is_break, n + 1);
    lemma_one_report_each(chars, ascii_uppercase, n + 1);
    let positions = word_positions(chars, n + 1);
    assert(is_break(i));
    assert(positions.contains(i));
    choose|a: int| 0 <= a < positions.len() && positions[a] == i
}

/// An empty text has no boundaries. Any other text starts and ends with one; the first report is
/// that of the empty token before it.
pub proof fn lemma_ends(chars: Seq<char>, ascii_uppercase: bool)
    requires
        vstd::utf8::encode_utf8(chars).len() <= usize::MAX,
    ensures
        ({
            let all = reports::word_reports(chars, ascii_uppercase);
            &&& chars.len() == 0 ==> all.len() == 0
            &&& chars.len() > 0 ==> {
                &&& all.len() >= 2
                &&& all.first() == (0usize, TokenProperties::of(false, false, false))
                &&& all.last().0 == vstd::utf8::encode_utf8(chars).len()
            }
        }),
{
    let n = chars.len() as int;
    let s = properties::word_chars(chars);
    let positions = lemma_all_positions(chars, ascii_uppercase);
    text::lemma_offset_ends(chars);
    reports::lemma_short_spans(chars, 0, ascii_uppercase);
    if n > 0 {
        assert(rules::is_word_break(s, 0) && rules::is_word_break(s, n));
        let a = lemma_reported(chars, ascii_uppercase, 0);
        let b = lemma_reported(chars, ascii_uppercase, n);
        if a > 0 {
            assert(positions[0] < positions[a]);
        }
        if b < positions.len() - 1 {
            assert(positions[b] < positions[positions.len() - 1]);
        }
        assert(positions[0] == 0);
        assert(positions[positions.len() - 1] == n);
    } else {
        if positions.len() > 0 {
            assert(rules::is_word_break(s, positions[0]));
        }
    }
}

/// The offsets of the boundaries increase strictly: no boundary is reported twice, and no token
/// but the one before the text is empty.
pub proof fn lemma_offsets_increase(chars: Seq<char>, ascii_uppercase: bool, a: int, b: int)
    requires
        vstd::utf8::encode_utf8(chars).len() <= usize::MAX,
        0 <= a < b < reports::word_reports(chars, ascii_uppercase).len(),
    ensures
        reports::word_reports(chars, ascii_uppercase)[a].0 < reports::word_reports(
            chars,
            ascii_uppercase,
        )[b].0,
{
    let positions = lemma_all_positions(chars, ascii_uppercase);
    assert(positions[a] < positions[b]);
    text::lemma_offset_monotone(chars, positions[a], positions[b]);
}

/// An offset is reported if and only if it is that of a character, or the end of the text, where
/// the rules put a boundary.
pub proof fn lemma_exact(chars: Seq<char>, ascii_uppercase: bool, offset: usize)
    requires
        vstd::utf8::encode_utf8(chars).len() <= usize::MAX,
    ensures
        (exists|a: int|
            0 <= a < reports::word_reports(chars, ascii_uppercase).len()
                && #[trigger] reports::word_reports(chars, ascii_uppercase)[a].0 == offset) <==> (
        exists|i: int| #[trigger]
            rules::is_word_break(properties::word_chars(chars), i) && text::byte_offset(chars, i)
                == offset),
{
    let n = chars.len() as int;
    let s = properties::word_chars(chars);
    let all = reports::word_reports(chars, ascii_uppercase);
    let positions = lemma_all_positions(chars, ascii_uppercase);
    assert forall|i: int| 0 <= i <= n implies 0 <= #[trigger] text::byte_offset(chars, i)
        <= usize::MAX by {
        text::lemma_offset_ends(chars);
        if i < n {
            text::lemma_offset_monotone(chars, i, n);
        }
    }
    if exists|a: int| 0 <= a < all.len() && #[trigger] all[a].0 == offset {
        let a = choose|a: int| 0 <= a < all.len() && #[trigger] all[a].0 == offset;
        assert(rules::is_word_break(s, positions[a]));
    }
    if exists|i: int| #[trigger]
        rules::is_word_break(s, i) && text::byte_offset(chars, i) == offset {
        let i = choose|i: int| #[trigger]
            rules::is_word_break(s, i) && text::byte_offset(chars, i) == offset;
        let a = lemma_reported(chars, ascii_uppercase, i);
        assert(all[a].0 == offset);
    }
}

/// The tokens partition the text: every character lies between two boundaries that follow each
/// other, and between no other two.
pub proof fn lemma_partition(chars: Seq<char>, ascii_uppercase: bool, k: int)
    requires
        vstd::utf8::encode_utf8(chars).len() <= usize::MAX,
        0 <= k < chars.len(),
    ensures
        ({
            let all = reports::word_reports(chars, ascii_uppercase);
            let offset = text::byte_offset(chars, k);
            &&& exists|a: int|
                0 < a < all.len() && all[a - 1].0 <= offset && offset < #[trigger] all[a].0
            &&& forall|a: int, b: int|
                0 < a < all.len() && 0 < b < all.len() && all[a - 1].0 <= offset && offset
                    < #[trigger] all[a].0 && all[b - 1].0 <= offset && offset < #[trigger] all[b].0
                    ==> a == b
        }),
{
    let all = reports::word_reports(chars, ascii_uppercase);
    let offset = text::byte_offset(chars, k);
    text::lemma_char_at(chars, k);
    lemma_ends(chars, ascii_uppercase);
    lemma_first_past(chars, ascii_uppercase, offset, all.len() as int - 1);
    assert forall|a: int, b: int|
        0 < a < all.len() && 0 < b < all.len() && all[a - 1].0 <= offset && offset
            < #[trigger] all[a].0 && all[b - 1].0 <= offset && offset
            < #[trigger] all[b].0 implies a == b by {
        if a < b {
            if a < b - 1 {
                lemma_offsets_increase(chars, ascii_uppercase, a, b - 1);
            }
        } else if b < a {
            if b < a - 1 {
                lemma_offsets_increase(chars, ascii_uppercase, b, a - 1);
            }
        }
    }
}

/// There is a first boundary past an offset.
proof fn lemma_first_past(chars: Seq<char>, ascii_uppercase: bool, offset: int, b: int)
    requires
        0 <= offset,
        0 <= b < reports::word_reports(chars, ascii_uppercase).len(),
        reports::word_reports(chars, ascii_uppercase)[0].0 <= offset,
        offset < reports::word_reports(chars, ascii_uppercase)[b].0,
    ensures
        exists|a: int|
            0 < a < reports::word_reports(chars, ascii_uppercase).len() && reports::word_reports(
                chars,
                ascii_uppercase,
            )[a - 1].0 <= offset && offset < #[trigger] reports::word_reports(
                chars,
                ascii_uppercase,
            )[a].0,
    decreases b,
{
    if reports::word_reports(chars, ascii_uppercase)[b - 1].0 > offset {
        lemma_first_past(chars, ascii_uppercase, offset, b - 1);
    }
}

/// A report tells the properties of the characters between the boundary before it and its own.
pub proof fn lemma_token_properties(
    chars: Seq<char>,
    ascii_uppercase: bool,
    a: int,
    start: int,
    end: int,
)
    requires
        vstd::utf8::encode_utf8(chars).len() <= usize::MAX,
        0 < a < reports::word_reports(chars, ascii_uppercase).len(),
        0 <= start <= chars.len(),
        0 <= end <= chars.len(),
        text::byte_offset(chars, start) == reports::word_reports(chars, ascii_uppercase)[a - 1].0,
        text::byte_offset(chars, end) == reports::word_reports(chars, ascii_uppercase)[a].0,
    ensures
        reports::word_reports(chars, ascii_uppercase)[a].1 == reports::span_properties(
            chars,
            start,
            end,
            ascii_uppercase,
        ),
{
    let n = chars.len() as int;
    let positions = lemma_all_positions(chars, ascii_uppercase);
    assert(positions[a - 1] < positions[a]);
    lemma_offset_injective(chars, positions[a - 1], start);
    lemma_offset_injective(chars, positions[a], end);
}

/// Two positions with the same offset are the same.
proof fn lemma_offset_injective(chars: Seq<char>, i: int, j: int)
    requires
        vstd::utf8::encode_utf8(chars).len() <= usize::MAX,
        0 <= i <= chars.len(),
        0 <= j <= chars.len(),
        text::byte_offset(chars, i) as usize == text::byte_offset(chars, j),
    ensures
        i == j,
{
    let n = chars.len() as int;
    text::lemma_offset_ends(chars);
    if i < n {
        text::lemma_offset_monotone(chars, i, n);
    }
    if i < j {
        text::lemma_offset_monotone(chars, i, j);
    } else if j < i {
        text::lemma_offset_monotone(chars, j, i);
    }
}

/// To ask for the ASCII uppercase property changes neither the boundaries nor the other
/// properties; without it no token has it.
pub proof fn lemma_uppercase_is_extra(chars: Seq<char>, a: int)
    requires
        0 <= a < reports::word_reports(chars, true).len(),
    ensures
        ({
            let plain = reports::word_reports(chars, false);
            let with = reports::word_reports(chars, true);
            &&& plain.len() == with.len()
            &&& plain[a].0 == with[a].0
            &&& plain[a].1.word_like() == with[a].1.word_like()
            &&& plain[a].1.non_ascii() == with[a].1.non_ascii()
            &&& !plain[a].1.ascii_uppercase()
        }),
{
    broadcast use TokenProperties::lemma_of;

    let plain = lemma_all_positions(chars, false);
    let with = lemma_all_positions(chars, true);
    assert(plain[a] == with[a]);
}

/// Where the ASCII uppercase property was asked for, an ASCII token without it is lowercase
/// already: it holds no uppercase letter.
pub proof fn lemma_already_lowercase(chars: Seq<char>, a: int, start: int, end: int)
    requires
        vstd::utf8::encode_utf8(chars).len() <= usize::MAX,
        0 < a < reports::word_reports(chars, true).len(),
        0 <= start <= chars.len(),
        0 <= end <= chars.len(),
        text::byte_offset(chars, start) == reports::word_reports(chars, true)[a - 1].0,
        text::byte_offset(chars, end) == reports::word_reports(chars, true)[a].0,
        !reports::word_reports(chars, true)[a].1.ascii_uppercase(),
    ensures
        forall|i: int| start <= i < end ==> !reports::is_upper_char(#[trigger] chars[i]),
{
    broadcast use TokenProperties::lemma_of;

    lemma_token_properties(chars, true, a, start, end);
}

/// A text of ASCII characters has none but ASCII tokens.
pub proof fn lemma_ascii_text(chars: Seq<char>, ascii_uppercase: bool, a: int)
    requires
        forall|i: int| 0 <= i < chars.len() ==> (#[trigger] chars[i] as u32) < 0x80,
        0 <= a < reports::word_reports(chars, ascii_uppercase).len(),
    ensures
        !reports::word_reports(chars, ascii_uppercase)[a].1.non_ascii(),
{
    broadcast use TokenProperties::lemma_of;

    let s = properties::word_chars(chars);
    let positions = lemma_all_positions(chars, ascii_uppercase);
    assert(rules::is_word_break(s, positions[a]));
    reports::lemma_token_start(s, positions[a]);
}

/// There is a boundary before and after every line separator, except between CR and LF, where
/// there is none.
pub proof fn lemma_line_separators(chars: Seq<char>, i: int)
    requires
        0 < i < chars.len(),
    ensures
        ({
            let before = properties::word_break(chars[i - 1]);
            let after = properties::word_break(chars[i]);
            rules::is_newline(before) || rules::is_newline(after) ==> rules::is_word_break(
                properties::word_chars(chars),
                i,
            ) == !(before == WordBreakProperty::CR && after == WordBreakProperty::LF)
        }),
{
}

/// Nothing is cut off from what extends it: where no line separator stands before, there is no
/// boundary before a character that is attached to another one.
pub proof fn lemma_attached(chars: Seq<char>, i: int)
    requires
        0 < i < chars.len(),
        rules::is_attached(properties::word_break(chars[i])),
        !rules::is_newline(properties::word_break(chars[i - 1])),
    ensures
        !rules::is_word_break(properties::word_chars(chars), i),
{
}

/// A pictographic character is not cut off from a ZWJ before it.
pub proof fn lemma_zwj_joins(chars: Seq<char>, i: int)
    requires
        0 < i < chars.len(),
        properties::word_break(chars[i - 1]) == WordBreakProperty::ZWJ,
        properties::word_char(chars[i]).pictographic,
    ensures
        !rules::is_word_break(properties::word_chars(chars), i),
{
}

/// No ASCII character is attached to another one.
pub proof fn lemma_ascii_stands_alone(b: u8)
    ensures
        !rules::is_attached(properties::ascii_word_break(b)),
{
}

/// At every moment the calls that a callback has received are of boundaries of the text, each of
/// them once, and in order. None follows one that it answered with `false`, and none follows that
/// of the end of the text.
pub proof fn lemma_calls<F: FnMut(usize, TokenProperties) -> bool>(
    reporter: Reporter<usize, TokenProperties, F>,
    chars: Seq<char>,
    ascii_uppercase: bool,
)
    requires
        vstd::utf8::encode_utf8(chars).len() <= usize::MAX,
        reporter.well_formed(),
        reporter.expected() == reports::word_reports(chars, ascii_uppercase),
    ensures
        forall|a: int, b: int|
            0 <= a < b < reporter.reports().len() ==> (#[trigger] reporter.reports()[a]).0 < (
            #[trigger] reporter.reports()[b]).0,
        forall|a: int|
            0 <= a < reporter.reports().len() ==> exists|i: int| #[trigger]
                rules::is_word_break(properties::word_chars(chars), i) && (
                #[trigger] reporter.reports()[a]).0 == text::byte_offset(chars, i),
        reporter.replies().len() == reporter.reports().len(),
        forall|a: int|
            0 <= a < reporter.reports().len() - 1 ==> #[trigger] reporter.replies()[a] && (
            #[trigger] reporter.reports()[a]).0 < vstd::utf8::encode_utf8(chars).len(),
{
    let all = reports::word_reports(chars, ascii_uppercase);
    let n = reporter.reports().len() as int;
    assert forall|a: int| 0 <= a < n implies #[trigger] reporter.reports()[a] == all[a] by {
        assert(all.take(n)[a] == all[a]);
    }
    assert forall|a: int, b: int| 0 <= a < b < n implies (#[trigger] reporter.reports()[a]).0 < (
    #[trigger] reporter.reports()[b]).0 by {
        lemma_offsets_increase(chars, ascii_uppercase, a, b);
    }
    assert forall|a: int| 0 <= a < n implies exists|i: int| #[trigger]
        rules::is_word_break(properties::word_chars(chars), i) && (
        #[trigger] reporter.reports()[a]).0 == text::byte_offset(chars, i) by {
        lemma_exact(chars, ascii_uppercase, all[a].0);
        assert(all[a].0 == reporter.reports()[a].0);
    }
    lemma_ends(chars, ascii_uppercase);
    assert forall|a: int| 0 <= a < n - 1 implies #[trigger] reporter.replies()[a] && (
    #[trigger] reporter.reports()[a]).0 < vstd::utf8::encode_utf8(chars).len() by {
        if chars.len() > 0 {
            lemma_offsets_increase(chars, ascii_uppercase, a, all.len() as int - 1);
        }
    }
}

/// When a tokenizer is done, the callback has received a call for every boundary, or its last reply
/// was `false`.
pub proof fn lemma_done<F: FnMut(usize, TokenProperties) -> bool>(
    on_breakpoint: F,
    all: Seq<(usize, TokenProperties)>,
    replies: Seq<bool>,
)
    requires
        super::answers_reports(on_breakpoint, all, replies),
    ensures
        replies.len() == all.len() || 0 < replies.len() < all.len() && !replies[replies.len() - 1],
        forall|a: int| 0 <= a < replies.len() - 1 ==> #[trigger] replies[a],
        forall|a: int|
            0 <= a < replies.len() ==> call_ensures(on_breakpoint, all[a], #[trigger] replies[a]),
{
}

} // verus!
