//! What word tokenization reports: the boundaries of a text, each with the properties of the token
//! that ends there.

use vstd::prelude::*;

use super::properties;
use super::properties::WordChar;
use super::rules;
use super::token::TokenProperties;
use crate::uax29::text;

verus! {

/// An ASCII uppercase letter.
pub open spec fn is_upper_char(c: char) -> bool {
    'A' <= c <= 'Z'
}

/// The properties of the characters `start..end` of a text. The uppercase one is left out unless
/// `ascii_uppercase` asks for it.
pub open spec fn span_properties(
    chars: Seq<char>,
    start: int,
    end: int,
    ascii_uppercase: bool,
) -> TokenProperties {
    TokenProperties::of(
        exists|i: int| start <= i < end && properties::is_word_like_char(#[trigger] chars[i]),
        exists|i: int| start <= i < end && #[trigger] chars[i] as u32 >= 0x80,
        ascii_uppercase && exists|i: int| start <= i < end && is_upper_char(#[trigger] chars[i]),
    )
}

/// Where the token that ends at position `i` starts: at the last boundary before it.
pub open spec fn token_start(s: Seq<WordChar>, i: int) -> int
    decreases i,
{
    if i <= 0 {
        0
    } else if rules::is_word_break(s, i - 1) {
        i - 1
    } else {
        token_start(s, i - 1)
    }
}

/// The report of the boundary at position `i`: its offset in bytes, and the properties of the
/// token that ends there.
pub open spec fn word_report(chars: Seq<char>, ascii_uppercase: bool, i: int) -> (
    usize,
    TokenProperties,
) {
    (
        text::byte_offset(chars, i) as usize,
        span_properties(chars, token_start(properties::word_chars(chars), i), i, ascii_uppercase),
    )
}

/// The reports of the boundaries before position `m`, in order.
pub open spec fn word_reports_before(chars: Seq<char>, ascii_uppercase: bool, m: int) -> Seq<
    (usize, TokenProperties),
>
    decreases m,
{
    if m <= 0 {
        Seq::empty()
    } else if rules::is_word_break(properties::word_chars(chars), m - 1) {
        word_reports_before(chars, ascii_uppercase, m - 1).push(
            word_report(chars, ascii_uppercase, m - 1),
        )
    } else {
        word_reports_before(chars, ascii_uppercase, m - 1)
    }
}

/// The reports of all the boundaries of a text, in order.
pub open spec fn word_reports(chars: Seq<char>, ascii_uppercase: bool) -> Seq<
    (usize, TokenProperties),
> {
    word_reports_before(chars, ascii_uppercase, chars.len() as int + 1)
}

/// The reports before a position are the first of all the reports.
pub proof fn lemma_reports_prefix(chars: Seq<char>, ascii_uppercase: bool, m: int, n: int)
    requires
        m <= n,
    ensures
        word_reports_before(chars, ascii_uppercase, m).len() <= word_reports_before(
            chars,
            ascii_uppercase,
            n,
        ).len(),
        word_reports_before(chars, ascii_uppercase, m) == word_reports_before(
            chars,
            ascii_uppercase,
            n,
        ).take(word_reports_before(chars, ascii_uppercase, m).len() as int),
    decreases n - m,
{
    let first = word_reports_before(chars, ascii_uppercase, m);
    if m < n {
        lemma_reports_prefix(chars, ascii_uppercase, m, n - 1);
        let all = word_reports_before(chars, ascii_uppercase, n);
        let rest = word_reports_before(chars, ascii_uppercase, n - 1);
        assert(all.take(first.len() as int) =~= rest.take(first.len() as int));
    } else {
        assert(first.take(first.len() as int) =~= first);
    }
}

/// Where no boundary lies between two positions, nothing is reported between them.
pub proof fn lemma_no_reports(chars: Seq<char>, ascii_uppercase: bool, m: int, n: int)
    requires
        0 <= m <= n,
        forall|i: int| m <= i < n ==> !rules::is_word_break(properties::word_chars(chars), i),
    ensures
        word_reports_before(chars, ascii_uppercase, n) == word_reports_before(
            chars,
            ascii_uppercase,
            m,
        ),
        token_start(properties::word_chars(chars), n) == token_start(properties::word_chars(chars), m),
    decreases n - m,
{
    if m < n {
        lemma_no_reports(chars, ascii_uppercase, m, n - 1);
    }
}

/// A token starts at or before its end.
pub proof fn lemma_token_start(s: Seq<WordChar>, i: int)
    requires
        0 <= i,
    ensures
        0 <= token_start(s, i) <= i,
    decreases i,
{
    if i > 0 && !rules::is_word_break(s, i - 1) {
        lemma_token_start(s, i - 1);
    }
}

/// The properties of two adjacent spans add up.
pub proof fn lemma_spans_add(
    chars: Seq<char>,
    start: int,
    mid: int,
    end: int,
    ascii_uppercase: bool,
    sum: TokenProperties,
)
    requires
        start <= mid <= end,
        sum.well_formed(),
        ({
            let first = span_properties(chars, start, mid, ascii_uppercase);
            let second = span_properties(chars, mid, end, ascii_uppercase);
            &&& sum.word_like() == (first.word_like() || second.word_like())
            &&& sum.non_ascii() == (first.non_ascii() || second.non_ascii())
            &&& sum.ascii_uppercase() == (first.ascii_uppercase() || second.ascii_uppercase())
        }),
    ensures
        sum == span_properties(chars, start, end, ascii_uppercase),
{
    broadcast use TokenProperties::lemma_of;

    sum.lemma_determined();
    let word_like = |a: int, b: int|
        exists|i: int| a <= i < b && properties::is_word_like_char(#[trigger] chars[i]);
    let non_ascii = |a: int, b: int|
        exists|i: int| a <= i < b && #[trigger] chars[i] as u32 >= 0x80;
    let upper = |a: int, b: int| exists|i: int| a <= i < b && is_upper_char(#[trigger] chars[i]);
    assert(word_like(start, end) == (word_like(start, mid) || word_like(mid, end)));
    assert(non_ascii(start, end) == (non_ascii(start, mid) || non_ascii(mid, end)));
    assert(upper(start, end) == (upper(start, mid) || upper(mid, end)));
}

/// The properties of the empty span, and of a single character.
pub proof fn lemma_short_spans(chars: Seq<char>, k: int, ascii_uppercase: bool)
    ensures
        span_properties(chars, k, k, ascii_uppercase) == TokenProperties::of(false, false, false),
        0 <= k < chars.len() ==> span_properties(chars, k, k + 1, ascii_uppercase)
            == TokenProperties::of(
            properties::is_word_like_char(chars[k]),
            chars[k] as u32 >= 0x80,
            ascii_uppercase && is_upper_char(chars[k]),
        ),
{
    if 0 <= k < chars.len() {
        assert(properties::is_word_like_char(chars[k]) == exists|i: int|
            k <= i < k + 1 && properties::is_word_like_char(#[trigger] chars[i]));
        assert((chars[k] as u32 >= 0x80) == exists|i: int|
            k <= i < k + 1 && #[trigger] chars[i] as u32 >= 0x80);
        assert(is_upper_char(chars[k]) == exists|i: int|
            k <= i < k + 1 && is_upper_char(#[trigger] chars[i]));
    }
}

} // verus!
