//! What sentence tokenization reports: the boundaries of a text.

use vstd::prelude::*;

use super::properties;
use super::rules;
use crate::uax29::text;

verus! {

/// The offsets, in bytes, of the boundaries before position `m`, in order.
pub open spec fn sentence_reports_before(chars: Seq<char>, m: int) -> Seq<usize>
    decreases m,
{
    if m <= 0 {
        Seq::empty()
    } else if rules::is_sentence_break(properties::sentence_classes(chars), m - 1) {
        sentence_reports_before(chars, m - 1).push(text::byte_offset(chars, m - 1) as usize)
    } else {
        sentence_reports_before(chars, m - 1)
    }
}

/// The offsets of all the boundaries of a text, in order.
pub open spec fn sentence_reports(chars: Seq<char>) -> Seq<usize> {
    sentence_reports_before(chars, chars.len() as int + 1)
}

/// The reports before a position are the first of all the reports.
pub proof fn lemma_reports_prefix(chars: Seq<char>, m: int, n: int)
    requires
        m <= n,
    ensures
        sentence_reports_before(chars, m).len() <= sentence_reports_before(chars, n).len(),
        sentence_reports_before(chars, m) == sentence_reports_before(chars, n).take(
            sentence_reports_before(chars, m).len() as int,
        ),
    decreases n - m,
{
    let first = sentence_reports_before(chars, m);
    if m < n {
        lemma_reports_prefix(chars, m, n - 1);
        let all = sentence_reports_before(chars, n);
        let rest = sentence_reports_before(chars, n - 1);
        assert(all.take(first.len() as int) =~= rest.take(first.len() as int));
    } else {
        assert(first.take(first.len() as int) =~= first);
    }
}

/// Where no boundary lies between two positions, nothing is reported between them.
pub proof fn lemma_no_reports(chars: Seq<char>, m: int, n: int)
    requires
        0 <= m <= n,
        forall|i: int|
            m <= i < n ==> !rules::is_sentence_break(properties::sentence_classes(chars), i),
    ensures
        sentence_reports_before(chars, n) == sentence_reports_before(chars, m),
    decreases n - m,
{
    if m < n {
        lemma_no_reports(chars, m, n - 1);
    }
}

} // verus!
