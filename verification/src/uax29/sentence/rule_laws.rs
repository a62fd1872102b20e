//! Where a sentence ends and where it does not, class by class: what stands around a position
//! decides, and what is attached to it does not count.

use vstd::prelude::*;

use super::laws;
use super::properties;
use super::properties::SentenceBreakProperty;
use super::reports;
use super::rules;
use super::scan;
use crate::uax29::text;
use crate::uax29::unicode;

verus! {

/// Extend and Format: what belongs to the character before it.
pub open spec fn is_skipped(p: SentenceBreakProperty) -> bool {
    p == SentenceBreakProperty::Extend || p == SentenceBreakProperty::Format
}

/// Sep, CR and LF: what ends a paragraph.
pub open spec fn is_separator(p: SentenceBreakProperty) -> bool {
    ||| p == SentenceBreakProperty::Sep
    ||| p == SentenceBreakProperty::CR
    ||| p == SentenceBreakProperty::LF
}

/// Characters `t + 1` to `i - 1` close what ends at `t` and put space behind it: there is nothing
/// but Close, Sp and what is attached to them, and no Close behind an Sp.
pub open spec fn is_trail(s: Seq<SentenceBreakProperty>, t: int, i: int) -> bool {
    &&& 0 <= t < i <= s.len()
    &&& forall|m: int|
        t < m < i ==> {
            ||| (#[trigger] s[m]) == SentenceBreakProperty::Close
            ||| s[m] == SentenceBreakProperty::Sp
            ||| is_skipped(s[m])
        }
    &&& forall|a: int, b: int|
        t < a < b < i && #[trigger] s[a] == SentenceBreakProperty::Sp ==> #[trigger] s[b]
            != SentenceBreakProperty::Close
}

/// Nothing stands between `t` and `i` but what is attached to `t`.
pub open spec fn is_right_after(s: Seq<SentenceBreakProperty>, t: int, i: int) -> bool {
    0 <= t < i <= s.len() && forall|m: int| t < m < i ==> is_skipped(#[trigger] s[m])
}

/// There is no Sp between `t` and `i`.
pub open spec fn is_spaceless(s: Seq<SentenceBreakProperty>, t: int, i: int) -> bool {
    forall|m: int| t < m < i ==> #[trigger] s[m] != SentenceBreakProperty::Sp
}

/// A letter that has case stands before the character `t`.
#[verifier::opaque]
pub open spec fn is_after_letter(s: Seq<SentenceBreakProperty>, t: int) -> bool {
    exists|u: int|
        is_right_after(s, u, t) && ((#[trigger] s[u]) == SentenceBreakProperty::Upper || s[u]
            == SentenceBreakProperty::Lower)
}

/// The first letter, separator or terminator from `i` on is a lowercase letter.
#[verifier::opaque]
pub open spec fn leads_to_lower(s: Seq<SentenceBreakProperty>, i: int) -> bool {
    exists|m: int|
        i <= m < s.len() && (#[trigger] s[m]) == SentenceBreakProperty::Lower && forall|a: int|
            i <= a < m ==> {
                &&& (#[trigger] s[a]) != SentenceBreakProperty::OLetter
                &&& s[a] != SentenceBreakProperty::Upper
                &&& s[a] != SentenceBreakProperty::Lower
                &&& s[a] != SentenceBreakProperty::ATerm
                &&& s[a] != SentenceBreakProperty::STerm
                &&& !is_separator(s[a])
            }
}

/// Of a character outside of ASCII the rules read what the database says, number by number.
pub proof fn lemma_database_class(chars: Seq<char>, i: int)
    requires
        0 <= i < chars.len(),
        chars[i] as u32 >= 0x80,
    ensures
        ({
            let p = properties::sentence_classes(chars)[i];
            let v = unicode::sentence_break_of(chars[i]);
            &&& p == properties::sentence_break_from_value(v)
            &&& p == SentenceBreakProperty::ATerm <==> v == 1
            &&& p == SentenceBreakProperty::Close <==> v == 2
            &&& p == SentenceBreakProperty::Format <==> v == 3
            &&& p == SentenceBreakProperty::Lower <==> v == 4
            &&& p == SentenceBreakProperty::Numeric <==> v == 5
            &&& p == SentenceBreakProperty::OLetter <==> v == 6
            &&& p == SentenceBreakProperty::Sep <==> v == 7
            &&& p == SentenceBreakProperty::Sp <==> v == 8
            &&& p == SentenceBreakProperty::STerm <==> v == 9
            &&& p == SentenceBreakProperty::Upper <==> v == 10
            &&& p == SentenceBreakProperty::CR <==> v == 11
            &&& p == SentenceBreakProperty::Extend <==> v == 12
            &&& p == SentenceBreakProperty::LF <==> v == 13
            &&& p == SentenceBreakProperty::SContinue <==> v == 14
            &&& p == SentenceBreakProperty::Other <==> v == 0 || v > 14
        }),
{
}

/// Of an ASCII character the rules read its class, character by character.
pub proof fn lemma_ascii_class(chars: Seq<char>, i: int)
    requires
        0 <= i < chars.len(),
        (chars[i] as u32) < 0x80,
    ensures
        ({
            let p = properties::sentence_classes(chars)[i];
            let c = chars[i];
            &&& p == SentenceBreakProperty::CR <==> c == '\r'
            &&& p == SentenceBreakProperty::LF <==> c == '\n'
            &&& p == SentenceBreakProperty::Sp <==> c == '\t' || c as u32 == 0x0b || c as u32
                == 0x0c || c == ' '
            &&& p == SentenceBreakProperty::Lower <==> 'a' <= c <= 'z'
            &&& p == SentenceBreakProperty::Upper <==> 'A' <= c <= 'Z'
            &&& p == SentenceBreakProperty::Numeric <==> '0' <= c <= '9'
            &&& p == SentenceBreakProperty::ATerm <==> c == '.'
            &&& p == SentenceBreakProperty::STerm <==> c == '!' || c == '?'
            &&& p == SentenceBreakProperty::SContinue <==> c == ',' || c == '-' || c == ':' || c
                == ';'
            &&& p == SentenceBreakProperty::Close <==> c == '"' || c == '\'' || c == '(' || c == ')'
                || c == '[' || c == ']' || c == '{' || c == '}'
            &&& !is_skipped(p)
            &&& p != SentenceBreakProperty::Sep
            &&& p != SentenceBreakProperty::OLetter
        }),
{
    text::lemma_char_value(chars[i]);
}

/// What stands before `i` where nothing but attached characters stands between.
proof fn lemma_left(s: Seq<SentenceBreakProperty>, t: int, i: int)
    requires
        is_right_after(s, t, i),
        !is_skipped(s[t]),
    ensures
        rules::base_before(s, i) == t,
        rules::left(s, i) == s[t],
{
    rules::lemma_base_before(s, i);
    let b = rules::base_before(s, i);
    if b < t {
        assert(rules::is_attached(s[t]));
    } else if b > t {
        assert(is_skipped(s[b]));
    }
}

/// What the rules see before `i` where a trail leads there from `t`.
proof fn lemma_trail(s: Seq<SentenceBreakProperty>, t: int, i: int)
    requires
        is_trail(s, t, i),
        !is_skipped(s[t]),
        s[t] != SentenceBreakProperty::Close,
        s[t] != SentenceBreakProperty::Sp,
    ensures
        rules::before_close_sp(s, i) == s[t],
        is_spaceless(s, t, i) ==> rules::before_close(s, i) == s[t],
        !is_spaceless(s, t, i) ==> rules::before_close(s, i) == SentenceBreakProperty::Sp,
        rules::left(s, i) == s[t] ==> is_right_after(s, t, i),
        !is_right_after(s, t, i) ==> rules::left(s, i) == SentenceBreakProperty::Close
            || rules::left(s, i) == SentenceBreakProperty::Sp,
    decreases i - t,
{
    rules::lemma_base_before(s, i);
    let b = rules::base_before(s, i);
    assert(b >= t) by {
        if b < t {
            assert(rules::is_attached(s[t]));
        }
    }
    assert forall|m: int| b < m < i implies is_skipped(#[trigger] s[m]) by {
        assert(rules::is_attached(s[m]));
    }
    if b > t {
        assert(!is_skipped(s[b]));
        lemma_trail(s, t, b);
        if s[b] == SentenceBreakProperty::Close {
            assert(is_spaceless(s, t, b));
            assert(is_spaceless(s, t, i)) by {
                assert forall|m: int| t < m < i implies #[trigger] s[m]
                    != SentenceBreakProperty::Sp by {
                    if m > b {
                        assert(is_skipped(s[m]));
                    }
                }
            }
        } else {
            assert(s[b] == SentenceBreakProperty::Sp);
            assert(!is_spaceless(s, t, i));
        }
    } else {
        assert(is_spaceless(s, t, i)) by {
            assert forall|m: int| t < m < i implies #[trigger] s[m]
                != SentenceBreakProperty::Sp by {
                assert(is_skipped(s[m]));
            }
        }
    }
}

/// Where the rules see a terminator before `Close*`, a trail without space leads there.
proof fn lemma_close_source(s: Seq<SentenceBreakProperty>, i: int) -> (t: int)
    requires
        0 < i <= s.len(),
        rules::is_terminator(rules::before_close(s, i)),
    ensures
        is_trail(s, t, i),
        is_spaceless(s, t, i),
        s[t] == rules::before_close(s, i),
    decreases i,
{
    rules::lemma_base_before(s, i);
    let b = rules::base_before(s, i);
    assert forall|m: int| b < m < i && 0 <= m implies is_skipped(#[trigger] s[m]) by {
        assert(rules::is_attached(s[m]));
    }
    if rules::left(s, i) == SentenceBreakProperty::Close {
        let t = lemma_close_source(s, b);
        t
    } else {
        b
    }
}

/// Where the rules see a terminator before `Close* Sp*`, a trail leads there.
proof fn lemma_source(s: Seq<SentenceBreakProperty>, i: int) -> (t: int)
    requires
        0 < i <= s.len(),
        rules::is_terminator(rules::before_close_sp(s, i)),
    ensures
        is_trail(s, t, i),
        s[t] == rules::before_close_sp(s, i),
    decreases i,
{
    rules::lemma_base_before(s, i);
    let b = rules::base_before(s, i);
    assert forall|m: int| b < m < i && 0 <= m implies is_skipped(#[trigger] s[m]) by {
        assert(rules::is_attached(s[m]));
    }
    if rules::left(s, i) == SentenceBreakProperty::Sp {
        let t = lemma_source(s, b);
        assert forall|x: int, y: int|
            t < x < y < i && #[trigger] s[x] == SentenceBreakProperty::Sp implies #[trigger] s[y]
            != SentenceBreakProperty::Close by {
            if y > b {
                assert(is_skipped(s[y]));
            }
        }
        t
    } else {
        lemma_close_source(s, i)
    }
}

/// The rules see a letter that has case before `t` if and only if there is one.
proof fn lemma_after_letter(s: Seq<SentenceBreakProperty>, t: int)
    requires
        0 <= t < s.len(),
    ensures
        rules::is_cased(rules::left(s, t)) == is_after_letter(s, t),
{
    reveal(is_after_letter);
    rules::lemma_base_before(s, t);
    let b = rules::base_before(s, t);
    if rules::is_cased(rules::left(s, t)) {
        assert forall|m: int| b < m < t implies is_skipped(#[trigger] s[m]) by {
            assert(rules::is_attached(s[m]));
        }
        assert(is_right_after(s, b, t));
        assert(s[b] == SentenceBreakProperty::Upper || s[b] == SentenceBreakProperty::Lower);
    }
    if is_after_letter(s, t) {
        let u = choose|u: int|
            is_right_after(s, u, t) && ((#[trigger] s[u]) == SentenceBreakProperty::Upper || s[u]
                == SentenceBreakProperty::Lower);
        lemma_left(s, u, t);
    }
}

/// The rules look ahead to a lowercase letter if and only if what follows leads to one.
proof fn lemma_leads(s: Seq<SentenceBreakProperty>, i: int)
    ensures
        rules::lower_follows(s, i) == leads_to_lower(s, i),
{
    reveal(leads_to_lower);
    if rules::lower_follows(s, i) {
        let m = choose|m: int|
            i <= m < s.len() && #[trigger] s[m] == SentenceBreakProperty::Lower && forall|a: int|
                i <= a < m ==> !rules::stops_lookahead(#[trigger] s[a]);
        assert(s[m] == SentenceBreakProperty::Lower);
        assert forall|a: int| i <= a < m implies {
            &&& (#[trigger] s[a]) != SentenceBreakProperty::OLetter
            &&& s[a] != SentenceBreakProperty::Upper
            &&& s[a] != SentenceBreakProperty::Lower
            &&& s[a] != SentenceBreakProperty::ATerm
            &&& s[a] != SentenceBreakProperty::STerm
            &&& !is_separator(s[a])
        } by {
            assert(!rules::stops_lookahead(s[a]));
        }
    }
    if leads_to_lower(s, i) {
        let m = choose|m: int|
            i <= m < s.len() && (#[trigger] s[m]) == SentenceBreakProperty::Lower && forall|a: int|
                i <= a < m ==> {
                    &&& (#[trigger] s[a]) != SentenceBreakProperty::OLetter
                    &&& s[a] != SentenceBreakProperty::Upper
                    &&& s[a] != SentenceBreakProperty::Lower
                    &&& s[a] != SentenceBreakProperty::ATerm
                    &&& s[a] != SentenceBreakProperty::STerm
                    &&& !is_separator(s[a])
                };
        assert(s[m] == SentenceBreakProperty::Lower);
        assert forall|a: int| i <= a < m implies !rules::stops_lookahead(#[trigger] s[a]) by {
        }
    }
}

/// What a terminator is followed by without an end of the sentence in between, whichever
/// terminator it is.
pub open spec fn continues_terminated(s: Seq<SentenceBreakProperty>, t: int, i: int) -> bool {
    ||| s[i] == SentenceBreakProperty::SContinue
    ||| s[i] == SentenceBreakProperty::STerm
    ||| s[i] == SentenceBreakProperty::ATerm
    ||| s[i] == SentenceBreakProperty::Sp
    ||| is_separator(s[i])
    ||| s[i] == SentenceBreakProperty::Close && is_spaceless(s, t, i)
}

/// After an STerm and its trail the sentence ends before anything but what continues it.
pub proof fn lemma_after_sterm(chars: Seq<char>, t: int, i: int)
    requires
        i < chars.len(),
        is_trail(properties::sentence_classes(chars), t, i),
        properties::sentence_classes(chars)[t] == SentenceBreakProperty::STerm,
        !is_skipped(properties::sentence_classes(chars)[i]),
    ensures
        rules::is_sentence_break(properties::sentence_classes(chars), i)
            <==> !continues_terminated(properties::sentence_classes(chars), t, i),
{
    let s = properties::sentence_classes(chars);
    lemma_trail(s, t, i);
    if t < i - 1 {
        assert(!is_separator(s[i - 1]));
    }
    if is_right_after(s, t, i) {
        lemma_left(s, t, i);
    }
}

/// What the rules say after an ATerm, by what they see before and behind the position.
proof fn lemma_aterm_decision(
    s: Seq<SentenceBreakProperty>,
    i: int,
    spaceless: bool,
    right_after: bool,
    letter: bool,
    lower: bool,
)
    requires
        0 < i < s.len(),
        !is_separator(s[i - 1]),
        !is_skipped(s[i]),
        rules::before_close_sp(s, i) == SentenceBreakProperty::ATerm,
        rules::is_terminator(rules::before_close(s, i)) == spaceless,
        (rules::left(s, i) == SentenceBreakProperty::ATerm) == right_after,
        right_after ==> rules::is_cased(rules::left_of_left(s, i)) == letter,
        rules::lower_follows(s, i) == lower,
    ensures
        rules::is_sentence_break(s, i) <==> !{
            ||| s[i] == SentenceBreakProperty::SContinue
            ||| s[i] == SentenceBreakProperty::STerm
            ||| s[i] == SentenceBreakProperty::ATerm
            ||| s[i] == SentenceBreakProperty::Sp
            ||| is_separator(s[i])
            ||| s[i] == SentenceBreakProperty::Close && spaceless
            ||| right_after && s[i] == SentenceBreakProperty::Numeric
            ||| right_after && s[i] == SentenceBreakProperty::Upper && letter
            ||| lower
        },
{
}

/// After an ATerm and its trail the sentence ends before anything but what continues it, a digit
/// right after it, an uppercase letter right after it where one that has case stands before, and
/// what leads to a lowercase letter.
pub proof fn lemma_after_aterm(chars: Seq<char>, t: int, i: int)
    requires
        i < chars.len(),
        is_trail(properties::sentence_classes(chars), t, i),
        properties::sentence_classes(chars)[t] == SentenceBreakProperty::ATerm,
        !is_skipped(properties::sentence_classes(chars)[i]),
    ensures
        ({
            let s = properties::sentence_classes(chars);
            rules::is_sentence_break(s, i) <==> !{
                ||| continues_terminated(s, t, i)
                ||| is_right_after(s, t, i) && s[i] == SentenceBreakProperty::Numeric
                ||| is_right_after(s, t, i) && s[i] == SentenceBreakProperty::Upper
                    && is_after_letter(s, t)
                ||| leads_to_lower(s, i)
            }
        }),
{
    let s = properties::sentence_classes(chars);
    let spaceless = is_spaceless(s, t, i);
    let right_after = is_right_after(s, t, i);
    let letter = is_after_letter(s, t);
    let lower = leads_to_lower(s, i);
    assert(!is_separator(s[i - 1]));
    assert(rules::lower_follows(s, i) == lower) by {
        lemma_leads(s, i);
    }
    assert(rules::is_cased(rules::left(s, t)) == letter) by {
        lemma_after_letter(s, t);
    }
    lemma_trail(s, t, i);
    if right_after {
        lemma_left(s, t, i);
    }
    lemma_aterm_decision(s, i, spaceless, right_after, letter, lower);
}

/// A separator ends the sentence, except CR before LF.
pub proof fn lemma_after_separator(chars: Seq<char>, i: int)
    requires
        0 < i < chars.len(),
        is_separator(properties::sentence_classes(chars)[i - 1]),
    ensures
        ({
            let s = properties::sentence_classes(chars);
            rules::is_sentence_break(s, i) <==> !(s[i - 1] == SentenceBreakProperty::CR && s[i]
                == SentenceBreakProperty::LF)
        }),
{
}

/// Extend and Format do not start a sentence, except after a separator.
pub proof fn lemma_skipped(chars: Seq<char>, i: int)
    requires
        0 < i < chars.len(),
        !is_separator(properties::sentence_classes(chars)[i - 1]),
        is_skipped(properties::sentence_classes(chars)[i]),
    ensures
        !rules::is_sentence_break(properties::sentence_classes(chars), i),
{
}

/// Without a separator or a terminator and its trail before it, no sentence ends inside of a text.
pub proof fn lemma_no_cause(chars: Seq<char>, i: int)
    requires
        0 < i < chars.len(),
        !is_separator(properties::sentence_classes(chars)[i - 1]),
        forall|t: int|
            is_trail(properties::sentence_classes(chars), t, i) ==> {
                let p = #[trigger] properties::sentence_classes(chars)[t];
                p != SentenceBreakProperty::ATerm && p != SentenceBreakProperty::STerm
            },
    ensures
        !rules::is_sentence_break(properties::sentence_classes(chars), i),
{
    let s = properties::sentence_classes(chars);
    if rules::is_terminator(rules::before_close_sp(s, i)) {
        let t = lemma_source(s, i);
        assert(s[t] == SentenceBreakProperty::ATerm || s[t] == SentenceBreakProperty::STerm);
    }
}

/// The offset of a character is reported if and only if a sentence starts there.
pub proof fn lemma_reported_boundary(chars: Seq<char>, i: int)
    requires
        vstd::utf8::encode_utf8(chars).len() <= usize::MAX,
        0 <= i <= chars.len(),
    ensures
        rules::is_sentence_break(properties::sentence_classes(chars), i) <==> exists|a: int|
            0 <= a < reports::sentence_reports(chars).len()
                && #[trigger] reports::sentence_reports(chars)[a] == text::byte_offset(chars, i),
{
    let s = properties::sentence_classes(chars);
    text::lemma_offset_ends(chars);
    if i < chars.len() {
        text::lemma_offset_monotone(chars, i, chars.len() as int);
    }
    laws::lemma_exact(chars, text::byte_offset(chars, i) as usize);
    if exists|j: int| #[trigger]
        rules::is_sentence_break(s, j) && text::byte_offset(chars, j) == text::byte_offset(
            chars,
            i,
        ) {
        let j = choose|j: int| #[trigger]
            rules::is_sentence_break(s, j) && text::byte_offset(chars, j) == text::byte_offset(
                chars,
                i,
            );
        if j < i {
            text::lemma_offset_monotone(chars, j, i);
        } else if i < j {
            text::lemma_offset_monotone(chars, i, j);
        }
    }
}

/// A boundary is reported between a terminator that the database numbers 9 (STerm) and a letter
/// right after it, which it numbers 4, 6 or 10.
pub proof fn lemma_sterm_before_letter(chars: Seq<char>, i: int)
    requires
        vstd::utf8::encode_utf8(chars).len() <= usize::MAX,
        0 < i < chars.len(),
        chars[i - 1] as u32 >= 0x80,
        unicode::sentence_break_of(chars[i - 1]) == 9,
        chars[i] as u32 >= 0x80,
        unicode::sentence_break_of(chars[i]) == 4 || unicode::sentence_break_of(chars[i]) == 6
            || unicode::sentence_break_of(chars[i]) == 10,
    ensures
        exists|a: int|
            0 <= a < reports::sentence_reports(chars).len()
                && #[trigger] reports::sentence_reports(chars)[a] == text::byte_offset(chars, i),
{
    lemma_database_class(chars, i - 1);
    lemma_database_class(chars, i);
    lemma_after_sterm(chars, i - 1, i);
    lemma_reported_boundary(chars, i);
}

/// The bytes that a scan stops at are those outside of ASCII and those of the classes that end a
/// sentence or a paragraph, and `\x0B` and `\x0C`.
pub proof fn lemma_scanned_classes(b: u8)
    ensures
        ({
            let p = properties::ascii_sentence_break(b);
            scan::is_stop_byte(b) <==> b >= 0x80 || is_separator(p) || p
                == SentenceBreakProperty::ATerm || p == SentenceBreakProperty::STerm || b == 0x0b
                || b == 0x0c
        }),
{
}

/// A scan skips every byte that ends neither a sentence nor a paragraph and stops at the first that
/// may, however many there are; from anywhere in between it stops at the same place.
pub proof fn lemma_interior_run(bytes: Seq<u8>, start: int, mid: int, end: int)
    requires
        0 <= start <= mid <= end,
        scan::is_interior_run(bytes, start, end),
    ensures
        forall|j: int|
            start <= j < end ==> {
                let p = properties::ascii_sentence_break(#[trigger] bytes[j]);
                &&& j < bytes.len()
                &&& bytes[j] < 0x80
                &&& !is_separator(p)
                &&& p != SentenceBreakProperty::ATerm
                &&& p != SentenceBreakProperty::STerm
            },
        end < bytes.len() ==> {
            let p = properties::ascii_sentence_break(bytes[end]);
            ||| bytes[end] >= 0x80
            ||| is_separator(p)
            ||| p == SentenceBreakProperty::ATerm
            ||| p == SentenceBreakProperty::STerm
            ||| bytes[end] == 0x0b
            ||| bytes[end] == 0x0c
        },
        scan::is_interior_run(bytes, mid, end),
{
    assert forall|j: int| start <= j < end implies {
        let p = properties::ascii_sentence_break(#[trigger] bytes[j]);
        &&& j < bytes.len()
        &&& bytes[j] < 0x80
        &&& !is_separator(p)
        &&& p != SentenceBreakProperty::ATerm
        &&& p != SentenceBreakProperty::STerm
    } by {
        lemma_scanned_classes(bytes[j]);
    }
    if end < bytes.len() {
        lemma_scanned_classes(bytes[end]);
    }
}

} // verus!
