//! What the tokenizer knows of a token once it has read it.

use std::ops::BitOrAssign;

use vstd::prelude::*;

use super::scan;
use super::scan::is_ascii_alnum;

verus! {

/// What was seen in a span of text, one bit for each property. The bits are set disjunctively:
/// one character sets them for the span.
#[derive(Copy, Clone, Debug, Eq, PartialEq, Structural)]
pub struct TokenProperties(u8);

impl TokenProperties {
    const WORD_LIKE_MASK: u8 = 0b0000_0001;

    const NON_ASCII_MASK: u8 = 0b0000_0010;

    const ASCII_UPPERCASE_MASK: u8 = 0b0000_0100;

    /// The properties of a span that holds a word-like character, one outside of ASCII, or an
    /// ASCII uppercase letter, each as the arguments say.
    pub closed spec fn of(word_like: bool, non_ascii: bool, ascii_uppercase: bool) -> Self {
        TokenProperties(
            ((if word_like {
                1int
            } else {
                0int
            }) + (if non_ascii {
                2int
            } else {
                0int
            }) + (if ascii_uppercase {
                4int
            } else {
                0int
            })) as u8,
        )
    }

    /// The span holds a word-like character.
    pub closed spec fn word_like(self) -> bool {
        self.0 & 0b0000_0001 != 0
    }

    /// The span holds a character outside of ASCII.
    pub closed spec fn non_ascii(self) -> bool {
        self.0 & 0b0000_0010 != 0
    }

    /// The span holds an ASCII uppercase letter.
    pub closed spec fn ascii_uppercase(self) -> bool {
        self.0 & 0b0000_0100 != 0
    }

    /// No bit is set that has no meaning.
    pub closed spec fn well_formed(self) -> bool {
        self.0 < 8
    }

    /// Properties are determined by what they say of their span.
    pub proof fn lemma_determined(self)
        requires
            self.well_formed(),
        ensures
            self == Self::of(self.word_like(), self.non_ascii(), self.ascii_uppercase()),
    {
        lemma_mask_bits();
    }

    /// The properties of a span say what they were made of.
    pub broadcast proof fn lemma_of(word_like: bool, non_ascii: bool, ascii_uppercase: bool)
        ensures
            #![trigger Self::of(word_like, non_ascii, ascii_uppercase)]
            Self::of(word_like, non_ascii, ascii_uppercase).well_formed(),
            Self::of(word_like, non_ascii, ascii_uppercase).word_like() == word_like,
            Self::of(word_like, non_ascii, ascii_uppercase).non_ascii() == non_ascii,
            Self::of(word_like, non_ascii, ascii_uppercase).ascii_uppercase() == ascii_uppercase,
    {
        lemma_mask_bits();
    }

    /// The properties of the empty span.
    pub fn empty() -> (properties: Self)
        ensures
            properties == Self::of(false, false, false),
    {
        TokenProperties(0)
    }

    /// The properties that one word-like character gives.
    pub fn of_word_like() -> (properties: Self)
        ensures
            properties == Self::of(true, false, false),
    {
        TokenProperties(Self::WORD_LIKE_MASK)
    }

    /// The properties that one character outside of ASCII gives.
    pub fn of_non_ascii() -> (properties: Self)
        ensures
            properties == Self::of(false, true, false),
    {
        TokenProperties(Self::NON_ASCII_MASK)
    }

    /// The properties that one ASCII uppercase letter gives, apart from its being word-like.
    pub fn of_ascii_uppercase() -> (properties: Self)
        ensures
            properties == Self::of(false, false, true),
    {
        TokenProperties(Self::ASCII_UPPERCASE_MASK)
    }

    /// The properties that a single ASCII byte gives: word-like for `[a-zA-Z0-9]` (`_` is not),
    /// uppercase for `[A-Z]`.
    pub fn from_ascii_byte(b: u8) -> (properties: Self)
        ensures
            properties == Self::of(scan::is_alnum_byte(b), false, scan::is_upper_byte(b)),
    {
        let mut bits: u8 = 0;
        proof {
            lemma_mask_bits();
        }
        if is_ascii_alnum(b) {
            bits = bits | Self::WORD_LIKE_MASK;
        }
        if b.wrapping_sub('A' as u8) < 26 {
            bits = bits | Self::ASCII_UPPERCASE_MASK;
        }
        TokenProperties(bits)
    }

    /// The same properties without the uppercase one.
    pub fn without_ascii_uppercase(self) -> (properties: Self)
        ensures
            self.well_formed() ==> properties.well_formed(),
            properties.word_like() == self.word_like(),
            properties.non_ascii() == self.non_ascii(),
            !properties.ascii_uppercase(),
    {
        proof {
            let bits = self.0;
            assert((bits < 8 ==> bits & !0b0000_0100u8 < 8) && (bits & !0b0000_0100u8) & 1 == bits & 1
                && (bits & !0b0000_0100u8) & 2 == bits & 2 && (bits & !0b0000_0100u8) & 4 == 0)
                by (bit_vector);
        }
        TokenProperties(self.0 & !Self::ASCII_UPPERCASE_MASK)
    }

    /// A token is word-like if it holds a letter or a digit by its Word_Break property, or a
    /// character that is Ideographic, Extended_Pictographic, of the general category Other_Number,
    /// or of a script other than Common, Inherited and Unknown.
    pub fn is_word_like(&self) -> (word_like: bool)
        ensures
            word_like == self.word_like(),
    {
        self.0 & Self::WORD_LIKE_MASK != 0
    }

    /// A token is ASCII if it holds no character outside of it, as the empty one does.
    pub fn is_ascii(&self) -> (ascii: bool)
        ensures
            ascii == !self.non_ascii(),
    {
        self.0 & Self::NON_ASCII_MASK == 0
    }

    /// The token holds at least one of `[A-Z]`.
    pub fn has_ascii_uppercase(&self) -> (ascii_uppercase: bool)
        ensures
            ascii_uppercase == self.ascii_uppercase(),
    {
        self.0 & Self::ASCII_UPPERCASE_MASK != 0
    }
}

/// The masks are the three lowest bits.
proof fn lemma_mask_bits()
    ensures
        0u8 & 1 == 0 && 0u8 & 2 == 0 && 0u8 & 4 == 0,
        1u8 & 1 != 0 && 1u8 & 2 == 0 && 1u8 & 4 == 0,
        2u8 & 1 == 0 && 2u8 & 2 != 0 && 2u8 & 4 == 0,
        3u8 & 1 != 0 && 3u8 & 2 != 0 && 3u8 & 4 == 0,
        4u8 & 1 == 0 && 4u8 & 2 == 0 && 4u8 & 4 != 0,
        5u8 & 1 != 0 && 5u8 & 2 == 0 && 5u8 & 4 != 0,
        6u8 & 1 == 0 && 6u8 & 2 != 0 && 6u8 & 4 != 0,
        7u8 & 1 != 0 && 7u8 & 2 != 0 && 7u8 & 4 != 0,
        0u8 | 1 == 1 && 0u8 | 4 == 4 && 1u8 | 4 == 5,
{
    assert(0u8 & 1 == 0 && 0u8 & 2 == 0 && 0u8 & 4 == 0 && 1u8 & 1 != 0 && 1u8 & 2 == 0 && 1u8 & 4
        == 0 && 2u8 & 1 == 0 && 2u8 & 2 != 0 && 2u8 & 4 == 0 && 3u8 & 1 != 0 && 3u8 & 2 != 0 && 3u8
        & 4 == 0) by (bit_vector);
    assert(4u8 & 1 == 0 && 4u8 & 2 == 0 && 4u8 & 4 != 0 && 5u8 & 1 != 0 && 5u8 & 2 == 0 && 5u8 & 4
        != 0 && 6u8 & 1 == 0 && 6u8 & 2 != 0 && 6u8 & 4 != 0 && 7u8 & 1 != 0 && 7u8 & 2 != 0 && 7u8
        & 4 != 0 && 0u8 | 1 == 1 && 0u8 | 4 == 4 && 1u8 | 4 == 5) by (bit_vector);
}

impl Default for TokenProperties {
    fn default() -> (properties: Self)
        ensures
            properties == TokenProperties::of(false, false, false),
    {
        TokenProperties(0)
    }
}

impl BitOrAssign for TokenProperties {
    /// Adds the properties of another span.
    fn bitor_assign(&mut self, rhs: Self)
        ensures
            final(self).word_like() == (old(self).word_like() || rhs.word_like()),
            final(self).non_ascii() == (old(self).non_ascii() || rhs.non_ascii()),
            final(self).ascii_uppercase() == (old(self).ascii_uppercase()
                || rhs.ascii_uppercase()),
            old(self).well_formed() && rhs.well_formed() ==> final(self).well_formed(),
    {
        proof {
            let a = self.0;
            let b = rhs.0;
            assert(((a | b) & 1 != 0 <==> a & 1 != 0 || b & 1 != 0) && ((a | b) & 2 != 0 <==> a & 2
                != 0 || b & 2 != 0) && ((a | b) & 4 != 0 <==> a & 4 != 0 || b & 4 != 0) && (a < 8
                && b < 8 ==> a | b < 8)) by (bit_vector);
        }
        self.0 = self.0 | rhs.0;
    }
}

} // verus!
