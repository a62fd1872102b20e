//! Lookups in the Unicode character database, which `icu_properties` holds.
//!
//! Each wrapper asks for one property of one character. What the database answers is given a
//! name; of the answers themselves nothing is claimed.

use icu_properties::props::{
    ExtendedPictographic, GeneralCategory, Ideographic, Script, SentenceBreak, WordBreak,
};
use icu_properties::{CodePointMapData, CodePointSetData};
use vstd::prelude::*;

verus! {

/// ICU's number for the Word_Break property of a character.
pub uninterp spec fn word_break_of(c: char) -> u8;

/// ICU's number for the Sentence_Break property of a character.
pub uninterp spec fn sentence_break_of(c: char) -> u8;

/// ICU's number for the general category of a character.
pub uninterp spec fn general_category_of(c: char) -> u8;

/// ICU's number for the script of a character.
pub uninterp spec fn script_of(c: char) -> u16;

/// The Extended_Pictographic property of a character.
pub uninterp spec fn extended_pictographic_of(c: char) -> bool;

/// The Ideographic property of a character.
pub uninterp spec fn ideographic_of(c: char) -> bool;

/// `CodePointMapDataBorrowed::<WordBreak>::get`, and the number of what it returns: a lookup in a
/// table that is compiled in, so that the same character always gives the same number.
#[verifier::external_body]
pub(crate) fn word_break_value(c: char) -> (value: u8)
    ensures
        value == word_break_of(c),
{
    CodePointMapData::<WordBreak>::new().get(c).to_icu4c_value()
}

/// `CodePointMapDataBorrowed::<SentenceBreak>::get`, and the number of what it returns: a lookup
/// in a table that is compiled in, so that the same character always gives the same number.
#[verifier::external_body]
pub(crate) fn sentence_break_value(c: char) -> (value: u8)
    ensures
        value == sentence_break_of(c),
{
    CodePointMapData::<SentenceBreak>::new().get(c).to_icu4c_value()
}

/// `CodePointMapDataBorrowed::<GeneralCategory>::get`, and the number of what it returns: a lookup
/// in a table that is compiled in, so that the same character always gives the same number.
#[verifier::external_body]
pub(crate) fn general_category_value(c: char) -> (value: u8)
    ensures
        value == general_category_of(c),
{
    CodePointMapData::<GeneralCategory>::new().get(c) as u8
}

/// `CodePointMapDataBorrowed::<Script>::get`, and the number of what it returns: a lookup in a
/// table that is compiled in, so that the same character always gives the same number.
#[verifier::external_body]
pub(crate) fn script_value(c: char) -> (value: u16)
    ensures
        value == script_of(c),
{
    CodePointMapData::<Script>::new().get(c).to_icu4c_value()
}

/// `CodePointSetDataBorrowed::contains` on the set of Extended_Pictographic characters: a lookup
/// in a list that is compiled in, so that the same character always gives the same answer.
#[verifier::external_body]
pub(crate) fn is_extended_pictographic_char(c: char) -> (found: bool)
    ensures
        found == extended_pictographic_of(c),
{
    CodePointSetData::new::<ExtendedPictographic>().contains(c)
}

/// `CodePointSetDataBorrowed::contains` on the set of Ideographic characters: a lookup in a list
/// that is compiled in, so that the same character always gives the same answer.
#[verifier::external_body]
pub(crate) fn is_ideographic_char(c: char) -> (found: bool)
    ensures
        found == ideographic_of(c),
{
    CodePointSetData::new::<Ideographic>().contains(c)
}

} // verus!
