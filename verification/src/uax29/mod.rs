//! Word and sentence boundaries after UAX #29.

use vstd::prelude::*;

pub mod boundaries;
pub mod delivery;
pub mod sentence;
pub mod swar;
pub mod text;
pub mod unicode;
pub mod word;

verus! {

/// What a state transition does. Each transition leads to a new state and takes an action.
#[derive(Clone, Copy, Debug, PartialEq, Eq, Structural)]
pub enum Action {
    /// Break before the character.
    Break,
    /// Do not break before the character.
    NoBreak,
    /// Break at the position that was deferred, and examine the character again in the new state.
    ///
    /// Whether there is a break before the apostrophe of "can't" depends on what follows it.
    DeferredBreak,
    /// Consume the character and stay in the same state.
    Transparent,
}

} // verus!
