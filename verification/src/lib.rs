//! Text segmentation after UAX #29: the boundaries of words and of sentences in Unicode text.

pub mod uax29;
