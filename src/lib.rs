//! Search core of a Japanese dictionary: script classification of text,
//! reading matching, the links from kanji readings to example words, and the
//! steps of a search by kanji reading.

use vstd::prelude::*;

pub mod dialect;
pub mod error;
pub mod japanese;
pub mod matcher;
pub mod readings;
pub mod search;

verus! {

} // verus!
