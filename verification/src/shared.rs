//! The alliance structures shared by match records.

use vstd::prelude::*;

verus! {

/// The two sides of a match.
pub struct Alliances {
    pub red: Alliance,
    pub blue: Alliance,
}

/// One side of a match: its score and the keys of its member teams.
pub struct Alliance {
    pub score: isize,
    pub teams: Vec<String>,
}

} // verus!
