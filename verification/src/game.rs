//! Match model, based on the match records served by The Blue Alliance API.

use vstd::prelude::*;
use crate::shared::Alliances;

verus! {

/// Match model.  The alliances and the timestamp may be missing; a missing
/// timestamp is treated as 0 when matches are ordered.
pub struct Game {
    pub key: Option<String>,
    pub comp_level: Option<String>,
    pub set_number: Option<u8>,
    pub match_number: Option<isize>,
    pub alliances: Option<Alliances>,
    pub event_key: Option<String>,
    pub time_string: Option<String>,
    pub time: Option<isize>,
}

} // verus!
