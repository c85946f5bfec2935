//! Team model, based on the team records served by The Blue Alliance API.

use vstd::prelude::*;

verus! {

/// Team model.  Every field is optional: a record may omit any of them.
pub struct Team {
    pub website: Option<String>,
    pub name: Option<String>,
    pub locality: Option<String>,
    pub region: Option<String>,
    pub country_name: Option<String>,
    pub location: Option<String>,
    pub team_number: Option<u16>,
    pub key: Option<String>,
    pub nickname: Option<String>,
    pub rookie_year: Option<u16>,
}

} // verus!
