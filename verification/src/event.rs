//! Event model, based on the event records served by The Blue Alliance API.

use vstd::prelude::*;

verus! {

/// Event model.  Every field is optional: a record may omit any of them.
pub struct Event {
    pub key: Option<String>,
    pub name: Option<String>,
    pub short_name: Option<String>,
    pub event_code: Option<String>,
    pub event_type_string: Option<String>,
    pub event_type: Option<isize>,
    pub event_district_string: Option<String>,
    pub event_district: Option<isize>,
    pub year: Option<isize>,
    pub location: Option<String>,
    pub venue_address: Option<String>,
    pub website: Option<String>,
    pub official: Option<bool>,
}

} // verus!
