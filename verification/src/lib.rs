//! A verified client library and rating engine for The Blue Alliance match
//! data.
//!
//! The `Session` type builds request URLs and decodes the JSON bodies that
//! a caller fetches over HTTP into `Team`, `Event` and `Game` records; the
//! `store`, `engine` and `report` modules hold the rating pipeline that
//! turns a season's match records into a ranked listing of team ratings,
//! with its behaviour specified and proved down to the arithmetic.

use vstd::prelude::*;
use vstd::string::StringExecFns;

pub mod elo;
pub mod engine;
pub mod event;
pub mod game;
pub mod json;
pub mod laws;
pub mod report;
pub mod shared;
pub mod store;
pub mod team;

pub use event::Event;
pub use game::Game;
pub use json::TbaError;
pub use shared::Alliance;
pub use shared::Alliances;
pub use team::Team;

verus! {

/// A session of The Blue Alliance API: the application identity that every
/// request carries.
pub struct Session {
    developer: String,
    application: String,
    version: String,
}

impl View for Session {
    type V = (Seq<char>, Seq<char>, Seq<char>);

    closed spec fn view(&self) -> (Seq<char>, Seq<char>, Seq<char>) {
        (self.developer@, self.application@, self.version@)
    }
}

impl Session {
    /// Create a new Session.
    pub fn new(developer: &str, application: &str, version: &str) -> (s: Session)
        ensures
            s@ == (developer@, application@, version@),
    {
        Session {
            developer: developer.to_owned(),
            application: application.to_owned(),
            version: version.to_owned(),
        }
    }

    /// The application identifier sent with every request:
    /// `developer:application:version`.
    pub fn app_id(&self) -> (r: String)
        ensures
            r@ == self@.0 + ":"@ + self@.1 + ":"@ + self@.2,
    {
        let mut out = self.developer.clone();
        out.append(":");
        out.append(self.application.as_str());
        out.append(":");
        out.append(self.version.as_str());
        out
    }

    /// The full URL of an API request for the given path, with the
    /// identification query attached.
    pub fn request_url(&self, path: &str) -> (r: String)
        ensures
            r@ == "http://thebluealliance.com/api/v2/"@ + path@ + "?X-TBA-App-Id="@ + self@.0
                + ":"@ + self@.1 + ":"@ + self@.2,
    {
        let mut out = String::from_str("http://thebluealliance.com/api/v2/");
        out.append(path);
        out.append("?X-TBA-App-Id=");
        let id = self.app_id();
        out.append(id.as_str());
        out
    }

    /// Decode the body of a team request: the team record for a
    /// team-shaped JSON object, the exact error otherwise.
    pub fn get_team(&self, response: &str) -> (r: Result<Team, TbaError>)
        ensures
            r == crate::json::decoded_team(response),
    {
        match crate::json::parse_body(response) {
            Ok(j) => crate::json::decode_team(&j),
            Err(e) => Err(e),
        }
    }

    /// Decode the body of an event request.
    pub fn get_event(&self, response: &str) -> (r: Result<Event, TbaError>)
        ensures
            r == crate::json::decoded_event(response),
    {
        match crate::json::parse_body(response) {
            Ok(j) => crate::json::decode_event(&j),
            Err(e) => Err(e),
        }
    }

    /// Decode the body of an event-teams request: one team per array
    /// element, in order.
    pub fn get_event_teams(&self, response: &str) -> (r: Result<Vec<Team>, TbaError>)
        ensures
            match r {
                Ok(v) => crate::json::decoded_team_list(response) == Ok::<Seq<Team>, TbaError>(v@),
                Err(e) => crate::json::decoded_team_list(response) == Err::<Seq<Team>, TbaError>(
                    e,
                ),
            },
    {
        match crate::json::parse_body(response) {
            Ok(j) => crate::json::decode_team_list(&j),
            Err(e) => Err(e),
        }
    }

    /// Decode the body of a match request, pinned to the record's shape.
    pub fn get_match(&self, response: &str) -> (r: Result<Game, TbaError>)
        ensures
            match r {
                Ok(g) => crate::json::decoded_game(response) == Ok::<
                    crate::json::GameRecord,
                    TbaError,
                >(crate::json::game_view(g)),
                Err(e) => crate::json::decoded_game(response) == Err::<
                    crate::json::GameRecord,
                    TbaError,
                >(e),
            },
    {
        match crate::json::parse_body(response) {
            Ok(j) => crate::json::decode_game(&j),
            Err(e) => Err(e),
        }
    }

    /// Decode the body of a season-events request: one event per array
    /// element, in order.
    pub fn get_events(&self, response: &str) -> (r: Result<Vec<Event>, TbaError>)
        ensures
            match r {
                Ok(v) => crate::json::decoded_event_list(response) == Ok::<
                    Seq<Event>,
                    TbaError,
                >(v@),
                Err(e) => crate::json::decoded_event_list(response) == Err::<
                    Seq<Event>,
                    TbaError,
                >(e),
            },
    {
        match crate::json::parse_body(response) {
            Ok(j) => crate::json::decode_event_list(&j),
            Err(e) => Err(e),
        }
    }

    /// Decode the body of an event-matches request: one match record per
    /// array element, in order.
    pub fn get_event_matches(&self, response: &str) -> (r: Result<Vec<Game>, TbaError>)
        ensures
            match r {
                Ok(v) => crate::json::decoded_game_list(response) == Ok::<
                    Seq<crate::json::GameRecord>,
                    TbaError,
                >(v@.map_values(|g: Game| crate::json::game_view(g))),
                Err(e) => crate::json::decoded_game_list(response) == Err::<
                    Seq<crate::json::GameRecord>,
                    TbaError,
                >(e),
            },
    {
        match crate::json::parse_body(response) {
            Ok(j) => crate::json::decode_game_list(&j),
            Err(e) => Err(e),
        }
    }
}

} // verus!
