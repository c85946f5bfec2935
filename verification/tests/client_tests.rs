//! Tests of the session: URL building and decoding of API response bodies.

use tba::{Session, TbaError};

const TEAM_BODY: &str = "{\"website\": \"http://www.apexrobotics.net/\", \
     \"name\": \"Apex Controls & The Hitchhikers\", \
     \"locality\": \"Apex\", \"region\": \"NC\", \
     \"country_name\": \"USA\", \"location\": \"Apex, NC, USA\", \
     \"team_number\": 2059, \"key\": \"frc2059\", \
     \"nickname\": \"The Hitchhikers\", \"rookie_year\": 2007}";

#[test]
fn get_team_u16() {
    let the_blue_alliance = Session::new("Carl Colglazier", "tba.rs", "0.0.0");
    let team_info = match the_blue_alliance.get_team(TEAM_BODY) {
        Ok(team) => team,
        Err(e) => panic!("{:?}", e),
    };
    assert_eq!(2059, team_info.team_number.unwrap());
    assert_eq!("Apex", team_info.locality.unwrap());
    assert_eq!("NC", team_info.region.unwrap());
    assert_eq!("The Hitchhikers", team_info.nickname.unwrap());
    // Not quite true; the team first started competing in 2011!
    assert_eq!(2007, team_info.rookie_year.unwrap());
}

#[test]
fn get_team_str() {
    let the_blue_alliance = Session::new("Carl Colglazier", "tba.rs", "0.0.0");
    let team_info = match the_blue_alliance.get_team(TEAM_BODY) {
        Ok(team) => team,
        Err(e) => panic!("{:?}", e),
    };
    assert_eq!(2059, team_info.team_number.unwrap());
    assert_eq!("Apex", team_info.locality.unwrap());
    assert_eq!("NC", team_info.region.unwrap());
    assert_eq!("The Hitchhikers", team_info.nickname.unwrap());
    assert_eq!(2007, team_info.rookie_year.unwrap());
}

#[test]
fn get_bad_team() {
    // what the API returns for a key that is not a team number at all
    let the_blue_alliance = Session::new("Carl Colglazier", "tba.rs", "0.0.0");
    assert!(the_blue_alliance.get_team("The Hichhikers").is_err());
}

#[test]
fn get_match() {
    let the_blue_alliance = Session::new("Carl Colglazier", "tba.rs", "0.0.0");
    let key = "2015ncre_f1m2";
    let body = "{\"key\": \"2015ncre_f1m2\", \"comp_level\": \"f\", \
         \"set_number\": 1, \"match_number\": 2, \
         \"alliances\": {\"blue\": {\"score\": 72, \
         \"teams\": [\"frc2059\", \"frc1225\", \"frc900\"]}, \
         \"red\": {\"score\": 66, \
         \"teams\": [\"frc435\", \"frc2415\", \"frc4828\"]}}, \
         \"event_key\": \"2015ncre\", \"time_string\": null, \"time\": null}";
    let rr_ncre_final = match the_blue_alliance.get_match(body) {
        Ok(game) => game,
        Err(e) => panic!("{:?}", e),
    };
    assert_eq!(key, rr_ncre_final.key.unwrap());
    assert_eq!("f", rr_ncre_final.comp_level.unwrap());
    assert_eq!(1, rr_ncre_final.set_number.unwrap());
    assert_eq!(2, rr_ncre_final.match_number.unwrap());
    let alliances = rr_ncre_final.alliances.unwrap();
    assert_eq!(72, alliances.blue.score);
    assert_eq!(vec!["frc2059", "frc1225", "frc900"], alliances.blue.teams);
    assert_eq!("2015ncre", rr_ncre_final.event_key.unwrap());
}

#[test]
fn app_id_joins_the_identity() {
    let session = Session::new("dev", "app", "1.2.3");
    assert_eq!(session.app_id(), "dev:app:1.2.3");
}

#[test]
fn request_url_carries_path_and_identity() {
    let session = Session::new("dev", "app", "1.2.3");
    assert_eq!(
        session.request_url("team/frc2059"),
        "http://thebluealliance.com/api/v2/team/frc2059?X-TBA-App-Id=dev:app:1.2.3"
    );
}

#[test]
fn parse_error_on_invalid_json() {
    let session = Session::new("d", "a", "v");
    assert!(matches!(session.get_team("{not json"), Err(TbaError::Parse)));
}

#[test]
fn structure_error_on_wrong_shape() {
    let session = Session::new("d", "a", "v");
    // a team record must be an object
    assert!(matches!(
        session.get_team("[1, 2, 3]"),
        Err(TbaError::Structure)
    ));
    // a present field of the wrong type fails the record
    assert!(matches!(
        session.get_team("{\"nickname\": 7}"),
        Err(TbaError::Structure)
    ));
    // a team number beyond u16 fails the record
    assert!(matches!(
        session.get_team("{\"team_number\": 70000}"),
        Err(TbaError::Structure)
    ));
}

#[test]
fn missing_and_null_fields_decode_to_none() {
    let session = Session::new("d", "a", "v");
    let team = session.get_team("{\"nickname\": null}").unwrap();
    assert!(team.nickname.is_none());
    assert!(team.team_number.is_none());
    assert!(team.website.is_none());
}

#[test]
fn get_events_reads_official_flags() {
    let session = Session::new("d", "a", "v");
    let body = "[{\"key\": \"2015ncre\", \"official\": true, \"year\": 2015}, \
         {\"key\": \"2015offx\", \"official\": false}, {\"name\": \"no key\"}]";
    let events = session.get_events(body).unwrap();
    assert_eq!(events.len(), 3);
    assert_eq!(events[0].key.as_deref(), Some("2015ncre"));
    assert_eq!(events[0].official, Some(true));
    assert_eq!(events[0].year, Some(2015));
    assert_eq!(events[1].official, Some(false));
    assert!(events[2].key.is_none());
    assert!(events[2].official.is_none());
}

#[test]
fn get_event_decodes_a_single_record() {
    let session = Session::new("d", "a", "v");
    let body = "{\"key\": \"2015ncre\", \"name\": \"NC Regional\", \
         \"event_type\": 0, \"official\": true}";
    let event = session.get_event(body).unwrap();
    assert_eq!(event.key.as_deref(), Some("2015ncre"));
    assert_eq!(event.name.as_deref(), Some("NC Regional"));
    assert_eq!(event.event_type, Some(0));
    assert_eq!(event.official, Some(true));
}

#[test]
fn get_event_teams_decodes_a_list() {
    let session = Session::new("d", "a", "v");
    let body = "[{\"key\": \"frc2059\", \"team_number\": 2059}, \
         {\"key\": \"frc900\", \"team_number\": 900}]";
    let teams = session.get_event_teams(body).unwrap();
    assert_eq!(teams.len(), 2);
    assert_eq!(teams[0].team_number, Some(2059));
    assert_eq!(teams[1].key.as_deref(), Some("frc900"));
}

#[test]
fn get_event_matches_feeds_the_engine() {
    let session = Session::new("d", "a", "v");
    let body = "[{\"alliances\": {\"red\": {\"score\": 100, \"teams\": [\"frc1\"]}, \
         \"blue\": {\"score\": 50, \"teams\": [\"frc2\"]}}, \"time\": 1}, \
         {\"alliances\": null, \"time\": 2}]";
    let games = session.get_event_matches(body).unwrap();
    assert_eq!(games.len(), 2);
    let store = tba::engine::compute_ratings(&games);
    assert_eq!(store.get("frc1"), 1_008_000);
    assert_eq!(store.get("frc2"), 992_000);
}

#[test]
fn malformed_roster_fails_the_match() {
    let session = Session::new("d", "a", "v");
    let body = "{\"alliances\": {\"red\": {\"score\": 1, \"teams\": [7]}, \
         \"blue\": {\"score\": 2, \"teams\": []}}}";
    assert!(matches!(session.get_match(body), Err(TbaError::Structure)));
}

#[test]
fn oversize_body_is_rejected() {
    // bodies beyond the parser's safe bound are refused outright
    let session = Session::new("d", "a", "v");
    let mut body = String::from("{\"name\": \"");
    body.push_str(&"x".repeat(70_000));
    body.push_str("\"}");
    assert!(matches!(session.get_team(&body), Err(TbaError::Oversize)));
}
