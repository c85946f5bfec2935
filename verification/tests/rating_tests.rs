//! Tests of the rating store, the ELO arithmetic, and the match pipeline.

use tba::elo::{elo_delta, expected_score};
use tba::engine::{compute_ratings, match_is_valid, process_match};
use tba::report::rankings;
use tba::store::RatingStore;
use tba::{Alliance, Alliances, Game};

fn game(
    time: Option<isize>,
    red_teams: &[&str],
    red_score: isize,
    blue_teams: &[&str],
    blue_score: isize,
) -> Game {
    Game {
        key: None,
        comp_level: None,
        set_number: None,
        match_number: None,
        alliances: Some(Alliances {
            red: Alliance {
                score: red_score,
                teams: red_teams.iter().map(|s| s.to_string()).collect(),
            },
            blue: Alliance {
                score: blue_score,
                teams: blue_teams.iter().map(|s| s.to_string()).collect(),
            },
        }),
        event_key: None,
        time_string: None,
        time,
    }
}

fn bare_game(time: Option<isize>) -> Game {
    Game {
        key: None,
        comp_level: None,
        set_number: None,
        match_number: None,
        alliances: None,
        event_key: None,
        time_string: None,
        time,
    }
}

#[test]
fn default_rating_on_first_appearance() {
    let mut store = RatingStore::new();
    assert_eq!(store.get_or_create("frc2059"), 1_000_000);
    assert_eq!(store.get("frc2059"), 1_000_000);
    assert_eq!(store.len(), 1);
    // a second appearance neither re-creates nor changes the team
    assert_eq!(store.get_or_create("frc2059"), 1_000_000);
    assert_eq!(store.len(), 1);
}

#[test]
fn unknown_key_sentinel_and_noop_update() {
    let mut store = RatingStore::new();
    assert_eq!(store.get("frc900"), 0);
    store.update("frc900", 5_000);
    assert_eq!(store.get("frc900"), 0);
    assert_eq!(store.len(), 0);
    store.get_or_create("frc900");
    store.update("frc900", 5_000);
    assert_eq!(store.get("frc900"), 1_005_000);
}

#[test]
fn expected_score_values() {
    // equal averages: exactly one half of the 2^30 scale
    assert_eq!(expected_score(1_000_000, 1_000_000), 536_870_912);
    // a 400-point gap against red
    assert_eq!(expected_score(1_000_000, 1_400_000), 97_612_893);
    // the mirrored gap in red's favour
    assert_eq!(expected_score(1_400_000, 1_000_000), 976_128_931);
}

#[test]
fn elo_delta_values() {
    // fresh ratings, red wins: 16 * (1 - 1/2) = 8 points
    assert_eq!(elo_delta(1_000_000, 1_000_000, 100, 50), 8_000);
    // fresh ratings, tie: no change
    assert_eq!(elo_delta(1_000_000, 1_000_000, 30, 30), 0);
    // fresh ratings, blue wins
    assert_eq!(elo_delta(1_000_000, 1_000_000, 50, 100), -8_000);
}

#[test]
fn single_fresh_match() {
    let games = vec![game(Some(1), &["frc1"], 100, &["frc2"], 50)];
    let store = compute_ratings(&games);
    assert_eq!(store.get("frc1"), 1_008_000);
    assert_eq!(store.get("frc2"), 992_000);
}

#[test]
fn tie_match_changes_nothing() {
    let games = vec![game(Some(1), &["frc1", "frc2"], 42, &["frc3", "frc4"], 42)];
    let store = compute_ratings(&games);
    assert_eq!(store.get("frc1"), 1_000_000);
    assert_eq!(store.get("frc2"), 1_000_000);
    assert_eq!(store.get("frc3"), 1_000_000);
    assert_eq!(store.get("frc4"), 1_000_000);
}

#[test]
fn zero_sum_for_equal_alliance_sizes() {
    let games = vec![game(Some(1), &["frc1", "frc2"], 90, &["frc3", "frc4"], 10)];
    let store = compute_ratings(&games);
    let red_total = (store.get("frc1") - 1_000_000) + (store.get("frc2") - 1_000_000);
    let blue_total = (store.get("frc3") - 1_000_000) + (store.get("frc4") - 1_000_000);
    assert_eq!(red_total, -blue_total);
    assert_eq!(red_total, 16_000);
}

#[test]
fn no_zero_sum_for_unequal_alliance_sizes() {
    let games = vec![game(Some(1), &["frc1"], 90, &["frc3", "frc4"], 10)];
    let store = compute_ratings(&games);
    let red_total = store.get("frc1") - 1_000_000;
    let blue_total = (store.get("frc3") - 1_000_000) + (store.get("frc4") - 1_000_000);
    assert_ne!(red_total, -blue_total);
}

#[test]
fn disjoint_matches_commute() {
    let g1 = || game(Some(1), &["frc1"], 80, &["frc2"], 20);
    let g2 = || game(Some(1), &["frc3"], 10, &["frc4"], 70);

    let mut first = RatingStore::new();
    process_match(&mut first, &g1());
    process_match(&mut first, &g2());

    let mut second = RatingStore::new();
    process_match(&mut second, &g2());
    process_match(&mut second, &g1());

    for team in ["frc1", "frc2", "frc3", "frc4"] {
        assert_eq!(first.get(team), second.get(team));
    }
}

#[test]
fn overlapping_matches_do_not_commute() {
    // frc1 appears in both matches, so its rating when the second match is
    // processed depends on the order.
    let g1 = || game(Some(1), &["frc1"], 80, &["frc2"], 20);
    let g2 = || game(Some(1), &["frc1"], 90, &["frc3"], 10);

    let mut first = RatingStore::new();
    process_match(&mut first, &g1());
    process_match(&mut first, &g2());

    let mut second = RatingStore::new();
    process_match(&mut second, &g2());
    process_match(&mut second, &g1());

    assert_ne!(first.get("frc3"), second.get("frc3"));
}

#[test]
fn pipeline_is_deterministic() {
    let build = || {
        vec![
            game(Some(5), &["frc1", "frc2"], 30, &["frc3"], 60),
            game(Some(1), &["frc1"], 10, &["frc4"], 10),
            game(None, &["frc2"], 55, &["frc4"], 5),
        ]
    };
    let first = compute_ratings(&build());
    let second = compute_ratings(&build());
    let r1 = rankings(&first);
    let r2 = rankings(&second);
    assert_eq!(r1.len(), r2.len());
    for (a, b) in r1.iter().zip(r2.iter()) {
        assert_eq!(a.0, b.0);
        assert_eq!(a.1, b.1);
    }
}

#[test]
fn matches_are_processed_in_timestamp_order() {
    // Handing the pipeline the later match first must not change the
    // outcome: the sequencer orders by timestamp, a missing one counting
    // as zero.
    let early = || game(None, &["frc1"], 60, &["frc2"], 10);
    let late = || game(Some(9), &["frc1"], 20, &["frc3"], 75);
    let store = compute_ratings(&vec![late(), early()]);

    let mut manual = RatingStore::new();
    process_match(&mut manual, &early());
    process_match(&mut manual, &late());
    for team in ["frc1", "frc2", "frc3"] {
        assert_eq!(store.get(team), manual.get(team));
    }
}

#[test]
fn equal_timestamps_keep_input_order() {
    let a = || game(Some(3), &["frc1"], 50, &["frc2"], 10);
    let b = || game(Some(3), &["frc1"], 5, &["frc3"], 90);
    let store = compute_ratings(&vec![a(), b()]);

    let mut manual = RatingStore::new();
    process_match(&mut manual, &a());
    process_match(&mut manual, &b());
    for team in ["frc1", "frc2", "frc3"] {
        assert_eq!(store.get(team), manual.get(team));
    }
}

#[test]
fn report_is_sorted_descending() {
    let games = vec![
        game(Some(1), &["frc1"], 100, &["frc2"], 0),
        game(Some(2), &["frc3"], 80, &["frc2"], 10),
    ];
    let store = compute_ratings(&games);
    let ranked = rankings(&store);
    assert_eq!(ranked.len(), 3);
    for w in ranked.windows(2) {
        assert!(w[0].1 >= w[1].1);
    }
    // distinct ratings: strictly descending
    assert!(ranked[0].1 > ranked[1].1);
    assert!(ranked[1].1 > ranked[2].1);
}

#[test]
fn report_breaks_ties_by_first_seen_order() {
    let mut store = RatingStore::new();
    store.get_or_create("frc7");
    store.get_or_create("frc3");
    store.get_or_create("frc5");
    let ranked = rankings(&store);
    let names: Vec<&str> = ranked.iter().map(|p| p.0.as_str()).collect();
    assert_eq!(names, vec!["frc7", "frc3", "frc5"]);
}

#[test]
fn filter_drops_missing_alliances() {
    assert!(!match_is_valid(&bare_game(Some(1))));
    let store = compute_ratings(&vec![bare_game(Some(1))]);
    assert_eq!(store.len(), 0);
}

#[test]
fn filter_drops_negative_blue_score() {
    let g = game(Some(1), &["frc1"], 10, &["frc2"], -1);
    assert!(!match_is_valid(&g));
    let store = compute_ratings(&vec![g]);
    assert_eq!(store.get("frc1"), 0);
    assert_eq!(store.get("frc2"), 0);
    assert_eq!(store.len(), 0);
}

#[test]
fn filter_accepts_negative_red_score() {
    // The filter checks only the blue score, so a negative red score
    // passes and counts as a blue win.
    let g = game(Some(1), &["frc1"], -3, &["frc2"], 0);
    assert!(match_is_valid(&g));
    let store = compute_ratings(&vec![game(Some(1), &["frc1"], -3, &["frc2"], 0)]);
    assert_eq!(store.get("frc1"), 992_000);
    assert_eq!(store.get("frc2"), 1_008_000);
}

#[test]
fn filter_drops_empty_rosters() {
    let g = game(Some(1), &[], 10, &["frc2"], 5);
    assert!(!match_is_valid(&g));
    let store = compute_ratings(&vec![g]);
    assert_eq!(store.len(), 0);
}

#[test]
fn invalid_match_has_no_effect_anywhere_in_the_list() {
    let with_invalid = vec![
        game(Some(1), &["frc1"], 60, &["frc2"], 30),
        game(Some(2), &["frc1"], 0, &["frc3"], -4),
        game(Some(3), &["frc2"], 45, &["frc3"], 45),
    ];
    let without = vec![
        game(Some(1), &["frc1"], 60, &["frc2"], 30),
        game(Some(3), &["frc2"], 45, &["frc3"], 45),
    ];
    let a = compute_ratings(&with_invalid);
    let b = compute_ratings(&without);
    for team in ["frc1", "frc2", "frc3"] {
        assert_eq!(a.get(team), b.get(team));
    }
}

#[test]
fn empty_match_list_yields_empty_report() {
    let store = compute_ratings(&Vec::new());
    assert_eq!(store.len(), 0);
    assert!(rankings(&store).is_empty());
}

#[test]
fn duplicate_key_in_a_roster_is_updated_once_per_slot() {
    // The same key listed twice contributes twice to the sum and receives
    // the proportional share twice, but the store still holds one entry.
    let games = vec![game(Some(1), &["frc1", "frc1"], 70, &["frc2", "frc3"], 30)];
    let store = compute_ratings(&games);
    assert_eq!(store.len(), 3);
    assert_eq!(store.get("frc1"), 1_016_000);
    assert_eq!(store.get("frc2"), 992_000);
    assert_eq!(store.get("frc3"), 992_000);
}
