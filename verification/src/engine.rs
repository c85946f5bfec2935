//! The rating engine: filtering and ordering of match records, and the
//! per-match ELO update against the rating store.
//!
//! A match is processed in four steps.  Every team of either roster is first
//! created in the store if unseen; the current ratings of both rosters are
//! then sampled; the alliance averages and the signed update magnitude are
//! computed; and finally each team receives a share of the update
//! proportional to its own pre-update rating, positive for red and negative
//! for blue.

use vstd::prelude::*;
use vstd::arithmetic::mul::{
    lemma_mul_inequality, lemma_mul_is_commutative, lemma_mul_is_distributive_add,
};
use crate::elo::{delta_spec, elo_delta, tdiv, K_FACTOR};
use crate::game::Game;
use crate::shared::Alliances;
use crate::store::{
    clamp_rating, store_apply, store_get, store_lookup, RatingStore, StoreSeq, DEFAULT_RATING,
};

verus! {

/// The timestamp used for ordering: a missing one counts as 0.
pub open spec fn spec_time(g: Game) -> int {
    match g.time {
        Some(t) => t as int,
        None => 0,
    }
}

/// The filter predicate: a match is rated if and only if its alliances are
/// present, both rosters are populated, and the blue score is non-negative.
/// The red score is deliberately not examined: the rule is asymmetric, and
/// a match with a negative red score but a valid blue score is still
/// accepted.
pub open spec fn spec_match_valid(g: Game) -> bool {
    match g.alliances {
        Some(a) => a.blue.score >= 0 && a.red.teams@.len() > 0 && a.blue.teams@.len() > 0,
        None => false,
    }
}

/// The ratings of a `Vec<i64>`, as mathematical integers.
pub open spec fn to_ints(s: Seq<i64>) -> Seq<int> {
    s.map_values(|r: i64| r as int)
}

/// Create one team with the default rating if its key is unseen.
pub open spec fn create_one(m: StoreSeq, k: Seq<char>) -> StoreSeq {
    if store_lookup(m, k) is Some {
        m
    } else {
        m.push((k, DEFAULT_RATING as int))
    }
}

/// Create every key of a roster, in roster order.
pub open spec fn create_all(m: StoreSeq, keys: Seq<Seq<char>>) -> StoreSeq
    decreases keys.len(),
{
    if keys.len() == 0 {
        m
    } else {
        create_all(create_one(m, keys[0]), keys.drop_first())
    }
}

/// The current ratings of a roster, sampled all at once.
pub open spec fn sampled_ratings(m: StoreSeq, keys: Seq<Seq<char>>) -> Seq<int> {
    keys.map_values(|k: Seq<char>| store_get(m, k))
}

/// The sum of a sequence of integers.
pub open spec fn sum_seq(s: Seq<int>) -> int
    decreases s.len(),
{
    if s.len() == 0 {
        0
    } else {
        sum_seq(s.drop_last()) + s.last()
    }
}

/// The per-team share of the update: `delta * rating / avg`, truncated and
/// confined to the `i64` range.
pub open spec fn share_delta(delta: int, rating: int, avg: int) -> int {
    clamp_rating(tdiv(delta * rating, avg))
}

/// Apply one side's updates, team by team in roster order, each computed
/// from the rating sampled before any update of this match.
pub open spec fn apply_side(
    m: StoreSeq,
    keys: Seq<Seq<char>>,
    rats: Seq<int>,
    avg: int,
    delta: int,
) -> StoreSeq
    decreases keys.len(),
{
    if keys.len() == 0 {
        m
    } else {
        apply_side(
            store_apply(m, keys[0], share_delta(delta, rats[0], avg)),
            keys.drop_first(),
            rats.drop_first(),
            avg,
            delta,
        )
    }
}

/// The store after the creation step of a match: both rosters created, red
/// roster first.
pub open spec fn created_store(m: StoreSeq, a: Alliances) -> StoreSeq {
    create_all(create_all(m, a.red.teams.deep_view()), a.blue.teams.deep_view())
}

/// One side's average rating: the truncated mean of the sampled ratings.
pub open spec fn side_avg(m1: StoreSeq, keys: Seq<Seq<char>>) -> int {
    tdiv(sum_seq(sampled_ratings(m1, keys)), keys.len() as int)
}

/// What processing one valid match does to the store model.
pub open spec fn process_alliances_spec(m: StoreSeq, a: Alliances) -> StoreSeq {
    let red_keys = a.red.teams.deep_view();
    let blue_keys = a.blue.teams.deep_view();
    let m1 = created_store(m, a);
    let avg_r = side_avg(m1, red_keys);
    let avg_b = side_avg(m1, blue_keys);
    if avg_r == 0 || avg_b == 0 {
        m1
    } else {
        let delta = delta_spec(avg_r, avg_b, a.red.score as int, a.blue.score as int);
        let m2 = apply_side(m1, red_keys, sampled_ratings(m1, red_keys), avg_r, delta);
        apply_side(m2, blue_keys, sampled_ratings(m1, blue_keys), avg_b, -delta)
    }
}

/// Whether a key belongs to either roster of a match.
pub open spec fn in_roster(g: Game, k: Seq<char>) -> bool {
    match g.alliances {
        Some(a) => a.red.teams.deep_view().contains(k) || a.blue.teams.deep_view().contains(k),
        None => false,
    }
}

/// What processing a match does to the store model: an invalid match leaves
/// it untouched; an alliance whose average rating is exactly zero (possible
/// only if ratings were driven to cancel) stops the update after the
/// creation step, since the proportional shares would divide by zero.
pub open spec fn process_match_spec(m: StoreSeq, g: Game) -> StoreSeq {
    if !spec_match_valid(g) {
        m
    } else {
        match g.alliances {
            Some(a) => process_alliances_spec(m, a),
            None => m,
        }
    }
}

fn create_pass(store: &mut RatingStore, teams: &Vec<String>)
    requires
        old(store).wf(),
    ensures
        final(store).wf(),
        final(store)@ == create_all(old(store)@, teams.deep_view()),
{
    let ghost keys = teams.deep_view();
    let ghost target = create_all(old(store)@, keys);
    let n = teams.len();
    let mut i: usize = 0;
    proof {
        assert(keys.skip(0) =~= keys);
    }
    while i < n
        invariant
            store.wf(),
            i <= n == teams@.len(),
            keys == teams.deep_view(),
            create_all(store@, keys.skip(i as int)) == target,
        decreases n - i,
    {
        let ghost pre = store@;
        let _rating = store.get_or_create(teams[i].as_str());
        proof {
            assert(keys[i as int] == teams@[i as int]@);
            assert(keys.skip(i as int)[0] == keys[i as int]);
            assert(store@ == create_one(pre, keys[i as int]));
            assert(keys.skip(i as int).drop_first() =~= keys.skip(i as int + 1));
        }
        i += 1;
    }
    proof {
        assert(keys.skip(n as int) =~= Seq::<Seq<char>>::empty());
    }
}

fn sample_pass(store: &RatingStore, teams: &Vec<String>) -> (rats: Vec<i64>)
    requires
        store.wf(),
    ensures
        rats@.len() == teams@.len(),
        to_ints(rats@) == sampled_ratings(store@, teams.deep_view()),
{
    let ghost keys = teams.deep_view();
    let n = teams.len();
    let mut rats: Vec<i64> = Vec::new();
    let mut i: usize = 0;
    while i < n
        invariant
            store.wf(),
            i <= n == teams@.len(),
            keys == teams.deep_view(),
            rats@.len() == i,
            to_ints(rats@) == sampled_ratings(store@, keys.take(i as int)),
        decreases n - i,
    {
        let r = store.get(teams[i].as_str());
        let ghost pre_rats = rats@;
        rats.push(r);
        proof {
            assert(keys[i as int] == teams@[i as int]@);
            assert(r as int == store_get(store@, keys[i as int]));
            assert forall|j: int| 0 <= j < i as int + 1 implies to_ints(rats@)[j]
                == sampled_ratings(store@, keys.take(i as int + 1))[j] by {
                assert(keys.take(i as int + 1)[j] == keys[j]);
                if j < i as int {
                    assert(to_ints(pre_rats)[j] == sampled_ratings(store@, keys.take(i as int))[j]);
                    assert(sampled_ratings(store@, keys.take(i as int))[j] == store_get(
                        store@,
                        keys.take(i as int)[j],
                    ));
                    assert(rats@[j] == pre_rats[j]);
                } else {
                    assert(rats@[j] == r);
                }
            }
            assert(to_ints(rats@) =~= sampled_ratings(store@, keys.take(i as int + 1)));
        }
        i += 1;
    }
    proof {
        assert(keys.take(n as int) =~= keys);
    }
    rats
}

fn sum_ratings(rats: &Vec<i64>) -> (s: i128)
    ensures
        s as int == sum_seq(to_ints(rats@)),
        (rats@.len() as int) * (i64::MIN as int) <= s as int <= (rats@.len() as int) * (
        i64::MAX as int),
{
    let n = rats.len();
    let mut s: i128 = 0;
    let mut i: usize = 0;
    while i < n
        invariant
            i <= n == rats@.len(),
            s as int == sum_seq(to_ints(rats@).take(i as int)),
            (i as int) * (i64::MIN as int) <= s as int <= (i as int) * (i64::MAX as int),
        decreases n - i,
    {
        let r = rats[i];
        proof {
            let ints = to_ints(rats@);
            let i1 = i as int + 1;
            assert(ints.take(i1).drop_last() =~= ints.take(i as int));
            assert(ints.take(i1).last() == r as int);
            lemma_mul_is_distributive_add(i64::MIN as int, i as int, 1);
            lemma_mul_is_distributive_add(i64::MAX as int, i as int, 1);
            lemma_mul_is_commutative(i64::MIN as int, i as int);
            lemma_mul_is_commutative(i64::MAX as int, i as int);
            lemma_mul_is_commutative(i64::MIN as int, i1);
            lemma_mul_is_commutative(i64::MAX as int, i1);
            lemma_mul_inequality(i1, 0x1_0000_0000_0000_0000, -(i64::MIN as int));
            lemma_mul_inequality(i1, 0x1_0000_0000_0000_0000, i64::MAX as int);
        }
        s = s + r as i128;
        i += 1;
    }
    proof {
        assert(to_ints(rats@).take(n as int) =~= to_ints(rats@));
        lemma_mul_inequality(n as int, 0x1_0000_0000_0000_0000, -(i64::MIN as int));
        lemma_mul_inequality(n as int, 0x1_0000_0000_0000_0000, i64::MAX as int);
    }
    s
}

fn update_pass(store: &mut RatingStore, teams: &Vec<String>, rats: &Vec<i64>, avg: i64, delta: i64)
    requires
        old(store).wf(),
        rats@.len() == teams@.len(),
        avg != 0,
        -K_FACTOR <= delta <= K_FACTOR,
    ensures
        final(store).wf(),
        final(store)@ == apply_side(
            old(store)@,
            teams.deep_view(),
            to_ints(rats@),
            avg as int,
            delta as int,
        ),
{
    let ghost keys = teams.deep_view();
    let ghost ints = to_ints(rats@);
    let ghost target = apply_side(old(store)@, keys, ints, avg as int, delta as int);
    let n = teams.len();
    let mut i: usize = 0;
    proof {
        assert(keys.skip(0) =~= keys);
        assert(ints.skip(0) =~= ints);
    }
    while i < n
        invariant
            store.wf(),
            i <= n == teams@.len(),
            n == rats@.len(),
            keys == teams.deep_view(),
            ints == to_ints(rats@),
            avg != 0,
            -K_FACTOR <= delta <= K_FACTOR,
            apply_side(store@, keys.skip(i as int), ints.skip(i as int), avg as int, delta as int)
                == target,
        decreases n - i,
    {
        let r = rats[i];
        proof {
            assert((delta as int) * (r as int) <= 16_000 * 0x8000_0000_0000_0000 && (delta as int)
                * (r as int) >= -(16_000 * 0x8000_0000_0000_0000)) by (nonlinear_arith)
                requires
                    -16_000 <= delta as int <= 16_000,
                    -0x8000_0000_0000_0000 <= r as int <= 0x7FFF_FFFF_FFFF_FFFF,
            ;
        }
        let prod: i128 = (delta as i128) * (r as i128);
        let td = crate::elo::div_trunc(prod, avg as i128);
        let clamped: i64 = if td > i64::MAX as i128 {
            i64::MAX
        } else if td < i64::MIN as i128 {
            i64::MIN
        } else {
            td as i64
        };
        let ghost pre = store@;
        store.update(teams[i].as_str(), clamped);
        proof {
            assert(keys[i as int] == teams@[i as int]@);
            assert(clamped as int == share_delta(delta as int, ints[i as int], avg as int));
            assert(keys.skip(i as int)[0] == keys[i as int]);
            assert(ints.skip(i as int)[0] == ints[i as int]);
            assert(store@ == store_apply(pre, keys[i as int], clamped as int));
            assert(keys.skip(i as int).drop_first() =~= keys.skip(i as int + 1));
            assert(ints.skip(i as int).drop_first() =~= ints.skip(i as int + 1));
        }
        i += 1;
    }
    proof {
        assert(keys.skip(n as int) =~= Seq::<Seq<char>>::empty());
    }
}

/// Process one validated match against the store: resolve both rosters,
/// average their current ratings, and apply each team's proportional share
/// of the ELO update, positive for red and negative for blue.
pub fn process_match(store: &mut RatingStore, game: &Game)
    requires
        old(store).wf(),
        spec_match_valid(*game),
    ensures
        final(store).wf(),
        final(store)@ == process_match_spec(old(store)@, *game),
{
    let a = game.alliances.as_ref().unwrap();
    create_pass(store, &a.red.teams);
    create_pass(store, &a.blue.teams);
    let reds = sample_pass(store, &a.red.teams);
    let blues = sample_pass(store, &a.blue.teams);
    let sum_r = sum_ratings(&reds);
    let sum_b = sum_ratings(&blues);
    let n_r = reds.len();
    let n_b = blues.len();
    proof {
        assert(sum_r as int > i128::MIN as int && sum_b as int > i128::MIN as int)
            by (nonlinear_arith)
            requires
                (n_r as int) * (i64::MIN as int) <= sum_r as int,
                (n_b as int) * (i64::MIN as int) <= sum_b as int,
                0 <= n_r as int <= 0xFFFF_FFFF_FFFF_FFFF,
                0 <= n_b as int <= 0xFFFF_FFFF_FFFF_FFFF,
        ;
        crate::elo::lemma_tdiv_bounds(
            sum_r as int,
            n_r as int,
            i64::MIN as int,
            i64::MAX as int,
        );
        crate::elo::lemma_tdiv_bounds(
            sum_b as int,
            n_b as int,
            i64::MIN as int,
            i64::MAX as int,
        );
    }
    let avg_r = crate::elo::div_trunc(sum_r, n_r as i128) as i64;
    let avg_b = crate::elo::div_trunc(sum_b, n_b as i128) as i64;
    if avg_r == 0 || avg_b == 0 {
        return ;
    }
    let delta = elo_delta(avg_r, avg_b, a.red.score, a.blue.score);
    update_pass(store, &a.red.teams, &reds, avg_r, delta);
    update_pass(store, &a.blue.teams, &blues, avg_b, -delta);
}

/// Insert a match after every already-placed match whose timestamp is
/// strictly later; a match with an equal timestamp stays after the earlier
/// ones, which makes the ordering stable.
pub open spec fn insert_by_time(s: Seq<Game>, g: Game) -> Seq<Game>
    decreases s.len(),
{
    if s.len() == 0 {
        seq![g]
    } else if spec_time(s.last()) <= spec_time(g) {
        s.push(g)
    } else {
        insert_by_time(s.drop_last(), g).push(s.last())
    }
}

/// The stable ascending-by-timestamp ordering of a match list.
pub open spec fn sort_by_time(s: Seq<Game>) -> Seq<Game>
    decreases s.len(),
{
    if s.len() == 0 {
        Seq::empty()
    } else {
        insert_by_time(sort_by_time(s.drop_last()), s.last())
    }
}

/// Timestamps never decrease along a match list.
pub open spec fn sorted_by_time(s: Seq<Game>) -> bool {
    forall|i: int, j: int|
        0 <= i < j < s.len() ==> spec_time(#[trigger] s[i]) <= spec_time(#[trigger] s[j])
}

/// The matches the filter keeps, in input order.
pub open spec fn filter_valid(s: Seq<Game>) -> Seq<Game>
    decreases s.len(),
{
    if s.len() == 0 {
        Seq::empty()
    } else {
        let rest = filter_valid(s.drop_last());
        if spec_match_valid(s.last()) {
            rest.push(s.last())
        } else {
            rest
        }
    }
}

/// Fold the per-match update over a list of matches, first to last.
pub open spec fn fold_process(m: StoreSeq, s: Seq<Game>) -> StoreSeq
    decreases s.len(),
{
    if s.len() == 0 {
        m
    } else {
        fold_process(process_match_spec(m, s[0]), s.drop_first())
    }
}

/// The whole pipeline: drop invalid matches, order the rest stably by
/// timestamp, and process them one by one against an empty store.  The
/// result is a pure function of the match list, so two runs over the same
/// records always end in the same store.
pub open spec fn run_spec(games: Seq<Game>) -> StoreSeq {
    fold_process(Seq::empty(), sort_by_time(filter_valid(games)))
}

/// The filter predicate, decided in code: alliances present, both rosters
/// populated, blue score non-negative.  The red score is not examined.
pub fn match_is_valid(g: &Game) -> (ok: bool)
    ensures
        ok == spec_match_valid(*g),
{
    match &g.alliances {
        Some(a) => a.blue.score >= 0 && a.red.teams.len() > 0 && a.blue.teams.len() > 0,
        None => false,
    }
}

/// The ordering timestamp of a match: its `time`, or 0 when missing.
pub fn game_time(g: &Game) -> (t: isize)
    ensures
        t as int == spec_time(*g),
{
    match g.time {
        Some(t) => t,
        None => 0,
    }
}

/// Placing an element at the position found by the right-to-left scan is
/// exactly the stable insertion.
proof fn lemma_insert_by_time_at(s: Seq<Game>, g: Game, p: int)
    requires
        0 <= p <= s.len(),
        forall|j: int| p <= j < s.len() ==> spec_time(#[trigger] s[j]) > spec_time(g),
        p > 0 ==> spec_time(s[p - 1]) <= spec_time(g),
    ensures
        insert_by_time(s, g) == s.insert(p, g),
    decreases s.len(),
{
    if s.len() == 0 {
        assert(insert_by_time(s, g) =~= s.insert(0, g));
    } else if p == s.len() {
        assert(s.insert(p, g) =~= s.push(g));
    } else {
        let t = s.drop_last();
        assert(spec_time(s[s.len() - 1]) > spec_time(g));
        assert(forall|j: int| p <= j < t.len() ==> spec_time(#[trigger] t[j]) > spec_time(g));
        assert(p > 0 ==> t[p - 1] == s[p - 1]);
        lemma_insert_by_time_at(t, g, p);
        assert(t.insert(p, g).push(s.last()) =~= s.insert(p, g));
    }
}

/// The match sequencer composed with the filter: the indices of the valid
/// matches, ordered stably by ascending timestamp.  Mapping the indices back
/// to the records gives exactly the specified filtered, sorted list.
pub fn processing_order(games: &Vec<Game>) -> (order: Vec<usize>)
    ensures
        forall|j: int|
            0 <= j < order@.len() ==> (#[trigger] order@[j]) < games@.len() && spec_match_valid(
                games@[order@[j] as int],
            ),
        order@.map_values(|x: usize| games@[x as int]) == sort_by_time(filter_valid(games@)),
{
    let n = games.len();
    let mut order: Vec<usize> = Vec::new();
    let mut idx: usize = 0;
    proof {
        assert(games@.take(0) =~= Seq::<Game>::empty());
        assert(order@.map_values(|x: usize| games@[x as int]) =~= Seq::<Game>::empty());
    }
    while idx < n
        invariant
            idx <= n == games@.len(),
            forall|j: int|
                0 <= j < order@.len() ==> (#[trigger] order@[j]) < idx && spec_match_valid(
                    games@[order@[j] as int],
                ),
            order@.map_values(|x: usize| games@[x as int]) == sort_by_time(
                filter_valid(games@.take(idx as int)),
            ),
        decreases n - idx,
    {
        let ghost mapped = order@.map_values(|x: usize| games@[x as int]);
        let g = &games[idx];
        let t = game_time(g);
        if match_is_valid(g) {
            let mut p: usize = order.len();
            loop
                invariant_except_break
                    p <= order@.len(),
                    order@.len() == mapped.len(),
                    mapped == order@.map_values(|x: usize| games@[x as int]),
                    forall|j: int|
                        0 <= j < order@.len() ==> (#[trigger] order@[j]) < idx
                            && spec_match_valid(games@[order@[j] as int]),
                    t as int == spec_time(games@[idx as int]),
                    idx < games@.len(),
                    forall|j: int|
                        p <= j < mapped.len() ==> spec_time(#[trigger] mapped[j]) > t as int,
                ensures
                    p <= order@.len(),
                    forall|j: int|
                        p <= j < mapped.len() ==> spec_time(#[trigger] mapped[j]) > t as int,
                    p > 0 ==> spec_time(mapped[p - 1]) <= t as int,
                decreases p,
            {
                if p == 0 {
                    break ;
                }
                let cand = order[p - 1];
                let ct = game_time(&games[cand]);
                proof {
                    assert(mapped[p - 1] == games@[cand as int]);
                }
                if !(ct > t) {
                    break ;
                }
                p -= 1;
            }
            let ghost pre_order = order@;
            order.insert(p, idx);
            proof {
                lemma_insert_by_time_at(mapped, games@[idx as int], p as int);
                assert(order@.map_values(|x: usize| games@[x as int]) =~= mapped.insert(
                    p as int,
                    games@[idx as int],
                ));
                assert(games@.take(idx as int + 1).drop_last() =~= games@.take(idx as int));
                assert(games@.take(idx as int + 1).last() == games@[idx as int]);
                let fv = filter_valid(games@.take(idx as int));
                assert(filter_valid(games@.take(idx as int + 1)) == fv.push(games@[idx as int]));
                assert(fv.push(games@[idx as int]).drop_last() =~= fv);
                assert(sort_by_time(fv.push(games@[idx as int])) == insert_by_time(
                    sort_by_time(fv),
                    games@[idx as int],
                ));
            }
        } else {
            proof {
                assert(games@.take(idx as int + 1).drop_last() =~= games@.take(idx as int));
                assert(games@.take(idx as int + 1).last() == games@[idx as int]);
            }
        }
        idx += 1;
    }
    proof {
        assert(games@.take(n as int) =~= games@);
    }
    order
}

/// The whole rating pipeline over a season's match records: filter, order,
/// and process every match, returning the final store.  The result is
/// pinned to `run_spec`, a pure function of the records, so the pipeline is
/// deterministic.
pub fn compute_ratings(games: &Vec<Game>) -> (store: RatingStore)
    ensures
        store.wf(),
        store@ == run_spec(games@),
{
    let order = processing_order(games);
    let ghost sorted = sort_by_time(filter_valid(games@));
    let mut store = RatingStore::new();
    let mut j: usize = 0;
    proof {
        assert(sorted.skip(0) =~= sorted);
    }
    while j < order.len()
        invariant
            store.wf(),
            j <= order@.len(),
            sorted == sort_by_time(filter_valid(games@)),
            forall|jj: int|
                0 <= jj < order@.len() ==> (#[trigger] order@[jj]) < games@.len()
                    && spec_match_valid(games@[order@[jj] as int]),
            order@.map_values(|x: usize| games@[x as int]) == sorted,
            fold_process(store@, sorted.skip(j as int)) == run_spec(games@),
        decreases order@.len() - j,
    {
        let idx = order[j];
        proof {
            assert(sorted[j as int] == games@[idx as int]);
        }
        process_match(&mut store, &games[idx]);
        proof {
            assert(sorted.skip(j as int)[0] == sorted[j as int]);
            assert(sorted.skip(j as int).drop_first() =~= sorted.skip(j as int + 1));
        }
        j += 1;
    }
    proof {
        assert(sorted.len() == order@.len());
        assert(sorted.skip(order@.len() as int) =~= Seq::<Game>::empty());
    }
    store
}

} // verus!
