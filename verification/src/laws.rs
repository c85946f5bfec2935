//! The laws of the rating pipeline, stated and proved over the same spec
//! functions that the executable functions are pinned to: what a lookup
//! sees after each kind of store step, that filtered-out matches leave no
//! trace, that a tied match between equally rated alliances changes no
//! rating, and that matches with disjoint rosters can be processed in
//! either order.

use vstd::prelude::*;
use crate::engine::{
    apply_side, create_all, create_one, created_store, filter_valid, in_roster, insert_by_time,
    process_match_spec, run_spec, share_delta, side_avg, sort_by_time, sorted_by_time,
    spec_match_valid, spec_time, sum_seq, sampled_ratings,
};
use crate::game::Game;
use crate::store::{
    clamp_rating, ratings_in_range, store_apply, store_index, store_lookup, StoreSeq,
    DEFAULT_RATING,
};

verus! {

/// What a lookup sees after a pair is appended: the old binding if there
/// was one, the new pair's value if it is the first binding of that key.
proof fn lemma_lookup_push(s: StoreSeq, p: (Seq<char>, int), k: Seq<char>)
    ensures
        store_lookup(s.push(p), k) == (if store_lookup(s, k) is Some {
            store_lookup(s, k)
        } else if p.0 == k {
            Some(p.1)
        } else {
            None::<int>
        }),
    decreases s.len(),
{
    let s2 = s.push(p);
    assert(s2.len() == s.len() + 1);
    if s.len() == 0 {
        assert(s2[0] == p);
        assert(s2.drop_first() =~= Seq::<(Seq<char>, int)>::empty());
        if p.0 != k {
            assert(store_lookup(s2, k) == store_lookup(s2.drop_first(), k));
            assert(store_lookup(Seq::<(Seq<char>, int)>::empty(), k) is None);
        }
    } else {
        assert(s2[0] == s[0]);
        assert(s2.drop_first() =~= s.drop_first().push(p));
        if s[0].0 != k {
            lemma_lookup_push(s.drop_first(), p, k);
        }
    }
}

/// The position of a first binding is never negative.
proof fn lemma_store_index_nonneg(s: StoreSeq, k: Seq<char>)
    ensures
        store_index(s, k) >= 0,
    decreases s.len(),
{
    if s.len() > 0 && s[0].0 != k {
        lemma_store_index_nonneg(s.drop_first(), k);
    }
}

/// What a lookup sees after the pair at `i` has its value replaced: the new
/// value exactly when the looked-up key's first binding is at `i`.
proof fn lemma_lookup_update_value(s: StoreSeq, i: int, v: int, k: Seq<char>)
    requires
        0 <= i < s.len(),
    ensures
        store_lookup(s.update(i, (s[i].0, v)), k) == (if store_lookup(s, k) is Some
            && store_index(s, k) == i {
            Some(v)
        } else {
            store_lookup(s, k)
        }),
    decreases s.len(),
{
    let s2 = s.update(i, (s[i].0, v));
    if i == 0 {
        assert(s2[0] == (s[0].0, v));
        if s[0].0 != k {
            assert(s2.drop_first() =~= s.drop_first());
            lemma_store_index_nonneg(s.drop_first(), k);
        }
    } else {
        assert(s2[0] == s[0]);
        assert(s2.drop_first() =~= s.drop_first().update(i - 1, (s.drop_first()[i - 1].0, v)));
        if s[0].0 != k {
            lemma_lookup_update_value(s.drop_first(), i - 1, v, k);
        }
    }
}

/// What a lookup sees after an update: the clamped sum for the updated key
/// if it is bound, everything else untouched.
proof fn lemma_lookup_apply(s: StoreSeq, key: Seq<char>, d: int, k: Seq<char>)
    ensures
        store_lookup(store_apply(s, key, d), k) == (if k == key && store_lookup(s, key) is Some {
            Some(clamp_rating(store_lookup(s, key).unwrap() + d))
        } else {
            store_lookup(s, k)
        }),
{
    if store_lookup(s, key) is Some {
        crate::store::lemma_lookup_index(s, key);
        let i = store_index(s, key);
        lemma_lookup_update_value(s, i, clamp_rating(store_lookup(s, key).unwrap() + d), k);
        if k != key && store_lookup(s, k) is Some {
            crate::store::lemma_lookup_index(s, k);
        }
    }
}

/// What a lookup sees after a whole roster is created: an existing binding
/// stays; a key of the roster is bound to the default; the rest stay absent.
pub proof fn lemma_create_all_lookup(m: StoreSeq, keys: Seq<Seq<char>>, k: Seq<char>)
    ensures
        store_lookup(create_all(m, keys), k) == (if store_lookup(m, k) is Some {
            store_lookup(m, k)
        } else if keys.contains(k) {
            Some(DEFAULT_RATING as int)
        } else {
            None::<int>
        }),
    decreases keys.len(),
{
    if keys.len() == 0 {
    } else {
        let m1 = create_one(m, keys[0]);
        if store_lookup(m, keys[0]) is None {
            lemma_lookup_push(m, (keys[0], DEFAULT_RATING as int), k);
        }
        lemma_create_all_lookup(m1, keys.drop_first(), k);
        assert(keys.contains(k) == (keys[0] == k || keys.drop_first().contains(k))) by {
            if keys.contains(k) {
                let i = choose|i: int| 0 <= i < keys.len() && keys[i] == k;
                if i > 0 {
                    assert(keys.drop_first()[i - 1] == k);
                }
            }
            if keys.drop_first().contains(k) {
                let i = choose|i: int|
                    0 <= i < keys.drop_first().len() && keys.drop_first()[i] == k;
                assert(keys[i + 1] == k);
            }
        }
    }
}

/// A key outside the updated roster keeps its rating through one side's
/// updates.
proof fn lemma_apply_side_frame(
    m: StoreSeq,
    keys: Seq<Seq<char>>,
    rats: Seq<int>,
    avg: int,
    delta: int,
    k: Seq<char>,
)
    requires
        !keys.contains(k),
    ensures
        store_lookup(apply_side(m, keys, rats, avg, delta), k) == store_lookup(m, k),
    decreases keys.len(),
{
    if keys.len() > 0 {
        assert(keys[0] != k);
        lemma_lookup_apply(m, keys[0], share_delta(delta, rats[0], avg), k);
        assert(!keys.drop_first().contains(k)) by {
            if keys.drop_first().contains(k) {
                let i = choose|i: int|
                    0 <= i < keys.drop_first().len() && keys.drop_first()[i] == k;
                assert(keys[i + 1] == k);
            }
        }
        lemma_apply_side_frame(
            store_apply(m, keys[0], share_delta(delta, rats[0], avg)),
            keys.drop_first(),
            rats.drop_first(),
            avg,
            delta,
            k,
        );
    }
}

/// Two stores that agree on a roster's keys and on `k` still agree on `k`
/// after that side's updates are applied to both.
proof fn lemma_apply_side_agree(
    m1: StoreSeq,
    m2: StoreSeq,
    keys: Seq<Seq<char>>,
    rats: Seq<int>,
    avg: int,
    delta: int,
    k: Seq<char>,
)
    requires
        forall|j: int|
            0 <= j < keys.len() ==> store_lookup(m1, #[trigger] keys[j]) == store_lookup(
                m2,
                keys[j],
            ),
        store_lookup(m1, k) == store_lookup(m2, k),
    ensures
        store_lookup(apply_side(m1, keys, rats, avg, delta), k) == store_lookup(
            apply_side(m2, keys, rats, avg, delta),
            k,
        ),
    decreases keys.len(),
{
    if keys.len() > 0 {
        let d0 = share_delta(delta, rats[0], avg);
        let a1 = store_apply(m1, keys[0], d0);
        let a2 = store_apply(m2, keys[0], d0);
        assert forall|j: int| 0 <= j < keys.drop_first().len() implies store_lookup(
            a1,
            #[trigger] keys.drop_first()[j],
        ) == store_lookup(a2, keys.drop_first()[j]) by {
            assert(keys.drop_first()[j] == keys[j + 1]);
            lemma_lookup_apply(m1, keys[0], d0, keys[j + 1]);
            lemma_lookup_apply(m2, keys[0], d0, keys[j + 1]);
        }
        lemma_lookup_apply(m1, keys[0], d0, k);
        lemma_lookup_apply(m2, keys[0], d0, k);
        lemma_apply_side_agree(a1, a2, keys.drop_first(), rats.drop_first(), avg, delta, k);
    }
}

/// A key outside both rosters keeps its rating through a whole match.
pub proof fn lemma_process_frame(m: StoreSeq, g: Game, k: Seq<char>)
    requires
        !in_roster(g, k),
    ensures
        store_lookup(process_match_spec(m, g), k) == store_lookup(m, k),
{
    if spec_match_valid(g) {
        match g.alliances {
            Some(a) => {
                let red = a.red.teams.deep_view();
                let blue = a.blue.teams.deep_view();
                let mr = create_all(m, red);
                let m1 = created_store(m, a);
                lemma_create_all_lookup(m, red, k);
                lemma_create_all_lookup(mr, blue, k);
                let avg_r = side_avg(m1, red);
                let avg_b = side_avg(m1, blue);
                if avg_r == 0 || avg_b == 0 {
                } else {
                    let delta = crate::elo::delta_spec(
                        avg_r,
                        avg_b,
                        a.red.score as int,
                        a.blue.score as int,
                    );
                    let m2 = apply_side(m1, red, sampled_ratings(m1, red), avg_r, delta);
                    lemma_apply_side_frame(m1, red, sampled_ratings(m1, red), avg_r, delta, k);
                    lemma_apply_side_frame(m2, blue, sampled_ratings(m1, blue), avg_b, -delta, k);
                }
            },
            None => {},
        }
    }
}

/// Two stores that agree on a match's roster keys and on `k` still agree on
/// `k` after the match is processed against both: the update depends only
/// on the ratings of the participating teams.
pub proof fn lemma_process_agree(m1: StoreSeq, m2: StoreSeq, g: Game, k: Seq<char>)
    requires
        forall|kk: Seq<char>|
            in_roster(g, kk) ==> store_lookup(m1, kk) == #[trigger] store_lookup(m2, kk),
        store_lookup(m1, k) == store_lookup(m2, k),
    ensures
        store_lookup(process_match_spec(m1, g), k) == store_lookup(process_match_spec(m2, g), k),
{
    if spec_match_valid(g) {
        match g.alliances {
            Some(a) => {
                let red = a.red.teams.deep_view();
                let blue = a.blue.teams.deep_view();
                let c1 = created_store(m1, a);
                let c2 = created_store(m2, a);
                assert forall|kk: Seq<char>|
                    in_roster(g, kk) || kk == k implies store_lookup(c1, kk) == store_lookup(
                    c2,
                    kk,
                ) by {
                    lemma_create_all_lookup(m1, red, kk);
                    lemma_create_all_lookup(create_all(m1, red), blue, kk);
                    lemma_create_all_lookup(m2, red, kk);
                    lemma_create_all_lookup(create_all(m2, red), blue, kk);
                }
                assert(sampled_ratings(c1, red) =~= sampled_ratings(c2, red)) by {
                    assert forall|i: int| 0 <= i < red.len() implies store_lookup(
                        c1,
                        #[trigger] red[i],
                    ) == store_lookup(c2, red[i]) by {
                        assert(red.contains(red[i]));
                        assert(in_roster(g, red[i]));
                    }
                }
                assert(sampled_ratings(c1, blue) =~= sampled_ratings(c2, blue)) by {
                    assert forall|i: int| 0 <= i < blue.len() implies store_lookup(
                        c1,
                        #[trigger] blue[i],
                    ) == store_lookup(c2, blue[i]) by {
                        assert(blue.contains(blue[i]));
                        assert(in_roster(g, blue[i]));
                    }
                }
                let avg_r = side_avg(c1, red);
                let avg_b = side_avg(c1, blue);
                assert(side_avg(c2, red) == avg_r);
                assert(side_avg(c2, blue) == avg_b);
                if avg_r == 0 || avg_b == 0 {
                } else {
                    let delta = crate::elo::delta_spec(
                        avg_r,
                        avg_b,
                        a.red.score as int,
                        a.blue.score as int,
                    );
                    let reds = sampled_ratings(c1, red);
                    let blues = sampled_ratings(c1, blue);
                    let r1 = apply_side(c1, red, reds, avg_r, delta);
                    let r2 = apply_side(c2, red, reds, avg_r, delta);
                    assert forall|kk: Seq<char>|
                        blue.contains(kk) || kk == k implies store_lookup(r1, kk)
                        == store_lookup(r2, kk) by {
                        assert forall|j: int| 0 <= j < red.len() implies store_lookup(
                            c1,
                            #[trigger] red[j],
                        ) == store_lookup(c2, red[j]) by {
                            assert(red.contains(red[j]));
                            assert(in_roster(g, red[j]));
                        }
                        if blue.contains(kk) {
                            assert(in_roster(g, kk));
                        }
                        lemma_apply_side_agree(c1, c2, red, reds, avg_r, delta, kk);
                    }
                    assert forall|j: int| 0 <= j < blue.len() implies store_lookup(
                        r1,
                        #[trigger] blue[j],
                    ) == store_lookup(r2, blue[j]) by {
                        assert(blue.contains(blue[j]));
                    }
                    lemma_apply_side_agree(r1, r2, blue, blues, avg_b, -delta, k);
                }
            },
            None => {},
        }
    }
}

/// Matches that share no team commute: processing them in either order
/// gives every key the same final rating.  The first-seen order of the
/// store may differ, but no team's rating depends on which match came
/// first.
pub proof fn lemma_disjoint_matches_commute(m: StoreSeq, g1: Game, g2: Game, k: Seq<char>)
    requires
        spec_match_valid(g1),
        spec_match_valid(g2),
        forall|kk: Seq<char>| !(#[trigger] in_roster(g1, kk) && in_roster(g2, kk)),
    ensures
        store_lookup(process_match_spec(process_match_spec(m, g1), g2), k) == store_lookup(
            process_match_spec(process_match_spec(m, g2), g1),
            k,
        ),
{
    let m12 = process_match_spec(process_match_spec(m, g1), g2);
    let m21 = process_match_spec(process_match_spec(m, g2), g1);
    if in_roster(g1, k) {
        assert(!in_roster(g2, k));
        lemma_process_frame(process_match_spec(m, g1), g2, k);
        assert forall|kk: Seq<char>|
            in_roster(g1, kk) implies store_lookup(m, kk) == #[trigger] store_lookup(
            process_match_spec(m, g2),
            kk,
        ) by {
            assert(!in_roster(g2, kk));
            lemma_process_frame(m, g2, kk);
        }
        lemma_process_frame(m, g2, k);
        lemma_process_agree(m, process_match_spec(m, g2), g1, k);
    } else if in_roster(g2, k) {
        assert(!in_roster(g1, k));
        lemma_process_frame(process_match_spec(m, g2), g1, k);
        assert forall|kk: Seq<char>|
            in_roster(g2, kk) implies store_lookup(m, kk) == #[trigger] store_lookup(
            process_match_spec(m, g1),
            kk,
        ) by {
            assert(!(in_roster(g1, kk) && in_roster(g2, kk)));
            assert(!in_roster(g1, kk));
            lemma_process_frame(m, g1, kk);
        }
        lemma_process_frame(m, g1, k);
        lemma_process_agree(m, process_match_spec(m, g1), g2, k);
    } else {
        lemma_process_frame(m, g1, k);
        lemma_process_frame(process_match_spec(m, g1), g2, k);
        lemma_process_frame(m, g2, k);
        lemma_process_frame(process_match_spec(m, g2), g1, k);
    }
}

/// Inserting a match that the filter rejects anywhere in the season's list
/// leaves the final ratings exactly as they were: it is excluded from
/// processing and has no effect on any team.
pub proof fn lemma_invalid_match_no_effect(games: Seq<Game>, i: int, g: Game)
    requires
        0 <= i <= games.len(),
        !spec_match_valid(g),
    ensures
        run_spec(games.insert(i, g)) == run_spec(games),
{
    lemma_filter_insert_invalid(games, i, g);
}

/// The filter output is unchanged by inserting an invalid match.
proof fn lemma_filter_insert_invalid(s: Seq<Game>, i: int, g: Game)
    requires
        0 <= i <= s.len(),
        !spec_match_valid(g),
    ensures
        filter_valid(s.insert(i, g)) == filter_valid(s),
    decreases s.len(),
{
    let s2 = s.insert(i, g);
    if i == s.len() {
        assert(s2.drop_last() =~= s);
        assert(s2.last() == g);
    } else {
        assert(s2.last() == s.last());
        assert(s2.drop_last() =~= s.drop_last().insert(i, g));
        lemma_filter_insert_invalid(s.drop_last(), i, g);
    }
}

/// The pipeline is deterministic: the final store, and with it the ranked
/// listing, is a pure function of the match records, so two runs over equal
/// record lists end in equal ratings and an identical report.
pub proof fn lemma_pipeline_deterministic(games1: Seq<Game>, games2: Seq<Game>)
    requires
        games1 == games2,
    ensures
        run_spec(games1) == run_spec(games2),
        crate::report::rank_spec(run_spec(games1)) == crate::report::rank_spec(run_spec(games2)),
{
}

/// Creating rosters keeps every rating in range: existing pairs are kept
/// and new ones carry the default rating.
proof fn lemma_create_all_in_range(m: StoreSeq, keys: Seq<Seq<char>>)
    requires
        ratings_in_range(m),
    ensures
        ratings_in_range(create_all(m, keys)),
    decreases keys.len(),
{
    if keys.len() > 0 {
        let m1 = create_one(m, keys[0]);
        assert(ratings_in_range(m1)) by {
            if store_lookup(m, keys[0]) is None {
                let p = m.push((keys[0], DEFAULT_RATING as int));
                assert(forall|i: int| 0 <= i < m.len() ==> p[i] == m[i]);
                assert(p[m.len() as int].1 == DEFAULT_RATING as int);
            }
        }
        lemma_create_all_in_range(m1, keys.drop_first());
    }
}

/// An update magnitude of zero leaves every rating exactly as it was.
proof fn lemma_apply_side_zero(m: StoreSeq, keys: Seq<Seq<char>>, rats: Seq<int>, avg: int)
    requires
        avg != 0,
        ratings_in_range(m),
    ensures
        apply_side(m, keys, rats, avg, 0) == m,
    decreases keys.len(),
{
    if keys.len() > 0 {
        assert(share_delta(0, rats[0], avg) == 0) by {
            vstd::arithmetic::mul::lemma_mul_by_zero_is_zero(rats[0]);
            if avg > 0 {
                vstd::arithmetic::div_mod::lemma_div_of0(avg);
            } else {
                vstd::arithmetic::div_mod::lemma_div_of0(-avg);
            }
        }
        assert(store_apply(m, keys[0], 0) == m) by {
            if store_lookup(m, keys[0]) is Some {
                crate::store::lemma_lookup_index(m, keys[0]);
                let i = store_index(m, keys[0]);
                assert(clamp_rating(m[i].1 + 0) == m[i].1);
                assert(m.update(i, (keys[0], clamp_rating(m[i].1 + 0))) =~= m);
            }
        }
        lemma_apply_side_zero(m, keys.drop_first(), rats.drop_first(), avg);
    }
}

/// At equal average ratings and equal scores the update magnitude is
/// exactly zero: the power of ten at exponent zero is exact, the expected
/// outcome is exactly one half, and so is the actual one.
proof fn lemma_delta_tie(avg: int, sc: int)
    ensures
        crate::elo::delta_spec(avg, avg, sc, sc) == 0,
{
    let s = crate::elo::PROB_SCALE as int;
    reveal_with_fuel(crate::elo::pow10_frac_spec, 31);
    assert(crate::elo::pow10_frac_spec(0, 0, s) == s);
    assert(crate::elo::pow10_scaled_spec(0) == s);
    assert(crate::elo::expected_spec(avg, avg) == s * s / (s + crate::elo::pow10_scaled_spec(0)));
    assert(s * s == 1152921504606846976);
    assert(s + s == 2147483648);
    assert(1152921504606846976int / 2147483648int == 536870912);
    assert(crate::elo::expected_spec(avg, avg) == crate::elo::PROB_HALF as int);
    assert(crate::elo::outcome_spec(sc, sc) == crate::elo::PROB_HALF as int);
    assert(crate::elo::delta_spec(avg, avg, sc, sc) == crate::elo::tdiv(0, s));
}

/// A tied match between alliances of equal average rating changes no
/// rating: unseen teams are created at the default, and every rating is
/// then left exactly as it was before the match.
pub proof fn lemma_tie_match_no_change(m: StoreSeq, g: Game)
    requires
        spec_match_valid(g),
        ratings_in_range(m),
        g.alliances.unwrap().red.score == g.alliances.unwrap().blue.score,
        side_avg(
            created_store(m, g.alliances.unwrap()),
            g.alliances.unwrap().red.teams.deep_view(),
        ) == side_avg(
            created_store(m, g.alliances.unwrap()),
            g.alliances.unwrap().blue.teams.deep_view(),
        ),
    ensures
        process_match_spec(m, g) == created_store(m, g.alliances.unwrap()),
{
    let a = g.alliances.unwrap();
    let m1 = created_store(m, a);
    let red = a.red.teams.deep_view();
    let blue = a.blue.teams.deep_view();
    let avg = side_avg(m1, red);
    if avg != 0 {
        lemma_delta_tie(avg, a.red.score as int);
        lemma_create_all_in_range(m, red);
        lemma_create_all_in_range(create_all(m, red), blue);
        lemma_apply_side_zero(m1, red, sampled_ratings(m1, red), avg);
        lemma_apply_side_zero(m1, blue, sampled_ratings(m1, blue), avg);
    }
}

/// An exactly divisible share is the exact quotient.
proof fn lemma_tdiv_exact(a: int, b: int)
    requires
        b > 0,
        a % b == 0,
    ensures
        crate::elo::tdiv(a, b) * b == a,
{
    vstd::arithmetic::div_mod::lemma_fundamental_div_mod(a, b);
    if a >= 0 {
        vstd::arithmetic::mul::lemma_mul_is_commutative(b, a / b);
    } else {
        let q = a / b;
        vstd::arithmetic::mul::lemma_mul_is_commutative(b, q);
        vstd::arithmetic::mul::lemma_mul_unary_negation(q, b);
        vstd::arithmetic::div_mod::lemma_fundamental_div_mod_converse(-a, b, -q, 0);
        vstd::arithmetic::mul::lemma_mul_unary_negation(-q, b);
    }
}

/// The per-team shares of one side, in roster order.
pub open spec fn side_shares(rats: Seq<int>, avg: int, delta: int) -> Seq<int> {
    rats.map_values(|r: int| share_delta(delta, r, avg))
}

/// When every share divides exactly and none is clamped, the shares of one
/// side sum to `delta` times the roster size.
proof fn lemma_shares_sum_exact(rats: Seq<int>, avg: int, delta: int)
    requires
        avg > 0,
        forall|i: int| 0 <= i < rats.len() ==> (delta * #[trigger] rats[i]) % avg == 0,
        forall|i: int|
            0 <= i < rats.len() ==> i64::MIN <= crate::elo::tdiv(delta * #[trigger] rats[i], avg)
                <= i64::MAX,
    ensures
        sum_seq(side_shares(rats, avg, delta)) * avg == delta * sum_seq(rats),
    decreases rats.len(),
{
    let t = side_shares(rats, avg, delta);
    if rats.len() == 0 {
        vstd::arithmetic::mul::lemma_mul_by_zero_is_zero(avg);
        vstd::arithmetic::mul::lemma_mul_is_commutative(0, avg);
        vstd::arithmetic::mul::lemma_mul_by_zero_is_zero(delta);
    } else {
        let r0 = rats.drop_last();
        assert(t.drop_last() =~= side_shares(r0, avg, delta));
        assert(forall|i: int| 0 <= i < r0.len() ==> r0[i] == rats[i]);
        lemma_shares_sum_exact(r0, avg, delta);
        let last = rats.last();
        assert(t.last() == share_delta(delta, last, avg));
        assert(t.last() == crate::elo::tdiv(delta * last, avg));
        lemma_tdiv_exact(delta * last, avg);
        vstd::arithmetic::mul::lemma_mul_is_distributive_add_other_way(
            avg,
            sum_seq(t.drop_last()),
            t.last(),
        );
        vstd::arithmetic::mul::lemma_mul_is_distributive_add(delta, sum_seq(r0), last);
    }
}

/// Zero-sum for equal alliance sizes: when both alliances have the same
/// team count, every share divides exactly, the averages are exact and
/// positive, and no share is clamped, the total applied to red is the exact
/// negative of the total applied to blue, so the net system rating is
/// conserved.  When the divisions truncate, or the alliance sizes differ,
/// this does not hold.
pub proof fn lemma_zero_sum_equal_sizes(
    reds: Seq<int>,
    blues: Seq<int>,
    avg_r: int,
    avg_b: int,
    delta: int,
)
    requires
        reds.len() == blues.len(),
        avg_r > 0,
        avg_b > 0,
        sum_seq(reds) == avg_r * reds.len(),
        sum_seq(blues) == avg_b * blues.len(),
        forall|i: int| 0 <= i < reds.len() ==> (delta * #[trigger] reds[i]) % avg_r == 0,
        forall|i: int| 0 <= i < blues.len() ==> ((-delta) * #[trigger] blues[i]) % avg_b == 0,
        forall|i: int|
            0 <= i < reds.len() ==> i64::MIN <= crate::elo::tdiv(delta * #[trigger] reds[i], avg_r)
                <= i64::MAX,
        forall|i: int|
            0 <= i < blues.len() ==> i64::MIN <= crate::elo::tdiv(
                (-delta) * #[trigger] blues[i],
                avg_b,
            ) <= i64::MAX,
    ensures
        sum_seq(side_shares(reds, avg_r, delta)) == -sum_seq(side_shares(blues, avg_b, -delta)),
{
    let n = reds.len() as int;
    lemma_shares_sum_exact(reds, avg_r, delta);
    lemma_shares_sum_exact(blues, avg_b, -delta);
    let sr = sum_seq(side_shares(reds, avg_r, delta));
    let sb = sum_seq(side_shares(blues, avg_b, -delta));
    assert(sr * avg_r == delta * (avg_r * n));
    assert(sb * avg_b == (-delta) * (avg_b * n));
    assert(sr == delta * n) by {
        vstd::arithmetic::mul::lemma_mul_is_associative(delta, avg_r, n);
        vstd::arithmetic::mul::lemma_mul_is_commutative(delta, avg_r);
        vstd::arithmetic::mul::lemma_mul_is_associative(avg_r, delta, n);
        vstd::arithmetic::mul::lemma_mul_is_commutative(sr, avg_r);
        vstd::arithmetic::mul::lemma_mul_equality_converse(avg_r, sr, delta * n);
    }
    assert(sb == (-delta) * n) by {
        vstd::arithmetic::mul::lemma_mul_is_associative(-delta, avg_b, n);
        vstd::arithmetic::mul::lemma_mul_is_commutative(-delta, avg_b);
        vstd::arithmetic::mul::lemma_mul_is_associative(avg_b, -delta, n);
        vstd::arithmetic::mul::lemma_mul_is_commutative(sb, avg_b);
        vstd::arithmetic::mul::lemma_mul_equality_converse(avg_b, sb, (-delta) * n);
    }
    vstd::arithmetic::mul::lemma_mul_unary_negation(delta, n);
}

/// Every timestamp of a timed insertion is a timestamp of the input or the
/// inserted match, so a common upper bound is kept.
proof fn lemma_insert_by_time_upper_bound(s: Seq<Game>, g: Game, b: int)
    requires
        forall|i: int| 0 <= i < s.len() ==> spec_time(#[trigger] s[i]) <= b,
        spec_time(g) <= b,
    ensures
        forall|i: int|
            0 <= i < insert_by_time(s, g).len() ==> spec_time(#[trigger] insert_by_time(s, g)[i])
                <= b,
    decreases s.len(),
{
    if s.len() == 0 {
    } else if spec_time(s.last()) <= spec_time(g) {
    } else {
        let t = s.drop_last();
        assert(forall|i: int| 0 <= i < t.len() ==> spec_time(#[trigger] t[i]) <= b);
        lemma_insert_by_time_upper_bound(t, g, b);
        let r = insert_by_time(t, g).push(s.last());
        assert(forall|i: int| 0 <= i < r.len() - 1 ==> spec_time(#[trigger] r[i]) <= b);
        assert(spec_time(r[r.len() - 1]) <= b);
    }
}

/// Timed insertion preserves ascending order.
proof fn lemma_insert_by_time_sorted(s: Seq<Game>, g: Game)
    requires
        sorted_by_time(s),
    ensures
        sorted_by_time(insert_by_time(s, g)),
    decreases s.len(),
{
    if s.len() == 0 {
    } else if spec_time(s.last()) <= spec_time(g) {
        let r = s.push(g);
        assert forall|i: int, j: int| 0 <= i < j < r.len() implies spec_time(#[trigger] r[i])
            <= spec_time(#[trigger] r[j]) by {
            if j < r.len() - 1 {
            } else {
                assert(spec_time(r[i]) <= spec_time(s.last()));
            }
        }
    } else {
        let t = s.drop_last();
        assert(sorted_by_time(t));
        lemma_insert_by_time_sorted(t, g);
        assert(forall|i: int| 0 <= i < t.len() ==> spec_time(#[trigger] t[i]) <= spec_time(
            s.last(),
        ));
        lemma_insert_by_time_upper_bound(t, g, spec_time(s.last()));
        let q = insert_by_time(t, g);
        let r = q.push(s.last());
        assert forall|i: int, j: int| 0 <= i < j < r.len() implies spec_time(#[trigger] r[i])
            <= spec_time(#[trigger] r[j]) by {
            if j < r.len() - 1 {
            } else {
                assert(spec_time(q[i]) <= spec_time(s.last()));
            }
        }
    }
}

/// The sequencer's ordering is ascending by timestamp: along the processed
/// match list the timestamps never decrease, and equal timestamps keep
/// their input order by the very shape of `sort_by_time`.
pub proof fn lemma_sort_by_time_sorted(s: Seq<Game>)
    ensures
        sorted_by_time(sort_by_time(s)),
    decreases s.len(),
{
    if s.len() > 0 {
        lemma_sort_by_time_sorted(s.drop_last());
        lemma_insert_by_time_sorted(sort_by_time(s.drop_last()), s.last());
    }
}

/// Timed insertion only rearranges: the inserted match joins the multiset
/// of the rest.
proof fn lemma_insert_by_time_multiset(s: Seq<Game>, g: Game)
    ensures
        insert_by_time(s, g).to_multiset() == s.to_multiset().insert(g),
    decreases s.len(),
{
    broadcast use vstd::seq_lib::group_to_multiset_ensures;

    if s.len() == 0 {
        assert(seq![g] =~= Seq::<Game>::empty().push(g));
    } else if spec_time(s.last()) <= spec_time(g) {
    } else {
        let t = s.drop_last();
        lemma_insert_by_time_multiset(t, g);
        assert(t.push(s.last()) =~= s);
        assert(t.to_multiset().insert(g).insert(s.last()) =~= t.to_multiset().insert(
            s.last(),
        ).insert(g));
    }
}

/// The sequenced match list is a permutation of the filtered input: the
/// sequencer only reorders, it neither drops nor repeats a match.
pub proof fn lemma_sort_by_time_permutes(s: Seq<Game>)
    ensures
        sort_by_time(s).to_multiset() == s.to_multiset(),
    decreases s.len(),
{
    broadcast use vstd::seq_lib::group_to_multiset_ensures;

    if s.len() > 0 {
        let t = s.drop_last();
        lemma_sort_by_time_permutes(t);
        lemma_insert_by_time_multiset(sort_by_time(t), s.last());
        assert(t.push(s.last()) =~= s);
    }
}

} // verus!

