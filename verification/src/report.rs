//! The reporter: the final ranking of (team key, rating) pairs, ordered by
//! descending rating.  Teams with equal ratings are listed in first-seen
//! order, a fixed, reproducible tie-break; the comparison is a total order
//! on the integer ratings, so no pair of entries is left to comparator
//! ambiguity.

use vstd::prelude::*;
use crate::store::{RatingStore, StoreSeq};

verus! {

/// Insert a pair after every already-ranked pair whose rating is at least
/// as high; pairs with equal ratings keep their earlier order.
pub open spec fn insert_ranked(s: StoreSeq, e: (Seq<char>, int)) -> StoreSeq
    decreases s.len(),
{
    if s.len() == 0 {
        seq![e]
    } else if s.last().1 >= e.1 {
        s.push(e)
    } else {
        insert_ranked(s.drop_last(), e).push(s.last())
    }
}

/// The ranking of a store model: its pairs ordered by descending rating,
/// ties resolved by first-seen order.
pub open spec fn rank_spec(s: StoreSeq) -> StoreSeq
    decreases s.len(),
{
    if s.len() == 0 {
        Seq::empty()
    } else {
        insert_ranked(rank_spec(s.drop_last()), s.last())
    }
}

/// Ratings never increase along the sequence.
pub open spec fn sorted_desc(s: StoreSeq) -> bool {
    forall|i: int, j: int| 0 <= i < j < s.len() ==> (#[trigger] s[i]).1 >= (#[trigger] s[j]).1
}

/// Placing a pair at the position found by the right-to-left scan is
/// exactly the ranked insertion.
proof fn lemma_insert_ranked_at(s: StoreSeq, e: (Seq<char>, int), p: int)
    requires
        0 <= p <= s.len(),
        forall|j: int| p <= j < s.len() ==> (#[trigger] s[j]).1 < e.1,
        p > 0 ==> s[p - 1].1 >= e.1,
    ensures
        insert_ranked(s, e) == s.insert(p, e),
    decreases s.len(),
{
    if s.len() == 0 {
        assert(insert_ranked(s, e) =~= s.insert(0, e));
    } else if p == s.len() {
        assert(s.insert(p, e) =~= s.push(e));
    } else {
        let t = s.drop_last();
        assert(s[s.len() - 1].1 < e.1);
        assert(forall|j: int| p <= j < t.len() ==> (#[trigger] t[j]).1 < e.1);
        assert(p > 0 ==> t[p - 1] == s[p - 1]);
        lemma_insert_ranked_at(t, e, p);
        assert(t.insert(p, e).push(s.last()) =~= s.insert(p, e));
    }
}

/// Every rating of a ranked insertion is a rating of the input or the
/// inserted one, so a common lower bound is kept.
proof fn lemma_insert_ranked_lower_bound(s: StoreSeq, e: (Seq<char>, int), b: int)
    requires
        forall|i: int| 0 <= i < s.len() ==> (#[trigger] s[i]).1 >= b,
        e.1 >= b,
    ensures
        forall|i: int|
            0 <= i < insert_ranked(s, e).len() ==> (#[trigger] insert_ranked(s, e)[i]).1 >= b,
    decreases s.len(),
{
    if s.len() == 0 {
    } else if s.last().1 >= e.1 {
    } else {
        let t = s.drop_last();
        assert(forall|i: int| 0 <= i < t.len() ==> (#[trigger] t[i]).1 >= b);
        lemma_insert_ranked_lower_bound(t, e, b);
        let r = insert_ranked(t, e).push(s.last());
        assert(forall|i: int| 0 <= i < r.len() - 1 ==> (#[trigger] r[i]).1 >= b);
        assert(r[r.len() - 1].1 >= b);
    }
}

/// Ranked insertion preserves descending order.
proof fn lemma_insert_ranked_sorted(s: StoreSeq, e: (Seq<char>, int))
    requires
        sorted_desc(s),
    ensures
        sorted_desc(insert_ranked(s, e)),
    decreases s.len(),
{
    if s.len() == 0 {
    } else if s.last().1 >= e.1 {
        let r = s.push(e);
        assert forall|i: int, j: int| 0 <= i < j < r.len() implies (#[trigger] r[i]).1 >= (
        #[trigger] r[j]).1 by {
            if j < r.len() - 1 {
            } else {
                assert(r[i].1 >= s.last().1);
            }
        }
    } else {
        let t = s.drop_last();
        assert(sorted_desc(t));
        lemma_insert_ranked_sorted(t, e);
        assert(forall|i: int| 0 <= i < t.len() ==> (#[trigger] t[i]).1 >= s.last().1);
        lemma_insert_ranked_lower_bound(t, e, s.last().1);
        let q = insert_ranked(t, e);
        let r = q.push(s.last());
        assert forall|i: int, j: int| 0 <= i < j < r.len() implies (#[trigger] r[i]).1 >= (
        #[trigger] r[j]).1 by {
            if j < r.len() - 1 {
            } else {
                assert(q[i].1 >= s.last().1);
            }
        }
    }
}

/// The ranking is descending by rating: for any two positions, the earlier
/// entry's rating is at least the later one's, and so entries with distinct
/// ratings appear in strictly descending order.
pub proof fn lemma_rank_spec_sorted(s: StoreSeq)
    ensures
        sorted_desc(rank_spec(s)),
    decreases s.len(),
{
    if s.len() == 0 {
    } else {
        lemma_rank_spec_sorted(s.drop_last());
        lemma_insert_ranked_sorted(rank_spec(s.drop_last()), s.last());
    }
}

/// Ranked insertion only rearranges: the inserted pair joins the multiset
/// of the rest.
proof fn lemma_insert_ranked_multiset(s: StoreSeq, e: (Seq<char>, int))
    ensures
        insert_ranked(s, e).to_multiset() == s.to_multiset().insert(e),
    decreases s.len(),
{
    broadcast use vstd::seq_lib::group_to_multiset_ensures;

    if s.len() == 0 {
        assert(seq![e] =~= Seq::<(Seq<char>, int)>::empty().push(e));
    } else if s.last().1 >= e.1 {
    } else {
        let t = s.drop_last();
        lemma_insert_ranked_multiset(t, e);
        assert(t.push(s.last()) =~= s);
        assert(t.to_multiset().insert(e).insert(s.last()) =~= t.to_multiset().insert(
            s.last(),
        ).insert(e));
    }
}

/// The ranking is a permutation of the store's pairs: every team appears
/// exactly once, with its exact rating; nothing is lost or invented.
pub proof fn lemma_rank_spec_permutes(s: StoreSeq)
    ensures
        rank_spec(s).to_multiset() == s.to_multiset(),
    decreases s.len(),
{
    broadcast use vstd::seq_lib::group_to_multiset_ensures;

    if s.len() > 0 {
        let t = s.drop_last();
        lemma_rank_spec_permutes(t);
        lemma_insert_ranked_multiset(rank_spec(t), s.last());
        assert(t.push(s.last()) =~= s);
    }
}

/// The ranked listing of the store: every (key, rating) pair, ordered by
/// descending rating with ties in first-seen order.
pub fn rankings(store: &RatingStore) -> (out: Vec<(String, i64)>)
    requires
        store.wf(),
    ensures
        out@.map_values(|p: (String, i64)| (p.0@, p.1 as int)) == rank_spec(store@),
{
    let n = store.len();
    let mut out: Vec<(String, i64)> = Vec::new();
    let mut i: usize = 0;
    proof {
        assert(store@.take(0) =~= Seq::<(Seq<char>, int)>::empty());
        assert(out@.map_values(|p: (String, i64)| (p.0@, p.1 as int)) =~= Seq::<(
            Seq<char>,
            int,
        )>::empty());
    }
    while i < n
        invariant
            store.wf(),
            i <= n == store@.len(),
            out@.map_values(|p: (String, i64)| (p.0@, p.1 as int)) == rank_spec(
                store@.take(i as int),
            ),
        decreases n - i,
    {
        let ghost mapped = out@.map_values(|p: (String, i64)| (p.0@, p.1 as int));
        let key = store.key_at(i).clone();
        let r = store.rating_at(i);
        let mut p: usize = out.len();
        loop
            invariant_except_break
                p <= out@.len(),
                out@.len() == mapped.len(),
                mapped == out@.map_values(|q: (String, i64)| (q.0@, q.1 as int)),
                r as int == store@[i as int].1,
                i < store@.len(),
                forall|j: int| p <= j < mapped.len() ==> (#[trigger] mapped[j]).1 < r as int,
            ensures
                p <= out@.len(),
                forall|j: int| p <= j < mapped.len() ==> (#[trigger] mapped[j]).1 < r as int,
                p > 0 ==> mapped[p - 1].1 >= r as int,
            decreases p,
        {
            if p == 0 {
                break ;
            }
            let prev = out[p - 1].1;
            proof {
                assert(mapped[p - 1].1 == prev as int);
            }
            if !(prev < r) {
                break ;
            }
            p -= 1;
        }
        out.insert(p, (key, r));
        proof {
            let e = store@[i as int];
            lemma_insert_ranked_at(mapped, e, p as int);
            assert(out@.map_values(|q: (String, i64)| (q.0@, q.1 as int)) =~= mapped.insert(
                p as int,
                e,
            ));
            assert(store@.take(i as int + 1).drop_last() =~= store@.take(i as int));
            assert(store@.take(i as int + 1).last() == e);
        }
        i += 1;
    }
    proof {
        assert(store@.take(n as int) =~= store@);
    }
    out
}

} // verus!
