//! The team rating store: the single piece of long-lived state of the rating
//! pipeline.  It maps team keys to their current rating and remembers the
//! order in which keys were first seen, which later serves as the tie-break
//! for reporting.
//!
//! Ratings are held in thousandths of a rating point, so the default rating
//! of 1000.0 points is the integer 1_000_000.

use vstd::prelude::*;

verus! {

/// One thousandth of a rating point is the unit of all stored ratings.
pub const RATING_UNIT: i64 = 1000;

/// The rating given to a team the first time its key appears: 1000.000 points.
pub const DEFAULT_RATING: i64 = 1_000_000;

/// The sentinel returned by `get` for a key that was never seen: 0.000 points.
pub const UNKNOWN_RATING: i64 = 0;

/// The mathematical model of the store: the (key, rating) pairs in
/// first-seen order.
pub type StoreSeq = Seq<(Seq<char>, int)>;

/// The rating bound to `key`, scanning pairs in first-seen order.
pub open spec fn store_lookup(s: StoreSeq, key: Seq<char>) -> Option<int>
    decreases s.len(),
{
    if s.len() == 0 {
        None
    } else if s[0].0 == key {
        Some(s[0].1)
    } else {
        store_lookup(s.drop_first(), key)
    }
}

/// The position of the first pair bound to `key` (meaningful only when
/// `store_lookup` finds one).
pub open spec fn store_index(s: StoreSeq, key: Seq<char>) -> int
    decreases s.len(),
{
    if s.len() == 0 {
        0
    } else if s[0].0 == key {
        0
    } else {
        1 + store_index(s.drop_first(), key)
    }
}

/// What `get` returns: the bound rating, or the unknown-key sentinel.
pub open spec fn store_get(s: StoreSeq, key: Seq<char>) -> int {
    match store_lookup(s, key) {
        Some(r) => r,
        None => UNKNOWN_RATING as int,
    }
}

/// Ratings are confined to the `i64` range; an addition that would leave it
/// saturates at the nearer bound.
pub open spec fn clamp_rating(v: int) -> int {
    if v > i64::MAX {
        i64::MAX as int
    } else if v < i64::MIN {
        i64::MIN as int
    } else {
        v
    }
}

/// What `update` does to the model: add `delta` (saturating) to the rating of
/// a known key, leave the store unchanged for an unknown one.
pub open spec fn store_apply(s: StoreSeq, key: Seq<char>, delta: int) -> StoreSeq {
    match store_lookup(s, key) {
        Some(r) => s.update(store_index(s, key), (key, clamp_rating(r + delta))),
        None => s,
    }
}

/// Every stored rating fits in `i64`.  Any store this type builds has the
/// property; it is exposed so that laws over arbitrary store models can
/// assume it of a real store.
pub open spec fn ratings_in_range(s: StoreSeq) -> bool {
    forall|i: int| 0 <= i < s.len() ==> i64::MIN <= (#[trigger] s[i]).1 <= i64::MAX
}

/// No two pairs share a key.
pub open spec fn keys_distinct(s: StoreSeq) -> bool {
    forall|i: int, j: int| 0 <= i < j < s.len() ==> (#[trigger] s[i]).0 != (#[trigger] s[j]).0
}

/// If the first `i` pairs do not bind `key` and pair `i` does, the lookup
/// finds exactly pair `i`.
pub proof fn lemma_lookup_first(s: StoreSeq, key: Seq<char>, i: int)
    requires
        0 <= i < s.len(),
        forall|j: int| 0 <= j < i ==> (#[trigger] s[j]).0 != key,
        s[i].0 == key,
    ensures
        store_lookup(s, key) == Some(s[i].1),
        store_index(s, key) == i,
    decreases i,
{
    if i == 0 {
    } else {
        assert(s[0].0 != key);
        let t = s.drop_first();
        assert(forall|j: int| 0 <= j < i - 1 ==> (#[trigger] t[j]).0 != key);
        assert(t[i - 1] == s[i]);
        lemma_lookup_first(t, key, i - 1);
    }
}

/// If no pair binds `key`, the lookup finds nothing.
pub proof fn lemma_lookup_none(s: StoreSeq, key: Seq<char>)
    requires
        forall|j: int| 0 <= j < s.len() ==> (#[trigger] s[j]).0 != key,
    ensures
        store_lookup(s, key) is None,
    decreases s.len(),
{
    if s.len() == 0 {
    } else {
        assert(s[0].0 != key);
        let t = s.drop_first();
        assert(forall|j: int| 0 <= j < t.len() ==> (#[trigger] t[j]).0 != key);
        lemma_lookup_none(t, key);
    }
}

/// A successful lookup names a real position with the looked-up key and value.
pub proof fn lemma_lookup_index(s: StoreSeq, key: Seq<char>)
    requires
        store_lookup(s, key) is Some,
    ensures
        0 <= store_index(s, key) < s.len(),
        s[store_index(s, key)].0 == key,
        s[store_index(s, key)].1 == store_lookup(s, key).unwrap(),
    decreases s.len(),
{
    if s.len() == 0 {
    } else if s[0].0 == key {
    } else {
        let t = s.drop_first();
        lemma_lookup_index(t, key);
        assert(s[1 + store_index(t, key)] == t[store_index(t, key)]);
    }
}

/// The authoritative mapping from team key to current rating, with keys kept
/// in first-seen order.
pub struct RatingStore {
    keys: Vec<String>,
    ratings: Vec<i64>,
}

impl View for RatingStore {
    type V = StoreSeq;

    closed spec fn view(&self) -> StoreSeq {
        Seq::new(self.keys@.len(), |i: int| (self.keys@[i]@, self.ratings@[i] as int))
    }
}

impl RatingStore {
    /// The two columns line up and no key repeats.
    pub closed spec fn wf(&self) -> bool {
        self.keys@.len() == self.ratings@.len() && keys_distinct(self@)
    }

    /// Every rating of a well-formed store lies in the `i64` range: the
    /// ratings are held in an `i64` column.
    pub proof fn lemma_wf_ratings_in_range(&self)
        requires
            self.wf(),
        ensures
            ratings_in_range(self@),
    {
    }

    /// An empty store.
    pub fn new() -> (s: RatingStore)
        ensures
            s@ == Seq::<(Seq<char>, int)>::empty(),
            s.wf(),
    {
        let s = RatingStore { keys: Vec::new(), ratings: Vec::new() };
        proof {
            assert(s@ =~= Seq::<(Seq<char>, int)>::empty());
        }
        s
    }

    /// How many distinct teams have been seen.
    pub fn len(&self) -> (n: usize)
        requires
            self.wf(),
        ensures
            n == self@.len(),
    {
        self.keys.len()
    }

    /// The key first seen at position `i`.
    pub fn key_at(&self, i: usize) -> (k: &String)
        requires
            self.wf(),
            i < self@.len(),
        ensures
            k@ == self@[i as int].0,
    {
        &self.keys[i]
    }

    /// The current rating of the team at position `i`.
    pub fn rating_at(&self, i: usize) -> (r: i64)
        requires
            self.wf(),
            i < self@.len(),
        ensures
            r as int == self@[i as int].1,
    {
        self.ratings[i]
    }

    /// Return the team's current rating, creating the team with the default
    /// rating if its key was never seen before.
    pub fn get_or_create(&mut self, key: &str) -> (r: i64)
        requires
            old(self).wf(),
        ensures
            final(self).wf(),
            store_lookup(old(self)@, key@) is Some ==> final(self)@ == old(self)@
                && r as int == store_lookup(old(self)@, key@).unwrap(),
            store_lookup(old(self)@, key@) is None ==> final(self)@ == old(self)@.push(
                (key@, DEFAULT_RATING as int),
            ) && r == DEFAULT_RATING,
    {
        let owned = key.to_owned();
        let n = self.keys.len();
        let mut i: usize = 0;
        while i < n
            invariant
                self == old(self),
                self.wf(),
                n == self.keys@.len(),
                i <= n,
                forall|j: int| 0 <= j < i ==> (#[trigger] self@[j]).0 != key@,
                owned@ == key@,
            decreases n - i,
        {
            if self.keys[i].eq(&owned) {
                proof {
                    lemma_lookup_first(self@, key@, i as int);
                }
                return self.ratings[i];
            }
            i += 1;
        }
        proof {
            lemma_lookup_none(self@, key@);
        }
        self.keys.push(owned);
        self.ratings.push(DEFAULT_RATING);
        proof {
            assert(self@ =~= old(self)@.push((key@, DEFAULT_RATING as int)));
        }
        DEFAULT_RATING
    }

    /// Return the current rating of a known key, or the sentinel 0 for an
    /// unknown one.
    pub fn get(&self, key: &str) -> (r: i64)
        requires
            self.wf(),
        ensures
            r as int == store_get(self@, key@),
    {
        let owned = key.to_owned();
        let n = self.keys.len();
        let mut i: usize = 0;
        while i < n
            invariant
                self.wf(),
                n == self.keys@.len(),
                i <= n,
                forall|j: int| 0 <= j < i ==> (#[trigger] self@[j]).0 != key@,
                owned@ == key@,
            decreases n - i,
        {
            if self.keys[i].eq(&owned) {
                proof {
                    lemma_lookup_first(self@, key@, i as int);
                }
                return self.ratings[i];
            }
            i += 1;
        }
        proof {
            lemma_lookup_none(self@, key@);
        }
        UNKNOWN_RATING
    }

    /// Add `delta` to the rating of a known key, saturating at the `i64`
    /// bounds; do nothing for an unknown key.
    pub fn update(&mut self, key: &str, delta: i64)
        requires
            old(self).wf(),
        ensures
            final(self).wf(),
            final(self)@ == store_apply(old(self)@, key@, delta as int),
    {
        let owned = key.to_owned();
        let n = self.keys.len();
        let mut i: usize = 0;
        while i < n
            invariant
                self == old(self),
                self.wf(),
                n == self.keys@.len(),
                i <= n,
                forall|j: int| 0 <= j < i ==> (#[trigger] self@[j]).0 != key@,
                owned@ == key@,
            decreases n - i,
        {
            if self.keys[i].eq(&owned) {
                proof {
                    lemma_lookup_first(self@, key@, i as int);
                }
                let wide: i128 = self.ratings[i] as i128 + delta as i128;
                let clamped: i64 = if wide > i64::MAX as i128 {
                    i64::MAX
                } else if wide < i64::MIN as i128 {
                    i64::MIN
                } else {
                    wide as i64
                };
                self.ratings.set(i, clamped);
                proof {
                    assert(self@ =~= store_apply(old(self)@, key@, delta as int));
                }
                return ;
            }
            i += 1;
        }
        proof {
            lemma_lookup_none(self@, key@);
        }
    }
}

} // verus!
