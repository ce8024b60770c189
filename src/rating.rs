//! Rating aggregate: each user's latest score for one movie, and their mean.

use std::collections::HashMap;
use vstd::prelude::*;

verus! {

broadcast use vstd::std_specs::hash::group_hash_axioms;

/// Sum of all scores held in a rating map.
pub open spec fn score_total(m: Map<u64, u8>) -> int
    decreases m.dom().len(),
{
    if m.dom().finite() && m.dom().len() > 0 {
        let k = m.dom().choose();
        m[k] as int + score_total(m.remove(k))
    } else {
        0
    }
}

/// Mean of the scores in a rating map, truncated; zero for an empty map.
pub open spec fn score_mean(m: Map<u64, u8>) -> int {
    if m.dom().len() == 0 {
        0
    } else {
        score_total(m) / (m.dom().len() as int)
    }
}

/// The total does not depend on which entry is taken out first.
pub proof fn lemma_total_remove(m: Map<u64, u8>, k: u64)
    requires
        m.dom().finite(),
        m.dom().contains(k),
    ensures
        score_total(m) == m[k] as int + score_total(m.remove(k)),
    decreases m.dom().len(),
{
    let c = m.dom().choose();
    if c != k {
        lemma_total_remove(m.remove(c), k);
        lemma_total_remove(m.remove(k), c);
        assert(m.remove(c).remove(k) =~= m.remove(k).remove(c));
    }
}

/// How the total changes when one user's score is set.
pub proof fn lemma_total_insert(m: Map<u64, u8>, k: u64, v: u8)
    requires
        m.dom().finite(),
    ensures
        score_total(m.insert(k, v)) == score_total(m) + v - (if m.dom().contains(k) {
            m[k] as int
        } else {
            0
        }),
{
    let n = m.insert(k, v);
    lemma_total_remove(n, k);
    assert(n.remove(k) =~= m.remove(k));
    if m.dom().contains(k) {
        lemma_total_remove(m, k);
    } else {
        assert(m.remove(k) =~= m);
    }
}

/// Every score is at most 255, so the total is at most 255 per entry.
pub proof fn lemma_total_bounds(m: Map<u64, u8>)
    requires
        m.dom().finite(),
    ensures
        0 <= score_total(m) <= 255 * m.dom().len(),
    decreases m.dom().len(),
{
    if m.dom().len() > 0 {
        let k = m.dom().choose();
        lemma_total_bounds(m.remove(k));
    }
}

/// The scores after applying `ops` in order, one `(user, score)` pair at a
/// time, to the scores `m`.
pub open spec fn ratings_after(m: Map<u64, u8>, ops: Seq<(u64, u8)>) -> Map<u64, u8>
    decreases ops.len(),
{
    if ops.len() == 0 {
        m
    } else {
        ratings_after(m, ops.drop_last()).insert(ops.last().0, ops.last().1)
    }
}

/// No user occurs twice among `ops`.
pub open spec fn distinct_users(ops: Seq<(u64, u8)>) -> bool {
    forall|i: int, j: int| 0 <= i < j < ops.len() ==> #[trigger] ops[i].0 != #[trigger] ops[j].0
}

/// Sum of the scores in `ops`.
pub open spec fn scores_sum(ops: Seq<(u64, u8)>) -> int
    decreases ops.len(),
{
    if ops.len() == 0 {
        0
    } else {
        scores_sum(ops.drop_last()) + ops.last().1
    }
}

proof fn lemma_after_distinct(m: Map<u64, u8>, ops: Seq<(u64, u8)>, u: u64)
    requires
        distinct_users(ops),
    ensures
        forall|i: int|
            0 <= i < ops.len() && #[trigger] ops[i].0 == u ==> ratings_after(m, ops).dom().contains(u)
                && ratings_after(m, ops)[u] == ops[i].1,
        (forall|i: int| 0 <= i < ops.len() ==> #[trigger] ops[i].0 != u) ==> (ratings_after(
            m,
            ops,
        ).dom().contains(u) == m.dom().contains(u) && ratings_after(m, ops)[u] == m[u]),
    decreases ops.len(),
{
    if ops.len() > 0 {
        let init = ops.drop_last();
        assert(distinct_users(init)) by {
            assert forall|i: int, j: int| 0 <= i < j < init.len() implies init[i].0 != init[j].0 by {
                assert(init[i] == ops[i] && init[j] == ops[j]);
            }
        }
        lemma_after_distinct(m, init, u);
        assert forall|i: int| 0 <= i < ops.len() && #[trigger] ops[i].0 == u implies ratings_after(
            m,
            ops,
        ).dom().contains(u) && ratings_after(m, ops)[u] == ops[i].1 by {
            if i < ops.len() - 1 {
                assert(init[i] == ops[i]);
                assert(ops[i].0 != ops[ops.len() - 1].0);
            }
        }
        if forall|i: int| 0 <= i < ops.len() ==> #[trigger] ops[i].0 != u {
            assert forall|i: int| 0 <= i < init.len() implies #[trigger] init[i].0 != u by {
                assert(init[i] == ops[i]);
            }
            assert(ops[ops.len() - 1].0 != u);
        }
    }
}

/// The score of `user`'s last pair in `ops`, if `user` occurs there.
pub open spec fn latest(ops: Seq<(u64, u8)>, user: u64) -> Option<u8>
    decreases ops.len(),
{
    if ops.len() == 0 {
        None
    } else if ops.last().0 == user {
        Some(ops.last().1)
    } else {
        latest(ops.drop_last(), user)
    }
}

proof fn lemma_after_latest(m: Map<u64, u8>, ops: Seq<(u64, u8)>, u: u64)
    ensures
        match latest(ops, u) {
            Some(s) => ratings_after(m, ops).dom().contains(u) && ratings_after(m, ops)[u] == s,
            None => ratings_after(m, ops).dom().contains(u) == m.dom().contains(u)
                && ratings_after(m, ops)[u] == m[u],
        },
    decreases ops.len(),
{
    if ops.len() > 0 {
        lemma_after_latest(m, ops.drop_last(), u);
    }
}

/// Overwrite by key makes the order of calls irrelevant: two sequences of
/// `(user, score)` pairs that leave every user with the same last score,
/// in whatever order and with whatever repeats, lead to the same scores and
/// so to the same mean.
pub proof fn lemma_order_independent(m: Map<u64, u8>, a: Seq<(u64, u8)>, b: Seq<(u64, u8)>)
    requires
        forall|u: u64| #[trigger] latest(a, u) == latest(b, u),
    ensures
        ratings_after(m, a) == ratings_after(m, b),
        score_mean(ratings_after(m, a)) == score_mean(ratings_after(m, b)),
{
    let ra = ratings_after(m, a);
    let rb = ratings_after(m, b);
    assert forall|u: u64| #[trigger] ra.dom().contains(u) == rb.dom().contains(u) && (ra.dom().contains(u) ==> ra[u] == rb[u]) by {
        lemma_after_latest(m, a, u);
        lemma_after_latest(m, b, u);
        assert(latest(a, u) == latest(b, u));
    }
    assert(ra =~= rb);
}

/// Scores from distinct users, starting from none, in any arrival order:
/// every score is kept, and the mean is that of all of them.
pub proof fn lemma_distinct_raters_mean(ops: Seq<(u64, u8)>)
    requires
        distinct_users(ops),
    ensures
        ratings_after(Map::empty(), ops).dom().len() == ops.len(),
        score_total(ratings_after(Map::empty(), ops)) == scores_sum(ops),
        ops.len() > 0 ==> score_mean(ratings_after(Map::empty(), ops)) == scores_sum(ops)
            / (ops.len() as int),
    decreases ops.len(),
{
    if ops.len() > 0 {
        let init = ops.drop_last();
        let u = ops.last().0;
        assert(distinct_users(init)) by {
            assert forall|i: int, j: int| 0 <= i < j < init.len() implies init[i].0 != init[j].0 by {
                assert(init[i] == ops[i] && init[j] == ops[j]);
            }
        }
        lemma_distinct_raters_mean(init);
        lemma_after_distinct(Map::empty(), init, u);
        assert forall|i: int| 0 <= i < init.len() implies #[trigger] init[i].0 != u by {
            assert(init[i] == ops[i]);
        }
        lemma_finite_after(init);
        lemma_total_insert(ratings_after(Map::empty(), init), u, ops.last().1);
    }
}

proof fn lemma_finite_after(ops: Seq<(u64, u8)>)
    ensures
        ratings_after(Map::empty(), ops).dom().finite(),
    decreases ops.len(),
{
    if ops.len() > 0 {
        lemma_finite_after(ops.drop_last());
    }
}

/// Scores all between `lo` and `hi` have a total between `lo` and `hi`
/// times their number.
pub proof fn lemma_total_between(m: Map<u64, u8>, lo: int, hi: int)
    requires
        m.dom().finite(),
        forall|k: u64| #[trigger] m.dom().contains(k) ==> lo <= m[k] <= hi,
    ensures
        lo * m.dom().len() <= score_total(m) <= hi * m.dom().len(),
    decreases m.dom().len(),
{
    if m.dom().len() > 0 {
        let k = m.dom().choose();
        lemma_total_between(m.remove(k), lo, hi);
        let n = m.remove(k).dom().len() as int;
        assert(lo * (n + 1) == lo * n + lo && hi * (n + 1) == hi * n + hi) by (nonlinear_arith);
    }
}

/// The mean of scores that all lie between `lo` and `hi` lies between them
/// too.
pub proof fn lemma_mean_between(m: Map<u64, u8>, lo: int, hi: int)
    requires
        m.dom().finite(),
        m.dom().len() > 0,
        forall|k: u64| #[trigger] m.dom().contains(k) ==> lo <= m[k] <= hi,
    ensures
        lo <= score_mean(m) <= hi,
{
    lemma_total_between(m, lo, hi);
    let t = score_total(m);
    let n = m.dom().len() as int;
    assert(lo <= t / n <= hi) by (nonlinear_arith)
        requires lo * n <= t <= hi * n, n > 0;
}

/// Each user's most recent score for one movie, with their mean kept current.
#[derive(Debug, Clone)]
pub struct MovieRating {
    average: u8,
    total: u128,
    ratings: HashMap<u64, u8>,
}

impl View for MovieRating {
    type V = Map<u64, u8>;

    closed spec fn view(&self) -> Map<u64, u8> {
        self.ratings@
    }
}

impl MovieRating {
    /// The cached total and mean agree with the scores held.
    pub closed spec fn wf(&self) -> bool {
        &&& self.ratings@.dom().finite()
        &&& self.ratings@.dom().len() <= usize::MAX
        &&& self.total as int == score_total(self.ratings@)
        &&& self.average as int == score_mean(self.ratings@)
    }

    /// A valid rating holds finitely many scores, so `lemma_mean_between`
    /// applies to it.
    pub proof fn lemma_valid(&self)
        requires
            self.wf(),
        ensures
            self@.dom().finite(),
            self@.dom().len() <= usize::MAX,
    {
    }

    /// A rating that nobody has scored yet.
    pub fn new() -> (r: MovieRating)
        ensures
            r.wf(),
            r@ == Map::<u64, u8>::empty(),
    {
        MovieRating { average: 0, total: 0, ratings: HashMap::new() }
    }

    /// Records `rating` as `user`'s score, replacing any earlier score of
    /// theirs, and recomputes the mean.
    pub fn add_rating(&mut self, user: u64, rating: u8)
        requires
            old(self).wf(),
        ensures
            final(self).wf(),
            final(self)@ == old(self)@.insert(user, rating),
    {
        let ghost before = self.ratings@;
        proof {
            lemma_total_insert(before, user, rating);
            if before.dom().contains(user) {
                lemma_total_remove(before, user);
                lemma_total_bounds(before.remove(user));
            }
        }
        let previous = self.ratings.insert(user, rating);
        proof {
            lemma_total_bounds(self.ratings@);
        }
        match previous {
            Some(p) => {
                self.total = self.total - p as u128 + rating as u128;
            },
            None => {
                self.total = self.total + rating as u128;
            },
        }
        self.update_rating();
    }

    /// Sets the mean from the cached total; there is at least one score.
    fn update_rating(&mut self)
        requires
            old(self).ratings@.dom().finite(),
            old(self).ratings@.dom().len() > 0,
            old(self).total as int == score_total(old(self).ratings@),
        ensures
            final(self).wf(),
            final(self)@ == old(self)@,
            final(self).total == old(self).total,
    {
        let len = self.ratings.len();
        proof {
            lemma_total_bounds(self.ratings@);
            let t = self.total as int;
            let n = len as int;
            assert(t / n <= 255) by (nonlinear_arith)
                requires 0 <= t <= 255 * n, n > 0;
            assert(t / n >= 0) by (nonlinear_arith)
                requires 0 <= t, n > 0;
        }
        self.average = (self.total / len as u128) as u8;
    }

    /// The mean of the current scores, truncated; zero when there are none.
    pub fn average(&self) -> (r: u8)
        requires
            self.wf(),
        ensures
            r as int == score_mean(self@),
    {
        self.average
    }

    /// Number of users who have scored this movie.
    pub fn len(&self) -> (r: usize)
        requires
            self.wf(),
        ensures
            r as int == self@.dom().len(),
    {
        self.ratings.len()
    }

    /// The score `user` gave, if any.
    pub fn score_of(&self, user: u64) -> (r: Option<u8>)
        requires
            self.wf(),
        ensures
            r == (if self@.dom().contains(user) {
                Some(self@[user])
            } else {
                None::<u8>
            }),
    {
        match self.ratings.get(&user) {
            Some(s) => Some(*s),
            None => None,
        }
    }

    /// A separate aggregate holding the same scores.
    pub fn duplicate(&self) -> (r: MovieRating)
        requires
            self.wf(),
        ensures
            r.wf(),
            r@ == self@,
    {
        MovieRating { average: self.average, total: self.total, ratings: self.ratings.clone() }
    }
}

} // verus!
