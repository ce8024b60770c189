//! The mutation processor: applies a change to the store and describes it
//! as an event for the subscribers.

use crate::events::{reconciled, Msg, MsgView};
use crate::movies::{Movie, MovieView};
use crate::rating::{distinct_users, lemma_distinct_raters_mean, ratings_after, score_mean, scores_sum};
use crate::store::{rated, MovieStore};
use vstd::prelude::*;

verus! {

/// Adds `movie` to the store, replacing any movie with the same id, and
/// returns the event that announces it. The store is updated before the
/// event exists, so a subscriber that reacts by reading sees the new movie.
pub fn add_movie(store: &mut MovieStore, movie: Movie) -> (r: Msg)
    requires
        old(store).wf(),
        movie.wf(),
    ensures
        final(store).wf(),
        final(store)@ == old(store)@.insert(movie@.id(), movie@),
        r.wf(),
        r@ == MsgView::AddMovie(movie@),
        final(store)@ == reconciled(old(store)@, r@),
{
    let event = Msg::AddMovie(movie.duplicate());
    store.upsert(movie);
    event
}

/// Records `user`'s `rating` on the movie `movie_id` and returns the event
/// that announces it. A movie that is not in the store is left out, and
/// the event is still returned.
pub fn rate_movie(store: &mut MovieStore, movie_id: u64, user: u64, rating: u8) -> (r: Msg)
    requires
        old(store).wf(),
    ensures
        final(store).wf(),
        final(store)@ == rated(old(store)@, movie_id, user, rating),
        r@ == MsgView::RateMovie(movie_id, user, rating),
        final(store)@ == reconciled(old(store)@, r@),
{
    store.rate(movie_id, user, rating);
    Msg::RateMovie((movie_id, user, rating))
}

/// Adding two movies with the same id leaves one movie under that id: the
/// second.
pub proof fn lemma_readd_keeps_last(m: Map<u64, MovieView>, first: MovieView, second: MovieView)
    requires
        first.id() == second.id(),
    ensures
        m.insert(first.id(), first).insert(second.id(), second) == m.insert(second.id(), second),
        m.insert(first.id(), first).insert(second.id(), second).dom() == m.dom().insert(second.id()),
        m.insert(first.id(), first).insert(second.id(), second)[second.id()] == second,
{
    assert(m.insert(first.id(), first).insert(second.id(), second) =~= m.insert(second.id(), second));
}

/// `m` after each `(user, score)` of `ops`, in order, was recorded on the
/// movie `movie_id`.
pub open spec fn rated_all(m: Map<u64, MovieView>, movie_id: u64, ops: Seq<(u64, u8)>) -> Map<
    u64,
    MovieView,
>
    decreases ops.len(),
{
    if ops.len() == 0 {
        m
    } else {
        rated(rated_all(m, movie_id, ops.drop_last()), movie_id, ops.last().0, ops.last().1)
    }
}

/// Ratings from distinct users on a movie in the store, arriving in any
/// order: each is recorded, and the movie's mean is the mean of them all
/// together with the scores it had from other users.
pub proof fn lemma_rating_run(m: Map<u64, MovieView>, movie_id: u64, ops: Seq<(u64, u8)>)
    requires
        m.dom().contains(movie_id),
    ensures
        rated_all(m, movie_id, ops).dom() == m.dom(),
        rated_all(m, movie_id, ops)[movie_id].ratings == ratings_after(m[movie_id].ratings, ops),
        m[movie_id].ratings == Map::<u64, u8>::empty() && distinct_users(ops) && ops.len() > 0
            ==> score_mean(rated_all(m, movie_id, ops)[movie_id].ratings) == scores_sum(ops) / (
        ops.len() as int),
    decreases ops.len(),
{
    if ops.len() > 0 {
        lemma_rating_run(m, movie_id, ops.drop_last());
        assert(rated_all(m, movie_id, ops).dom() =~= m.dom());
    }
    if m[movie_id].ratings == Map::<u64, u8>::empty() && distinct_users(ops) && ops.len() > 0 {
        lemma_distinct_raters_mean(ops);
    }
}

/// Rating a movie that is not in the store leaves the store as it is.
pub proof fn lemma_rate_missing_is_noop(m: Map<u64, MovieView>, movie_id: u64, user: u64, rating: u8)
    requires
        !m.dom().contains(movie_id),
    ensures
        rated(m, movie_id, user, rating) == m,
{
}

} // verus!
