//! The record store: movies keyed by id, the single source of truth.

use crate::movies::{Movie, MovieView};
use std::collections::HashMap;
use vstd::prelude::*;
use vstd::std_specs::iter::IteratorSpec;

verus! {

broadcast use vstd::std_specs::hash::group_hash_axioms;

/// `m` with `user`'s score for `id` set to `score`, when `id` is present.
pub open spec fn rated(m: Map<u64, MovieView>, id: u64, user: u64, score: u8) -> Map<
    u64,
    MovieView,
> {
    if m.dom().contains(id) {
        let v = m[id];
        m.insert(id, MovieView { ratings: v.ratings.insert(user, score), ..v })
    } else {
        m
    }
}

/// Movies keyed by their id.
#[derive(Debug)]
pub struct MovieStore {
    movies: HashMap<u64, Movie>,
}

impl View for MovieStore {
    type V = Map<u64, MovieView>;

    closed spec fn view(&self) -> Map<u64, MovieView> {
        self.movies@.map_values(|m: Movie| m@)
    }
}

impl MovieStore {
    /// Each movie sits under its own id and keeps its rating consistent.
    pub closed spec fn wf(&self) -> bool {
        &&& self.movies@.dom().finite()
        &&& forall|k: u64| #[trigger]
            self.movies@.dom().contains(k) ==> self.movies@[k].base.movie_id == k
                && self.movies@[k].wf()
    }

    /// Each record sits under its own id.
    pub proof fn lemma_keys(&self)
        requires
            self.wf(),
        ensures
            self@.dom().finite(),
            forall|k: u64| #[trigger] self@.dom().contains(k) ==> self@[k].id() == k,
    {
        assert(self.movies@.dom() =~= self@.dom());
    }

    /// A store that holds nothing.
    pub fn new() -> (r: MovieStore)
        ensures
            r.wf(),
            r@ == Map::<u64, MovieView>::empty(),
    {
        let r = MovieStore { movies: HashMap::new() };
        assert(r@ =~= Map::<u64, MovieView>::empty());
        r
    }

    /// Number of movies held.
    pub fn len(&self) -> (r: usize)
        requires
            self.wf(),
        ensures
            r as int == self@.dom().len(),
    {
        assert(self.movies@.dom() =~= self@.dom());
        self.movies.len()
    }

    /// The movie with id `id`, if present.
    pub fn get_ref(&self, id: u64) -> (r: Option<&Movie>)
        requires
            self.wf(),
        ensures
            match r {
                Some(m) => self@.dom().contains(id) && m@ == self@[id] && m.wf(),
                None => !self@.dom().contains(id),
            },
    {
        self.movies.get(&id)
    }

    /// A copy of the movie with id `id`, if present.
    pub fn get(&self, id: u64) -> (r: Option<Movie>)
        requires
            self.wf(),
        ensures
            match r {
                Some(m) => self@.dom().contains(id) && m@ == self@[id] && m.wf(),
                None => !self@.dom().contains(id),
            },
    {
        match self.movies.get(&id) {
            Some(m) => Some(m.duplicate()),
            None => None,
        }
    }

    /// Inserts `movie` under its id, replacing any movie held there.
    pub fn upsert(&mut self, movie: Movie)
        requires
            old(self).wf(),
            movie.wf(),
        ensures
            final(self).wf(),
            final(self)@ == old(self)@.insert(movie@.id(), movie@),
    {
        let ghost v = movie@;
        let id = movie.key();
        self.movies.insert(id, movie);
        assert(self@ =~= old(self)@.insert(v.id(), v));
    }

    /// Records `user`'s `score` on the movie with id `id`; a store without
    /// that id is left as it is. Returns whether the movie was present.
    pub fn rate(&mut self, id: u64, user: u64, score: u8) -> (r: bool)
        requires
            old(self).wf(),
        ensures
            final(self).wf(),
            final(self)@ == rated(old(self)@, id, user, score),
            r == old(self)@.dom().contains(id),
    {
        match self.movies.remove(&id) {
            Some(mut movie) => {
                movie.rating.add_rating(user, score);
                self.movies.insert(id, movie);
                assert(self@ =~= rated(old(self)@, id, user, score));
                true
            },
            None => {
                assert(self@ =~= old(self)@);
                false
            },
        }
    }

    /// The ids of all movies, each once, in no particular order.
    pub fn ids(&self) -> (r: Vec<u64>)
        requires
            self.wf(),
        ensures
            r@.to_set() == self@.dom(),
            r@.no_duplicates(),
            r@.len() == self@.dom().len(),
    {
        let mut r: Vec<u64> = Vec::new();
        let ghost ks = vstd::std_specs::hash::spec_keys_iter(&self.movies).remaining();
        for k in it: self.movies.keys()
            invariant
                it.seq() == ks,
                r@.len() == it.index(),
                forall|i: int| 0 <= i < it.index() ==> r@[i] == *it.seq()[i],
        {
            r.push(*k);
        }
        assert(r@ =~= ks.unref());
        assert(self.movies@.dom() =~= self@.dom());
        r
    }

    /// A separate store holding the same movies.
    pub fn snapshot(&self) -> (r: MovieStore)
        requires
            self.wf(),
        ensures
            r.wf(),
            r@ == self@,
    {
        MovieStore { movies: self.movies.clone() }
    }
}

} // verus!
