//! Movie records: descriptive metadata, when the movie was added, and its
//! rating aggregate.

use crate::rating::MovieRating;
use vstd::prelude::*;

verus! {

/// A release date, as a count of days since 1970-01-01.
#[derive(Clone, Copy, Debug, PartialEq, Eq, Structural, PartialOrd, Ord, Hash)]
pub struct ReleaseDate(pub i32);

/// Descriptive metadata of a movie. Only `movie_id` and `title` are read by
/// the logic of this crate; the rest is carried through unchanged.
#[derive(Debug, Clone)]
pub struct MovieBase {
    pub movie_id: u64,
    pub title: String,
    pub original_title: String,
    pub original_language: String,
    pub overview: String,
    pub release_date: Option<ReleaseDate>,
    pub poster_path: Option<String>,
    pub backdrop_path: Option<String>,
    pub adult: bool,
    pub vote_count: u64,
    pub video: bool,
}

fn copy_text(s: &Option<String>) -> (r: Option<String>)
    ensures
        r == *s,
{
    match s {
        Some(t) => Some(t.clone()),
        None => None,
    }
}

impl MovieBase {
    /// Metadata with the given id and title and nothing else filled in.
    pub fn new(movie_id: u64, title: String) -> (r: MovieBase)
        ensures
            r.movie_id == movie_id,
            r.title == title,
    {
        MovieBase {
            movie_id,
            title,
            original_title: String::new(),
            original_language: String::new(),
            overview: String::new(),
            release_date: None,
            poster_path: None,
            backdrop_path: None,
            adult: false,
            vote_count: 0,
            video: false,
        }
    }

    /// A separate copy of the same metadata.
    pub fn duplicate(&self) -> (r: MovieBase)
        ensures
            r == *self,
    {
        MovieBase {
            movie_id: self.movie_id,
            title: self.title.clone(),
            original_title: self.original_title.clone(),
            original_language: self.original_language.clone(),
            overview: self.overview.clone(),
            release_date: self.release_date,
            poster_path: copy_text(&self.poster_path),
            backdrop_path: copy_text(&self.backdrop_path),
            adult: self.adult,
            vote_count: self.vote_count,
            video: self.video,
        }
    }
}

/// What a movie record is, as the contracts of this crate see it.
pub struct MovieView {
    pub base: MovieBase,
    pub time_added: u64,
    pub ratings: Map<u64, u8>,
}

impl MovieView {
    pub open spec fn id(self) -> u64 {
        self.base.movie_id
    }
}

/// One record of the shared list.
#[derive(Debug, Clone)]
pub struct Movie {
    pub base: MovieBase,
    /// When the movie was added, in seconds since the Unix epoch.
    pub time_added: u64,
    pub rating: MovieRating,
}

impl View for Movie {
    type V = MovieView;

    open spec fn view(&self) -> MovieView {
        MovieView { base: self.base, time_added: self.time_added, ratings: self.rating@ }
    }
}

impl Movie {
    pub open spec fn wf(&self) -> bool {
        self.rating.wf()
    }

    /// A movie that nobody has rated yet.
    pub fn new(base: MovieBase, time_added: u64) -> (r: Movie)
        ensures
            r.wf(),
            r@ == (MovieView { base, time_added, ratings: Map::empty() }),
    {
        Movie { base, time_added, rating: MovieRating::new() }
    }

    /// The id that keys this movie everywhere.
    pub fn key(&self) -> (r: u64)
        ensures
            r == self@.id(),
    {
        self.base.movie_id
    }

    /// A separate record with the same contents.
    pub fn duplicate(&self) -> (r: Movie)
        requires
            self.wf(),
        ensures
            r.wf(),
            r@ == self@,
    {
        Movie {
            base: self.base.duplicate(),
            time_added: self.time_added,
            rating: self.rating.duplicate(),
        }
    }
}

/// A search hit: metadata of a movie not necessarily in the list yet.
#[derive(Debug, Clone)]
pub struct MovieSearch {
    pub inner: MovieBase,
    pub genre_ids: Vec<u64>,
}

} // verus!
