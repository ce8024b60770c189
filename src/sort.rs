//! The sort engine: orders the ids of a snapshot of the list by when each
//! movie was added, by title, or by mean score, either way round.

use crate::movies::MovieView;
use crate::rating::score_mean;
use crate::store::MovieStore;
use core::cmp::Ordering;
use vstd::prelude::*;

verus! {

broadcast use vstd::seq_lib::group_to_multiset_ensures;

/// What the list can be sorted by.
#[derive(Clone, Copy, Debug, PartialEq, Eq, Structural, Hash)]
pub enum SortType {
    Added,
    Title,
    Score,
}

impl Default for SortType {
    fn default() -> (r: SortType)
        ensures
            r == SortType::Added,
    {
        SortType::Added
    }
}

impl SortType {
    /// The label shown on this key's button.
    pub fn name(&self) -> (r: &'static str)
        ensures
            r@ == sort_type_name(*self),
    {
        match self {
            SortType::Added => "Added",
            SortType::Title => "Title",
            SortType::Score => "Score",
        }
    }
}

/// A sort key named in configuration that is not one of the keys.
#[derive(Clone, Copy, Debug, PartialEq, Eq, Structural)]
pub enum SortError {
    InvalidSortKey,
}

impl SortType {
    /// The key whose label is `name`; any other name is refused.
    pub fn from_name(name: &str) -> (r: Result<SortType, SortError>)
        ensures
            match r {
                Ok(t) => sort_type_name(t) == name@,
                Err(e) => e == SortError::InvalidSortKey && forall|t: SortType|
                    sort_type_name(t) != name@,
            },
    {
        if matches!(compare_text(name, "Added"), Ordering::Equal) {
            Ok(SortType::Added)
        } else if matches!(compare_text(name, "Title"), Ordering::Equal) {
            Ok(SortType::Title)
        } else if matches!(compare_text(name, "Score"), Ordering::Equal) {
            Ok(SortType::Score)
        } else {
            Err(SortError::InvalidSortKey)
        }
    }
}

/// The label of a sort key.
pub open spec fn sort_type_name(t: SortType) -> Seq<char> {
    match t {
        SortType::Added => "Added"@,
        SortType::Title => "Title"@,
        SortType::Score => "Score"@,
    }
}

/// A sort key and a direction.
#[derive(Clone, Copy, Debug, PartialEq, Eq, Structural, Hash)]
pub struct SortOrder {
    pub reversed: bool,
    pub sort_type: SortType,
}

impl Default for SortOrder {
    fn default() -> (r: SortOrder)
        ensures
            r == (SortOrder { reversed: false, sort_type: SortType::Added }),
    {
        SortOrder { reversed: false, sort_type: SortType::Added }
    }
}

/// What the sort reads of one movie.
#[derive(Debug)]
pub struct SortEntry {
    /// Where the movie stood in the list before sorting.
    pub position: usize,
    pub id: u64,
    pub time_added: u64,
    pub title: String,
    pub score: u8,
}

/// `a` comes strictly before `b` in lexicographic order of code points.
pub open spec fn text_before(a: Seq<char>, b: Seq<char>) -> bool
    decreases a.len(),
{
    if a.len() == 0 {
        b.len() > 0
    } else if b.len() == 0 {
        false
    } else if a[0] != b[0] {
        (a[0] as u32) < (b[0] as u32)
    } else {
        text_before(a.skip(1), b.skip(1))
    }
}

/// Lexicographic comparison of two texts by code point.
pub open spec fn text_order(a: Seq<char>, b: Seq<char>) -> Ordering {
    if a == b {
        Ordering::Equal
    } else if text_before(a, b) {
        Ordering::Less
    } else {
        Ordering::Greater
    }
}

pub open spec fn int_order(a: int, b: int) -> Ordering {
    if a < b {
        Ordering::Less
    } else if a == b {
        Ordering::Equal
    } else {
        Ordering::Greater
    }
}

/// Comparison of two entries by the key alone, ascending.
pub open spec fn key_order(t: SortType, a: SortEntry, b: SortEntry) -> Ordering {
    match t {
        SortType::Added => int_order(a.time_added as int, b.time_added as int),
        SortType::Title => text_order(a.title@, b.title@),
        SortType::Score => int_order(a.score as int, b.score as int),
    }
}

/// Comparison of two entries under a sort order.
pub open spec fn entry_order(o: SortOrder, a: SortEntry, b: SortEntry) -> Ordering {
    if o.reversed {
        key_order(o.sort_type, b, a)
    } else {
        key_order(o.sort_type, a, b)
    }
}

/// No entry comes after one that follows it.
pub open spec fn sorted_by(o: SortOrder, s: Seq<SortEntry>) -> bool {
    forall|i: int, j: int| 0 <= i < j < s.len() ==> entry_order(o, s[i], s[j]) != Ordering::Greater
}

/// What the sort reads of a movie.
pub open spec fn entry_of(v: MovieView, position: usize) -> SortEntry {
    SortEntry {
        position,
        id: v.id(),
        time_added: v.time_added,
        title: v.base.title,
        score: score_mean(v.ratings) as u8,
    }
}

/// Relies on `Ord for str`: strings are compared lexicographically by their
/// UTF-8 bytes, which orders them as their sequences of code points.
#[verifier::external_body]
fn compare_text(a: &str, b: &str) -> (r: Ordering)
    ensures
        r == text_order(a@, b@),
{
    a.cmp(b)
}

/// Relies on slice::sort_by: the entries are rearranged so that, under a
/// comparison that is a total order, none is greater than one after it,
/// and the sort is stable: entries that compare equal keep their relative
/// order, which here is the order of their positions.
#[verifier::external_body]
fn sort_entries(order: &SortOrder, entries: &mut Vec<SortEntry>)
    requires
        forall|k: int| 0 <= k < old(entries)@.len() ==> #[trigger] old(entries)@[k].position == k,
    ensures
        final(entries)@.to_multiset() == old(entries)@.to_multiset(),
        sorted_by(*order, final(entries)@),
        forall|i: int, j: int|
            0 <= i < j < final(entries)@.len() && entry_order(
                *order,
                final(entries)@[i],
                final(entries)@[j],
            ) == Ordering::Equal ==> final(entries)@[i].position < final(entries)@[j].position,
{
    entries.sort_by(|l, r| order.sort_items(l, r));
}

fn compare_numbers(l: u64, r: u64) -> (o: Ordering)
    ensures
        o == int_order(l as int, r as int),
{
    if l < r {
        Ordering::Less
    } else if l == r {
        Ordering::Equal
    } else {
        Ordering::Greater
    }
}

impl SortOrder {
    /// Compares two entries by this order's key, flipped when reversed.
    pub fn sort_items(&self, l: &SortEntry, r: &SortEntry) -> (o: Ordering)
        ensures
            o == entry_order(*self, *l, *r),
    {
        let (a, b) = if self.reversed {
            (r, l)
        } else {
            (l, r)
        };
        match self.sort_type {
            SortType::Added => compare_numbers(a.time_added, b.time_added),
            SortType::Title => compare_text(a.title.as_str(), b.title.as_str()),
            SortType::Score => compare_numbers(a.score as u64, b.score as u64),
        }
    }

    /// The ids `ids`, each a movie of `movies`, ordered by this order.
    /// The sort is stable: movies with equal keys keep their order in `ids`.
    pub fn sort_ids(&self, movies: &MovieStore, ids: &Vec<u64>) -> (r: Vec<u64>)
        requires
            movies.wf(),
            ids@.no_duplicates(),
            forall|k: int| 0 <= k < ids@.len() ==> movies@.dom().contains(#[trigger] ids@[k]),
        ensures
            r@.len() == ids@.len(),
            r@.to_set() == ids@.to_set(),
            forall|i: int, j: int|
                0 <= i < j < r@.len() ==> entry_order(
                    *self,
                    entry_of(movies@[r@[i]], 0),
                    entry_of(movies@[r@[j]], 0),
                ) != Ordering::Greater,
            forall|i: int, j: int|
                0 <= i < j < r@.len() && entry_order(
                    *self,
                    entry_of(movies@[r@[i]], 0),
                    entry_of(movies@[r@[j]], 0),
                ) == Ordering::Equal ==> exists|p: int, q: int|
                    0 <= p < q < ids@.len() && ids@[p] == r@[i] && ids@[q] == r@[j],
    {
        proof {
            movies.lemma_keys();
        }
        let mut entries: Vec<SortEntry> = Vec::new();
        for i in 0..ids.len()
            invariant
                movies.wf(),
                forall|k: int| 0 <= k < ids@.len() ==> movies@.dom().contains(#[trigger] ids@[k]),
                entries@.len() == i,
                forall|k: int|
                    0 <= k < i ==> #[trigger] entries@[k] == entry_of(movies@[ids@[k]], k as usize),
        {
            match movies.get_ref(ids[i]) {
                Some(m) => {
                    let score = m.rating.average();
                    entries.push(
                        SortEntry {
                            position: i,
                            id: m.key(),
                            time_added: m.time_added,
                            title: m.base.title.clone(),
                            score,
                        },
                    );
                },
                None => {
                    assert(false);
                },
            }
        }
        let ghost unsorted = entries@;
        sort_entries(self, &mut entries);
        let mut r: Vec<u64> = Vec::new();
        for i in 0..entries.len()
            invariant
                r@.len() == i,
                forall|k: int| 0 <= k < i ==> r@[k] == #[trigger] entries@[k].id,
        {
            r.push(entries[i].id);
        }
        proof {
            assert(unsorted.len() == entries@.len()) by {
                assert(unsorted.to_multiset().len() == entries@.to_multiset().len());
            }
            assert forall|i: int| 0 <= i < entries@.len() implies {
                let p = #[trigger] entries@[i].position as int;
                &&& 0 <= p < ids@.len()
                &&& ids@[p] == r@[i]
                &&& entries@[i] == entry_of(movies@[r@[i]], p as usize)
            } by {
                assert(entries@.to_multiset().count(entries@[i]) > 0);
                assert(unsorted.contains(entries@[i]));
                let k = choose|k: int| 0 <= k < unsorted.len() && unsorted[k] == entries@[i];
                assert(unsorted[k] == entry_of(movies@[ids@[k]], k as usize));
                assert(movies@[ids@[k]].id() == ids@[k]);
                assert(r@[i] == entries@[i].id);
            }
            assert forall|id: u64| #[trigger] ids@.to_set().contains(id) implies r@.to_set().contains(id) by {
                let k = choose|k: int| 0 <= k < ids@.len() && ids@[k] == id;
                assert(unsorted[k] == entry_of(movies@[id], k as usize));
                assert(unsorted.to_multiset().count(unsorted[k]) > 0);
                assert(entries@.contains(unsorted[k]));
                let i = choose|i: int| 0 <= i < entries@.len() && entries@[i] == unsorted[k];
                assert(movies@[id].id() == id);
                assert(r@[i] == entries@[i].id);
                assert(r@[i] == id);
            }
            assert forall|id: u64| #[trigger] r@.to_set().contains(id) implies ids@.to_set().contains(id) by {
                let i = choose|i: int| 0 <= i < r@.len() && r@[i] == id;
                let p = entries@[i].position as int;
                assert(0 <= p < ids@.len() && ids@[p] == r@[i]);
            }
            assert(r@.to_set() =~= ids@.to_set());
            assert forall|i: int, j: int| 0 <= i < j < r@.len() implies entry_order(
                *self,
                entry_of(movies@[r@[i]], 0),
                entry_of(movies@[r@[j]], 0),
            ) != Ordering::Greater && (entry_order(
                *self,
                entry_of(movies@[r@[i]], 0),
                entry_of(movies@[r@[j]], 0),
            ) == Ordering::Equal ==> exists|p: int, q: int|
                0 <= p < q < ids@.len() && ids@[p] == r@[i] && ids@[q] == r@[j]) by {
                let pi = entries@[i].position as int;
                let pj = entries@[j].position as int;
                assert(entries@[i] == entry_of(movies@[r@[i]], pi as usize));
                assert(entries@[j] == entry_of(movies@[r@[j]], pj as usize));
                assert(entry_order(*self, entries@[i], entries@[j]) == entry_order(
                    *self,
                    entry_of(movies@[r@[i]], 0),
                    entry_of(movies@[r@[j]], 0),
                ));
            }
        }
        r
    }

    /// The ids of all movies in `movies`, each once, ordered by this order.
    /// Movies with equal keys keep the order in which the store lists them.
    pub fn sort_movies(&self, movies: &MovieStore) -> (r: Vec<u64>)
        requires
            movies.wf(),
        ensures
            r@.len() == movies@.dom().len(),
            r@.to_set() == movies@.dom(),
            forall|i: int, j: int|
                0 <= i < j < r@.len() ==> entry_order(
                    *self,
                    entry_of(movies@[r@[i]], 0),
                    entry_of(movies@[r@[j]], 0),
                ) != Ordering::Greater,
    {
        let ids = movies.ids();
        assert forall|k: int| 0 <= k < ids@.len() implies movies@.dom().contains(#[trigger] ids@[k]) by {
            assert(ids@.to_set().contains(ids@[k]));
        }
        self.sort_ids(movies, &ids)
    }

    /// The order after the button for `sort_type` is pressed: pressing the
    /// current key flips the direction, another key selects it ascending.
    pub fn toggled(self, sort_type: SortType) -> (r: SortOrder)
        ensures
            self.sort_type == sort_type ==> r == (SortOrder { reversed: !self.reversed, ..self }),
            self.sort_type != sort_type ==> r == (SortOrder { reversed: false, sort_type }),
    {
        if self.sort_type == sort_type {
            SortOrder { reversed: !self.reversed, sort_type }
        } else {
            SortOrder { reversed: false, sort_type }
        }
    }

    /// Whether `sort_type` is the key of this order, so that its button
    /// shows as the active one.
    pub fn is_selected(self, sort_type: SortType) -> (r: bool)
        ensures
            r == (self.sort_type == sort_type),
    {
        self.sort_type == sort_type
    }
}

} // verus!
