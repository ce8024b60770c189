//! Change events: what one committed mutation did, and how a replica
//! applies it.

use crate::movies::{Movie, MovieView};
use crate::store::rated;
use vstd::prelude::*;

verus! {

/// A committed change to the movie list.
#[derive(Debug)]
pub enum Msg {
    /// A movie was added, or replaced one with the same id.
    AddMovie(Movie),
    /// `(movie_id, user_id, score)`: a user scored a movie.
    RateMovie((u64, u64, u8)),
}

/// What an event is, as the contracts of this crate see it.
pub enum MsgView {
    AddMovie(MovieView),
    RateMovie(u64, u64, u8),
}

impl View for Msg {
    type V = MsgView;

    open spec fn view(&self) -> MsgView {
        match self {
            Msg::AddMovie(m) => MsgView::AddMovie(m@),
            Msg::RateMovie((id, user, score)) => MsgView::RateMovie(*id, *user, *score),
        }
    }
}

/// `m` after the change that `e` describes.
pub open spec fn reconciled(m: Map<u64, MovieView>, e: MsgView) -> Map<u64, MovieView> {
    match e {
        MsgView::AddMovie(v) => m.insert(v.id(), v),
        MsgView::RateMovie(id, user, score) => rated(m, id, user, score),
    }
}

impl Msg {
    pub open spec fn wf(&self) -> bool {
        match self {
            Msg::AddMovie(m) => m.wf(),
            Msg::RateMovie(_) => true,
        }
    }

    /// A separate event with the same contents.
    pub fn duplicate(&self) -> (r: Msg)
        requires
            self.wf(),
        ensures
            r.wf(),
            r@ == self@,
    {
        match self {
            Msg::AddMovie(m) => Msg::AddMovie(m.duplicate()),
            Msg::RateMovie((id, user, score)) => Msg::RateMovie((*id, *user, *score)),
        }
    }
}

/// Receiving the same event twice changes nothing the second time.
pub proof fn lemma_reconcile_idempotent(m: Map<u64, MovieView>, e: MsgView)
    ensures
        reconciled(reconciled(m, e), e) == reconciled(m, e),
{
    let once = reconciled(m, e);
    match e {
        MsgView::AddMovie(v) => {
            assert(once.insert(v.id(), v) =~= once);
        },
        MsgView::RateMovie(id, user, score) => {
            if m.dom().contains(id) {
                let w = once[id];
                assert(w.ratings.insert(user, score) =~= w.ratings);
                assert(rated(once, id, user, score) =~= once);
            }
        },
    }
}

/// Events about different movies can be applied in either order.
pub proof fn lemma_reconcile_commutes(m: Map<u64, MovieView>, e1: MsgView, e2: MsgView)
    requires
        event_target(e1) != event_target(e2),
    ensures
        reconciled(reconciled(m, e1), e2) == reconciled(reconciled(m, e2), e1),
{
    assert(reconciled(reconciled(m, e1), e2) =~= reconciled(reconciled(m, e2), e1));
}

/// The id of the movie that an event is about.
pub open spec fn event_target(e: MsgView) -> u64 {
    match e {
        MsgView::AddMovie(v) => v.id(),
        MsgView::RateMovie(id, _, _) => id,
    }
}

} // verus!
