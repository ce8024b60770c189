//! The client-side replica: a local copy of the store kept current by the
//! events it receives.

use crate::events::{reconciled, Msg};
use crate::store::MovieStore;
use vstd::prelude::*;

verus! {

/// Applies one received event to the local replica: an added movie is
/// inserted over any copy with the same id; a rating is recorded when the
/// movie is present and ignored otherwise.
pub fn apply_event(replica: &mut MovieStore, msg: Msg)
    requires
        old(replica).wf(),
        msg.wf(),
    ensures
        final(replica).wf(),
        final(replica)@ == reconciled(old(replica)@, msg@),
{
    match msg {
        Msg::AddMovie(movie) => {
            replica.upsert(movie);
        },
        Msg::RateMovie((movie_id, user, score)) => {
            replica.rate(movie_id, user, score);
        },
    }
}

} // verus!
