//! The notification bus: fans each change event out to every live
//! subscriber channel and drops the channels that can no longer take one.

use crate::events::{Msg, MsgView};
use futures::channel::mpsc::{Receiver, Sender};
use vstd::prelude::*;

verus! {

#[verifier::external_type_specification]
#[verifier::external_body]
#[verifier::reject_recursive_types(T)]
pub struct ExSender<T>(Sender<T>);

#[verifier::external_type_specification]
#[verifier::external_body]
#[verifier::reject_recursive_types(T)]
pub struct ExReceiver<T>(Receiver<T>);

/// Relies on futures::channel::mpsc::channel: a new bounded channel, as its
/// sending and receiving halves. It panics unless `buffer` is below
/// `usize::MAX >> 2`.
#[verifier::external_body]
fn open_channel(buffer: usize) -> (Sender<Msg>, Receiver<Msg>)
    requires
        buffer < usize::MAX / 4,
{
    futures::channel::mpsc::channel(buffer)
}

/// Relies on futures::channel::mpsc::Sender::try_send: hands `msg` to the
/// channel without waiting, and fails when the channel is full or its
/// receiver is gone. Whether it succeeds depends on the receiving side.
#[verifier::external_body]
fn try_deliver(sender: &mut Sender<Msg>, msg: Msg) -> bool {
    sender.try_send(msg).is_ok()
}

/// One publish of `e` took the live subscribers from `before` to `after`:
/// none was added, and each that is still live accepted `e` after what it
/// had accepted before.
pub open spec fn publish_step(
    before: Map<nat, Seq<MsgView>>,
    after: Map<nat, Seq<MsgView>>,
    e: MsgView,
) -> bool {
    &&& after.dom().subset_of(before.dom())
    &&& forall|id: nat| #[trigger] after.dom().contains(id) ==> after[id] == before[id].push(e)
}

/// Over a run of publishes, a subscriber that is live at the end was live
/// throughout and accepted every event of the run, in publish order; one
/// that was dropped never comes back.
pub proof fn lemma_publish_run(states: Seq<Map<nat, Seq<MsgView>>>, events: Seq<MsgView>, id: nat)
    requires
        states.len() == events.len() + 1,
        forall|i: int| 0 <= i < events.len() ==> publish_step(#[trigger] states[i], states[i + 1], events[i]),
    ensures
        forall|i: int, j: int| 0 <= i <= j < states.len() ==> #[trigger] states[j].dom().subset_of(#[trigger] states[i].dom()),
        states.last().dom().contains(id) ==> {
            &&& forall|i: int| 0 <= i < states.len() ==> #[trigger] states[i].dom().contains(id)
            &&& states.last()[id] == states[0][id] + events
        },
    decreases events.len(),
{
    if events.len() > 0 {
        let n = events.len() as int;
        let s0 = states.drop_last();
        let e0 = events.drop_last();
        assert forall|i: int| 0 <= i < e0.len() implies publish_step(#[trigger] s0[i], s0[i + 1], e0[i]) by {
            assert(publish_step(states[i], states[i + 1], events[i]));
        }
        lemma_publish_run(s0, e0, id);
        assert(publish_step(states[n - 1], states[n], events[n - 1]));
        assert forall|i: int, j: int| 0 <= i <= j < states.len() implies #[trigger] states[j].dom().subset_of(#[trigger] states[i].dom()) by {
            if j == n {
                if i < n {
                    assert(s0[i] == states[i]);
                    assert(s0[n - 1] == states[n - 1]);
                    assert(s0[n - 1].dom().subset_of(s0[i].dom()));
                }
            } else {
                assert(s0[i] == states[i] && s0[j] == states[j]);
            }
        }
        if states.last().dom().contains(id) {
            assert(s0.last() == states[n - 1]);
            assert forall|i: int| 0 <= i < states.len() implies #[trigger] states[i].dom().contains(id) by {
                if i < n {
                    assert(s0[i] == states[i]);
                }
            }
            assert(states[0] == s0[0]);
            assert(events == e0.push(events[n - 1]));
            assert(states.last()[id] =~= states[0][id] + events);
        }
    }
}

/// Keeps `sender` among the live channels when it took the event, and
/// drops it when it refused.
fn settle(kept: &mut Vec<Sender<Msg>>, sender: Sender<Msg>, delivered: bool)
    ensures
        delivered ==> final(kept)@ == old(kept)@.push(sender),
        !delivered ==> final(kept)@ == old(kept)@,
{
    if delivered {
        kept.push(sender);
    }
}

/// The live subscriber channels. Each subscriber is known to the contracts
/// by the number it was given when it subscribed, and with it the events
/// its channel has accepted since then.
pub struct NotificationBus {
    buffer: usize,
    channels: Vec<Sender<Msg>>,
    ids: Ghost<Seq<nat>>,
    logs: Ghost<Map<nat, Seq<MsgView>>>,
    next_id: Ghost<nat>,
    offers: Ghost<Map<nat, bool>>,
}

impl View for NotificationBus {
    type V = Map<nat, Seq<MsgView>>;

    closed spec fn view(&self) -> Map<nat, Seq<MsgView>> {
        self.logs@
    }
}

impl NotificationBus {
    pub closed spec fn wf(&self) -> bool {
        &&& self.buffer < usize::MAX / 4
        &&& self.channels@.len() == self.ids@.len()
        &&& self.ids@.no_duplicates()
        &&& self.logs@.dom() == self.ids@.to_set()
        &&& forall|i: int| 0 <= i < self.ids@.len() ==> #[trigger] self.ids@[i] < self.next_id@
    }

    /// For each subscriber that the last publish offered its event to,
    /// whether the channel took it.
    pub closed spec fn last_offers(&self) -> Map<nat, bool> {
        self.offers@
    }

    /// The number that the next subscriber will be known by.
    pub closed spec fn next_subscriber(&self) -> nat {
        self.next_id@
    }

    /// Every live subscriber was numbered before the next one.
    pub proof fn lemma_live_numbered(&self)
        requires
            self.wf(),
        ensures
            self@.dom().finite(),
            forall|id: nat| #[trigger] self@.dom().contains(id) ==> id < self.next_subscriber(),
    {
        assert forall|id: nat| #[trigger] self@.dom().contains(id) implies id
            < self.next_subscriber() by {
            let i = choose|i: int| 0 <= i < self.ids@.len() && self.ids@[i] == id;
        }
    }

    /// A bus with no subscribers, whose channels each buffer `buffer`
    /// events beyond one per sender.
    pub fn new(buffer: usize) -> (r: NotificationBus)
        requires
            buffer < usize::MAX / 4,
        ensures
            r.wf(),
            r@ == Map::<nat, Seq<MsgView>>::empty(),
            r.next_subscriber() == 0,
    {
        let r = NotificationBus {
            buffer,
            channels: Vec::new(),
            ids: Ghost(Seq::empty()),
            logs: Ghost(Map::empty()),
            next_id: Ghost(0),
            offers: Ghost(Map::empty()),
        };
        assert(r.ids@.to_set() =~= Set::empty());
        r
    }

    /// Number of live subscribers.
    pub fn len(&self) -> (r: usize)
        requires
            self.wf(),
        ensures
            r as int == self@.dom().len(),
    {
        proof {
            self.ids@.unique_seq_to_set();
        }
        self.channels.len()
    }

    /// Registers a new subscriber and returns the receiving half of its
    /// channel. Events published before this call are not replayed to it.
    pub fn subscribe(&mut self) -> (r: Receiver<Msg>)
        requires
            old(self).wf(),
        ensures
            final(self).wf(),
            !old(self)@.dom().contains(old(self).next_subscriber()),
            final(self)@ == old(self)@.insert(old(self).next_subscriber(), Seq::empty()),
            final(self).next_subscriber() == old(self).next_subscriber() + 1,
    {
        proof {
            self.lemma_live_numbered();
        }
        let (tx, rx) = open_channel(self.buffer);
        self.channels.push(tx);
        let ghost id = self.next_id@;
        proof {
            let old_ids = self.ids@;
            self.ids@ = old_ids.push(id);
            self.logs@ = self.logs@.insert(id, Seq::empty());
            self.next_id@ = id + 1;
            old_ids.lemma_push_to_set_commute(id);
            assert forall|i: int, j: int| 0 <= i < j < self.ids@.len() implies self.ids@[i]
                != self.ids@[j] by {
                if j == self.ids@.len() - 1 {
                    assert(old_ids[i] < id);
                } else {
                    assert(old_ids[i] != old_ids[j]);
                }
            }
            assert forall|i: int| 0 <= i < self.ids@.len() implies #[trigger] self.ids@[i]
                < self.next_id@ by {
                if i < old_ids.len() {
                    assert(old_ids[i] < id);
                }
            }
        }
        rx
    }

    /// Offers `msg` to every live subscriber, each exactly once. A channel
    /// that takes it stays live with `msg` appended to what it has accepted;
    /// a channel that refuses it, being closed or full, is dropped. Never
    /// waits on a subscriber.
    pub fn publish(&mut self, msg: &Msg)
        requires
            old(self).wf(),
            msg.wf(),
        ensures
            final(self).wf(),
            final(self).next_subscriber() == old(self).next_subscriber(),
            final(self).last_offers().dom() == old(self)@.dom(),
            forall|id: nat| #[trigger]
                final(self)@.dom().contains(id) <==> old(self)@.dom().contains(id)
                    && final(self).last_offers()[id],
            publish_step(old(self)@, final(self)@, msg@),
    {
        let ghost old_ids = self.ids@;
        let ghost old_logs = self.logs@;
        let mut rest: Vec<Sender<Msg>> = Vec::new();
        std::mem::swap(&mut rest, &mut self.channels);
        let mut kept: Vec<Sender<Msg>> = Vec::new();
        let ghost mut kept_ids: Seq<nat> = Seq::empty();
        let ghost mut kept_pos: Seq<int> = Seq::empty();
        let ghost mut new_logs: Map<nat, Seq<MsgView>> = Map::empty();
        let ghost mut offers: Map<nat, bool> = Map::empty();
        while rest.len() > 0
            invariant
                self.buffer == old(self).buffer,
                self.next_id == old(self).next_id,
                old(self).wf(),
                old_ids == old(self).ids@,
                old_logs == old(self).logs@,
                msg.wf(),
                rest@.len() <= old_ids.len(),
                kept@.len() == kept_ids.len(),
                kept_ids.no_duplicates(),
                kept_pos.len() == kept_ids.len(),
                forall|i: int|
                    0 <= i < kept_ids.len() ==> rest@.len() <= #[trigger] kept_pos[i] < old_ids.len()
                        && old_ids[kept_pos[i]] == kept_ids[i],
                new_logs.dom() == kept_ids.to_set(),
                forall|id: nat| #[trigger]
                    new_logs.dom().contains(id) ==> new_logs[id] == old_logs[id].push(msg@),
                forall|j: int| rest@.len() <= j < old_ids.len() ==> offers.dom().contains(#[trigger] old_ids[j]),
                forall|id: nat| #[trigger] offers.dom().contains(id) ==> old_logs.dom().contains(id),
                forall|id: nat| #[trigger]
                    new_logs.dom().contains(id) <==> (offers.dom().contains(id) && offers[id]),
            ensures
                rest@.len() == 0,
            decreases rest@.len(),
        {
            let mut sender = match rest.pop() {
                Some(s) => s,
                None => {
                    break;
                },
            };
            let ghost k = rest@.len() as int;
            let copy = msg.duplicate();
            let delivered = try_deliver(&mut sender, copy);
            settle(&mut kept, sender, delivered);
            let ghost id = old_ids[k];
            proof {
                assert(old_ids.to_set().contains(id));
                assert forall|i: int| 0 <= i < kept_ids.len() implies kept_ids[i] != id by {
                    assert(old_ids[kept_pos[i]] != old_ids[k]);
                }
                assert(!new_logs.dom().contains(id));
                offers = offers.insert(id, delivered);
            }
            if delivered {
                proof {
                    let prev = kept_ids;
                    let prev_pos = kept_pos;
                    kept_ids = kept_ids.push(id);
                    kept_pos = kept_pos.push(k);
                    new_logs = new_logs.insert(id, old_logs[id].push(msg@));
                    prev.lemma_push_to_set_commute(id);
                    assert forall|i: int, j: int| 0 <= i < j < kept_ids.len() implies kept_ids[i]
                        != kept_ids[j] by {
                        if j < prev.len() {
                            assert(prev[i] != prev[j]);
                        }
                    }
                    assert forall|i: int| 0 <= i < kept_ids.len() implies k <= #[trigger] kept_pos[i]
                        < old_ids.len() && old_ids[kept_pos[i]] == kept_ids[i] by {
                        if i < prev.len() {
                            assert(prev[i] == kept_ids[i] && prev_pos[i] == kept_pos[i]);
                        }
                    }
                }
            }
        }
        self.channels = kept;
        proof {
            assert forall|i: int| 0 <= i < kept_ids.len() implies #[trigger] kept_ids[i]
                < self.next_id@ by {
                assert(old_ids[kept_pos[i]] == kept_ids[i]);
            }
            assert forall|id: nat| #[trigger] new_logs.dom().contains(id) implies old_logs.dom().contains(id) by {
                let i = choose|i: int| 0 <= i < kept_ids.len() && kept_ids[i] == id;
                assert(old_ids.to_set().contains(old_ids[kept_pos[i]]));
            }
            assert(offers.dom() =~= old_logs.dom()) by {
                assert forall|id: nat| old_logs.dom().contains(id) implies #[trigger] offers.dom().contains(id) by {
                    assert(old_ids.to_set().contains(id));
                    let j = choose|j: int| 0 <= j < old_ids.len() && old_ids[j] == id;
                }
            }
            self.ids@ = kept_ids;
            self.logs@ = new_logs;
            self.offers@ = offers;
        }
    }
}

} // verus!
