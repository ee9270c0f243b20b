//! What the actors of a node share.

use std::collections::HashMap;
use vstd::prelude::*;
use vstd::string::StringExecFns;

use crate::common::error::{fails, ErrorCode, ErrorView};
use crate::common::text::{decimal, decimal_text};
use crate::stream::message::ActorId;

verus! {

broadcast use vstd::std_specs::hash::group_hash_axioms;

/// Default capacity of channel if two actors are on the same node
pub const LOCAL_OUTPUT_CHANNEL_SIZE: usize = 16;

/// The actor that sends and the actor that receives.
pub type UpDownActorIds = (ActorId, ActorId);

/// The two ends of a channel, until they are taken.
pub type ConsumableChannelPair<T, R> = (Option<T>, Option<R>);

/// Two actors as one number.
pub open spec fn packed(ids: UpDownActorIds) -> u64 {
    (ids.0 * 0x1_0000_0000 + ids.1) as u64
}

/// The two actors of a number.
pub open spec fn unpacked(key: u64) -> UpDownActorIds {
    ((key / 0x1_0000_0000) as ActorId, (key % 0x1_0000_0000) as ActorId)
}

proof fn lemma_packed(ids: UpDownActorIds)
    ensures
        packed(ids) == ids.0 * 0x1_0000_0000 + ids.1,
        unpacked(packed(ids)) == ids,
{
}

proof fn lemma_unpacked(key: u64)
    ensures
        packed(unpacked(key)) == key,
{
}

/// Two actors as one number.
fn pack(ids: &UpDownActorIds) -> (r: u64)
    ensures
        r == packed(*ids),
{
    (ids.0 as u64) * 0x1_0000_0000 + (ids.1 as u64)
}

/// Can report that the creation of a materialized view is finished.
#[derive(Clone, Copy, Debug, PartialEq, Eq, Structural)]
pub struct FinishCreateMviewNotifier {
    pub actor_id: ActorId,
}

/// Stores the information which may be modified from the data plane.
#[derive(Debug)]
pub struct SharedContext<T, R> {
    /// Stores the senders and receivers for later `Processor`'s usage.
    ///
    /// Each actor has several senders and several receivers. Senders and receivers are created
    /// during `update_actors` and stored in a channel map. Upon `build_actors`, all these channels
    /// will be taken out and built into the executors and outputs.
    /// One sender or one receiver can be uniquely determined by the upstream and downstream actor
    /// id.
    channel_map: HashMap<u64, ConsumableChannelPair<T, R>>,
    /// Stores the local address.
    ///
    /// It is used to test whether an actor is local or not,
    /// thus determining whether we should setup local channel only or remote rpc connection
    /// between two actors/actors.
    addr: String,
}

impl<T, R> View for SharedContext<T, R> {
    type V = Map<UpDownActorIds, ConsumableChannelPair<T, R>>;

    closed spec fn view(&self) -> Map<UpDownActorIds, ConsumableChannelPair<T, R>> {
        Map::new(
            |ids: UpDownActorIds| self.channel_map@.contains_key(packed(ids)),
            |ids: UpDownActorIds| self.channel_map@[packed(ids)],
        )
    }
}

/// The two numbers with words around them.
pub open spec fn between(before: Seq<char>, ids: UpDownActorIds, middle: Seq<char>, after: Seq<char>) -> Seq<char> {
    before + decimal(ids.0 as nat) + middle + decimal(ids.1 as nat) + after
}

/// Channels by the actors between which they run.
pub type Channels<T, R> = Map<UpDownActorIds, ConsumableChannelPair<T, R>>;

/// The channels after the sending end of one has been taken.
pub open spec fn sender_taken<T, R>(m: Channels<T, R>, ids: UpDownActorIds) -> Channels<T, R> {
    m.insert(ids, (None, m[ids].1))
}

/// The channels after the receiving end of one has been taken.
pub open spec fn receiver_taken<T, R>(m: Channels<T, R>, ids: UpDownActorIds) -> Channels<T, R> {
    m.insert(ids, (m[ids].0, None))
}

/// There is no channel between the actors.
pub open spec fn no_channel(ids: UpDownActorIds) -> ErrorView {
    ErrorView::InternalError(between("channel between "@, ids, " and "@, " does not exist"@))
}

/// The sender was taken before.
pub open spec fn no_sender(ids: UpDownActorIds) -> ErrorView {
    ErrorView::InternalError(between("sender from "@, ids, " to "@, " does no exist"@))
}

/// The receiver was taken before.
pub open spec fn no_receiver(ids: UpDownActorIds) -> ErrorView {
    ErrorView::InternalError(between("receiver from "@, ids, " to "@, " does no exist"@))
}

/// The two numbers with words around them.
fn between_text(before: &str, ids: &UpDownActorIds, middle: &str, after: &str) -> (r: String)
    ensures
        r@ == between(before@, *ids, middle@, after@),
{
    let mut m: String = before.to_owned();
    m.append(decimal_text(ids.0 as u64).as_str());
    m.append(middle);
    m.append(decimal_text(ids.1 as u64).as_str());
    m.append(after);
    m
}

impl<T, R> SharedContext<T, R> {
    /// A context without channels.
    pub fn new(addr: String) -> (r: Self)
        ensures
            r@ == Map::<UpDownActorIds, ConsumableChannelPair<T, R>>::empty(),
            r.address() == addr@,
    {
        let r = SharedContext { channel_map: HashMap::new(), addr };
        proof {
            assert(r@ =~= Map::<UpDownActorIds, ConsumableChannelPair<T, R>>::empty());
        }
        r
    }

    /// The local address.
    pub closed spec fn address(&self) -> Seq<char> {
        self.addr@
    }

    /// The local address.
    pub fn addr(&self) -> (r: &String)
        ensures
            r@ == self.address(),
    {
        &self.addr
    }

    /// Create a notifier for Create MV DDL finish. When an executor/actor (essentially a
    /// `ChainExecutor`) finishes its DDL job, it can report that using this notifier.
    /// Note that a DDL of MV always corresponds to an epoch in our system.
    pub fn register_finish_create_mview_notifier(&self, actor_id: ActorId) -> (r: FinishCreateMviewNotifier)
        ensures
            r.actor_id == actor_id,
    {
        FinishCreateMviewNotifier { actor_id }
    }

    /// Takes the sending end of the channel between two actors.
    pub fn take_sender(&mut self, ids: &UpDownActorIds) -> (r: Result<T, ErrorCode>)
        ensures
            final(self).address() == old(self).address(),
            if !old(self)@.contains_key(*ids) {
                fails(r, no_channel(*ids)) && final(self)@ == old(self)@
            } else {
                match old(self)@[*ids].0 {
                    None => fails(r, no_sender(*ids)) && final(self)@ == old(self)@,
                    Some(sender) => {
                        &&& r == Ok::<T, ErrorCode>(sender)
                        &&& final(self)@ == sender_taken(old(self)@, *ids)
                    },
                }
            },
    {
        let ghost before = self@;
        let ghost map = self.channel_map@;
        proof {
            assert forall|other: UpDownActorIds| packed(other) == packed(*ids) implies other == *ids by {
                lemma_packed(other);
                lemma_packed(*ids);
            }
        }
        let key: u64 = pack(ids);
        match self.channel_map.remove(&key) {
            None => {
                proof {
                    assert(self@ =~= before);
                }
                Err(ErrorCode::InternalError(between_text("channel between ", ids, " and ", " does not exist")))
            },
            Some((sender, receiver)) => {
                self.channel_map.insert(key, (None, receiver));
                match sender {
                    Some(s) => {
                        proof {
                            assert(self@ =~= before.insert(*ids, (None, receiver)));
                        }
                        Ok(s)
                    },
                    None => {
                        proof {
                            assert(self@ =~= before);
                        }
                        Err(ErrorCode::InternalError(between_text("sender from ", ids, " to ", " does no exist")))
                    },
                }
            },
        }
    }

    /// Takes the receiving end of the channel between two actors.
    pub fn take_receiver(&mut self, ids: &UpDownActorIds) -> (r: Result<R, ErrorCode>)
        ensures
            final(self).address() == old(self).address(),
            if !old(self)@.contains_key(*ids) {
                fails(r, no_channel(*ids)) && final(self)@ == old(self)@
            } else {
                match old(self)@[*ids].1 {
                    None => fails(r, no_receiver(*ids)) && final(self)@ == old(self)@,
                    Some(receiver) => {
                        &&& r == Ok::<R, ErrorCode>(receiver)
                        &&& final(self)@ == receiver_taken(old(self)@, *ids)
                    },
                }
            },
    {
        let ghost before = self@;
        proof {
            assert forall|other: UpDownActorIds| packed(other) == packed(*ids) implies other == *ids by {
                lemma_packed(other);
                lemma_packed(*ids);
            }
        }
        let key: u64 = pack(ids);
        match self.channel_map.remove(&key) {
            None => {
                proof {
                    assert(self@ =~= before);
                }
                Err(ErrorCode::InternalError(between_text("channel between ", ids, " and ", " does not exist")))
            },
            Some((sender, receiver)) => {
                self.channel_map.insert(key, (sender, None));
                match receiver {
                    Some(s) => {
                        proof {
                            assert(self@ =~= before.insert(*ids, (sender, None)));
                        }
                        Ok(s)
                    },
                    None => {
                        proof {
                            assert(self@ =~= before);
                        }
                        Err(ErrorCode::InternalError(between_text("receiver from ", ids, " to ", " does no exist")))
                    },
                }
            },
        }
    }

    /// Adds a channel between two actors; one that was there before is replaced.
    pub fn add_channel_pairs(&mut self, ids: UpDownActorIds, channels: ConsumableChannelPair<T, R>)
        ensures
            final(self).address() == old(self).address(),
            final(self)@ == old(self)@.insert(ids, channels),
    {
        let ghost before = self@;
        proof {
            assert forall|other: UpDownActorIds| packed(other) == packed(ids) implies other == ids by {
                lemma_packed(other);
                lemma_packed(ids);
            }
        }
        let key: u64 = pack(&ids);
        self.channel_map.insert(key, channels);
        proof {
            assert(self@ =~= before.insert(ids, channels));
        }
    }

    /// Keeps the channels for which `f` says so, and drops the others.
    pub fn retain<F: FnMut(&UpDownActorIds) -> bool>(&mut self, mut f: F)
        requires
            forall|ids: UpDownActorIds| #[trigger] f.requires((&ids,)),
        ensures
            final(self).address() == old(self).address(),
            final(self)@.submap_of(old(self)@),
            forall|ids: UpDownActorIds| #[trigger] old(self)@.contains_key(ids) ==> f.ensures((&ids,), final(self)@.contains_key(ids)),
    {
        let ghost before = self@;
        let ghost map = self.channel_map@;
        let dropped = self.to_drop(&mut f);
        let mut i: usize = 0;
        while i < dropped.len()
            invariant
                i <= dropped@.len(),
                self.address() == old(self).address(),
                self.channel_map@.submap_of(map),
                forall|k: u64|
                    #![trigger self.channel_map@.contains_key(k)]
                    map.contains_key(k) ==> (self.channel_map@.contains_key(k) <==> !dropped@.subrange(0, i as int).contains(k)),
            decreases dropped@.len() - i,
        {
            let ghost now = self.channel_map@;
            let ghost done = dropped@.subrange(0, i as int);
            let key: u64 = dropped[i];
            self.channel_map.remove(&key);
            i = i + 1;
            proof {
                let next = dropped@.subrange(0, i as int);
                assert(next =~= done.push(key));
                assert forall|k: u64| next.contains(k) == (done.contains(k) || k == key) by {
                    if done.contains(k) {
                        let j = done.index_of(k);
                        assert(next[j] == k);
                    }
                    assert(next[i - 1] == key);
                }
                assert(self.channel_map@ =~= now.remove(key));
            }
        }
        proof {
            assert(dropped@.subrange(0, i as int) =~= dropped@);
            assert forall|ids: UpDownActorIds| #[trigger] before.contains_key(ids) implies f.ensures(
                (&ids,),
                self@.contains_key(ids),
            ) by {
                lemma_packed(ids);
                let k = packed(ids);
                assert(map.contains_key(k));
                assert(settled(f, dropped@, k));
                assert(self.channel_map@.contains_key(k) <==> !dropped@.contains(k));
            }
            assert(self@.submap_of(before));
        }
    }

    /// The channels for which `f` says no.
    fn to_drop<F: FnMut(&UpDownActorIds) -> bool>(&self, f: &mut F) -> (r: Vec<u64>)
        requires
            forall|ids: UpDownActorIds| #[trigger] (*old(f)).requires((&ids,)),
        ensures
            *final(f) == *old(f),
            forall|k: u64| #[trigger] self.channel_map@.contains_key(k) ==> settled(*old(f), r@, k),
    {
        let mut dropped: Vec<u64> = Vec::new();
        for key in iter: self.channel_map.keys()
            invariant
                iter.seq().unref().to_set() == self.channel_map@.dom(),
                iter.seq().no_duplicates(),
                *f == *old(f),
                forall|ids: UpDownActorIds| #[trigger] (*old(f)).requires((&ids,)),
                forall|k: u64| #[trigger]
                    self.channel_map@.contains_key(k) ==> settled(*old(f), dropped@, k) || pending(
                        iter.seq(),
                        iter.index(),
                        k,
                    ),
                forall|k: u64| #[trigger] dropped@.contains(k) ==> !pending(iter.seq(), iter.index(), k),
        {
            let ghost i = iter.index();
            let ghost seq = iter.seq();
            let ghost before = dropped@;
            let ids: UpDownActorIds = ((*key / 0x1_0000_0000) as ActorId, (*key % 0x1_0000_0000) as ActorId);
            proof {
                assert(pending(seq, i, *key)) by {
                    assert(*seq[i] == *key);
                }
                assert forall|k: u64| pending(seq, i + 1, k) == (pending(seq, i, k) && k != *key) by {
                    if pending(seq, i, k) {
                        let j = choose|j: int| i <= j < seq.len() && *(#[trigger] seq[j]) == k;
                        if k != *key {
                            assert(j != i);
                        }
                    }
                    if pending(seq, i + 1, k) {
                        let j = choose|j: int| i + 1 <= j < seq.len() && *(#[trigger] seq[j]) == k;
                        assert(seq[j] != seq[i]);
                    }
                }
                assert(ids == unpacked(*key));
            }
            let keep = f(&ids);
            proof {
                assert((*old(f)).ensures((&ids,), keep));
                assert(!before.contains(*key));
            }
            if !keep {
                dropped.push(*key);
                proof {
                    assert forall|k: u64| dropped@.contains(k) == (before.contains(k) || k == *key) by {
                        if before.contains(k) {
                            let j = before.index_of(k);
                            assert(dropped@[j] == k);
                        }
                        assert(dropped@[before.len() as int] == *key);
                    }
                }
            }
            proof {
                assert(dropped@.contains(*key) == !keep);
                assert(settled(*old(f), dropped@, *key));
                assert forall|k: u64| #[trigger] dropped@.contains(k) implies !pending(seq, i + 1, k) by {
                    assert(before.contains(k) || k == *key);
                }
                assert forall|k: u64| k != *key implies dropped@.contains(k) == before.contains(k) by {}
            }
        }
        dropped
    }

    /// How many channels there are.
    pub fn get_channel_pair_number(&self) -> (r: usize)
        ensures
            r == self@.dom().len(),
    {
        proof {
            let keys = self.channel_map@.dom();
            let all = self@.dom();
            assert forall|k: u64| keys.contains(k) implies all.contains(unpacked(k)) by {
                lemma_unpacked(k);
            }
            assert forall|ids: UpDownActorIds| all.contains(ids) implies keys.contains(packed(ids)) && unpacked(packed(ids)) == ids by {
                lemma_packed(ids);
            }
            assert(keys.map(|k: u64| unpacked(k)) =~= all) by {
                assert forall|ids: UpDownActorIds| all.contains(ids) implies keys.map(|k: u64| unpacked(k)).contains(ids) by {
                    lemma_packed(ids);
                    let k = packed(ids);
                    assert(keys.contains(k) && unpacked(k) == ids);
                }
            }
            assert forall|a: u64, b: u64| #[trigger] unpacked(a) == #[trigger] unpacked(b) implies a == b by {
                lemma_unpacked(a);
                lemma_unpacked(b);
            }
            vstd::set_lib::lemma_map_size(keys, all, |k: u64| unpacked(k));
        }
        self.channel_map.len()
    }
}

/// `x` occurs in the list from position `i` on.
spec fn pending(seq: Seq<&u64>, i: int, x: u64) -> bool {
    exists|k: int| i <= k < seq.len() && *(#[trigger] seq[k]) == x
}

/// `f` said of the channel whether it is kept.
spec fn settled<F: FnMut(&UpDownActorIds) -> bool>(f: F, dropped: Seq<u64>, k: u64) -> bool {
    f.ensures((&unpacked(k),), !dropped.contains(k))
}

/// Once the sender is taken, a second attempt finds none, the receiver is still there,
/// and other channels are as they were.
pub proof fn law_sender_taken_once<T, R>(m: Channels<T, R>, ids: UpDownActorIds, other: UpDownActorIds)
    requires
        m.contains_key(ids),
    ensures
        sender_taken(m, ids).contains_key(ids),
        sender_taken(m, ids)[ids].0 is None,
        sender_taken(m, ids)[ids].1 == m[ids].1,
        sender_taken(m, ids).dom() == m.dom(),
        other != ids && m.contains_key(other) ==> sender_taken(m, ids)[other] == m[other],
{
    assert(sender_taken(m, ids).dom() =~= m.dom());
}

/// Once the receiver is taken, a second attempt finds none, the sender is still there,
/// and other channels are as they were.
pub proof fn law_receiver_taken_once<T, R>(m: Channels<T, R>, ids: UpDownActorIds, other: UpDownActorIds)
    requires
        m.contains_key(ids),
    ensures
        receiver_taken(m, ids).contains_key(ids),
        receiver_taken(m, ids)[ids].1 is None,
        receiver_taken(m, ids)[ids].0 == m[ids].0,
        receiver_taken(m, ids).dom() == m.dom(),
        other != ids && m.contains_key(other) ==> receiver_taken(m, ids)[other] == m[other],
{
    assert(receiver_taken(m, ids).dom() =~= m.dom());
}

/// The two ends of a channel can be taken in either order.
pub proof fn law_ends_taken_in_any_order<T, R>(m: Channels<T, R>, ids: UpDownActorIds)
    requires
        m.contains_key(ids),
    ensures
        sender_taken(receiver_taken(m, ids), ids) == receiver_taken(sender_taken(m, ids), ids),
{
    assert(sender_taken(receiver_taken(m, ids), ids) =~= receiver_taken(sender_taken(m, ids), ids));
}

/// Two pairs of actors have different numbers, and a pair is found again by its number.
pub proof fn law_pairs_have_their_numbers(a: UpDownActorIds, b: UpDownActorIds)
    ensures
        packed(a) == packed(b) ==> a == b,
        unpacked(packed(a)) == a,
{
    lemma_packed(a);
    lemma_packed(b);
}

/// An error about a channel names the sending actor first and the receiving one behind it.
pub proof fn law_errors_name_both_actors(ids: UpDownActorIds)
    ensures
        no_channel(ids) == ErrorView::InternalError(
            "channel between "@ + decimal(ids.0 as nat) + " and "@ + decimal(ids.1 as nat) + " does not exist"@,
        ),
        no_sender(ids) == ErrorView::InternalError(
            "sender from "@ + decimal(ids.0 as nat) + " to "@ + decimal(ids.1 as nat) + " does no exist"@,
        ),
        no_receiver(ids) == ErrorView::InternalError(
            "receiver from "@ + decimal(ids.0 as nat) + " to "@ + decimal(ids.1 as nat) + " does no exist"@,
        ),
{
}

} // verus!
