//! What streams between executors.

use vstd::prelude::*;

use crate::common::chunk::StreamChunk;
use crate::common::scalar::Datum;

verus! {

/// The number of an actor.
pub type ActorId = u32;

/// The epoch that a barrier begins, and the one that it ends.
#[derive(Clone, Copy, Debug, PartialEq, Eq, Structural)]
pub struct Epoch {
    pub curr: u64,
    pub prev: u64,
}

/// A change to the graph of actors.
#[derive(Debug)]
pub enum Mutation {
    /// The given actors stop.
    Stop(Vec<ActorId>),
    /// Any other change, by its number.
    Other(u64),
}

/// A change by its meaning.
pub enum MutationView {
    Stop(Set<ActorId>),
    Other(u64),
}

impl View for Mutation {
    type V = MutationView;

    open spec fn view(&self) -> MutationView {
        match self {
            Mutation::Stop(actors) => MutationView::Stop(actors@.to_set()),
            Mutation::Other(n) => MutationView::Other(*n),
        }
    }
}

/// A barrier between two epochs.
#[derive(Debug)]
pub struct Barrier {
    pub epoch: Epoch,
    pub mutation: Option<Mutation>,
}

/// A barrier by its meaning.
pub struct BarrierView {
    pub epoch: Epoch,
    pub mutation: Option<MutationView>,
}

impl View for Barrier {
    type V = BarrierView;

    open spec fn view(&self) -> BarrierView {
        BarrierView {
            epoch: self.epoch,
            mutation: match self.mutation {
                Some(m) => Some(m@),
                None => None,
            },
        }
    }
}

/// The barrier stops the actor.
pub open spec fn stops(barrier: BarrierView, actor: ActorId) -> bool {
    match barrier.mutation {
        Some(MutationView::Stop(actors)) => actors.contains(actor),
        _ => false,
    }
}

/// A message between executors.
#[derive(Debug)]
pub enum Message {
    Chunk(StreamChunk<Datum>),
    Barrier(Barrier),
}

/// A copy of a list of actors.
fn copy_actors(actors: &Vec<ActorId>) -> (r: Vec<ActorId>)
    ensures
        r@ == actors@,
{
    let mut r: Vec<ActorId> = Vec::new();
    let mut i: usize = 0;
    while i < actors.len()
        invariant
            i <= actors@.len(),
            r@ == actors@.subrange(0, i as int),
        decreases actors@.len() - i,
    {
        r.push(actors[i]);
        i = i + 1;
        proof {
            assert(r@ =~= actors@.subrange(0, i as int));
        }
    }
    proof {
        assert(actors@.subrange(0, i as int) =~= actors@);
    }
    r
}

/// Whether an actor is among the given ones.
fn has_actor(actors: &Vec<ActorId>, actor: ActorId) -> (r: bool)
    ensures
        r == actors@.to_set().contains(actor),
{
    let mut i: usize = 0;
    while i < actors.len()
        invariant
            i <= actors@.len(),
            forall|j: int| 0 <= j < i ==> actors@[j] != actor,
        decreases actors@.len() - i,
    {
        if actors[i] == actor {
            proof {
                assert(actors@.to_set().contains(actors@[i as int]));
            }
            return true;
        }
        i = i + 1;
    }
    false
}

/// Whether all actors of a list are in another one.
fn all_in(actors: &Vec<ActorId>, others: &Vec<ActorId>) -> (r: bool)
    ensures
        r == actors@.to_set().subset_of(others@.to_set()),
{
    let mut i: usize = 0;
    while i < actors.len()
        invariant
            i <= actors@.len(),
            forall|j: int| 0 <= j < i ==> others@.to_set().contains(#[trigger] actors@[j]),
        decreases actors@.len() - i,
    {
        if !has_actor(others, actors[i]) {
            proof {
                assert(actors@.to_set().contains(actors@[i as int]));
            }
            return false;
        }
        i = i + 1;
    }
    true
}

impl Barrier {
    /// A copy of the barrier.
    pub fn copy(&self) -> (r: Barrier)
        ensures
            r@ == self@,
    {
        let mutation = match &self.mutation {
            Some(Mutation::Stop(actors)) => Some(Mutation::Stop(copy_actors(actors))),
            Some(Mutation::Other(n)) => Some(Mutation::Other(*n)),
            None => None,
        };
        Barrier { epoch: self.epoch, mutation }
    }

    /// Whether two barriers are the same.
    pub fn same(&self, other: &Barrier) -> (r: bool)
        ensures
            r == (self@ == other@),
    {
        if self.epoch != other.epoch {
            return false;
        }
        match (&self.mutation, &other.mutation) {
            (None, None) => true,
            (Some(Mutation::Stop(a)), Some(Mutation::Stop(b))) => {
                let equal: bool = all_in(a, b) && all_in(b, a);
                proof {
                    if equal {
                        assert(a@.to_set() =~= b@.to_set());
                    }
                }
                equal
            },
            (Some(Mutation::Other(a)), Some(Mutation::Other(b))) => *a == *b,
            _ => false,
        }
    }

    /// Whether the barrier stops the actor.
    pub fn is_stop_of(&self, actor: ActorId) -> (r: bool)
        ensures
            r == stops(self@, actor),
    {
        match &self.mutation {
            Some(Mutation::Stop(actors)) => has_actor(actors, actor),
            _ => false,
        }
    }
}

/// A barrier stops exactly the actors that it names; a barrier without such a change stops none.
pub proof fn law_barrier_stops_named_actors(barrier: Barrier, actor: ActorId)
    ensures
        barrier.mutation matches Some(Mutation::Stop(actors)) ==> (stops(barrier@, actor) <==> actors@.contains(actor)),
        !(barrier.mutation matches Some(Mutation::Stop(_))) ==> !stops(barrier@, actor),
{
    if let Some(Mutation::Stop(actors)) = barrier.mutation {
        assert(actors@.to_set().contains(actor) == actors@.contains(actor));
    }
}

} // verus!
