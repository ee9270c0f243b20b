//! Merging channels, with barriers aligned.

use vstd::multiset::Multiset;
use vstd::prelude::*;

use crate::catalog::Schema;
use crate::stream::executor::{Executor, ExecutorInfo};
use crate::stream::message::{stops, ActorId, Barrier, BarrierView, Message};

verus! {

/// The number of a channel.
pub type ChannelId = u64;

/// `MergeExecutor` merges data from multiple channels. Dataflow from one channel
/// will be stopped on barrier.
#[derive(Debug)]
pub struct MergeExecutor {
    /// Number of inputs
    num_inputs: usize,
    /// Active channels
    active: Vec<ChannelId>,
    /// Count of terminated channels
    terminated: usize,
    /// Channels that blocked by barriers are parked here. Would be put back
    /// until all barriers reached
    blocked: Vec<ChannelId>,
    /// Current barrier.
    next_barrier: Option<Barrier>,
    /// Belonged actor id.
    actor_id: ActorId,
    info: ExecutorInfo,
}

/// The state of a merge.
pub struct MergeState {
    pub active: Seq<ChannelId>,
    pub blocked: Seq<ChannelId>,
    pub barrier: Option<BarrierView>,
    pub actor: ActorId,
}

/// What a message leads to.
#[derive(Debug)]
pub enum Emitted {
    /// Nothing yet: other channels still owe the barrier.
    Nothing,
    /// The message goes on.
    One(Message),
    /// The barrier goes on, and it is the last message of the executor.
    Last(Barrier),
}

/// What is sent on, by its meaning.
pub enum Output {
    Nothing,
    Chunk,
    Barrier(BarrierView),
    Last(BarrierView),
}

/// What comes in, by its meaning.
pub enum Input {
    Chunk,
    Barrier(BarrierView),
}

/// A message by its meaning; what a chunk holds is left aside.
pub open spec fn input_of(message: Message) -> Input {
    match message {
        Message::Chunk(_) => Input::Chunk,
        Message::Barrier(b) => Input::Barrier(b@),
    }
}

/// What is sent on for `message` is `output`; a chunk goes on unchanged.
pub open spec fn emits(emitted: Emitted, output: Output, message: Message) -> bool {
    match output {
        Output::Nothing => emitted is Nothing,
        Output::Chunk => emitted matches Emitted::One(m) && m == message,
        Output::Barrier(b) => emitted matches Emitted::One(Message::Barrier(e)) && e@ == b,
        Output::Last(b) => emitted matches Emitted::Last(e) && e@ == b,
    }
}

/// A channel may send the message: all barriers of an epoch are the same.
pub open spec fn may_receive(state: MergeState, input: Input) -> bool {
    match input {
        Input::Chunk => true,
        Input::Barrier(b) => state.barrier matches Some(next) ==> next == b,
    }
}

/// A sequence without the entry at `i`; the last entry takes its place.
pub open spec fn swap_removed(s: Seq<ChannelId>, i: int) -> Seq<ChannelId> {
    s.update(i, s.last()).drop_last()
}

/// The state after the active channel at `i` sent a message.
pub open spec fn next_state(state: MergeState, i: int, input: Input) -> MergeState {
    let from = state.active[i];
    let rest = swap_removed(state.active, i);
    match input {
        Input::Chunk => MergeState { active: rest.push(from), ..state },
        Input::Barrier(b) => {
            let blocked = state.blocked.push(from);
            if rest.len() > 0 {
                MergeState { active: rest, blocked, barrier: Some(b), ..state }
            } else {
                MergeState { active: blocked, blocked: Seq::empty(), barrier: None, ..state }
            }
        },
    }
}

/// What is sent on when the active channel at `i` sent a message.
pub open spec fn output_of(state: MergeState, input: Input) -> Output {
    match input {
        Input::Chunk => Output::Chunk,
        Input::Barrier(b) => if state.active.len() > 1 {
            Output::Nothing
        } else if stops(b, state.actor) {
            Output::Last(b)
        } else {
            Output::Barrier(b)
        },
    }
}

/// The state holds together: the barrier is known if and only if a channel waits for
/// it, and some channel is active.
pub open spec fn coherent(state: MergeState) -> bool {
    &&& state.active.len() > 0
    &&& state.blocked.len() > 0 <==> state.barrier is Some
}

/// The channels of a merge.
pub open spec fn channels(state: MergeState) -> Multiset<ChannelId> {
    (state.active + state.blocked).to_multiset()
}

impl View for MergeExecutor {
    type V = MergeState;

    closed spec fn view(&self) -> MergeState {
        MergeState {
            active: self.active@,
            blocked: self.blocked@,
            barrier: match self.next_barrier {
                Some(b) => Some(b@),
                None => None,
            },
            actor: self.actor_id,
        }
    }
}

impl Executor for MergeExecutor {
    closed spec fn info_of(&self) -> ExecutorInfo {
        self.info
    }

    fn schema(&self) -> &Schema {
        &self.info.schema
    }

    fn pk_indices(&self) -> &Vec<usize> {
        &self.info.pk_indices
    }

    fn identity(&self) -> &String {
        &self.info.identity
    }
}

impl MergeExecutor {
    /// The number of inputs.
    pub closed spec fn inputs(&self) -> nat {
        self.num_inputs as nat
    }

    /// The counts agree with the channels.
    pub closed spec fn counted(&self) -> bool {
        &&& self.active@.len() + self.blocked@.len() == self.num_inputs
        &&& self.terminated == (if self.next_barrier matches Some(b) && stops(b@, self.actor_id) {
            self.blocked@.len()
        } else {
            0
        })
    }

    /// The executor can go on.
    pub open spec fn wf(&self) -> bool {
        coherent(self@) && self.counted()
    }

    /// A merge of the given channels.
    pub fn new(schema: Schema, pk_indices: Vec<usize>, actor_id: ActorId, inputs: Vec<ChannelId>) -> (r: Self)
        ensures
            inputs@.len() > 0 ==> r.wf(),
            r@ == (MergeState { active: inputs@, blocked: Seq::empty(), barrier: None, actor: actor_id }),
            r.inputs() == inputs@.len(),
            r.info_of().schema == schema,
            r.info_of().pk_indices == pk_indices,
            r.info_of().identity@ == "MergeExecutor"@,
    {
        let num_inputs: usize = inputs.len();
        let r = MergeExecutor {
            num_inputs,
            active: inputs,
            blocked: Vec::new(),
            terminated: 0,
            next_barrier: None,
            actor_id,
            info: ExecutorInfo { schema, pk_indices, identity: "MergeExecutor".to_owned() },
        };
        proof {
            assert(r@.blocked =~= Seq::empty());
        }
        r
    }

    /// The active channels, in the order in which they are waited for.
    pub fn active(&self) -> (r: &Vec<ChannelId>)
        ensures
            r@ == self@.active,
    {
        &self.active
    }

    /// Whether a channel may send the message now.
    pub fn accepts(&self, message: &Message) -> (r: bool)
        requires
            self.wf(),
        ensures
            r == may_receive(self@, input_of(*message)),
    {
        match (message, &self.next_barrier) {
            (Message::Barrier(barrier), Some(next)) => next.same(barrier),
            _ => true,
        }
    }

    /// Takes the message that the active channel at `id` sent, and says what to send on.
    ///
    /// All channels must send the same barrier. After the last message the executor
    /// takes no more.
    pub fn receive(&mut self, id: usize, message: Message) -> (r: Emitted)
        requires
            old(self).wf(),
            id < old(self)@.active.len(),
            may_receive(old(self)@, input_of(message)),
        ensures
            emits(r, output_of(old(self)@, input_of(message)), message),
            !(r is Last) ==> final(self).wf(),
            !(r is Last) ==> final(self)@ == next_state(old(self)@, id as int, input_of(message)),
            final(self).inputs() == old(self).inputs(),
            final(self).info_of() == old(self).info_of(),
    {
        let ghost before = self@;
        let from: ChannelId = self.active.swap_remove(id);
        proof {
            assert(self.active@ =~= swap_removed(before.active, id as int));
        }
        match message {
            Message::Chunk(chunk) => {
                self.active.push(from);
                Emitted::One(Message::Chunk(chunk))
            },
            Message::Barrier(barrier) => {
                if barrier.is_stop_of(self.actor_id) {
                    self.terminated = self.terminated + 1;
                }
                let ghost meaning = barrier@;
                if self.blocked.len() == 0 {
                    self.next_barrier = Some(barrier);
                }
                self.blocked.push(from);
                if self.terminated == self.num_inputs {
                    match self.next_barrier.take() {
                        Some(b) => {
                            return Emitted::Last(b);
                        },
                        None => {
                            return Emitted::Nothing;
                        },
                    }
                }
                if self.blocked.len() == self.num_inputs {
                    // Emit the barrier to downstream once all barriers collected from upstream
                    std::mem::swap(&mut self.active, &mut self.blocked);
                    proof {
                        assert(self.blocked@ =~= Seq::empty());
                    }
                    match self.next_barrier.take() {
                        Some(b) => Emitted::One(Message::Barrier(b)),
                        None => Emitted::Nothing,
                    }
                } else {
                    Emitted::Nothing
                }
            },
        }
    }
}

/// A step of a merge: the active channel at `at` sends `input`.
pub struct MergeStep {
    pub at: int,
    pub input: Input,
}

/// The state after the first `n` steps.
pub open spec fn state_after(state: MergeState, steps: Seq<MergeStep>, n: int) -> MergeState
    decreases n,
{
    if n <= 0 {
        state
    } else {
        next_state(state_after(state, steps, n - 1), steps[n - 1].at, steps[n - 1].input)
    }
}

/// Each of the first `n` steps can be taken, and none is the last message.
pub open spec fn can_run(state: MergeState, steps: Seq<MergeStep>, n: int) -> bool {
    forall|k: int|
        #![trigger steps[k]]
        0 <= k < n ==> {
            let s = state_after(state, steps, k);
            &&& 0 <= steps[k].at < s.active.len()
            &&& may_receive(s, steps[k].input)
            &&& !(output_of(s, steps[k].input) is Last)
        }
}

/// How many barriers came in with the first `n` steps.
pub open spec fn barriers_in(steps: Seq<MergeStep>, n: int) -> nat
    decreases n,
{
    if n <= 0 {
        0
    } else {
        barriers_in(steps, n - 1) + if steps[n - 1].input is Barrier {
            1nat
        } else {
            0nat
        }
    }
}

/// How many barriers went on with the first `n` steps.
pub open spec fn barriers_out(state: MergeState, steps: Seq<MergeStep>, n: int) -> nat
    decreases n,
{
    if n <= 0 {
        0
    } else {
        barriers_out(state, steps, n - 1) + if output_of(
            state_after(state, steps, n - 1),
            steps[n - 1].input,
        ) is Barrier {
            1nat
        } else {
            0nat
        }
    }
}

proof fn lemma_swap_removed(s: Seq<ChannelId>, i: int)
    requires
        0 <= i < s.len(),
    ensures
        swap_removed(s, i).push(s[i]).to_multiset() == s.to_multiset(),
{
    broadcast use vstd::seq_lib::group_to_multiset_ensures;

    let rest = swap_removed(s, i);
    let without = s.update(i, s.last());
    assert(without =~= rest.push(s.last()));
    assert(s.update(i, s.last()).to_multiset() =~= s.to_multiset().insert(s.last()).remove(s[i]));
    assert(rest.push(s.last()).to_multiset() =~= rest.to_multiset().insert(s.last()));
    assert(rest.push(s[i]).to_multiset() =~= rest.to_multiset().insert(s[i]));
    let (a, b) = (rest.to_multiset(), s.to_multiset());
    assert(a.insert(s.last()) =~= b.insert(s.last()).remove(s[i]));
    assert(b.contains(s[i]));
    assert forall|c: ChannelId| a.insert(s[i]).count(c) == b.count(c) by {
        assert(a.insert(s.last()).count(c) == b.insert(s.last()).remove(s[i]).count(c));
    }
    assert(a.insert(s[i]) =~= b);
}

/// A step keeps the state coherent and loses no channel: each is either active or
/// waits for the barrier.
pub proof fn law_step_keeps_channels(state: MergeState, i: int, input: Input)
    requires
        coherent(state),
        0 <= i < state.active.len(),
    ensures
        coherent(next_state(state, i, input)),
        channels(next_state(state, i, input)) == channels(state),
{
    broadcast use vstd::seq_lib::group_to_multiset_ensures;

    let next = next_state(state, i, input);
    let from = state.active[i];
    let rest = swap_removed(state.active, i);
    lemma_swap_removed(state.active, i);
    vstd::seq_lib::lemma_multiset_commutative(state.active, state.blocked);
    vstd::seq_lib::lemma_multiset_commutative(next.active, next.blocked);
    assert(rest.push(from).to_multiset() =~= rest.to_multiset().insert(from));
    assert(state.blocked.push(from).to_multiset() =~= state.blocked.to_multiset().insert(from));
    match input {
        Input::Chunk => {},
        Input::Barrier(_) => {
            if rest.len() == 0 {
                assert(rest =~= Seq::empty());
                assert(next.blocked.to_multiset() =~= Multiset::empty());
                assert(rest.to_multiset() =~= Multiset::empty());
            }
        },
    }
    assert(channels(next) =~= channels(state));
}

/// Barriers are aligned: when a barrier has gone on `k` times, it came in `k` times
/// from each input, and once more from each channel that waits.
pub proof fn law_barriers_align(state: MergeState, steps: Seq<MergeStep>, n: int)
    requires
        coherent(state),
        state.blocked.len() == 0,
        0 <= n <= steps.len(),
        can_run(state, steps, n),
    ensures
        coherent(state_after(state, steps, n)),
        state_after(state, steps, n).active.len() + state_after(state, steps, n).blocked.len() == state.active.len(),
        barriers_in(steps, n) == state.active.len() * barriers_out(state, steps, n) + state_after(
            state,
            steps,
            n,
        ).blocked.len(),
    decreases n,
{
    if n > 0 {
        law_barriers_align(state, steps, n - 1);
        let s = state_after(state, steps, n - 1);
        let step = steps[n - 1];
        let inputs = state.active.len() as int;
        let k = barriers_out(state, steps, n - 1) as int;
        assert(next_state(s, step.at, step.input).blocked.len() == state_after(state, steps, n).blocked.len());
        if step.input is Barrier && s.active.len() == 1 {
            assert(inputs * (k + 1) == inputs * k + inputs) by (nonlinear_arith);
        }
    } else {
        assert(state.active.len() * 0 == 0) by (nonlinear_arith);
    }
}

/// A channel that sent its barrier is not listened to until the barrier goes on: as
/// long as nothing goes on, the channels that wait stay.
pub proof fn law_blocked_channels_wait(state: MergeState, i: int, input: Input, k: int)
    requires
        coherent(state),
        0 <= i < state.active.len(),
        0 <= k < state.blocked.len(),
        !(output_of(state, input) is Barrier),
        !(output_of(state, input) is Last),
    ensures
        k < next_state(state, i, input).blocked.len(),
        next_state(state, i, input).blocked[k] == state.blocked[k],
{
}

/// What is done with what came from another node.
#[derive(Debug)]
pub enum RemoteStep {
    /// The message goes to the channel of the executor.
    Forward(Message),
    /// Nothing more is read.
    Stop,
}

/// What is done with what came from another node: a message goes on, and an error of
/// the connection or of the decoding ends the reading.
pub fn forward_remote(received: Result<Result<Message, String>, String>) -> (r: RemoteStep)
    ensures
        match received {
            Ok(Ok(message)) => r == RemoteStep::Forward(message),
            _ => r is Stop,
        },
{
    match received {
        Ok(Ok(message)) => RemoteStep::Forward(message),
        _ => RemoteStep::Stop,
    }
}

/// A chunk goes on at once, and its channel stays active; all channels that wait go on waiting.
pub proof fn law_chunks_pass(state: MergeState, i: int, emitted: Emitted, message: Message)
    requires
        coherent(state),
        0 <= i < state.active.len(),
        message is Chunk,
        emits(emitted, output_of(state, input_of(message)), message),
    ensures
        emitted == Emitted::One(message),
        next_state(state, i, input_of(message)).active.contains(state.active[i]),
        next_state(state, i, input_of(message)).blocked == state.blocked,
        next_state(state, i, input_of(message)).barrier == state.barrier,
{
    let next = next_state(state, i, input_of(message)).active;
    assert(next[next.len() - 1] == state.active[i]);
}

/// A barrier goes on exactly when the last channel has sent it; it is the last message if it stops the
/// actor. Its channel waits from then on, until the barrier has gone on, and then all channels are
/// active again.
pub proof fn law_barrier_waits_for_all(state: MergeState, i: int, b: BarrierView)
    requires
        coherent(state),
        0 <= i < state.active.len(),
    ensures
        state.active.len() > 1 ==> output_of(state, Input::Barrier(b)) is Nothing && next_state(
            state,
            i,
            Input::Barrier(b),
        ).blocked == state.blocked.push(state.active[i]) && next_state(state, i, Input::Barrier(b)).active.len()
            == state.active.len() - 1 && next_state(state, i, Input::Barrier(b)).barrier == Some(b),
        state.active.len() == 1 && stops(b, state.actor) ==> output_of(state, Input::Barrier(b)) == Output::Last(b),
        state.active.len() == 1 && !stops(b, state.actor) ==> output_of(state, Input::Barrier(b)) == Output::Barrier(b),
        state.active.len() == 1 ==> next_state(state, i, Input::Barrier(b)).active == state.blocked.push(
            state.active[0],
        ) && next_state(state, i, Input::Barrier(b)).blocked.len() == 0 && next_state(
            state,
            i,
            Input::Barrier(b),
        ).barrier is None,
{
}

/// While channels wait at a barrier, no other barrier may come; chunks may always come.
pub proof fn law_one_barrier_at_a_time(state: MergeState, b: BarrierView)
    ensures
        may_receive(state, Input::Chunk),
        state.barrier is None ==> may_receive(state, Input::Barrier(b)),
        state.barrier matches Some(waiting) ==> (may_receive(state, Input::Barrier(b)) <==> b == waiting),
{
}

/// What comes out is what was said to: nothing, the chunk that came in, or the barrier, alone or as the last message.
pub proof fn law_outputs_are_emitted(emitted: Emitted, message: Message, b: BarrierView)
    ensures
        emits(emitted, Output::Nothing, message) <==> emitted is Nothing,
        emits(emitted, Output::Chunk, message) <==> emitted == Emitted::One(message),
        emits(emitted, Output::Barrier(b), message) <==> (emitted matches Emitted::One(Message::Barrier(e)) && e@ == b),
        emits(emitted, Output::Last(b), message) <==> (emitted matches Emitted::Last(e) && e@ == b),
{
}

} // verus!
