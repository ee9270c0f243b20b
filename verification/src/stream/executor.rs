//! What all executors have in common.

use vstd::prelude::*;

use crate::catalog::Schema;
use crate::common::lists::copy_indices;
use crate::stream::message::Barrier;

verus! {

/// Static information of an executor.
#[derive(Debug)]
pub struct ExecutorInfo {
    /// See [`Executor::schema`].
    pub schema: Schema,
    /// See [`Executor::pk_indices`].
    pub pk_indices: Vec<usize>,
    /// See [`Executor::identity`].
    pub identity: String,
}

/// Whether an executor has seen its first barrier, and the epoch that it is in.
#[derive(Clone, Copy, Debug, PartialEq, Eq, Structural)]
pub enum ExecutorState {
    /// Waiting for the first barrier.
    Init,
    /// In the given epoch.
    Active(u64),
}

/// `Executor` supports handling of control messages.
pub trait Executor: Sized {
    /// The information that the executor keeps.
    spec fn info_of(&self) -> ExecutorInfo;

    /// Return the schema of the OUTPUT of the executor.
    fn schema(&self) -> (r: &Schema)
        ensures
            *r == self.info_of().schema,
    ;

    /// Return the primary key indices of the OUTPUT of the executor.
    /// Schema is used by both OLAP and streaming, therefore
    /// pk indices are maintained independently.
    fn pk_indices(&self) -> (r: &Vec<usize>)
        ensures
            *r == self.info_of().pk_indices,
    ;

    /// Identity of the executor.
    fn identity(&self) -> (r: &String)
        ensures
            *r == self.info_of().identity,
    ;

    /// The information that the executor keeps.
    fn info(&self) -> (r: ExecutorInfo)
        ensures
            r.schema@ == self.info_of().schema@,
            r.pk_indices@ == self.info_of().pk_indices@,
            r.identity == self.info_of().identity,
    {
        let schema = self.schema().copy();
        let pk_indices = copy_indices(self.pk_indices());
        let identity = self.identity().clone();
        ExecutorInfo { schema, pk_indices, identity }
    }
}

/// An executor that waits for a first barrier.
pub trait StatefulExecutor: Executor {
    /// The state of the executor.
    spec fn state_of(&self) -> ExecutorState;

    /// The state of the executor.
    fn executor_state(&self) -> (r: &ExecutorState)
        ensures
            *r == self.state_of(),
    ;

    /// Moves the executor to another state.
    fn update_executor_state(&mut self, new_state: ExecutorState)
        ensures
            final(self).state_of() == new_state,
            final(self).info_of() == old(self).info_of(),
    ;

    /// Try initializing the executor if not done.
    /// Return:
    /// - Some(Epoch) if the executor is successfully initialized
    /// - None if the executor has been initialized
    ///
    /// The first message that the executor receives must be a barrier.
    fn try_init_executor(&mut self, barrier: Option<&Barrier>) -> (r: Option<Barrier>)
        requires
            old(self).state_of() is Init ==> barrier is Some,
        ensures
            final(self).info_of() == old(self).info_of(),
            match old(self).state_of() {
                ExecutorState::Init => {
                    &&& final(self).state_of() == ExecutorState::Active(barrier->0.epoch.curr)
                    &&& r matches Some(b)
                    &&& b@ == barrier->0@
                },
                ExecutorState::Active(_) => {
                    &&& *final(self) == *old(self)
                    &&& r is None
                },
            },
    {
        let state: ExecutorState = *self.executor_state();
        match state {
            ExecutorState::Init => {
                match barrier {
                    Some(b) => {
                        self.update_executor_state(ExecutorState::Active(b.epoch.curr));
                        Some(b.copy())
                    },
                    None => None,
                }
            },
            ExecutorState::Active(_) => None,
        }
    }
}

/// The states through which barriers take an executor.
pub open spec fn state_after(state: ExecutorState, curr: u64) -> ExecutorState {
    match state {
        ExecutorState::Init => ExecutorState::Active(curr),
        ExecutorState::Active(_) => state,
    }
}

/// An executor is initialized once: a second barrier does not change its state.
pub proof fn law_initialized_once(state: ExecutorState, first: u64, second: u64)
    ensures
        state_after(state_after(state, first), second) == state_after(state, first),
{
}

} // verus!
