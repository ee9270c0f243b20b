//! An executor that is opened, asked for chunks and closed.

use vstd::prelude::*;

use crate::catalog::Schema;
use crate::common::error::{fails, ErrorCode, ErrorView};

verus! {

/// Where a wrapped executor stands; `E` is an executor and `S` the stream of its
/// chunks.
#[derive(Debug)]
pub enum WrapperState<E, S> {
    Created { executor: E },
    Opened { stream: S },
    Closed,
}

/// The schema and the name of an executor.
#[derive(Debug)]
pub struct ExecutorInfo {
    pub schema: Schema,
    pub id: String,
}

/// Wraps an executor that gives a stream, so that it can be asked chunk by chunk.
#[derive(Debug)]
pub struct Executor2Wrapper<E, S> {
    pub info: ExecutorInfo,
    pub state: WrapperState<E, S>,
}

impl<E, S> Executor2Wrapper<E, S> {
    /// A wrapper that is not open yet.
    pub fn from_executor(executor: E, schema: Schema, id: String) -> (r: Self)
        ensures
            r.info.schema == schema,
            r.info.id == id,
            r.state == (WrapperState::<E, S>::Created { executor }),
    {
        Executor2Wrapper { info: ExecutorInfo { schema, id }, state: WrapperState::Created { executor } }
    }

    /// Starts the executor, which can be done once. An attempt to start it again
    /// closes the wrapper.
    pub fn open<F: FnOnce(E) -> S>(&mut self, execute: F) -> (r: Result<(), ErrorCode>)
        requires
            forall|executor: E| #[trigger] execute.requires((executor,)),
        ensures
            final(self).info == old(self).info,
            match old(self).state {
                WrapperState::Created { executor } => {
                    &&& r is Ok
                    &&& final(self).state matches WrapperState::Opened { stream }
                    &&& execute.ensures((executor,), stream)
                },
                _ => {
                    &&& fails(r, ErrorView::InternalError("Executor already opened!"@))
                    &&& final(self).state is Closed
                },
            },
    {
        let mut tmp = WrapperState::Closed;
        std::mem::swap(&mut tmp, &mut self.state);
        match tmp {
            WrapperState::Created { executor } => {
                let stream = execute(executor);
                self.state = WrapperState::Opened { stream };
                Ok(())
            },
            _ => Err(ErrorCode::InternalError("Executor already opened!".to_owned())),
        }
    }

    /// Whether there is a stream to ask for the next chunk.
    pub fn is_open(&self) -> (r: bool)
        ensures
            r == (self.state is Opened),
    {
        match self.state {
            WrapperState::Opened { .. } => true,
            _ => false,
        }
    }

    /// The next chunk, given what the stream answered when it was asked; a wrapper
    /// that is not open has no chunks.
    pub fn next<C>(&self, answer: Option<Result<C, ErrorCode>>) -> (r: Result<Option<C>, ErrorCode>)
        ensures
            if self.state is Opened {
                match answer {
                    Some(Ok(chunk)) => r == Ok::<Option<C>, ErrorCode>(Some(chunk)),
                    Some(Err(e)) => r == Err::<Option<C>, ErrorCode>(e),
                    None => r == Ok::<Option<C>, ErrorCode>(None),
                }
            } else {
                fails(r, ErrorView::InternalError("Executor not in open state!"@))
            },
    {
        match self.state {
            WrapperState::Opened { .. } => match answer {
                Some(Ok(chunk)) => Ok(Some(chunk)),
                Some(Err(e)) => Err(e),
                None => Ok(None),
            },
            _ => Err(ErrorCode::InternalError("Executor not in open state!".to_owned())),
        }
    }

    /// Closes the wrapper.
    pub fn close(&mut self) -> (r: Result<(), ErrorCode>)
        ensures
            r is Ok,
            final(self).state is Closed,
            final(self).info == old(self).info,
    {
        self.state = WrapperState::Closed;
        Ok(())
    }

    /// The schema of the executor.
    pub fn schema(&self) -> (r: &Schema)
        ensures
            *r == self.info.schema,
    {
        &self.info.schema
    }

    /// The name of the executor.
    pub fn identity(&self) -> (r: &str)
        ensures
            r@ == self.info.id@,
    {
        self.info.id.as_str()
    }
}

} // verus!
