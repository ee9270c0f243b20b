//! The server of the meta service.

use vstd::prelude::*;
use vstd::string::StringExecFns;

use crate::common::error::{ErrorCode, ErrorView};

verus! {

/// Where the meta service keeps its data.
#[derive(Debug)]
pub enum MetaStoreBackend {
    Etcd { endpoints: Vec<String> },
    Mem,
}

/// What has to be opened before the server starts.
#[derive(Debug)]
pub enum StoreToOpen {
    /// A connection to etcd, which is kept alive.
    Etcd { endpoints: Vec<String>, keep_alive_interval_secs: u64, keep_alive_timeout_secs: u64 },
    /// Nothing: the data is kept in memory.
    Mem,
}

/// What has to be opened for the given backend.
pub fn store_to_open(backend: MetaStoreBackend) -> (r: StoreToOpen)
    ensures
        r == match backend {
            MetaStoreBackend::Etcd { endpoints } => StoreToOpen::Etcd {
                endpoints,
                keep_alive_interval_secs: 3,
                keep_alive_timeout_secs: 5,
            },
            MetaStoreBackend::Mem => StoreToOpen::Mem,
        },
{
    match backend {
        MetaStoreBackend::Etcd { endpoints } => StoreToOpen::Etcd {
            endpoints,
            keep_alive_interval_secs: 3,
            keep_alive_timeout_secs: 5,
        },
        MetaStoreBackend::Mem => StoreToOpen::Mem,
    }
}

/// The error of a connection that failed.
pub fn connect_error(reason: &str) -> (r: ErrorCode)
    ensures
        r@ == ErrorView::InternalError("failed to connect etcd "@ + reason@),
{
    let mut m: String = "failed to connect etcd ".to_owned();
    m.append(reason);
    ErrorCode::InternalError(m)
}

/// What to do with the tasks of the server when it shuts down.
#[derive(Clone, Copy, Debug, PartialEq, Eq, Structural)]
pub enum TaskShutdown {
    /// The task was told to stop: wait until it has.
    Join,
    /// The task is gone.
    Skip,
}

/// What to do with each task, given whether it could be told to stop.
pub fn shutdown_tasks(told: &Vec<bool>) -> (r: Vec<TaskShutdown>)
    ensures
        r@.len() == told@.len(),
        forall|i: int|
            0 <= i < told@.len() ==> #[trigger] r@[i] == if told@[i] {
                TaskShutdown::Join
            } else {
                TaskShutdown::Skip
            },
{
    let mut r: Vec<TaskShutdown> = Vec::new();
    let mut i: usize = 0;
    while i < told.len()
        invariant
            i <= told@.len(),
            r@.len() == i,
            forall|j: int|
                0 <= j < i ==> #[trigger] r@[j] == if told@[j] {
                    TaskShutdown::Join
                } else {
                    TaskShutdown::Skip
                },
        decreases told@.len() - i,
    {
        r.push(
            if told[i] {
                TaskShutdown::Join
            } else {
                TaskShutdown::Skip
            },
        );
        i = i + 1;
    }
    r
}

} // verus!
