//! Tasks and the wake protocol. A task pairs a stable identity with a
//! suspendable computation: a state machine that is advanced one step at a
//! time and reports either "done" or "not yet". The wake handle is the
//! capability to re-submit a suspended task to the ready-queue; the reactor
//! stores it and hands it back when the task's I/O source becomes ready.
//!
//! A computation must only ever be advanced by one caller at a time; here
//! that exclusivity is expressed directly by `&mut` ownership, which gives
//! the guarantee by construction rather than by a lock.

use vstd::prelude::*;

use crate::ids::IdCounter;
use crate::reactor::Reactor;

verus! {

/// A process-unique, monotonically increasing task identity, never reused.
/// Identity only: it carries no meaning beyond lookup in the waker cache.
#[derive(Debug, Clone, Copy, PartialEq, Eq, Structural, Hash)]
pub struct TaskId(pub u64);

impl TaskId {
    /// Mint a fresh task identity from the shared counter.
    pub fn new(ids: &mut IdCounter) -> (r: TaskId)
        requires
            old(ids).next_id() < u64::MAX,
        ensures
            r.0 == old(ids).next_id(),
            final(ids).next_id() == old(ids).next_id() + 1,
    {
        TaskId(ids.fresh())
    }
}

/// The capability to re-submit one suspended task to the ready-queue.
/// Invoking it (through `Executor::wake`) is the only way a suspended task
/// re-enters scheduling.
#[derive(Debug, Clone, Copy, PartialEq, Eq, Structural)]
pub struct WakeHandle {
    pub task: TaskId,
}

/// What one advance step of a computation reports: finished, or suspended
/// waiting for a wake.
#[derive(Debug, Clone, Copy, PartialEq, Eq, Structural)]
pub enum Advanced {
    Done,
    Suspended,
}

/// A suspendable computation: a resumable state machine advanced one step
/// per call. `waker` is the handle an I/O operation registers with the
/// reactor when it must suspend; computations spawned during the step are
/// pushed onto `spawned` and enqueued by the scheduler afterwards.
pub trait Compute where Self: Sized {
    fn advance(&mut self, waker: WakeHandle, reactor: &mut Reactor, spawned: &mut Vec<Self>) -> Advanced;
}

/// One schedulable unit: a stable identity plus its computation.
pub struct Task<C> {
    id: TaskId,
    computation: C,
}

impl<C: Compute> Task<C> {
    /// The stable identity of the task.
    pub closed spec fn spec_id(self) -> TaskId {
        self.id
    }

    /// The suspendable computation the task carries.
    pub closed spec fn spec_computation(self) -> C {
        self.computation
    }

    /// Wrap a computation in a task with a fresh identity; the computation
    /// starts suspended and not yet advanced.
    pub fn new(computation: C, ids: &mut IdCounter) -> (r: Task<C>)
        requires
            old(ids).next_id() < u64::MAX,
        ensures
            r.spec_id().0 == old(ids).next_id(),
            r.spec_computation() == computation,
            final(ids).next_id() == old(ids).next_id() + 1,
    {
        Task { id: TaskId::new(ids), computation }
    }

    /// Drive the computation forward exactly one step. The task's identity
    /// never changes, whatever the computation does.
    pub fn poll(&mut self, waker: WakeHandle, reactor: &mut Reactor, spawned: &mut Vec<C>) -> (r: Advanced)
        ensures
            final(self).spec_id() == old(self).spec_id(),
    {
        self.computation.advance(waker, reactor, spawned)
    }

    pub fn task_id(&self) -> (r: TaskId)
        ensures
            r == self.spec_id(),
    {
        self.id
    }
}

} // verus!
