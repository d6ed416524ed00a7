//! The reactor: the single registry mapping an I/O registration key to the
//! pending wake handle for the task waiting on that source. The OS-level
//! readiness poller itself lives outside this crate; its registration and
//! deregistration calls are returned to the caller as `PollerOp` values so
//! that the table and the OS view are updated by the same code paths as in
//! the running system.

use vstd::prelude::*;

use std::collections::HashMap;

use crate::async_io::{Interest, PollerOp};
use crate::executor::{contains_id, sched_wf, Executor, FatalError, Spawner, QUEUE_CAPACITY};
use crate::task::{Compute, TaskId, WakeHandle};

verus! {

broadcast use vstd::std_specs::hash::group_hash_axioms;

/// The wakers table: at most one pending wake handle per registration key.
/// A new registration for a key that already has an entry overwrites it.
pub struct Reactor {
    wakers: HashMap<u64, WakeHandle>,
}

impl Reactor {
    /// The table's contents as a map from registration key to the pending
    /// wake handle. A map holds at most one value per key, so at most one
    /// handle is ever stored for a key at any instant.
    pub closed spec fn wakers_table(self) -> Map<u64, WakeHandle> {
        self.wakers@
    }

    pub fn new() -> (r: Reactor)
        ensures
            r.wakers_table() == Map::<u64, WakeHandle>::empty(),
    {
        Reactor { wakers: HashMap::new() }
    }

    /// Register interest for `key`: store `waker` as the pending handle,
    /// replacing any prior entry for the same key. The caller must also
    /// apply the returned operation to the OS poller.
    pub fn add_event(&mut self, key: u64, interest: Interest, waker: WakeHandle) -> (r: PollerOp)
        ensures
            final(self).wakers_table() == old(self).wakers_table().insert(key, waker),
            r == PollerOp::Register(key, interest),
    {
        self.wakers.insert(key, waker);
        PollerOp::Register(key, interest)
    }

    /// Deregister `key` from the OS poller (the caller applies the returned
    /// operation). The wakers table is deliberately left untouched: keys are
    /// never reused while their owner lives, so a stale entry is orphaned
    /// and harmless, and deregistering a source with no active registration
    /// neither fails nor disturbs the table.
    pub fn delete_event(&self, key: u64) -> (r: PollerOp)
        ensures
            r == PollerOp::Deregister(key),
    {
        PollerOp::Deregister(key)
    }

    /// Deliver readiness events: for each ready registration key, pop the
    /// pending wake handle stored for it, if any, and wake the task it
    /// names, moving it from the parked store to the back of the
    /// ready-queue. The caller blocks on the OS poller first and passes in
    /// the keys it reported. A key with no pending entry is skipped; a
    /// handle naming a task that is not parked wakes nothing — both are
    /// harmless. Delivery neither creates, loses nor duplicates tasks and
    /// keeps already-queued tasks in place; it fails only when a woken
    /// task cannot be re-queued because the queue is at capacity.
    pub fn react<C: Compute>(
        &mut self,
        ready_keys: &Vec<u64>,
        exec: &mut Executor<C>,
        sp: &mut Spawner<C>,
    ) -> (r: Result<(), FatalError>)
        requires
            sched_wf(*old(sp), *old(exec)),
        ensures
            sched_wf(*final(sp), *final(exec)),
            final(sp).next_id() == old(sp).next_id(),
            final(sp).queue_seq().len() >= old(sp).queue_seq().len(),
            forall|j: int|
                0 <= j < old(sp).queue_seq().len() ==> final(sp).queue_seq()[j] == old(
                    sp,
                ).queue_seq()[j],
            final(sp).queue_seq().len() + final(exec).parked_seq().len() == old(
                sp,
            ).queue_seq().len() + old(exec).parked_seq().len(),
            forall|t: TaskId|
                contains_id(final(exec).parked_ids(), t) ==> contains_id(
                    old(exec).parked_ids(),
                    t,
                ),
            r is Ok ==> final(self).wakers_table() == old(self).wakers_table().remove_keys(
                ready_keys@.to_set(),
            ),
            r is Ok ==> forall|k: u64|
                ready_keys@.contains(k) && old(self).wakers_table().contains_key(k)
                    && contains_id(old(exec).parked_ids(), old(self).wakers_table()[k].task)
                    ==> contains_id(final(sp).queued_ids(), old(self).wakers_table()[k].task),
            r matches Err(e) ==> e == FatalError::QueueFull && final(sp).queue_seq().len()
                == QUEUE_CAPACITY,
    {
        let n = ready_keys.len();
        let mut i: usize = 0;
        while i < n
            invariant
                sched_wf(*sp, *exec),
                n == ready_keys@.len(),
                0 <= i <= n,
                sp.next_id() == old(sp).next_id(),
                sp.queue_seq().len() >= old(sp).queue_seq().len(),
                forall|j: int|
                    0 <= j < old(sp).queue_seq().len() ==> sp.queue_seq()[j] == old(
                        sp,
                    ).queue_seq()[j],
                sp.queue_seq().len() + exec.parked_seq().len() == old(sp).queue_seq().len() + old(
                    exec,
                ).parked_seq().len(),
                forall|t: TaskId|
                    contains_id(exec.parked_ids(), t) ==> contains_id(old(exec).parked_ids(), t),
                forall|t: TaskId|
                    contains_id(old(exec).parked_ids(), t) ==> contains_id(exec.parked_ids(), t)
                        || contains_id(sp.queued_ids(), t),
                forall|k: u64|
                    ready_keys@.subrange(0, i as int).contains(k) && old(
                        self,
                    ).wakers_table().contains_key(k) && contains_id(
                        old(exec).parked_ids(),
                        old(self).wakers_table()[k].task,
                    ) ==> contains_id(sp.queued_ids(), old(self).wakers_table()[k].task),
                self.wakers_table() == old(self).wakers_table().remove_keys(
                    ready_keys@.subrange(0, i as int).to_set(),
                ),
            decreases n - i,
        {
            let key = ready_keys[i];
            let ghost prefix = ready_keys@.subrange(0, i as int);
            let ghost table_before = self.wakers_table();
            let ghost q_ids_before = sp.queued_ids();
            let ghost p_ids_before = exec.parked_ids();
            match self.take_waker(key) {
                Some(w) => {
                    match exec.wake(sp, w) {
                        Ok(()) => {},
                        Err(e) => {
                            return Err(e);
                        },
                    }
                },
                None => {},
            }
            proof {
                assert(self.wakers_table() =~= table_before.remove(key));
                assert(ready_keys@.subrange(0, i + 1) =~= prefix.push(key));
                // Queue membership only grows during one delivery step.
                assert forall|t: TaskId| contains_id(q_ids_before, t) implies contains_id(
                    sp.queued_ids(),
                    t,
                ) by {}
                // A task parked at entry is still parked or has been queued.
                assert forall|t: TaskId|
                    contains_id(old(exec).parked_ids(), t) implies contains_id(
                    exec.parked_ids(),
                    t,
                ) || contains_id(sp.queued_ids(), t) by {
                    if contains_id(p_ids_before, t) {
                        if !contains_id(exec.parked_ids(), t) {
                            assert(contains_id(sp.queued_ids(), t));
                        }
                    }
                }
                // Every processed ready key whose pending handle named a
                // task that was parked at the start of delivery has that
                // task on the queue now.
                assert forall|k: u64|
                    ready_keys@.subrange(0, i + 1).contains(k) && old(
                        self,
                    ).wakers_table().contains_key(k) && contains_id(
                        old(exec).parked_ids(),
                        old(self).wakers_table()[k].task,
                    ) implies contains_id(sp.queued_ids(), old(self).wakers_table()[k].task) by {
                    let t = old(self).wakers_table()[k].task;
                    let m = choose|m: int|
                        0 <= m < prefix.push(key).len() && prefix.push(key)[m] == k;
                    if m < prefix.len() {
                        assert(prefix[m] == k);
                        assert(contains_id(q_ids_before, t));
                    } else {
                        assert(k == key);
                        assert(!prefix.contains(k) ==> !prefix.to_set().contains(k));
                        if prefix.contains(k) {
                            assert(contains_id(q_ids_before, t));
                        } else {
                            assert(table_before.contains_key(key) && table_before[key] == old(
                                self,
                            ).wakers_table()[k]);
                            if contains_id(p_ids_before, t) {
                                assert(contains_id(sp.queued_ids(), t));
                            } else {
                                assert(contains_id(q_ids_before, t));
                            }
                        }
                    }
                }
                assert(prefix.push(key).to_set() =~= prefix.to_set().insert(key)) by {
                    assert forall|x: u64| #[trigger] prefix.push(key).contains(x) implies
                        prefix.contains(x) || x == key by {
                        let k = choose|k: int|
                            0 <= k < prefix.push(key).len() && prefix.push(key)[k] == x;
                        if k < prefix.len() {
                            assert(prefix[k] == x);
                        }
                    }
                    assert forall|x: u64| prefix.contains(x) || x == key implies #[trigger]
                        prefix.push(key).contains(x) by {
                        if prefix.contains(x) {
                            let k = choose|k: int| 0 <= k < prefix.len() && prefix[k] == x;
                            assert(prefix.push(key)[k] == x);
                        } else {
                            assert(prefix.push(key)[prefix.len() as int] == x);
                        }
                    }
                }
                assert(self.wakers_table() =~= old(self).wakers_table().remove_keys(
                    ready_keys@.subrange(0, i + 1).to_set(),
                ));
            }
            i = i + 1;
        }
        proof {
            assert(ready_keys@.subrange(0, n as int) =~= ready_keys@);
        }
        Ok(())
    }

    /// Remove and return the pending wake handle for `key`, if any.
    pub fn take_waker(&mut self, key: u64) -> (r: Option<WakeHandle>)
        ensures
            final(self).wakers_table() == old(self).wakers_table().remove(key),
            r matches Some(w) ==> old(self).wakers_table().contains_key(key)
                && w == old(self).wakers_table()[key],
            r is None ==> !old(self).wakers_table().contains_key(key),
    {
        self.wakers.remove(&key)
    }
}

/// Registering twice for the same key before delivery overwrites the first
/// handle and never duplicates the entry: the table afterwards holds the
/// second handle for that key, over the same set of keys as a single
/// registration would give.
pub proof fn lemma_register_overwrites(
    table: Map<u64, WakeHandle>,
    key: u64,
    first: WakeHandle,
    second: WakeHandle,
)
    ensures
        table.insert(key, first).insert(key, second) == table.insert(key, second),
        table.insert(key, first).insert(key, second)[key] == second,
{
    assert(table.insert(key, first).insert(key, second) =~= table.insert(key, second));
}

} // verus!
