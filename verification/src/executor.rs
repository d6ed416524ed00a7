//! The scheduler: a bounded FIFO ready-queue, the spawning side that puts
//! new tasks on it, and the run loop that services each ready task one
//! advance step at a time.
//!
//! Ownership stands in for a shared channel: the `Spawner` owns the
//! ready-queue and the identifier counter, the `Executor` owns the parked
//! (suspended) tasks and the waker cache, and waking moves a task from the
//! parked store back onto the queue. The well-formedness predicate
//! `sched_wf` ties the two together: every scheduled task's identity is
//! unique, below the counter, and parked and queued tasks never overlap.

use vstd::prelude::*;

use crate::ids::IdCounter;
use crate::reactor::Reactor;
use crate::task::{Advanced, Compute, Task, TaskId, WakeHandle};

verus! {

/// Fixed capacity of the ready-queue. Exceeding it fails loudly: a
/// deliberate backpressure valve, not a queueing policy.
pub const QUEUE_CAPACITY: usize = 10000;

/// Unrecoverable process-level conditions: the ready-queue is at capacity,
/// or the identifier space is exhausted.
#[derive(Debug, Clone, Copy, PartialEq, Eq, Structural)]
pub enum FatalError {
    QueueFull,
    IdsExhausted,
}

/// No two identities among `s` coincide.
pub open spec fn distinct_ids(s: Seq<TaskId>) -> bool {
    forall|i: int, j: int| 0 <= i < j < s.len() ==> s[i] != s[j]
}

/// Every identity in `s` lies strictly below `bound`.
pub open spec fn ids_below(s: Seq<TaskId>, bound: u64) -> bool {
    forall|i: int| 0 <= i < s.len() ==> s[i].0 < bound
}

/// No identity occurs in both `a` and `b`.
pub open spec fn disjoint_ids(a: Seq<TaskId>, b: Seq<TaskId>) -> bool {
    forall|i: int, j: int| 0 <= i < a.len() && 0 <= j < b.len() ==> a[i] != b[j]
}

/// `t` occurs in `s`.
pub open spec fn contains_id(s: Seq<TaskId>, t: TaskId) -> bool {
    exists|i: int| 0 <= i < s.len() && s[i] == t
}

/// The position of `t` in `s` (meaningful when `contains_id(s, t)`; unique
/// when the identities are distinct).
pub open spec fn index_of_id(s: Seq<TaskId>, t: TaskId) -> int {
    choose|i: int| 0 <= i < s.len() && s[i] == t
}

/// The sending side of the scheduler: owns the bounded ready-queue and the
/// identifier counter from which every task identity is minted.
///
/// Under single ownership a sending handle cannot be duplicated the way a
/// cloneable channel end could be: there is one `Spawner`, passed by
/// `&mut` wherever spawning or waking happens. Components that want to
/// spawn from inside a running task do so through the `spawned` buffer
/// their `advance` step receives; the scheduler enqueues those afterwards.
pub struct Spawner<C> {
    queue: Vec<Task<C>>,
    ids: IdCounter,
}

/// The receiving side of the scheduler: owns the parked (suspended) tasks
/// and the waker cache, and services ready tasks one step at a time.
pub struct Executor<C> {
    parked: Vec<Task<C>>,
    cache: Vec<WakeHandle>,
}

impl<C: Compute> Spawner<C> {
    /// The queued tasks, front first.
    pub closed spec fn queue_seq(self) -> Seq<Task<C>> {
        self.queue@
    }

    /// The identities of the queued tasks, front first.
    pub open spec fn queued_ids(self) -> Seq<TaskId> {
        self.queue_seq().map_values(|t: Task<C>| t.spec_id())
    }

    /// The identity the next spawned task will get.
    pub closed spec fn next_id(self) -> u64 {
        self.ids.next_id()
    }

    /// The spawner's own part of well-formedness: queued identities are
    /// distinct, below the counter, and the queue respects its bound.
    pub open spec fn wf(self) -> bool {
        &&& distinct_ids(self.queued_ids())
        &&& ids_below(self.queued_ids(), self.next_id())
        &&& self.queue_seq().len() <= QUEUE_CAPACITY
    }

    pub fn new() -> (r: Spawner<C>)
        ensures
            r.wf(),
            r.queue_seq().len() == 0,
            r.next_id() == 0,
    {
        Spawner { queue: Vec::new(), ids: IdCounter::new() }
    }

    /// How many tasks are currently queued.
    pub fn queue_len(&self) -> (r: usize)
        ensures
            r == self.queue_seq().len(),
    {
        self.queue.len()
    }

    /// Wrap `computation` in a task with a fresh identity and put it at the
    /// back of the ready-queue. Fails — with the state unchanged — exactly
    /// when the queue is at capacity or the identifier space is exhausted;
    /// on success the new task's identity equals the counter's old value,
    /// so it differs from every identity handed out before.
    pub fn spawn(&mut self, computation: C) -> (r: Result<(), FatalError>)
        requires
            old(self).wf(),
        ensures
            final(self).wf(),
            old(self).queue_seq().len() >= QUEUE_CAPACITY ==> r == Err::<(), FatalError>(
                FatalError::QueueFull,
            ) && *final(self) == *old(self),
            old(self).queue_seq().len() < QUEUE_CAPACITY && old(self).next_id() == u64::MAX ==> r
                == Err::<(), FatalError>(FatalError::IdsExhausted) && *final(self) == *old(self),
            old(self).queue_seq().len() < QUEUE_CAPACITY && old(self).next_id() < u64::MAX ==> {
                &&& r == Ok::<(), FatalError>(())
                &&& final(self).queue_seq().len() == old(self).queue_seq().len() + 1
                &&& final(self).queued_ids() == old(self).queued_ids().push(
                    TaskId(old(self).next_id()),
                )
                &&& forall|j: int|
                    0 <= j < old(self).queue_seq().len() ==> final(self).queue_seq()[j] == old(
                        self,
                    ).queue_seq()[j]
                &&& final(self).queue_seq().last().spec_computation() == computation
                &&& final(self).next_id() == old(self).next_id() + 1
            },
    {
        if self.queue.len() >= QUEUE_CAPACITY {
            return Err(FatalError::QueueFull);
        }
        if !self.ids.has_headroom() {
            return Err(FatalError::IdsExhausted);
        }
        let task = Task::new(computation, &mut self.ids);
        self.queue.push(task);
        proof {
            assert(self.queued_ids() =~= old(self).queued_ids().push(
                TaskId(old(self).next_id()),
            ));
        }
        Ok(())
    }

    /// Take the task at the front of the queue.
    fn pop_front(&mut self) -> (r: Task<C>)
        requires
            old(self).queue_seq().len() > 0,
        ensures
            r == old(self).queue_seq()[0],
            final(self).queue_seq() == old(self).queue_seq().subrange(
                1,
                old(self).queue_seq().len() as int,
            ),
            final(self).next_id() == old(self).next_id(),
    {
        let t = self.queue.remove(0);
        proof {
            assert(self.queue@ =~= old(self).queue@.subrange(1, old(self).queue@.len() as int));
        }
        t
    }

    /// Put an already-identified task (a woken one) at the back of the
    /// queue.
    pub(crate) fn enqueue(&mut self, t: Task<C>)
        requires
            old(self).queue_seq().len() < QUEUE_CAPACITY,
        ensures
            final(self).queue_seq() == old(self).queue_seq().push(t),
            final(self).next_id() == old(self).next_id(),
    {
        self.queue.push(t);
    }
}

impl<C: Compute> Executor<C> {
    /// The parked (suspended) tasks.
    pub closed spec fn parked_seq(self) -> Seq<Task<C>> {
        self.parked@
    }

    /// The identities of the parked tasks.
    pub open spec fn parked_ids(self) -> Seq<TaskId> {
        self.parked_seq().map_values(|t: Task<C>| t.spec_id())
    }

    /// The waker cache's contents.
    pub closed spec fn cache_seq(self) -> Seq<WakeHandle> {
        self.cache@
    }

    /// The identities that have a cached resumption handle.
    pub open spec fn cached_ids(self) -> Seq<TaskId> {
        self.cache_seq().map_values(|w: WakeHandle| w.task)
    }

    pub fn new() -> (r: Executor<C>)
        ensures
            r.parked_seq().len() == 0,
            r.cache_seq().len() == 0,
    {
        Executor { parked: Vec::new(), cache: Vec::new() }
    }

    /// How many tasks are parked, suspended and waiting for a wake.
    pub fn parked_len(&self) -> (r: usize)
        ensures
            r == self.parked_seq().len(),
    {
        self.parked.len()
    }

    /// How many tasks have a cached resumption handle.
    pub fn cache_len(&self) -> (r: usize)
        ensures
            r == self.cache_seq().len(),
    {
        self.cache.len()
    }

    /// Whether `id` already has a cached resumption handle.
    fn cache_contains(&self, id: TaskId) -> (r: bool)
        ensures
            r == contains_id(self.cached_ids(), id),
    {
        let n = self.cache.len();
        let mut i: usize = 0;
        while i < n
            invariant
                n == self.cache_seq().len(),
                0 <= i <= n,
                forall|j: int| 0 <= j < i ==> self.cached_ids()[j] != id,
            decreases n - i,
        {
            if self.cache[i].task == id {
                assert(self.cached_ids()[i as int] == id);
                return true;
            }
            i = i + 1;
        }
        false
    }

    /// Look up or create the cached resumption handle for `id`: inserted on
    /// a task's first service, so later services reuse it.
    fn ensure_cached(&mut self, id: TaskId)
        requires
            distinct_ids(old(self).cached_ids()),
        ensures
            distinct_ids(final(self).cached_ids()),
            final(self).parked_seq() == old(self).parked_seq(),
            contains_id(old(self).cached_ids(), id) ==> *final(self) == *old(self),
            !contains_id(old(self).cached_ids(), id) ==> final(self).cache_seq() == old(
                self,
            ).cache_seq().push(WakeHandle { task: id }) && final(self).cached_ids() == old(
                self,
            ).cached_ids().push(id),
            contains_id(final(self).cached_ids(), id),
    {
        if !self.cache_contains(id) {
            self.cache.push(WakeHandle { task: id });
            proof {
                assert(self.cached_ids() =~= old(self).cached_ids().push(id));
                assert(self.cached_ids()[self.cached_ids().len() - 1] == id);
            }
        }
    }

    /// Evict the cached resumption handle for `id`, done when the task
    /// completes. Nothing changes when no handle is cached.
    fn evict(&mut self, id: TaskId)
        requires
            distinct_ids(old(self).cached_ids()),
        ensures
            distinct_ids(final(self).cached_ids()),
            final(self).parked_seq() == old(self).parked_seq(),
            !contains_id(final(self).cached_ids(), id),
            !contains_id(old(self).cached_ids(), id) ==> *final(self) == *old(self),
            forall|t: TaskId|
                contains_id(final(self).cached_ids(), t) ==> contains_id(
                    old(self).cached_ids(),
                    t,
                ),
            forall|t: TaskId|
                t != id && contains_id(old(self).cached_ids(), t) ==> contains_id(
                    final(self).cached_ids(),
                    t,
                ),
    {
        let n = self.cache.len();
        let mut i: usize = 0;
        while i < n
            invariant
                n == self.cache_seq().len(),
                0 <= i <= n,
                distinct_ids(self.cached_ids()),
                forall|j: int| 0 <= j < i ==> self.cached_ids()[j] != id,
                *self == *old(self),
            decreases n - i,
        {
            if self.cache[i].task == id {
                proof {
                    assert(old(self).cached_ids()[i as int] == id);
                }
                self.cache.remove(i);
                proof {
                    assert(self.cached_ids() =~= old(self).cached_ids().remove(i as int));
                    assert forall|t: TaskId|
                        contains_id(self.cached_ids(), t) implies contains_id(
                        old(self).cached_ids(),
                        t,
                    ) by {
                        let k = index_of_id(self.cached_ids(), t);
                        if k < i {
                            assert(old(self).cached_ids()[k] == t);
                        } else {
                            assert(old(self).cached_ids()[k + 1] == t);
                        }
                    }
                    assert forall|t: TaskId|
                        t != id && contains_id(old(self).cached_ids(), t) implies contains_id(
                        self.cached_ids(),
                        t,
                    ) by {
                        let k = index_of_id(old(self).cached_ids(), t);
                        if k < i {
                            assert(self.cached_ids()[k] == t);
                        } else if k > i {
                            assert(self.cached_ids()[k - 1] == t);
                        }
                    }
                    assert(!contains_id(self.cached_ids(), id)) by {
                        if contains_id(self.cached_ids(), id) {
                            let k = index_of_id(self.cached_ids(), id);
                            if k < i {
                                assert(old(self).cached_ids()[k] == id);
                            } else {
                                assert(old(self).cached_ids()[k + 1] == id);
                                assert(old(self).cached_ids()[i as int] == id);
                            }
                        }
                    }
                }
                return ;
            }
            i = i + 1;
        }
        proof {
            assert forall|t: TaskId| contains_id(self.cached_ids(), t) implies contains_id(
                old(self).cached_ids(),
                t,
            ) by {}
        }
    }

    /// Deliver one wake: move the task named by `wh` from the parked store
    /// to the back of the ready-queue, the only way a suspended task
    /// re-enters scheduling. Waking a task that is not parked — already
    /// queued, already completed, or never seen — succeeds and changes
    /// nothing. Where a shared-ownership design would append a duplicate
    /// reference for a redundant wake, each task lives in exactly one
    /// place here, so the redundant delivery finds nothing parked and is a
    /// provable no-op — harmless, and never a second advance. Fails, with
    /// the state unchanged, exactly when the task is parked but the queue
    /// is at capacity.
    pub fn wake(&mut self, sp: &mut Spawner<C>, wh: WakeHandle) -> (r: Result<(), FatalError>)
        requires
            sched_wf(*old(sp), *old(self)),
        ensures
            sched_wf(*final(sp), *final(self)),
            final(sp).next_id() == old(sp).next_id(),
            final(self).cache_seq() == old(self).cache_seq(),
            final(sp).queue_seq().len() >= old(sp).queue_seq().len(),
            forall|j: int|
                0 <= j < old(sp).queue_seq().len() ==> final(sp).queue_seq()[j] == old(
                    sp,
                ).queue_seq()[j],
            final(sp).queue_seq().len() + final(self).parked_seq().len() == old(
                sp,
            ).queue_seq().len() + old(self).parked_seq().len(),
            forall|t: TaskId|
                contains_id(final(self).parked_ids(), t) ==> contains_id(
                    old(self).parked_ids(),
                    t,
                ),
            forall|t: TaskId|
                t != wh.task && contains_id(old(self).parked_ids(), t) ==> contains_id(
                    final(self).parked_ids(),
                    t,
                ),
            forall|t: TaskId|
                contains_id(old(sp).queued_ids(), t) ==> contains_id(final(sp).queued_ids(), t),
            r matches Err(e) ==> e == FatalError::QueueFull && *final(self) == *old(self)
                && *final(sp) == *old(sp) && old(sp).queue_seq().len() == QUEUE_CAPACITY,
            !contains_id(old(self).parked_ids(), wh.task) ==> r == Ok::<(), FatalError>(())
                && *final(self) == *old(self) && *final(sp) == *old(sp),
            contains_id(old(self).parked_ids(), wh.task) && old(sp).queue_seq().len()
                >= QUEUE_CAPACITY ==> r == Err::<(), FatalError>(FatalError::QueueFull)
                && *final(self) == *old(self) && *final(sp) == *old(sp),
            contains_id(old(self).parked_ids(), wh.task) && old(sp).queue_seq().len()
                < QUEUE_CAPACITY ==> {
                let k = index_of_id(old(self).parked_ids(), wh.task);
                &&& r == Ok::<(), FatalError>(())
                &&& final(self).parked_seq() == old(self).parked_seq().remove(k)
                &&& final(sp).queue_seq() == old(sp).queue_seq().push(old(self).parked_seq()[k])
                &&& !contains_id(final(self).parked_ids(), wh.task)
                &&& contains_id(final(sp).queued_ids(), wh.task)
            },
    {
        let n = self.parked.len();
        let mut i: usize = 0;
        while i < n
            invariant
                n == self.parked_seq().len(),
                0 <= i <= n,
                forall|j: int| 0 <= j < i ==> self.parked_ids()[j] != wh.task,
                *self == *old(self),
                *sp == *old(sp),
                sched_wf(*sp, *self),
            decreases n - i,
        {
            if self.parked[i].task_id() == wh.task {
                proof {
                    assert(old(self).parked_ids()[i as int] == wh.task);
                    lemma_index_unique(old(self).parked_ids(), i as int);
                }
                if sp.queue_len() >= QUEUE_CAPACITY {
                    return Err(FatalError::QueueFull);
                }
                let t = self.parked.remove(i);
                proof {
                    assert(self.parked_ids() =~= old(self).parked_ids().remove(i as int));
                    lemma_removed_id_gone(old(self).parked_ids(), i as int);
                }
                sp.enqueue(t);
                proof {
                    assert(sp.queued_ids() =~= old(sp).queued_ids().push(wh.task));
                    assert(sp.queued_ids().last() == wh.task);
                    assert forall|a: int, b: int|
                        0 <= a < b < sp.queued_ids().len() implies sp.queued_ids()[a]
                        != sp.queued_ids()[b] by {
                        if b < sp.queued_ids().len() - 1 {
                            assert(old(sp).queued_ids()[a] == sp.queued_ids()[a]);
                            assert(old(sp).queued_ids()[b] == sp.queued_ids()[b]);
                        } else {
                            assert(sp.queued_ids()[b] == wh.task);
                        }
                    }
                    assert forall|a: int, b: int|
                        0 <= a < sp.queued_ids().len() && 0 <= b < self.parked_ids().len()
                        implies sp.queued_ids()[a] != self.parked_ids()[b] by {
                        assert(contains_id(self.parked_ids(), self.parked_ids()[b]));
                        if a < sp.queued_ids().len() - 1 {
                            assert(old(sp).queued_ids()[a] == sp.queued_ids()[a]);
                            assert(contains_id(old(self).parked_ids(), self.parked_ids()[b]));
                        }
                    }
                    assert forall|j: int| 0 <= j < self.cached_ids().len() implies contains_id(
                        sp.queued_ids(),
                        self.cached_ids()[j],
                    ) || contains_id(self.parked_ids(), self.cached_ids()[j]) by {
                        let c = self.cached_ids()[j];
                        if contains_id(old(sp).queued_ids(), c) {
                            let k = index_of_id(old(sp).queued_ids(), c);
                            assert(sp.queued_ids()[k] == c);
                        } else {
                            assert(contains_id(old(self).parked_ids(), c));
                            if c == wh.task {
                                assert(contains_id(sp.queued_ids(), c));
                            }
                        }
                    }
                    assert forall|t: TaskId|
                        contains_id(old(sp).queued_ids(), t) implies contains_id(
                        sp.queued_ids(),
                        t,
                    ) by {
                        let k = index_of_id(old(sp).queued_ids(), t);
                        assert(sp.queued_ids()[k] == t);
                    }
                    assert forall|j: int| 0 <= j < self.parked_ids().len() implies contains_id(
                        self.cached_ids(),
                        self.parked_ids()[j],
                    ) by {
                        assert(contains_id(self.parked_ids(), self.parked_ids()[j]));
                        assert(contains_id(old(self).parked_ids(), self.parked_ids()[j]));
                        let k = index_of_id(old(self).parked_ids(), self.parked_ids()[j]);
                        assert(contains_id(old(self).cached_ids(), old(self).parked_ids()[k]));
                    }
                }
                return Ok(());
            }
            i = i + 1;
        }
        Ok(())
    }

    /// One scheduling pass: services, in FIFO arrival order, exactly the
    /// tasks that were queued when the pass began, advancing each one step.
    /// On Done the task's cached resumption handle is evicted and the task
    /// is dropped; on Suspended the task is parked until its wake arrives —
    /// it is not serviced again within this pass. Computations spawned
    /// during a step join the back of the queue and wait for the next pass,
    /// so on success every task still queued was spawned during the pass.
    /// Fails — keeping the scheduler well-formed — exactly when a spawned
    /// computation cannot be enqueued: queue at capacity, or identifier
    /// space exhausted.
    ///
    /// A deliberate decomposition: draining until the queue reports empty
    /// has no provable termination bound, since a computation may spawn
    /// others without limit. One call is therefore one bounded pass, and
    /// the drive loop repeats passes until the queue reports empty before
    /// it blocks on readiness polling.
    pub fn run(&mut self, sp: &mut Spawner<C>, reactor: &mut Reactor) -> (r: Result<
        (),
        FatalError,
    >)
        requires
            sched_wf(*old(sp), *old(self)),
        ensures
            sched_wf(*final(sp), *final(self)),
            final(sp).next_id() >= old(sp).next_id(),
            final(self).parked_seq().len() >= old(self).parked_seq().len(),
            forall|j: int|
                0 <= j < old(self).parked_seq().len() ==> final(self).parked_seq()[j] == old(
                    self,
                ).parked_seq()[j],
            r is Ok ==> forall|j: int|
                0 <= j < final(sp).queue_seq().len()
                    ==> final(sp).queue_seq()[j].spec_id().0 >= old(sp).next_id(),
            r matches Err(e) ==> (e == FatalError::QueueFull ==> final(sp).queue_seq().len()
                == QUEUE_CAPACITY) && (e == FatalError::IdsExhausted ==> final(sp).next_id()
                == u64::MAX),
    {
        let ghost q0 = old(sp).queue_seq();
        let ghost n0 = old(sp).next_id();
        let ghost p0 = old(self).parked_seq();
        let n = sp.queue_len();
        let mut i: usize = 0;
        while i < n
            invariant
                sched_wf(*sp, *self),
                q0 == old(sp).queue_seq(),
                n0 == old(sp).next_id(),
                p0 == old(self).parked_seq(),
                n == q0.len(),
                0 <= i <= n,
                sp.queue_seq().len() >= n - i,
                forall|j: int| 0 <= j < n - i ==> sp.queue_seq()[j] == q0[i + j],
                forall|j: int|
                    n - i <= j < sp.queue_seq().len() ==> sp.queue_seq()[j].spec_id().0 >= n0,
                sp.next_id() >= n0,
                self.parked_seq().len() >= p0.len(),
                forall|j: int| 0 <= j < p0.len() ==> self.parked_seq()[j] == p0[j],
            decreases n - i,
        {
            let ghost q_start = sp.queue_seq();
            let ghost p_start = self.parked_seq();
            let ghost c_start_ids = self.cached_ids();
            let ghost qs_ids = sp.queued_ids();
            let ghost ps_ids = self.parked_ids();
            let mut task = sp.pop_front();
            let id = task.task_id();
            proof {
                assert(qs_ids[0] == id);
                assert(sp.queued_ids() =~= qs_ids.subrange(1, qs_ids.len() as int));
                // An identity other than the popped one that was queued at
                // the start of the step is still queued.
                assert forall|c: TaskId|
                    c != id && contains_id(qs_ids, c) implies contains_id(sp.queued_ids(), c) by {
                    let k = index_of_id(qs_ids, c);
                    assert(sp.queued_ids()[k - 1] == c);
                }
                assert(!contains_id(sp.queued_ids(), id)) by {
                    if contains_id(sp.queued_ids(), id) {
                        let k = index_of_id(sp.queued_ids(), id);
                        assert(qs_ids[k + 1] == id);
                    }
                }
                assert(!contains_id(ps_ids, id));
            }
            self.ensure_cached(id);
            let ghost c_mid_ids = self.cached_ids();
            proof {
                assert forall|c: TaskId| contains_id(c_mid_ids, c) implies contains_id(
                    c_start_ids,
                    c,
                ) || c == id by {
                    if !contains_id(c_start_ids, id) {
                        lemma_push_contains(c_start_ids, id, c);
                    }
                }
            }
            let wh = WakeHandle { task: id };
            let mut spawned: Vec<C> = Vec::new();
            let outcome = task.poll(wh, reactor, &mut spawned);
            match outcome {
                Advanced::Done => {
                    self.evict(id);
                    proof {
                        assert forall|j: int| 0 <= j < self.cached_ids().len() implies contains_id(
                            sp.queued_ids(),
                            self.cached_ids()[j],
                        ) || contains_id(self.parked_ids(), self.cached_ids()[j]) by {
                            let c = self.cached_ids()[j];
                            assert(contains_id(self.cached_ids(), c));
                            assert(c != id);
                            assert(contains_id(c_mid_ids, c));
                            assert(contains_id(c_start_ids, c));
                            let k = index_of_id(c_start_ids, c);
                            assert(contains_id(qs_ids, c_start_ids[k]) || contains_id(
                                ps_ids,
                                c_start_ids[k],
                            ));
                        }
                        assert forall|j: int| 0 <= j < self.parked_ids().len() implies contains_id(
                            self.cached_ids(),
                            self.parked_ids()[j],
                        ) by {
                            let t = self.parked_ids()[j];
                            assert(ps_ids[j] == t);
                            assert(contains_id(c_start_ids, t));
                            if !contains_id(c_start_ids, id) {
                                lemma_push_contains(c_start_ids, id, t);
                            }
                            assert(contains_id(c_mid_ids, t));
                            assert(contains_id(ps_ids, t));
                            assert(t != id);
                        }
                    }
                },
                Advanced::Suspended => {
                    proof {
                        assert(!contains_id(ps_ids, id));
                    }
                    self.parked.push(task);
                    proof {
                        assert(self.parked_seq() =~= p_start.push(task));
                        assert(self.parked_ids() =~= ps_ids.push(id));
                        assert forall|a: int, b: int|
                            0 <= a < b < self.parked_ids().len() implies self.parked_ids()[a]
                            != self.parked_ids()[b] by {
                            if b < self.parked_ids().len() - 1 {
                                assert(ps_ids[a] == self.parked_ids()[a]);
                                assert(ps_ids[b] == self.parked_ids()[b]);
                            } else {
                                assert(self.parked_ids()[b] == id);
                                assert(ps_ids[a] == self.parked_ids()[a]);
                                assert(contains_id(ps_ids, ps_ids[a]));
                            }
                        }
                        assert forall|a: int, b: int|
                            0 <= a < sp.queued_ids().len() && 0 <= b < self.parked_ids().len()
                            implies sp.queued_ids()[a] != self.parked_ids()[b] by {
                            assert(sp.queued_ids()[a] == qs_ids[a + 1]);
                            if b < self.parked_ids().len() - 1 {
                                assert(ps_ids[b] == self.parked_ids()[b]);
                            } else {
                                assert(self.parked_ids()[b] == id);
                                assert(qs_ids[0] == id);
                            }
                        }
                        assert forall|j: int| 0 <= j < self.cached_ids().len() implies contains_id(
                            sp.queued_ids(),
                            self.cached_ids()[j],
                        ) || contains_id(self.parked_ids(), self.cached_ids()[j]) by {
                            let c = self.cached_ids()[j];
                            assert(contains_id(self.cached_ids(), c));
                            assert(contains_id(c_mid_ids, c));
                            lemma_push_contains(ps_ids, id, c);
                            if c == id {
                                assert(contains_id(self.parked_ids(), c));
                            } else {
                                assert(contains_id(c_start_ids, c));
                                let k = index_of_id(c_start_ids, c);
                                assert(contains_id(qs_ids, c_start_ids[k]) || contains_id(
                                    ps_ids,
                                    c_start_ids[k],
                                ));
                            }
                        }
                        assert forall|j: int| 0 <= j < self.parked_ids().len() implies contains_id(
                            self.cached_ids(),
                            self.parked_ids()[j],
                        ) by {
                            let t = self.parked_ids()[j];
                            if j < self.parked_ids().len() - 1 {
                                assert(ps_ids[j] == t);
                                assert(contains_id(c_start_ids, t));
                                if !contains_id(c_start_ids, id) {
                                    lemma_push_contains(c_start_ids, id, t);
                                }
                                assert(contains_id(c_mid_ids, t));
                            } else {
                                assert(t == id);
                                assert(contains_id(c_mid_ids, id));
                            }
                        }
                    }
                },
            }
            while spawned.len() > 0
                invariant
                    sched_wf(*sp, *self),
                    q0 == old(sp).queue_seq(),
                    n0 == old(sp).next_id(),
                    p0 == old(self).parked_seq(),
                    self.parked_seq().len() >= p0.len(),
                    forall|j: int| 0 <= j < p0.len() ==> self.parked_seq()[j] == p0[j],
                    n == q0.len(),
                    0 <= i < n,
                    sp.queue_seq().len() >= n - i - 1,
                    forall|j: int| 0 <= j < n - i - 1 ==> sp.queue_seq()[j] == q0[i + 1 + j],
                    forall|j: int|
                        n - i - 1 <= j < sp.queue_seq().len() ==> sp.queue_seq()[j].spec_id().0
                            >= n0,
                    sp.next_id() >= n0,
                decreases spawned.len(),
            {
                let c = spawned.remove(0);
                let ghost q_before = sp.queue_seq();
                let ghost qb_ids = sp.queued_ids();
                let ghost nb = sp.next_id();
                match sp.spawn(c) {
                    Ok(()) => {
                        proof {
                            assert(sp.queue_seq().len() == q_before.len() + 1);
                            assert(sp.queued_ids() == qb_ids.push(TaskId(nb)));
                            assert(sp.queued_ids().last().0 >= n0);
                            assert(sp.queue_seq().last().spec_id() == sp.queued_ids().last());
                            assert forall|a: int, b: int|
                                0 <= a < sp.queued_ids().len() && 0 <= b
                                    < self.parked_ids().len() implies sp.queued_ids()[a]
                                != self.parked_ids()[b] by {
                                if a < sp.queued_ids().len() - 1 {
                                    assert(sp.queued_ids()[a] == qb_ids[a]);
                                } else {
                                    assert(sp.queued_ids()[a] == TaskId(nb));
                                    assert(self.parked_ids()[b].0 < nb);
                                }
                            }
                            assert forall|j: int|
                                0 <= j < self.cached_ids().len() implies contains_id(
                                sp.queued_ids(),
                                self.cached_ids()[j],
                            ) || contains_id(self.parked_ids(), self.cached_ids()[j]) by {
                                let cd = self.cached_ids()[j];
                                if contains_id(qb_ids, cd) {
                                    let k = index_of_id(qb_ids, cd);
                                    assert(sp.queued_ids()[k] == cd);
                                }
                            }
                        }
                    },
                    Err(e) => {
                        return Err(e);
                    },
                }
            }
            i = i + 1;
        }
        Ok(())
    }
}

/// Membership in a sequence extended at the back: the members are the old
/// members plus the appended identity.
proof fn lemma_push_contains(s: Seq<TaskId>, x: TaskId, t: TaskId)
    ensures
        contains_id(s.push(x), t) <==> (contains_id(s, t) || t == x),
{
    if contains_id(s, t) {
        let k = index_of_id(s, t);
        assert(s.push(x)[k] == t);
    }
    if t == x {
        assert(s.push(x)[s.len() as int] == t);
    }
    if contains_id(s.push(x), t) && t != x {
        let k = index_of_id(s.push(x), t);
        if k < s.len() {
            assert(s[k] == t);
        }
    }
}

/// In a sequence of distinct identities the position of any member is the
/// unique one.
proof fn lemma_index_unique(s: Seq<TaskId>, i: int)
    requires
        distinct_ids(s),
        0 <= i < s.len(),
    ensures
        index_of_id(s, s[i]) == i,
{
    assert(contains_id(s, s[i]));
    let k = index_of_id(s, s[i]);
    assert(0 <= k < s.len() && s[k] == s[i]);
}

/// Removing position `i` from a sequence of distinct identities removes
/// exactly the identity that stood there: distinctness survives, the
/// removed identity is gone, and every other identity stays.
proof fn lemma_removed_id_gone(s: Seq<TaskId>, i: int)
    requires
        distinct_ids(s),
        0 <= i < s.len(),
    ensures
        distinct_ids(s.remove(i)),
        !contains_id(s.remove(i), s[i]),
        forall|t: TaskId| contains_id(s.remove(i), t) ==> contains_id(s, t),
        forall|t: TaskId| t != s[i] && contains_id(s, t) ==> contains_id(s.remove(i), t),
{
    let r = s.remove(i);
    assert forall|a: int, b: int| 0 <= a < b < r.len() implies r[a] != r[b] by {
        if b < i {
            assert(r[a] == s[a] && r[b] == s[b]);
        } else if a < i {
            assert(r[a] == s[a] && r[b] == s[b + 1]);
        } else {
            assert(r[a] == s[a + 1] && r[b] == s[b + 1]);
        }
    }
    assert forall|t: TaskId| contains_id(r, t) implies contains_id(s, t) by {
        let k = index_of_id(r, t);
        if k < i {
            assert(s[k] == t);
        } else {
            assert(s[k + 1] == t);
        }
    }
    assert forall|t: TaskId| t != s[i] && contains_id(s, t) implies contains_id(r, t) by {
        let k = index_of_id(s, t);
        if k < i {
            assert(r[k] == t);
        } else if k > i {
            assert(r[k - 1] == t);
        }
    }
    if contains_id(r, s[i]) {
        let k = index_of_id(r, s[i]);
        if k < i {
            assert(s[k] == s[i]);
        } else {
            assert(s[k + 1] == s[i]);
        }
    }
}

/// Joint well-formedness of one scheduler: every scheduled task's identity
/// is unique and below the counter, a task is never both queued and
/// parked, every cached resumption handle belongs to a task that is still
/// scheduled (queued or parked) — a completed task's handle has been
/// evicted — and every parked task keeps a cached handle: the handle is
/// created on a task's first service and survives until the task
/// completes.
pub open spec fn sched_wf<C: Compute>(sp: Spawner<C>, ex: Executor<C>) -> bool {
    &&& sp.wf()
    &&& distinct_ids(ex.parked_ids())
    &&& disjoint_ids(sp.queued_ids(), ex.parked_ids())
    &&& ids_below(ex.parked_ids(), sp.next_id())
    &&& distinct_ids(ex.cached_ids())
    &&& forall|j: int|
        0 <= j < ex.cached_ids().len() ==> contains_id(sp.queued_ids(), ex.cached_ids()[j])
            || contains_id(ex.parked_ids(), ex.cached_ids()[j])
    &&& forall|j: int|
        0 <= j < ex.parked_ids().len() ==> contains_id(ex.cached_ids(), ex.parked_ids()[j])
}

/// A freshly spawned task collides with nothing: because every scheduled
/// task's identity lies strictly below the counter and a new task takes
/// the counter's current value, pushing it onto the queue of a
/// well-formed scheduler leaves the scheduler well-formed — in
/// particular, the new identity repeats no queued and no parked task's
/// identity.
pub proof fn lemma_spawn_preserves_sched_wf<C: Compute>(
    sp_old: Spawner<C>,
    sp_new: Spawner<C>,
    ex: Executor<C>,
)
    requires
        sched_wf(sp_old, ex),
        sp_old.next_id() < u64::MAX,
        sp_new.queued_ids() == sp_old.queued_ids().push(TaskId(sp_old.next_id())),
        sp_new.queue_seq().len() == sp_old.queue_seq().len() + 1,
        sp_new.queue_seq().len() <= QUEUE_CAPACITY,
        sp_new.next_id() == sp_old.next_id() + 1,
    ensures
        sched_wf(sp_new, ex),
        !contains_id(sp_old.queued_ids(), TaskId(sp_old.next_id())),
        !contains_id(ex.parked_ids(), TaskId(sp_old.next_id())),
{
    let fresh = TaskId(sp_old.next_id());
    assert(!contains_id(sp_old.queued_ids(), fresh)) by {
        if contains_id(sp_old.queued_ids(), fresh) {
            let k = index_of_id(sp_old.queued_ids(), fresh);
            assert(sp_old.queued_ids()[k].0 < sp_old.next_id());
        }
    }
    assert(!contains_id(ex.parked_ids(), fresh)) by {
        if contains_id(ex.parked_ids(), fresh) {
            let k = index_of_id(ex.parked_ids(), fresh);
            assert(ex.parked_ids()[k].0 < sp_old.next_id());
        }
    }
    assert forall|a: int, b: int|
        0 <= a < b < sp_new.queued_ids().len() implies sp_new.queued_ids()[a]
        != sp_new.queued_ids()[b] by {
        if b < sp_new.queued_ids().len() - 1 {
            assert(sp_new.queued_ids()[a] == sp_old.queued_ids()[a]);
            assert(sp_new.queued_ids()[b] == sp_old.queued_ids()[b]);
        } else {
            assert(sp_new.queued_ids()[b] == fresh);
            assert(sp_new.queued_ids()[a] == sp_old.queued_ids()[a]);
        }
    }
    assert forall|a: int, b: int|
        0 <= a < sp_new.queued_ids().len() && 0 <= b < ex.parked_ids().len()
        implies sp_new.queued_ids()[a] != ex.parked_ids()[b] by {
        if a < sp_new.queued_ids().len() - 1 {
            assert(sp_new.queued_ids()[a] == sp_old.queued_ids()[a]);
        } else {
            assert(sp_new.queued_ids()[a] == fresh);
            assert(ex.parked_ids()[b].0 < sp_old.next_id());
        }
    }
    assert forall|j: int| 0 <= j < ex.cached_ids().len() implies contains_id(
        sp_new.queued_ids(),
        ex.cached_ids()[j],
    ) || contains_id(ex.parked_ids(), ex.cached_ids()[j]) by {
        let c = ex.cached_ids()[j];
        if contains_id(sp_old.queued_ids(), c) {
            let k = index_of_id(sp_old.queued_ids(), c);
            assert(sp_new.queued_ids()[k] == c);
        }
    }
}

/// Once a scheduling pass has ended with every remaining queued identity
/// at or above the counter's value when the pass began, none of the tasks
/// that were queued at the beginning is still queued: each of them was
/// taken off and serviced during the pass.
pub proof fn lemma_pass_services_initial_queue<C: Compute>(sp_old: Spawner<C>, sp_new: Spawner<C>)
    requires
        sp_old.wf(),
        forall|j: int|
            0 <= j < sp_new.queue_seq().len() ==> sp_new.queue_seq()[j].spec_id().0
                >= sp_old.next_id(),
    ensures
        forall|t: TaskId|
            contains_id(sp_old.queued_ids(), t) ==> !contains_id(sp_new.queued_ids(), t),
{
    assert forall|t: TaskId|
        contains_id(sp_old.queued_ids(), t) implies !contains_id(sp_new.queued_ids(), t) by {
        let k = index_of_id(sp_old.queued_ids(), t);
        assert(t.0 < sp_old.next_id());
        if contains_id(sp_new.queued_ids(), t) {
            let m = index_of_id(sp_new.queued_ids(), t);
            assert(sp_new.queue_seq()[m].spec_id() == t);
        }
    }
}

/// Runtime bootstrap: one empty scheduler, split into its sending and
/// receiving halves.
pub fn spawner_and_executor<C: Compute>() -> (r: (Spawner<C>, Executor<C>))
    ensures
        sched_wf(r.0, r.1),
        r.0.queue_seq().len() == 0,
        r.0.next_id() == 0,
        r.1.parked_seq().len() == 0,
        r.1.cache_seq().len() == 0,
{
    (Spawner::new(), Executor::new())
}

} // verus!
