//! Scheduler behaviour: identifier minting, spawning, the capacity valve,
//! one-step servicing, parking and waking.

use std::cell::Cell;
use std::rc::Rc;

use mini_runtime::executor::{spawner_and_executor, FatalError, QUEUE_CAPACITY};
use mini_runtime::ids::IdCounter;
use mini_runtime::reactor::Reactor;
use mini_runtime::task::{Advanced, Compute, TaskId, WakeHandle};

/// Finishes on its first advance.
struct Immediate;

impl Compute for Immediate {
    fn advance(
        &mut self,
        _waker: WakeHandle,
        _reactor: &mut Reactor,
        _spawned: &mut Vec<Self>,
    ) -> Advanced {
        Advanced::Done
    }
}

/// Counts its advances and always suspends again.
struct Counting {
    count: Rc<Cell<u32>>,
}

impl Compute for Counting {
    fn advance(
        &mut self,
        _waker: WakeHandle,
        _reactor: &mut Reactor,
        _spawned: &mut Vec<Self>,
    ) -> Advanced {
        self.count.set(self.count.get() + 1);
        Advanced::Suspended
    }
}

/// A parent that spawns one child on its only advance; the child just
/// finishes.
struct Family {
    is_child: bool,
}

impl Compute for Family {
    fn advance(
        &mut self,
        _waker: WakeHandle,
        _reactor: &mut Reactor,
        spawned: &mut Vec<Self>,
    ) -> Advanced {
        if !self.is_child {
            spawned.push(Family { is_child: true });
        }
        Advanced::Done
    }
}

#[test]
fn counter_mints_strictly_increasing_ids() {
    let mut ids = IdCounter::new();
    let a = ids.fresh();
    let b = ids.fresh();
    let c = ids.fresh();
    assert_eq!(a, 0);
    assert_eq!(b, 1);
    assert_eq!(c, 2);
    assert!(a < b && b < c);
    assert_ne!(a, b);
    assert_ne!(b, c);
    assert_ne!(a, c);
}

#[test]
fn task_ids_come_from_the_shared_counter() {
    let mut ids = IdCounter::new();
    let first = TaskId::new(&mut ids);
    let second = TaskId::new(&mut ids);
    assert_eq!(first, TaskId(0));
    assert_eq!(second, TaskId(1));
    assert_ne!(first, second);
}

#[test]
fn run_on_empty_queue_is_a_no_op() {
    let (mut spawner, mut executor) = spawner_and_executor::<Immediate>();
    let mut reactor = Reactor::new();
    assert_eq!(spawner.queue_len(), 0);
    assert!(executor.run(&mut spawner, &mut reactor).is_ok());
    assert_eq!(spawner.queue_len(), 0);
    assert_eq!(executor.parked_len(), 0);
}

#[test]
fn done_task_is_dropped_and_its_handle_evicted() {
    let (mut spawner, mut executor) = spawner_and_executor();
    let mut reactor = Reactor::new();
    assert!(spawner.spawn(Immediate).is_ok());
    assert_eq!(spawner.queue_len(), 1);
    assert!(executor.run(&mut spawner, &mut reactor).is_ok());
    assert_eq!(spawner.queue_len(), 0);
    assert_eq!(executor.parked_len(), 0);
    assert_eq!(executor.cache_len(), 0);
}

#[test]
fn suspended_task_is_parked_with_its_handle_cached() {
    let (mut spawner, mut executor) = spawner_and_executor();
    let mut reactor = Reactor::new();
    let count = Rc::new(Cell::new(0));
    assert!(spawner.spawn(Counting { count: Rc::clone(&count) }).is_ok());
    assert!(executor.run(&mut spawner, &mut reactor).is_ok());
    assert_eq!(count.get(), 1);
    assert_eq!(spawner.queue_len(), 0);
    assert_eq!(executor.parked_len(), 1);
    assert_eq!(executor.cache_len(), 1);
}

#[test]
fn wake_requeues_once_and_redundant_wakes_are_harmless() {
    let (mut spawner, mut executor) = spawner_and_executor();
    let mut reactor = Reactor::new();
    let count = Rc::new(Cell::new(0));
    assert!(spawner.spawn(Counting { count: Rc::clone(&count) }).is_ok());
    assert!(executor.run(&mut spawner, &mut reactor).is_ok());
    assert_eq!(count.get(), 1);
    let handle = WakeHandle { task: TaskId(0) };
    // First delivery moves the task from parked to the queue.
    assert!(executor.wake(&mut spawner, handle).is_ok());
    assert_eq!(spawner.queue_len(), 1);
    assert_eq!(executor.parked_len(), 0);
    // A second delivery of the same handle finds nothing parked and
    // changes nothing.
    assert!(executor.wake(&mut spawner, handle).is_ok());
    assert_eq!(spawner.queue_len(), 1);
    assert_eq!(executor.parked_len(), 0);
    // The next pass advances the task exactly once more.
    assert!(executor.run(&mut spawner, &mut reactor).is_ok());
    assert_eq!(count.get(), 2);
}

#[test]
fn waking_an_unknown_task_changes_nothing() {
    let (mut spawner, mut executor) = spawner_and_executor::<Immediate>();
    let mut reactor = Reactor::new();
    assert!(executor.wake(&mut spawner, WakeHandle { task: TaskId(42) }).is_ok());
    assert_eq!(spawner.queue_len(), 0);
    assert_eq!(executor.parked_len(), 0);
    assert!(executor.run(&mut spawner, &mut reactor).is_ok());
}

#[test]
fn spawned_children_wait_for_the_next_pass() {
    let (mut spawner, mut executor) = spawner_and_executor();
    let mut reactor = Reactor::new();
    assert!(spawner.spawn(Family { is_child: false }).is_ok());
    assert!(executor.run(&mut spawner, &mut reactor).is_ok());
    // The child spawned during the pass is queued, not yet serviced.
    assert_eq!(spawner.queue_len(), 1);
    assert!(executor.run(&mut spawner, &mut reactor).is_ok());
    assert_eq!(spawner.queue_len(), 0);
    assert_eq!(executor.parked_len(), 0);
}

#[test]
fn spawn_on_a_full_queue_reports_a_fatal_capacity_error() {
    let (mut spawner, _executor) = spawner_and_executor();
    for _ in 0..QUEUE_CAPACITY {
        assert!(spawner.spawn(Immediate).is_ok());
    }
    assert_eq!(spawner.queue_len(), QUEUE_CAPACITY);
    let overflow = spawner.spawn(Immediate);
    assert_eq!(overflow, Err(FatalError::QueueFull));
    // Nothing was silently dropped or added.
    assert_eq!(spawner.queue_len(), QUEUE_CAPACITY);
}
