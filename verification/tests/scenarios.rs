//! End-to-end scenarios at the model level: echo handlers driven through
//! the scheduler and the reactor, with a scripted kernel standing in for
//! the non-blocking OS socket calls.

use std::cell::RefCell;
use std::rc::Rc;

use mini_runtime::async_io::{IoOutcome, Polled, TcpStream};
use mini_runtime::executor::spawner_and_executor;
use mini_runtime::ids::IdCounter;
use mini_runtime::reactor::Reactor;
use mini_runtime::task::{Advanced, Compute, WakeHandle};

/// One scripted OS call on a connection: what the non-blocking read or
/// write reports, and for a read, the bytes a successful one delivers.
enum OsCall {
    Read(IoOutcome, Vec<u8>),
    Write(IoOutcome),
}

enum ConnState {
    Reading,
    Writing(Vec<u8>),
}

/// An echo connection handler: reads, writes back what it read, reads
/// again; a zero-length read — the peer closed its write half — ends the
/// handler cleanly.
struct EchoConn {
    stream: TcpStream,
    state: ConnState,
    script: Vec<OsCall>,
    echoed: Rc<RefCell<Vec<u8>>>,
}

impl Compute for EchoConn {
    fn advance(
        &mut self,
        waker: WakeHandle,
        reactor: &mut Reactor,
        _spawned: &mut Vec<Self>,
    ) -> Advanced {
        loop {
            let state = std::mem::replace(&mut self.state, ConnState::Reading);
            match state {
                ConnState::Reading => {
                    let (outcome, data) = match self.script.remove(0) {
                        OsCall::Read(outcome, data) => (outcome, data),
                        OsCall::Write(_) => panic!("script expected a read"),
                    };
                    let operation = self.stream.read();
                    let (polled, _op) = operation.poll(outcome, waker, reactor);
                    match polled {
                        Polled::Pending => return Advanced::Suspended,
                        Polled::Ready(Ok(0)) => return Advanced::Done,
                        Polled::Ready(Ok(n)) => {
                            assert_eq!(n, data.len());
                            self.state = ConnState::Writing(data);
                        }
                        Polled::Ready(Err(_)) => return Advanced::Done,
                    }
                }
                ConnState::Writing(data) => {
                    let outcome = match self.script.remove(0) {
                        OsCall::Write(outcome) => outcome,
                        OsCall::Read(_, _) => panic!("script expected a write"),
                    };
                    let operation = self.stream.write();
                    let (polled, _op) = operation.poll(outcome, waker, reactor);
                    match polled {
                        Polled::Pending => {
                            self.state = ConnState::Writing(data);
                            return Advanced::Suspended;
                        }
                        Polled::Ready(Ok(n)) => {
                            self.echoed.borrow_mut().extend_from_slice(&data[..n]);
                        }
                        Polled::Ready(Err(_)) => return Advanced::Done,
                    }
                }
            }
        }
    }
}

#[test]
fn echo_round_trip_over_one_connection() {
    let mut keys = IdCounter::new();
    let mut reactor = Reactor::new();
    let (mut spawner, mut executor) = spawner_and_executor();
    let stream = TcpStream::new(&mut keys);
    let key = stream.raw_key();
    let echoed = Rc::new(RefCell::new(Vec::new()));
    let conn = EchoConn {
        stream,
        state: ConnState::Reading,
        script: vec![
            OsCall::Read(IoOutcome::WouldBlock, Vec::new()),
            OsCall::Read(IoOutcome::Transferred(4), b"ping".to_vec()),
            OsCall::Write(IoOutcome::Transferred(4)),
            OsCall::Read(IoOutcome::Transferred(0), Vec::new()),
        ],
        echoed: Rc::clone(&echoed),
    };
    assert!(spawner.spawn(conn).is_ok());
    // First pass: the read would block, so the handler suspends with
    // readable interest registered under its key.
    assert!(executor.run(&mut spawner, &mut reactor).is_ok());
    assert_eq!(executor.parked_len(), 1);
    // The source becomes ready: delivery re-queues the handler.
    assert!(reactor.react(&vec![key], &mut executor, &mut spawner).is_ok());
    assert_eq!(spawner.queue_len(), 1);
    // Second pass: read "ping", echo it back, see the close, finish.
    assert!(executor.run(&mut spawner, &mut reactor).is_ok());
    assert_eq!(echoed.borrow().as_slice(), b"ping");
    assert_eq!(spawner.queue_len(), 0);
    assert_eq!(executor.parked_len(), 0);
    assert_eq!(executor.cache_len(), 0);
}

#[test]
fn two_connections_echo_without_cross_talk() {
    let mut keys = IdCounter::new();
    let mut reactor = Reactor::new();
    let (mut spawner, mut executor) = spawner_and_executor();
    let first_stream = TcpStream::new(&mut keys);
    let second_stream = TcpStream::new(&mut keys);
    let first_key = first_stream.raw_key();
    let second_key = second_stream.raw_key();
    assert_ne!(first_key, second_key);
    let first_echoed = Rc::new(RefCell::new(Vec::new()));
    let second_echoed = Rc::new(RefCell::new(Vec::new()));
    let first_conn = EchoConn {
        stream: first_stream,
        state: ConnState::Reading,
        script: vec![
            OsCall::Read(IoOutcome::WouldBlock, Vec::new()),
            OsCall::Read(IoOutcome::Transferred(5), b"alpha".to_vec()),
            OsCall::Write(IoOutcome::Transferred(5)),
            OsCall::Read(IoOutcome::Transferred(0), Vec::new()),
        ],
        echoed: Rc::clone(&first_echoed),
    };
    let second_conn = EchoConn {
        stream: second_stream,
        state: ConnState::Reading,
        script: vec![
            OsCall::Read(IoOutcome::WouldBlock, Vec::new()),
            OsCall::Read(IoOutcome::Transferred(4), b"beta".to_vec()),
            OsCall::Write(IoOutcome::Transferred(4)),
            OsCall::Read(IoOutcome::Transferred(0), Vec::new()),
        ],
        echoed: Rc::clone(&second_echoed),
    };
    assert!(spawner.spawn(first_conn).is_ok());
    assert!(spawner.spawn(second_conn).is_ok());
    assert!(executor.run(&mut spawner, &mut reactor).is_ok());
    assert_eq!(executor.parked_len(), 2);
    // Only the first connection's source becomes ready: only that handler
    // is woken, the other stays parked.
    assert!(reactor.react(&vec![first_key], &mut executor, &mut spawner).is_ok());
    assert_eq!(spawner.queue_len(), 1);
    assert_eq!(executor.parked_len(), 1);
    assert!(executor.run(&mut spawner, &mut reactor).is_ok());
    assert_eq!(first_echoed.borrow().as_slice(), b"alpha");
    assert!(second_echoed.borrow().is_empty());
    // Now the second one.
    assert!(reactor.react(&vec![second_key], &mut executor, &mut spawner).is_ok());
    assert!(executor.run(&mut spawner, &mut reactor).is_ok());
    assert_eq!(first_echoed.borrow().as_slice(), b"alpha");
    assert_eq!(second_echoed.borrow().as_slice(), b"beta");
    assert_eq!(executor.parked_len(), 0);
    assert_eq!(executor.cache_len(), 0);
}

#[test]
fn half_close_ends_the_handler_cleanly() {
    let mut keys = IdCounter::new();
    let mut reactor = Reactor::new();
    let (mut spawner, mut executor) = spawner_and_executor();
    let stream = TcpStream::new(&mut keys);
    let echoed = Rc::new(RefCell::new(Vec::new()));
    let conn = EchoConn {
        stream,
        state: ConnState::Reading,
        script: vec![
            OsCall::Read(IoOutcome::Transferred(4), b"data".to_vec()),
            OsCall::Write(IoOutcome::Transferred(4)),
            // The peer closed its write half: the read reports zero bytes
            // and the handler loop terminates, releasing the stream.
            OsCall::Read(IoOutcome::Transferred(0), Vec::new()),
        ],
        echoed: Rc::clone(&echoed),
    };
    assert!(spawner.spawn(conn).is_ok());
    assert!(executor.run(&mut spawner, &mut reactor).is_ok());
    assert_eq!(echoed.borrow().as_slice(), b"data");
    assert_eq!(spawner.queue_len(), 0);
    assert_eq!(executor.parked_len(), 0);
    assert_eq!(executor.cache_len(), 0);
}

#[test]
fn delivery_for_a_stale_key_wakes_nothing() {
    let mut keys = IdCounter::new();
    let mut reactor = Reactor::new();
    let (mut spawner, mut executor) = spawner_and_executor::<EchoConn>();
    let stream = TcpStream::new(&mut keys);
    let key = stream.raw_key();
    drop(stream);
    // No registration was ever made for the key: delivery finds no entry
    // and leaves the scheduler untouched.
    assert!(reactor.react(&vec![key, 99], &mut executor, &mut spawner).is_ok());
    assert_eq!(spawner.queue_len(), 0);
    assert_eq!(executor.parked_len(), 0);
}
