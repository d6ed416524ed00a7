//! Non-blocking socket operations as one-shot resumable state machines.
//!
//! The OS sockets themselves live outside this crate; here a listener or a
//! stream is its registration key, and each accept/read/write operation is
//! a `poll` step from the outcome of the underlying non-blocking OS call to
//! a decision: complete with a result, or register interest with the
//! reactor and suspend. The caller performs the OS call, feeds its outcome
//! in, and applies the returned `PollerOp` to the OS readiness poller.

use vstd::prelude::*;

use crate::ids::IdCounter;
use crate::reactor::Reactor;
use crate::task::WakeHandle;

verus! {

/// The readiness condition an operation waits for: readable for
/// accept/read, writable for write.
#[derive(Debug, Clone, Copy, PartialEq, Eq, Structural)]
pub enum Interest {
    Readable,
    Writable,
}

/// The OS-poller action the caller must perform after a `poll` step:
/// register the key for an interest, or deregister it.
#[derive(Debug, Clone, Copy, PartialEq, Eq, Structural)]
pub enum PollerOp {
    Register(u64, Interest),
    Deregister(u64),
}

/// An OS-level I/O failure, carried through as its raw error code. The
/// would-block condition is not an `IoError`: it is a separate outcome and
/// never surfaces as a failure.
#[derive(Debug, Clone, Copy, PartialEq, Eq, Structural)]
pub struct IoError {
    pub code: i32,
}

/// The peer's address as plain values: the IP as one integer (an IPv4
/// address occupies the low 32 bits, flagged by `is_v4`) and the port.
/// The runtime reads nothing of it; an accept carries it through to its
/// caller unchanged.
#[derive(Debug, Clone, Copy, PartialEq, Eq, Structural)]
pub struct PeerAddr {
    pub ip: u128,
    pub is_v4: bool,
    pub port: u16,
}

/// What the underlying non-blocking accept call reported.
#[derive(Debug, Clone, Copy, PartialEq, Eq, Structural)]
pub enum AcceptOutcome {
    /// A new connection was accepted, from this peer address.
    Accepted(PeerAddr),
    /// The call would block: no connection is pending.
    WouldBlock,
    /// A genuine OS failure.
    Fail(IoError),
}

/// What the underlying non-blocking read or write call reported.
#[derive(Debug, Clone, Copy, PartialEq, Eq, Structural)]
pub enum IoOutcome {
    /// The call transferred this many bytes (zero means end of stream for
    /// a read). A partial transfer is final: it is returned as the
    /// operation's result, never silently retried.
    Transferred(usize),
    /// The call would block right now.
    WouldBlock,
    /// A genuine OS failure.
    Fail(IoError),
}

/// What one `poll` step reports to the operation's caller: a final result,
/// or "suspended" after registering interest with the reactor.
#[derive(Debug)]
pub enum Polled<T> {
    Ready(T),
    Pending,
}

/// A process-unique registration key, minted from the shared monotonic
/// counter at socket creation and never reused while the process lives.
#[derive(Debug, Clone, Copy, PartialEq, Eq, Structural, Hash)]
pub struct Key(pub u64);

impl Key {
    /// Mint a fresh registration key.
    pub fn new(ids: &mut IdCounter) -> (r: Key)
        requires
            old(ids).next_id() < u64::MAX,
        ensures
            r.0 == old(ids).next_id(),
            final(ids).next_id() == old(ids).next_id() + 1,
    {
        Key(ids.fresh())
    }
}

/// A listening socket: its registration key. The OS handle it stands for
/// is owned by the caller, who performs the actual non-blocking accepts.
pub struct TcpListener {
    key: Key,
}

/// A connected stream: its registration key. The OS handle it stands for
/// is owned by the caller, who performs the actual non-blocking transfers.
pub struct TcpStream {
    key: Key,
}

/// A pending accept operation on one listener.
pub struct AcceptFuture {
    key: Key,
}

/// A pending read operation on one stream. The destination buffer stays
/// with the caller, who passes the transfer's outcome into `poll`.
pub struct ReadFuture {
    key: Key,
}

/// A pending write operation on one stream. The source buffer stays with
/// the caller, who passes the transfer's outcome into `poll`.
pub struct WriteFuture {
    key: Key,
}

impl TcpListener {
    pub closed spec fn spec_key(self) -> u64 {
        self.key.0
    }

    /// Wrap a freshly bound listening socket: mint its registration key.
    pub fn new(ids: &mut IdCounter) -> (r: TcpListener)
        requires
            old(ids).next_id() < u64::MAX,
        ensures
            r.spec_key() == old(ids).next_id(),
            final(ids).next_id() == old(ids).next_id() + 1,
    {
        TcpListener { key: Key::new(ids) }
    }

    /// Begin an accept operation on this listener.
    pub fn accept(&self) -> (r: AcceptFuture)
        ensures
            r.spec_key() == self.spec_key(),
    {
        AcceptFuture { key: self.key }
    }

    /// The diagnostic registration key; no protocol meaning.
    pub fn raw_key(&self) -> (r: u64)
        ensures
            r == self.spec_key(),
    {
        self.key.0
    }
}

impl TcpStream {
    pub closed spec fn spec_key(self) -> u64 {
        self.key.0
    }

    /// Wrap a freshly accepted or connected stream: mint its registration
    /// key.
    pub fn new(ids: &mut IdCounter) -> (r: TcpStream)
        requires
            old(ids).next_id() < u64::MAX,
        ensures
            r.spec_key() == old(ids).next_id(),
            final(ids).next_id() == old(ids).next_id() + 1,
    {
        TcpStream { key: Key::new(ids) }
    }

    /// Begin a read operation on this stream.
    pub fn read(&mut self) -> (r: ReadFuture)
        ensures
            r.spec_key() == old(self).spec_key(),
            final(self).spec_key() == old(self).spec_key(),
    {
        ReadFuture { key: self.key }
    }

    /// Begin a write operation on this stream.
    pub fn write(&mut self) -> (r: WriteFuture)
        ensures
            r.spec_key() == old(self).spec_key(),
            final(self).spec_key() == old(self).spec_key(),
    {
        WriteFuture { key: self.key }
    }

    /// The diagnostic registration key; no protocol meaning.
    pub fn raw_key(&self) -> (r: u64)
        ensures
            r == self.spec_key(),
    {
        self.key.0
    }
}

impl AcceptFuture {
    pub closed spec fn spec_key(self) -> u64 {
        self.key.0
    }

    /// One step of the accept operation, given the outcome of the
    /// non-blocking OS accept. On success the new connection gets a fresh
    /// key, the peer's address is carried through unchanged, and any prior
    /// interest for the listener is deregistered; on would-block the
    /// operation registers readable interest under the caller's wake
    /// handle and suspends — a would-block outcome never surfaces as a
    /// completion; on failure the error propagates and prior interest is
    /// deregistered.
    pub fn poll(
        &self,
        outcome: AcceptOutcome,
        waker: WakeHandle,
        reactor: &mut Reactor,
        ids: &mut IdCounter,
    ) -> (r: (Polled<Result<(TcpStream, PeerAddr), IoError>>, PollerOp))
        requires
            outcome is Accepted ==> old(ids).next_id() < u64::MAX,
        ensures
            match outcome {
                AcceptOutcome::Accepted(addr) => {
                    &&& r.0 matches Polled::Ready(Ok(p)) && p.0.spec_key() == old(ids).next_id()
                        && p.1 == addr
                    &&& r.1 == PollerOp::Deregister(self.spec_key())
                    &&& final(reactor).wakers_table() == old(reactor).wakers_table()
                    &&& final(ids).next_id() == old(ids).next_id() + 1
                },
                AcceptOutcome::WouldBlock => {
                    &&& r.0 is Pending
                    &&& r.1 == PollerOp::Register(self.spec_key(), Interest::Readable)
                    &&& final(reactor).wakers_table()
                        == old(reactor).wakers_table().insert(self.spec_key(), waker)
                    &&& final(ids).next_id() == old(ids).next_id()
                },
                AcceptOutcome::Fail(e) => {
                    &&& r.0 matches Polled::Ready(res) && res == Err::<
                        (TcpStream, PeerAddr),
                        IoError,
                    >(e)
                    &&& r.1 == PollerOp::Deregister(self.spec_key())
                    &&& final(reactor).wakers_table() == old(reactor).wakers_table()
                    &&& final(ids).next_id() == old(ids).next_id()
                },
            },
    {
        match outcome {
            AcceptOutcome::Accepted(addr) => {
                let op = reactor.delete_event(self.key.0);
                (Polled::Ready(Ok((TcpStream::new(ids), addr))), op)
            },
            AcceptOutcome::WouldBlock => {
                let op = reactor.add_event(self.key.0, Interest::Readable, waker);
                (Polled::Pending, op)
            },
            AcceptOutcome::Fail(e) => {
                let op = reactor.delete_event(self.key.0);
                (Polled::Ready(Err(e)), op)
            },
        }
    }
}

impl ReadFuture {
    pub closed spec fn spec_key(self) -> u64 {
        self.key.0
    }

    /// One step of the read operation, given the outcome of the
    /// non-blocking OS read. A transfer (even of zero bytes, meaning end
    /// of stream) completes the operation and deregisters prior interest;
    /// would-block registers readable interest and suspends — it never
    /// surfaces as a completion; a failure propagates.
    pub fn poll(
        &self,
        outcome: IoOutcome,
        waker: WakeHandle,
        reactor: &mut Reactor,
    ) -> (r: (Polled<Result<usize, IoError>>, PollerOp))
        ensures
            match outcome {
                IoOutcome::Transferred(n) => {
                    &&& r.0 matches Polled::Ready(res) && res == Ok::<usize, IoError>(n)
                    &&& r.1 == PollerOp::Deregister(self.spec_key())
                    &&& final(reactor).wakers_table() == old(reactor).wakers_table()
                },
                IoOutcome::WouldBlock => {
                    &&& r.0 is Pending
                    &&& r.1 == PollerOp::Register(self.spec_key(), Interest::Readable)
                    &&& final(reactor).wakers_table()
                        == old(reactor).wakers_table().insert(self.spec_key(), waker)
                },
                IoOutcome::Fail(e) => {
                    &&& r.0 matches Polled::Ready(res) && res == Err::<usize, IoError>(e)
                    &&& r.1 == PollerOp::Deregister(self.spec_key())
                    &&& final(reactor).wakers_table() == old(reactor).wakers_table()
                },
            },
    {
        match outcome {
            IoOutcome::Transferred(n) => {
                let op = reactor.delete_event(self.key.0);
                (Polled::Ready(Ok(n)), op)
            },
            IoOutcome::WouldBlock => {
                let op = reactor.add_event(self.key.0, Interest::Readable, waker);
                (Polled::Pending, op)
            },
            IoOutcome::Fail(e) => {
                let op = reactor.delete_event(self.key.0);
                (Polled::Ready(Err(e)), op)
            },
        }
    }
}

impl WriteFuture {
    pub closed spec fn spec_key(self) -> u64 {
        self.key.0
    }

    /// One step of the write operation, given the outcome of the
    /// non-blocking OS write. A transfer (possibly partial: the count is
    /// final, never silently retried) completes the operation and
    /// deregisters prior interest; would-block registers writable interest
    /// and suspends — it never surfaces as a completion; a failure
    /// propagates.
    pub fn poll(
        &self,
        outcome: IoOutcome,
        waker: WakeHandle,
        reactor: &mut Reactor,
    ) -> (r: (Polled<Result<usize, IoError>>, PollerOp))
        ensures
            match outcome {
                IoOutcome::Transferred(n) => {
                    &&& r.0 matches Polled::Ready(res) && res == Ok::<usize, IoError>(n)
                    &&& r.1 == PollerOp::Deregister(self.spec_key())
                    &&& final(reactor).wakers_table() == old(reactor).wakers_table()
                },
                IoOutcome::WouldBlock => {
                    &&& r.0 is Pending
                    &&& r.1 == PollerOp::Register(self.spec_key(), Interest::Writable)
                    &&& final(reactor).wakers_table()
                        == old(reactor).wakers_table().insert(self.spec_key(), waker)
                },
                IoOutcome::Fail(e) => {
                    &&& r.0 matches Polled::Ready(res) && res == Err::<usize, IoError>(e)
                    &&& r.1 == PollerOp::Deregister(self.spec_key())
                    &&& final(reactor).wakers_table() == old(reactor).wakers_table()
                },
            },
    {
        match outcome {
            IoOutcome::Transferred(n) => {
                let op = reactor.delete_event(self.key.0);
                (Polled::Ready(Ok(n)), op)
            },
            IoOutcome::WouldBlock => {
                let op = reactor.add_event(self.key.0, Interest::Writable, waker);
                (Polled::Pending, op)
            },
            IoOutcome::Fail(e) => {
                let op = reactor.delete_event(self.key.0);
                (Polled::Ready(Err(e)), op)
            },
        }
    }
}

} // verus!
