//! A minimal single-process cooperative runtime: a bounded FIFO scheduler,
//! a reactor that maps registration keys to pending wake handles, and
//! non-blocking socket operations modeled as resumable one-step state
//! machines. The OS-facing side (real sockets, the readiness poller, the
//! blocking drive loop) lives outside this crate and feeds plain values in.

pub mod async_io;
pub mod executor;
pub mod ids;
pub mod reactor;
pub mod task;
