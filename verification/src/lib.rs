//! Buffered views of the three standard streams, with explicit locking.
//!
//! A [`StdioBuf`] holds the buffers of one caller and decides what has to
//! happen: when bytes are buffered, when the buffer goes out, when a transfer
//! passes the buffer by, and when the mutex of the stream is taken and given
//! back. It never touches the mutex or the file itself. An operation that
//! needs one of them returns a [`Request`]; the embedding serves it and
//! resumes the operation with the outcome as an [`Event`]. The embedding
//! holds the mutex exactly as long as [`StdioBuf::is_locked`] says: it lets
//! go of it after any call that leaves the stream unlocked, and flushes a
//! stream before it drops it.
pub mod buf;
pub mod error;
pub mod laws;
pub mod model;
pub mod protocol;
pub mod shared;
pub mod unvec;
pub mod world;

pub use crate::buf::{
    stderr, stderr_with_nbuf, stdin, stdin_with_nbuf, stdout, stdout_with_nbuf, StdioBuf,
    STDIO_NBUF,
};
pub use crate::error::{exactly, LockPoisonError, StdioError};
pub use crate::protocol::{Event, Op, Pending, Request, Slot, Step};
pub use crate::unvec::UnVec;
