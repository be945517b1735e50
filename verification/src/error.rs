//! Error taxonomy of the transfer engine.

use vstd::prelude::*;

verus! {

/// Everything that can go wrong during a transfer.  Messages are plain
/// strings; rendering for display happens outside the library.
#[derive(Debug, Clone)]
pub enum StormError {
    /// Connect, DNS or stream failure.
    Network(String),
    /// A non-success HTTP status outside the specially handled ones.
    Http { status: u16, message: String },
    /// The server answered a range request with a plain 200.
    RangeNotSupported,
    NotFound(String),
    /// File-system failure, carried as a message.
    Io(String),
    Database(String),
    HashMismatch { expected: String, actual: String },
    /// ETag or Last-Modified changed under a resumed transfer.
    ResourceChanged,
    Cancelled,
    InvalidUrl(String),
    /// HTTP/3 handshake or framing failure.
    Protocol(String),
    Config(String),
    /// The server answered 429.
    RateLimited,
    Timeout(String),
    Other(String),
}

impl StormError {
    /// Errors that a worker recovers from locally by reassigning the segment
    /// to another source and requeueing the remaining sub-range; all others
    /// are fatal to the transfer.  Timeouts count as network failures.
    pub open spec fn spec_is_recoverable(self) -> bool {
        self is Network || self is RateLimited || self is Timeout
    }

    pub fn is_recoverable(&self) -> (r: bool)
        ensures
            r == self.spec_is_recoverable(),
    {
        match self {
            StormError::Network(_) => true,
            StormError::RateLimited => true,
            StormError::Timeout(_) => true,
            _ => false,
        }
    }
}

} // verus!
