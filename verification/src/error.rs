use vstd::prelude::*;

verus! {

/// Failure returned by a send attempted after the bus left `Running`.
#[derive(Clone, Copy, PartialEq, Eq, Structural, Debug)]
pub enum SendError {
    /// The bus is shutting down or stopped; no new message is accepted.
    BusClosed,
}

/// Failure returned by an open attempted after the bus left `Running`.
#[derive(Clone, Copy, PartialEq, Eq, Structural, Debug)]
pub enum OpenError {
    /// The bus is shutting down or stopped; no new socket can be opened.
    BusClosed,
}

/// Failure returned by a shutdown of a bus that is no longer running.
#[derive(Clone, Copy, PartialEq, Eq, Structural, Debug)]
pub enum ShutdownError {
    /// Shutdown already took effect once; the call has no further effect.
    AlreadyShutdown,
}

} // verus!
