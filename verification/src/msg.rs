use crate::sim_id::SimId;
use vstd::prelude::*;

verus! {

/// Capability a payload type must expose so the bus can compute bandwidth
/// delays: the number of bytes the payload is declared to occupy on the wire.
///
/// Implementations must report the size through `bytes_size` exactly as the
/// specification function `spec_bytes_size` gives it.
pub trait HasBytesSize {
    /// The declared byte size, as a specification-level value.
    spec fn spec_bytes_size(&self) -> u64;

    /// The declared byte size of this payload.
    fn bytes_size(&self) -> (r: u64)
        ensures
            r == self.spec_bytes_size(),
    ;
}

impl HasBytesSize for Vec<u8> {
    open spec fn spec_bytes_size(&self) -> u64 {
        self@.len() as u64
    }

    fn bytes_size(&self) -> (r: u64)
        ensures
            r == self.spec_bytes_size(),
    {
        self.len() as u64
    }
}

/// An in-flight message: a payload wrapped with its route and timing.
///
/// `due_at` is computed once when the message enters the bus and never
/// changes afterwards; between enqueue and delivery the envelope is owned by
/// the time-ordered queue, and on delivery it moves whole into the
/// destination's inbound queue.
pub struct Msg<T> {
    /// The sender's identifier.
    pub from: SimId,
    /// The destination's identifier.
    pub to: SimId,
    /// Declared size of the payload in bytes.
    pub size_bytes: u64,
    /// Clock reading (nanoseconds) at which the message was sent.
    pub created_at: u64,
    /// Clock reading (nanoseconds) at which the message becomes deliverable.
    pub due_at: u64,
    /// The user payload carried by the envelope.
    pub payload: T,
}

impl<T> Msg<T> {
    /// Wraps a payload with its route and timing.
    pub fn new(from: SimId, to: SimId, size_bytes: u64, created_at: u64, due_at: u64, payload: T) -> (r: Msg<T>)
        ensures
            r == (Msg { from, to, size_bytes, created_at, due_at, payload }),
    {
        Msg { from, to, size_bytes, created_at, due_at, payload }
    }

    /// The sender's identifier.
    pub fn from(&self) -> (r: SimId)
        ensures
            r == self.from,
    {
        self.from
    }

    /// Consumes the envelope and yields the payload.
    pub fn into_content(self) -> (r: T)
        ensures
            r == self.payload,
    {
        self.payload
    }
}

} // verus!
