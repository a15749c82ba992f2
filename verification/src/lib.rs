//! A discrete-event network simulator.
//!
//! Simulated nodes exchange messages over a virtual bus without touching a
//! real network stack.  Each message's delivery time is computed from the
//! sender's upload bandwidth, the directed edge's fixed latency and loss
//! probability, and the receiver's download bandwidth; pending messages sit
//! in a time-ordered queue until their due time elapses.  Time is explicit:
//! callers pass the current clock reading (nanoseconds, monotone) into the
//! operations that depend on it, which keeps every run reproducible.

mod error;
mod msg;
mod policy;
mod rng;
mod sim_context;
mod sim_id;
mod time_ordered;

pub use error::{OpenError, SendError, ShutdownError};
pub use msg::{HasBytesSize, Msg};
pub use policy::{Bandwidth, Edge, EdgePolicy, Latency, NodePolicy, PacketLoss, PolicyStore};
pub use rng::SimRng;
pub use sim_context::{BusState, SimConfiguration, SimContext, SimSocket};
pub use sim_id::SimId;
pub use time_ordered::TimeOrdered;
