//! Typed request/reply messaging between concurrent tasks.
//!
//! A requester sends values of many message types over one shared transport
//! channel; the replyer asks for the next message of one chosen type and
//! answers it. This crate holds the parts of that exchange that decide
//! something: the binding of a message type to its response type, the error
//! taxonomy, and the routing of envelopes through the replyer's pending
//! buffer.

use vstd::prelude::*;

pub mod error;
pub mod pending;
pub mod routing;

pub use error::Error;

verus! {

/// Capacity of the transport channel that carries envelopes from requesters
/// to the replyer.
pub const CHANNEL_CAPACITY: usize = 10;

/// Binds a message type to the one type of the response it is answered with.
pub trait Message: 'static + Send {
    /// The response type of the message.
    type Response: Send;
}

} // verus!
