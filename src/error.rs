//! The failures that sending, replying and receiving can end in.

use vstd::prelude::*;

verus! {

/// The error that `async_std::channel::Receiver::recv` returns once the
/// channel is closed and drained. Carried as an opaque value.
#[verifier::external_type_specification]
#[verifier::external_body]
pub struct ExRecvError(async_std::channel::RecvError);

/// The error that `async_std::channel::Sender::send` returns when every
/// receiver is gone; it holds the undelivered value. Only its presence
/// matters here.
#[verifier::external_type_specification]
#[verifier::external_body]
#[verifier::reject_recursive_types(T)]
pub struct ExSendError<T>(async_std::channel::SendError<T>);

/// What can go wrong when sending, answering or receiving a message.
#[derive(Debug, Clone, Copy, PartialEq, Eq)]
pub enum Error {
    /// A value was pushed onto a channel whose receiving side is gone.
    SendError,
    /// The private response channel closed before a response arrived.
    ReplayError(async_std::channel::RecvError),
    /// The transport channel is closed and holds no more envelopes.
    ReceivError(async_std::channel::RecvError),
}

impl<T> From<async_std::channel::SendError<T>> for Error {
    /// A failed push becomes `SendError`; the undelivered value is dropped.
    fn from(_e: async_std::channel::SendError<T>) -> (r: Error)
        ensures
            r is SendError,
    {
        Error::SendError
    }
}

impl<T> vstd::std_specs::convert::FromSpecImpl<async_std::channel::SendError<T>> for Error {
    open spec fn obeys_from_spec() -> bool {
        true
    }

    open spec fn from_spec(v: async_std::channel::SendError<T>) -> Error {
        Error::SendError
    }
}

} // verus!
