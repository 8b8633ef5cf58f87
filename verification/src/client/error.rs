//! Errors surfaced to the user of the client.

use vstd::prelude::*;

verus! {

/// An MQTT client error.
#[derive(Debug)]
pub enum Error<E> {
    /// The peer closed the connection, cleanly or abruptly.
    Disconnected,
    /// Invalid data was received; a protocol error cannot be
    /// recovered, and the connection should be discarded.
    Protocol,
    /// The receive buffer cannot hold the incoming packet and growth
    /// was refused; the connection is desynchronized and must be
    /// discarded.
    InsufficientBufferSize,
    /// An error of the underlying transport, propagated verbatim.
    Connection(E),
}

impl<E> From<E> for Error<E> {
    /// Wraps a transport error.
    fn from(value: E) -> Error<E> {
        Error::Connection(value)
    }
}

impl<E> vstd::std_specs::convert::FromSpecImpl<E> for Error<E> {
    open spec fn obeys_from_spec() -> bool {
        true
    }

    open spec fn from_spec(v: E) -> Error<E> {
        Error::Connection(v)
    }
}

} // verus!
