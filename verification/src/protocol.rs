//! The MQTT v5 wire protocol: primitive codecs, packets, and the
//! mathematical model of the byte format that their contracts use.

pub mod qos;
pub mod types;
pub mod v5;
pub mod wire;

use vstd::prelude::*;

verus! {

/// An unrecoverable error while parsing a packet.
#[derive(Debug, PartialEq, Eq, Structural, Clone, Copy)]
pub enum PacketError {
    /// The fixed header announced a packet of another type.
    InvalidType { expected: u8, actual: u8 },
    /// The data violates the protocol.
    ProtocolError,
}

/// Outcome of a parse attempt.
///
/// `NotEnoughData` is recoverable: the caller may supply more bytes and
/// retry from the same offset. `Error` is unrecoverable for this packet.
#[derive(Debug, PartialEq, Eq, Structural)]
pub enum ParseError<T> {
    NotEnoughData,
    Error(T),
}

impl<T> ParseError<T> {
    /// Maps the unrecoverable error's payload; `NotEnoughData` stays
    /// as it is.
    pub fn map<S, F: FnOnce(T) -> S>(self, f: F) -> (r: ParseError<S>)
        requires
            self matches ParseError::Error(e) ==> f.requires((e,)),
        ensures
            match self {
                ParseError::NotEnoughData => r == ParseError::<S>::NotEnoughData,
                ParseError::Error(e) => r matches ParseError::Error(s) && f.ensures((e,), s),
            },
    {
        match self {
            ParseError::NotEnoughData => ParseError::NotEnoughData,
            ParseError::Error(err) => ParseError::Error(f(err)),
        }
    }
}

} // verus!
