//! An MQTT v5 client protocol engine: a verified binary codec and a
//! session-level client core that speaks MQTT over an abstract
//! byte-stream transport.
//!
//! The crate contains the wire codec (variable byte integers, strings,
//! binary blobs, fixed headers, packets, properties), the receive-buffer
//! manager, and the client-side request builders. The transport itself
//! (reading and writing bytes) is left to the caller.

use vstd::prelude::*;

pub mod client;
pub mod protocol;
pub mod utils;

verus! {

pub use client::{Client, Connection};

} // verus!
