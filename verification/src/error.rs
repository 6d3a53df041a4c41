//! What can go wrong, and nothing of it is fatal: a datagram that fails is
//! dropped and the simulation step goes on.

use vstd::prelude::*;

verus! {

/// Why a datagram could not be read.
#[derive(Clone, Copy, Debug, PartialEq, Eq)]
pub enum DecodeError {
    /// The bytes are not the wire form of any envelope.
    MalformedEnvelope,
    /// The envelope is sound but its message tag is not one this library
    /// knows.
    UnknownKind,
    /// The tag is known but the packet is not a payload of the shape that the
    /// tag calls for.
    MalformedPacket,
}

/// Every way an operation of this library can fail.
#[derive(Clone, Copy, Debug, PartialEq, Eq)]
pub enum NetError {
    /// The datagram could not be read.
    Decode(DecodeError),
    /// All four player slots are taken.
    RegistryFull,
    /// A slot index outside `0..4`.
    InvalidSlot,
    /// A sequence number that is not newer than the last one applied to the
    /// same stream.
    StaleUpdate,
}

} // verus!
