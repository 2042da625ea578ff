//! Why a run of bytes is not a packet.
use vstd::prelude::*;

verus! {

/// The two ways in which decoding a packet fails.
#[derive(Clone, Copy, Debug, PartialEq, Eq, Structural)]
pub enum DecodeError {
    /// The buffer is too short for the packet kind, or a field holds a value
    /// that the kind does not allow.
    MalformedPacket,
    /// The action field holds a number that names no action.
    UnknownAction,
}

} // verus!
