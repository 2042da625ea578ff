//! The address of a peer.
use crate::wire::{
    be_u16, be_u32, lemma_u16_round_trip, lemma_u32_round_trip, u16_from_be, u32_from_be,
};
use vstd::prelude::*;

verus! {

/// The length of a peer's address on the wire.
pub const PEER_ADDRESS_LEN: usize = 6;

/// Where a peer can be reached: an IPv4 address as a number, and a port.
#[derive(Clone, Copy, Debug, PartialEq, Eq, Structural)]
pub struct PeerAddress {
    pub ip: u32,
    pub port: u16,
}

impl PeerAddress {
    /// The six bytes of this address: address, then port.
    pub open spec fn wire(self) -> Seq<u8> {
        be_u32(self.ip) + be_u16(self.port)
    }

    /// The address that `bytes` begins with.
    pub open spec fn parse(bytes: Seq<u8>) -> PeerAddress {
        PeerAddress { ip: u32_from_be(bytes), port: u16_from_be(bytes.skip(4)) }
    }

    /// An address's bytes are six, and parsing them gives the address back.
    pub proof fn lemma_round_trip(p: PeerAddress)
        ensures
            p.wire().len() == PEER_ADDRESS_LEN,
            PeerAddress::parse(p.wire()) == p,
    {
        lemma_u32_round_trip(p.ip, be_u16(p.port));
        lemma_u16_round_trip(p.port, Seq::empty());
        assert(p.wire().skip(4) =~= be_u16(p.port) + Seq::empty());
    }

    pub fn new(ip: u32, port: u16) -> (address: PeerAddress)
        ensures
            address == (PeerAddress { ip, port }),
    {
        PeerAddress { ip, port }
    }
}

} // verus!
