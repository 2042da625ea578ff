//! The answer to an announce: how often to come back, how large the swarm
//! is, and where some of its peers are.
use crate::address::{PeerAddress, PEER_ADDRESS_LEN};
use crate::records::{join, lemma_join_len, lemma_join_push, lemma_split_join, split};
use crate::udp_server::action::Action;
use crate::udp_server::decode_error::DecodeError;
use crate::wire::{
    be_u32, get_u16, get_u32, lemma_u16_reads_prefix, lemma_u32_reads_prefix,
    lemma_u32_round_trip, put_u16, put_u32, u32_from_be,
};
use vstd::prelude::*;

verus! {

/// The announce interval that the tracker hands out, in seconds: ten
/// minutes.
pub const DEFAULT_ANNOUNCE_INTERVAL: u32 = 600;

/// The length of an announce response without its peers.
pub const ANNOUNCE_RESPONSE_HEAD_LEN: usize = 20;

/// The peers of `peers` as records of six bytes each.
pub open spec fn peer_records(peers: Seq<PeerAddress>) -> Seq<Seq<u8>> {
    peers.map_values(|p: PeerAddress| p.wire())
}

/// The peers that the records of `records` stand for.
pub open spec fn peers_of_records(records: Seq<Seq<u8>>) -> Seq<PeerAddress> {
    records.map_values(|r: Seq<u8>| PeerAddress::parse(r))
}

/// An announce response as it is sent.
#[derive(Clone, Debug, PartialEq, Eq)]
pub struct AnnounceResponse {
    pub action: Action,
    pub transaction_id: u32,
    /// Seconds the client should wait before it announces again.
    pub interval: u32,
    pub leechers: u32,
    pub seeders: u32,
    pub peers: Vec<PeerAddress>,
}

/// An announce response as a mathematical value.
pub struct AnnounceResponseView {
    pub action: Action,
    pub transaction_id: u32,
    pub interval: u32,
    pub leechers: u32,
    pub seeders: u32,
    pub peers: Seq<PeerAddress>,
}

impl View for AnnounceResponse {
    type V = AnnounceResponseView;

    open spec fn view(&self) -> AnnounceResponseView {
        AnnounceResponseView {
            action: self.action,
            transaction_id: self.transaction_id,
            interval: self.interval,
            leechers: self.leechers,
            seeders: self.seeders,
            peers: self.peers@,
        }
    }
}

impl AnnounceResponseView {
    /// The twenty bytes before the peers: action, transaction id, interval,
    /// leechers, seeders.
    pub open spec fn head(self) -> Seq<u8> {
        be_u32(self.action.code()) + be_u32(self.transaction_id) + be_u32(self.interval) + be_u32(
            self.leechers,
        ) + be_u32(self.seeders)
    }

    /// The bytes of this response: the head, then six bytes for each peer.
    pub open spec fn wire(self) -> Seq<u8> {
        self.head() + join(peer_records(self.peers), 6)
    }

    /// The announce response that `bytes` is: the head and any number of
    /// whole peers, with nothing left over.
    pub open spec fn parse(bytes: Seq<u8>) -> Result<AnnounceResponseView, DecodeError> {
        if bytes.len() < ANNOUNCE_RESPONSE_HEAD_LEN {
            Err(DecodeError::MalformedPacket)
        } else {
            match Action::of_code(u32_from_be(bytes)) {
                None => Err(DecodeError::UnknownAction),
                Some(action) => if (bytes.len() - ANNOUNCE_RESPONSE_HEAD_LEN) % 6 != 0 {
                    Err(DecodeError::MalformedPacket)
                } else {
                    Ok(
                        AnnounceResponseView {
                            action,
                            transaction_id: u32_from_be(bytes.skip(4)),
                            interval: u32_from_be(bytes.skip(8)),
                            leechers: u32_from_be(bytes.skip(12)),
                            seeders: u32_from_be(bytes.skip(16)),
                            peers: peers_of_records(split(bytes.skip(20), 6)),
                        },
                    )
                },
            }
        }
    }

    /// Parsing the bytes of an announce response gives the response back.
    pub proof fn lemma_round_trip(v: AnnounceResponseView)
        ensures
            v.wire().len() == ANNOUNCE_RESPONSE_HEAD_LEN + 6 * v.peers.len(),
            AnnounceResponseView::parse(v.wire()) == Ok::<AnnounceResponseView, DecodeError>(v),
    {
        let records = peer_records(v.peers);
        let body = join(records, 6);
        let all = v.wire();
        let t16 = be_u32(v.seeders) + body;
        let t12 = be_u32(v.leechers) + t16;
        let t8 = be_u32(v.interval) + t12;
        let t4 = be_u32(v.transaction_id) + t8;
        lemma_u32_round_trip(v.action.code(), t4);
        lemma_u32_round_trip(v.transaction_id, t8);
        lemma_u32_round_trip(v.interval, t12);
        lemma_u32_round_trip(v.leechers, t16);
        lemma_u32_round_trip(v.seeders, body);
        Action::lemma_code_round_trip(v.action, v.action.code());
        assert forall|i: int| 0 <= i < records.len() implies (#[trigger] records[i]).len()
            == 6 && PeerAddress::parse(records[i]) == v.peers[i] by {
            PeerAddress::lemma_round_trip(v.peers[i]);
        }
        lemma_join_len(records, 6);
        lemma_split_join(records, 6);
        assert(all =~= be_u32(v.action.code()) + t4);
        assert(all.skip(4) =~= t4);
        assert(all.skip(8) =~= t8);
        assert(all.skip(12) =~= t12);
        assert(all.skip(16) =~= t16);
        assert(all.skip(20) =~= body);
        assert(peers_of_records(records) =~= v.peers);
    }
}

impl AnnounceResponse {
    /// This response's bytes: twenty for the head and six for each peer.
    pub fn encode(&self) -> (out: Vec<u8>)
        ensures
            out@ == self@.wire(),
    {
        let mut out: Vec<u8> = Vec::new();
        put_u32(&mut out, self.action.to_code());
        put_u32(&mut out, self.transaction_id);
        put_u32(&mut out, self.interval);
        put_u32(&mut out, self.leechers);
        put_u32(&mut out, self.seeders);
        let ghost records = peer_records(self.peers@);
        assert(out@ =~= self@.head() + join(records.take(0), 6));
        let mut i: usize = 0;
        while i < self.peers.len()
            invariant
                i <= self.peers.len(),
                records == peer_records(self.peers@),
                out@ == self@.head() + join(records.take(i as int), 6),
            decreases self.peers.len() - i,
        {
            let peer = self.peers[i];
            put_u32(&mut out, peer.ip);
            put_u16(&mut out, peer.port);
            proof {
                assert forall|j: int| 0 <= j < records.len() implies (#[trigger] records[j]).len()
                    == 6 by {
                    PeerAddress::lemma_round_trip(self.peers@[j]);
                }
                lemma_join_push(records.take(i as int), records[i as int], 6);
                assert(records.take(i as int).push(records[i as int]) =~= records.take(i + 1));
                assert(out@ =~= self@.head() + join(records.take(i + 1), 6));
            }
            i += 1;
        }
        assert(records.take(i as int) =~= records);
        out
    }

    /// Reads an announce response from `bytes`. Fails with
    /// `MalformedPacket` unless the bytes are the head and whole peers, and
    /// with `UnknownAction` on an action number above 3.
    pub fn decode(bytes: &[u8]) -> (r: Result<AnnounceResponse, DecodeError>)
        ensures
            match r {
                Ok(response) => AnnounceResponseView::parse(bytes@) == Ok::<
                    AnnounceResponseView,
                    DecodeError,
                >(response@),
                Err(e) => AnnounceResponseView::parse(bytes@) == Err::<
                    AnnounceResponseView,
                    DecodeError,
                >(e),
            },
    {
        if bytes.len() < ANNOUNCE_RESPONSE_HEAD_LEN {
            return Err(DecodeError::MalformedPacket);
        }
        assert(bytes@.skip(0) =~= bytes@);
        let action = match Action::from_code(get_u32(bytes, 0)) {
            None => {
                return Err(DecodeError::UnknownAction);
            },
            Some(action) => action,
        };
        let body_len: usize = bytes.len() - ANNOUNCE_RESPONSE_HEAD_LEN;
        if body_len % PEER_ADDRESS_LEN != 0 {
            return Err(DecodeError::MalformedPacket);
        }
        let n: usize = body_len / PEER_ADDRESS_LEN;
        let ghost body = bytes@.skip(20);
        let mut peers: Vec<PeerAddress> = Vec::new();
        let mut i: usize = 0;
        while i < n
            invariant
                i <= n,
                bytes.len() == 20 + 6 * n,
                body == bytes@.skip(20),
                peers@.len() == i,
                forall|j: int| 0 <= j < i ==> #[trigger] peers@[j] == PeerAddress::parse(
                    split(body, 6)[j],
                ),
            decreases n - i,
        {
            let at: usize = ANNOUNCE_RESPONSE_HEAD_LEN + PEER_ADDRESS_LEN * i;
            let peer = PeerAddress { ip: get_u32(bytes, at), port: get_u16(bytes, at + 4) };
            proof {
                let record = split(body, 6)[i as int];
                assert(record =~= bytes@.subrange(at as int, at + 6));
                assert(bytes@.skip(at as int).take(4) =~= record.take(4));
                assert(bytes@.skip(at + 4).take(2) =~= record.skip(4).take(2));
                lemma_u32_reads_prefix(bytes@.skip(at as int), record);
                lemma_u16_reads_prefix(bytes@.skip(at + 4), record.skip(4));
            }
            peers.push(peer);
            i += 1;
        }
        let response = AnnounceResponse {
            action,
            transaction_id: get_u32(bytes, 4),
            interval: get_u32(bytes, 8),
            leechers: get_u32(bytes, 12),
            seeders: get_u32(bytes, 16),
            peers,
        };
        assert(response@.peers =~= peers_of_records(split(body, 6)));
        Ok(response)
    }
}

} // verus!
