//! The announce request: a peer reports its progress on one torrent and
//! asks for other peers.
use crate::udp_server::decode_error::DecodeError;
use crate::udp_server::event::Event;
use crate::udp_server::request::headers::Headers;
use crate::wire::{
    be_u16, be_u32, be_u64, get_bytes20, get_u16, get_u32, get_u64, i32_of_u32, i32_to_u32,
    lemma_i32_round_trip, lemma_u16_round_trip, lemma_u32_round_trip, lemma_u64_round_trip,
    put_bytes, put_u16, put_u32, put_u64, u16_from_be, u32_from_be, u32_of_i32, u32_to_i32,
    u64_from_be,
};
use vstd::prelude::*;

verus! {

/// The length of an announce request on the wire, header included.
pub const ANNOUNCE_REQUEST_LEN: usize = 98;

/// An announce request as it was sent.
#[derive(Clone, Copy, Debug, PartialEq, Eq)]
pub struct AnnounceRequest {
    pub header: Headers,
    pub info_hash: [u8; 20],
    pub peer_id: [u8; 20],
    pub downloaded: u64,
    pub left: u64,
    pub uploaded: u64,
    pub event: Event,
    /// The address to register, or 0 for the address the packet came from.
    pub ip_address: u32,
    pub key: u32,
    /// How many peers the client asks for; negative for the default.
    pub num_want: i32,
    pub port: u16,
}

/// An announce request as a mathematical value.
pub struct AnnounceRequestView {
    pub header: Headers,
    pub info_hash: Seq<u8>,
    pub peer_id: Seq<u8>,
    pub downloaded: u64,
    pub left: u64,
    pub uploaded: u64,
    pub event: Event,
    pub ip_address: u32,
    pub key: u32,
    pub num_want: i32,
    pub port: u16,
}

impl View for AnnounceRequest {
    type V = AnnounceRequestView;

    open spec fn view(&self) -> AnnounceRequestView {
        AnnounceRequestView {
            header: self.header,
            info_hash: self.info_hash@,
            peer_id: self.peer_id@,
            downloaded: self.downloaded,
            left: self.left,
            uploaded: self.uploaded,
            event: self.event,
            ip_address: self.ip_address,
            key: self.key,
            num_want: self.num_want,
            port: self.port,
        }
    }
}

impl AnnounceRequestView {
    /// Whether the info hash and the peer id are twenty bytes each, as they
    /// are in every executable value.
    pub open spec fn wf(self) -> bool {
        self.info_hash.len() == 20 && self.peer_id.len() == 20
    }

    /// The bytes of this request, field after field.
    pub open spec fn wire(self) -> Seq<u8> {
        self.header.wire() + self.info_hash + self.peer_id + be_u64(self.downloaded) + be_u64(
            self.left,
        ) + be_u64(self.uploaded) + be_u32(self.event.code()) + be_u32(self.ip_address) + be_u32(
            self.key,
        ) + be_u32(u32_of_i32(self.num_want)) + be_u16(self.port)
    }

    /// The announce request that `bytes` begins with. Bytes after the
    /// ninety-eighth are not looked at.
    pub open spec fn parse(bytes: Seq<u8>) -> Result<AnnounceRequestView, DecodeError> {
        if bytes.len() < ANNOUNCE_REQUEST_LEN {
            Err(DecodeError::MalformedPacket)
        } else {
            match Headers::parse(bytes) {
                Err(e) => Err(e),
                Ok(header) => match Event::of_code(u32_from_be(bytes.skip(80))) {
                    None => Err(DecodeError::MalformedPacket),
                    Some(event) => Ok(
                        AnnounceRequestView {
                            header,
                            info_hash: bytes.subrange(16, 36),
                            peer_id: bytes.subrange(36, 56),
                            downloaded: u64_from_be(bytes.skip(56)),
                            left: u64_from_be(bytes.skip(64)),
                            uploaded: u64_from_be(bytes.skip(72)),
                            event,
                            ip_address: u32_from_be(bytes.skip(84)),
                            key: u32_from_be(bytes.skip(88)),
                            num_want: i32_of_u32(u32_from_be(bytes.skip(92))),
                            port: u16_from_be(bytes.skip(96)),
                        },
                    ),
                },
            }
        }
    }

    /// An announce request's bytes are ninety-eight, and parsing them gives
    /// the request back, whatever follows them.
    pub proof fn lemma_round_trip(v: AnnounceRequestView, rest: Seq<u8>)
        requires
            v.wf(),
        ensures
            v.wire().len() == ANNOUNCE_REQUEST_LEN,
            AnnounceRequestView::parse(v.wire() + rest) == Ok::<AnnounceRequestView, DecodeError>(
                v,
            ),
    {
        let all = v.wire() + rest;
        let t96 = be_u16(v.port) + rest;
        let t92 = be_u32(u32_of_i32(v.num_want)) + t96;
        let t88 = be_u32(v.key) + t92;
        let t84 = be_u32(v.ip_address) + t88;
        let t80 = be_u32(v.event.code()) + t84;
        let t72 = be_u64(v.uploaded) + t80;
        let t64 = be_u64(v.left) + t72;
        let t56 = be_u64(v.downloaded) + t64;
        let t16 = v.info_hash + v.peer_id + t56;
        Headers::lemma_round_trip(v.header, t16);
        lemma_u64_round_trip(v.downloaded, t64);
        lemma_u64_round_trip(v.left, t72);
        lemma_u64_round_trip(v.uploaded, t80);
        lemma_u32_round_trip(v.event.code(), t84);
        lemma_u32_round_trip(v.ip_address, t88);
        lemma_u32_round_trip(v.key, t92);
        lemma_u32_round_trip(u32_of_i32(v.num_want), t96);
        lemma_u16_round_trip(v.port, rest);
        lemma_i32_round_trip(v.num_want, 0);
        Event::lemma_code_round_trip(v.event, v.event.code());
        assert(all =~= v.header.wire() + t16);
        assert(all.subrange(16, 36) =~= v.info_hash);
        assert(all.subrange(36, 56) =~= v.peer_id);
        assert(all.skip(56) =~= t56);
        assert(all.skip(64) =~= t64);
        assert(all.skip(72) =~= t72);
        assert(all.skip(80) =~= t80);
        assert(all.skip(84) =~= t84);
        assert(all.skip(88) =~= t88);
        assert(all.skip(92) =~= t92);
        assert(all.skip(96) =~= t96);
    }
}

impl AnnounceRequest {
    /// This request's ninety-eight bytes.
    pub fn encode(&self) -> (out: Vec<u8>)
        ensures
            out@ == self@.wire(),
    {
        let mut out: Vec<u8> = Vec::new();
        self.header.encode_into(&mut out);
        put_bytes(&mut out, &self.info_hash);
        put_bytes(&mut out, &self.peer_id);
        put_u64(&mut out, self.downloaded);
        put_u64(&mut out, self.left);
        put_u64(&mut out, self.uploaded);
        put_u32(&mut out, self.event.to_code());
        put_u32(&mut out, self.ip_address);
        put_u32(&mut out, self.key);
        put_u32(&mut out, i32_to_u32(self.num_want));
        put_u16(&mut out, self.port);
        assert(out@ =~= self@.wire());
        out
    }

    /// Reads an announce request from the start of `bytes`, header
    /// included. Fails with `MalformedPacket` on fewer than ninety-eight
    /// bytes or an event number above 3, and with `UnknownAction` on an
    /// action number above 3.
    pub fn decode(bytes: &[u8]) -> (r: Result<AnnounceRequest, DecodeError>)
        ensures
            match r {
                Ok(request) => AnnounceRequestView::parse(bytes@) == Ok::<
                    AnnounceRequestView,
                    DecodeError,
                >(request@),
                Err(e) => AnnounceRequestView::parse(bytes@) == Err::<
                    AnnounceRequestView,
                    DecodeError,
                >(e),
            },
    {
        if bytes.len() < ANNOUNCE_REQUEST_LEN {
            return Err(DecodeError::MalformedPacket);
        }
        let header = match Headers::decode(bytes) {
            Err(e) => {
                return Err(e);
            },
            Ok(header) => header,
        };
        let event = match Event::from_code(get_u32(bytes, 80)) {
            None => {
                return Err(DecodeError::MalformedPacket);
            },
            Some(event) => event,
        };
        Ok(
            AnnounceRequest {
                header,
                info_hash: get_bytes20(bytes, 16),
                peer_id: get_bytes20(bytes, 36),
                downloaded: get_u64(bytes, 56),
                left: get_u64(bytes, 64),
                uploaded: get_u64(bytes, 72),
                event,
                ip_address: get_u32(bytes, 84),
                key: get_u32(bytes, 88),
                num_want: u32_to_i32(get_u32(bytes, 92)),
                port: get_u16(bytes, 96),
            },
        )
    }
}

} // verus!
