//! The sixteen bytes that open every request.
use crate::udp_server::action::Action;
use crate::udp_server::decode_error::DecodeError;
use crate::wire::{
    be_u32, be_u64, get_u32, get_u64, lemma_u32_round_trip, lemma_u64_round_trip, put_u32,
    put_u64, u32_from_be, u64_from_be,
};
use vstd::prelude::*;

verus! {

/// The connection id that a client sends before it holds a token: the
/// protocol's magic constant.
pub const PROTOCOL_ID: u64 = 0x41727101980;

/// The length of a request header on the wire.
pub const HEADERS_LEN: usize = 16;

/// The header of a request: who asks, for what, and under which
/// transaction.
#[derive(Clone, Copy, Debug, PartialEq, Eq, Structural)]
pub struct Headers {
    pub connection_id: u64,
    pub action: Action,
    pub transaction_id: u32,
}

impl Headers {
    /// The bytes of this header: connection id, action, transaction id.
    pub open spec fn wire(self) -> Seq<u8> {
        be_u64(self.connection_id) + be_u32(self.action.code()) + be_u32(self.transaction_id)
    }

    /// The header that `bytes` begins with. Bytes after the sixteenth are
    /// not looked at.
    pub open spec fn parse(bytes: Seq<u8>) -> Result<Headers, DecodeError> {
        if bytes.len() < HEADERS_LEN {
            Err(DecodeError::MalformedPacket)
        } else {
            match Action::of_code(u32_from_be(bytes.skip(8))) {
                None => Err(DecodeError::UnknownAction),
                Some(action) => Ok(
                    Headers {
                        connection_id: u64_from_be(bytes),
                        action,
                        transaction_id: u32_from_be(bytes.skip(12)),
                    },
                ),
            }
        }
    }

    /// A header's bytes are sixteen, and parsing them gives the header back,
    /// whatever follows them.
    pub proof fn lemma_round_trip(h: Headers, rest: Seq<u8>)
        ensures
            h.wire().len() == HEADERS_LEN,
            Headers::parse(h.wire() + rest) == Ok::<Headers, DecodeError>(h),
    {
        let code = h.action.code();
        let tail = be_u32(h.transaction_id) + rest;
        let mid = be_u32(code) + tail;
        let all = h.wire() + rest;
        lemma_u64_round_trip(h.connection_id, mid);
        lemma_u32_round_trip(code, tail);
        lemma_u32_round_trip(h.transaction_id, rest);
        assert(all =~= be_u64(h.connection_id) + mid);
        assert(all.skip(8) =~= mid);
        assert(all.skip(12) =~= tail);
        Action::lemma_code_round_trip(h.action, code);
    }

    pub fn new(connection_id: u64, action: Action, transaction_id: u32) -> (headers: Headers)
        ensures
            headers == (Headers { connection_id, action, transaction_id }),
    {
        Headers { connection_id, action, transaction_id }
    }

    /// Whether the connection id is the protocol's magic constant.
    pub fn is_torrent(&self) -> (b: bool)
        ensures
            b == (self.connection_id == PROTOCOL_ID),
    {
        self.connection_id == PROTOCOL_ID
    }

    pub fn connection_id(&self) -> (id: u64)
        ensures
            id == self.connection_id,
    {
        self.connection_id
    }

    pub fn action(&self) -> (action: &Action)
        ensures
            *action == self.action,
    {
        &self.action
    }

    pub fn transaction_id(&self) -> (id: u32)
        ensures
            id == self.transaction_id,
    {
        self.transaction_id
    }

    /// Appends this header's bytes to `out`.
    pub fn encode_into(&self, out: &mut Vec<u8>)
        ensures
            final(out)@ == old(out)@ + self.wire(),
    {
        put_u64(out, self.connection_id);
        put_u32(out, self.action.to_code());
        put_u32(out, self.transaction_id);
        assert(out@ =~= old(out)@ + self.wire());
    }

    /// This header's sixteen bytes.
    pub fn encode(&self) -> (out: Vec<u8>)
        ensures
            out@ == self.wire(),
    {
        let mut out: Vec<u8> = Vec::new();
        self.encode_into(&mut out);
        assert(out@ =~= self.wire());
        out
    }

    /// Reads a header from the start of `bytes`. Fails with
    /// `MalformedPacket` on fewer than sixteen bytes and with
    /// `UnknownAction` on an action number above 3.
    pub fn decode(bytes: &[u8]) -> (r: Result<Headers, DecodeError>)
        ensures
            r == Headers::parse(bytes@),
    {
        if bytes.len() < HEADERS_LEN {
            return Err(DecodeError::MalformedPacket);
        }
        let connection_id = get_u64(bytes, 0);
        let code = get_u32(bytes, 8);
        let transaction_id = get_u32(bytes, 12);
        assert(bytes@.skip(0) =~= bytes@);
        match Action::from_code(code) {
            None => Err(DecodeError::UnknownAction),
            Some(action) => Ok(Headers { connection_id, action, transaction_id }),
        }
    }
}

} // verus!
