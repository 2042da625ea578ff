//! The answer to a connect request.
use crate::udp_server::action::Action;
use crate::udp_server::decode_error::DecodeError;
use crate::wire::{
    be_u32, be_u64, get_u32, get_u64, lemma_u32_round_trip, lemma_u64_round_trip, put_u32,
    put_u64, u32_from_be, u64_from_be,
};
use vstd::prelude::*;

verus! {

/// The length of a connect response on the wire.
pub const CONNECT_RESPONSE_LEN: usize = 16;

/// Hands the client the connection id to use in its next requests.
#[derive(Clone, Copy, Debug, PartialEq, Eq, Structural)]
pub struct ConnectResponse {
    pub action: Action,
    pub transaction_id: u32,
    pub connection_id: u64,
}

impl ConnectResponse {
    /// The bytes of this response: action, transaction id, connection id.
    pub open spec fn wire(self) -> Seq<u8> {
        be_u32(self.action.code()) + be_u32(self.transaction_id) + be_u64(self.connection_id)
    }

    /// The connect response that `bytes` begins with. Bytes after the
    /// sixteenth are not looked at.
    pub open spec fn parse(bytes: Seq<u8>) -> Result<ConnectResponse, DecodeError> {
        if bytes.len() < CONNECT_RESPONSE_LEN {
            Err(DecodeError::MalformedPacket)
        } else {
            match Action::of_code(u32_from_be(bytes)) {
                None => Err(DecodeError::UnknownAction),
                Some(action) => Ok(
                    ConnectResponse {
                        action,
                        transaction_id: u32_from_be(bytes.skip(4)),
                        connection_id: u64_from_be(bytes.skip(8)),
                    },
                ),
            }
        }
    }

    /// A connect response's bytes are sixteen, and parsing them gives the
    /// response back, whatever follows them.
    pub proof fn lemma_round_trip(r: ConnectResponse, rest: Seq<u8>)
        ensures
            r.wire().len() == CONNECT_RESPONSE_LEN,
            ConnectResponse::parse(r.wire() + rest) == Ok::<ConnectResponse, DecodeError>(r),
    {
        let code = r.action.code();
        let tail = be_u64(r.connection_id) + rest;
        let mid = be_u32(r.transaction_id) + tail;
        let all = r.wire() + rest;
        lemma_u32_round_trip(code, mid);
        lemma_u32_round_trip(r.transaction_id, tail);
        lemma_u64_round_trip(r.connection_id, rest);
        assert(all =~= be_u32(code) + mid);
        assert(all.skip(4) =~= mid);
        assert(all.skip(8) =~= tail);
        Action::lemma_code_round_trip(r.action, code);
    }

    /// The response to the connect request of transaction `transaction_id`.
    pub fn new(transaction_id: u32, connection_id: u64) -> (r: ConnectResponse)
        ensures
            r == (ConnectResponse { action: Action::Connect, transaction_id, connection_id }),
    {
        ConnectResponse { action: Action::Connect, transaction_id, connection_id }
    }

    /// This response's sixteen bytes.
    pub fn encode(&self) -> (out: Vec<u8>)
        ensures
            out@ == self.wire(),
    {
        let mut out: Vec<u8> = Vec::new();
        put_u32(&mut out, self.action.to_code());
        put_u32(&mut out, self.transaction_id);
        put_u64(&mut out, self.connection_id);
        assert(out@ =~= self.wire());
        out
    }

    /// Reads a connect response from the start of `bytes`. Fails with
    /// `MalformedPacket` on fewer than sixteen bytes and with
    /// `UnknownAction` on an action number above 3.
    pub fn decode(bytes: &[u8]) -> (r: Result<ConnectResponse, DecodeError>)
        ensures
            r == ConnectResponse::parse(bytes@),
    {
        if bytes.len() < CONNECT_RESPONSE_LEN {
            return Err(DecodeError::MalformedPacket);
        }
        let code = get_u32(bytes, 0);
        let transaction_id = get_u32(bytes, 4);
        let connection_id = get_u64(bytes, 8);
        assert(bytes@.skip(0) =~= bytes@);
        match Action::from_code(code) {
            None => Err(DecodeError::UnknownAction),
            Some(action) => Ok(ConnectResponse { action, transaction_id, connection_id }),
        }
    }
}

} // verus!
