//! The answer to a request that the tracker will not serve.
use crate::udp_server::action::Action;
use crate::udp_server::decode_error::DecodeError;
use crate::wire::{be_u32, get_u32, lemma_u32_round_trip, put_bytes, put_u32, u32_from_be};
use vstd::prelude::*;
use vstd::slice::slice_to_vec;
use vstd::utf8::{
    decode_utf8, encode_utf8, encode_utf8_decode_utf8, encode_utf8_valid_utf8, valid_utf8,
};

verus! {

/// The length of an error response without its message.
pub const ERROR_RESPONSE_HEAD_LEN: usize = 8;

/// An error response as it is sent. The message takes the rest of the
/// datagram, in UTF-8 and without a terminator.
#[derive(Clone, Debug, PartialEq, Eq)]
pub struct ErrorResponse {
    pub action: Action,
    pub transaction_id: u32,
    pub error_string: String,
}

/// An error response as a mathematical value.
pub struct ErrorResponseView {
    pub action: Action,
    pub transaction_id: u32,
    pub error_string: Seq<char>,
}

impl View for ErrorResponse {
    type V = ErrorResponseView;

    open spec fn view(&self) -> ErrorResponseView {
        ErrorResponseView {
            action: self.action,
            transaction_id: self.transaction_id,
            error_string: self.error_string@,
        }
    }
}

/// `String::from_utf8` of std: the string that `bytes` encodes in UTF-8,
/// and `None` exactly where `bytes` is not valid UTF-8.
#[verifier::external_body]
fn string_from_utf8(bytes: Vec<u8>) -> (text: Option<String>)
    ensures
        text is Some <==> valid_utf8(bytes@),
        text matches Some(s) ==> s@ == decode_utf8(bytes@),
{
    match String::from_utf8(bytes) {
        Ok(text) => Some(text),
        Err(_) => None,
    }
}

impl ErrorResponseView {
    /// The bytes of this response: action, transaction id, then the message
    /// in UTF-8.
    pub open spec fn wire(self) -> Seq<u8> {
        be_u32(self.action.code()) + be_u32(self.transaction_id) + encode_utf8(self.error_string)
    }

    /// The error response that `bytes` is: the head, and a message that
    /// takes every byte after it.
    pub open spec fn parse(bytes: Seq<u8>) -> Result<ErrorResponseView, DecodeError> {
        if bytes.len() < ERROR_RESPONSE_HEAD_LEN {
            Err(DecodeError::MalformedPacket)
        } else {
            match Action::of_code(u32_from_be(bytes)) {
                None => Err(DecodeError::UnknownAction),
                Some(action) => if !valid_utf8(bytes.skip(8)) {
                    Err(DecodeError::MalformedPacket)
                } else {
                    Ok(
                        ErrorResponseView {
                            action,
                            transaction_id: u32_from_be(bytes.skip(4)),
                            error_string: decode_utf8(bytes.skip(8)),
                        },
                    )
                },
            }
        }
    }

    /// Parsing the bytes of an error response gives the response back.
    pub proof fn lemma_round_trip(v: ErrorResponseView)
        ensures
            v.wire().len() == ERROR_RESPONSE_HEAD_LEN + encode_utf8(v.error_string).len(),
            ErrorResponseView::parse(v.wire()) == Ok::<ErrorResponseView, DecodeError>(v),
    {
        let body = encode_utf8(v.error_string);
        let t4 = be_u32(v.transaction_id) + body;
        lemma_u32_round_trip(v.action.code(), t4);
        lemma_u32_round_trip(v.transaction_id, body);
        Action::lemma_code_round_trip(v.action, v.action.code());
        encode_utf8_valid_utf8(v.error_string);
        encode_utf8_decode_utf8(v.error_string);
        assert(v.wire() =~= be_u32(v.action.code()) + t4);
        assert(v.wire().skip(4) =~= t4);
        assert(v.wire().skip(8) =~= body);
    }
}

impl ErrorResponse {
    /// The error response to transaction `transaction_id` with the message
    /// `message`.
    pub fn new(transaction_id: u32, message: &str) -> (r: ErrorResponse)
        ensures
            r@ == (ErrorResponseView {
                action: Action::Error,
                transaction_id,
                error_string: message@,
            }),
    {
        ErrorResponse { action: Action::Error, transaction_id, error_string: message.to_owned() }
    }

    /// This response's bytes: eight for the head, then the message.
    pub fn encode(&self) -> (out: Vec<u8>)
        ensures
            out@ == self@.wire(),
    {
        let mut out: Vec<u8> = Vec::new();
        put_u32(&mut out, self.action.to_code());
        put_u32(&mut out, self.transaction_id);
        put_bytes(&mut out, self.error_string.as_str().as_bytes());
        assert(out@ =~= self@.wire());
        out
    }

    /// Reads an error response from `bytes`. Fails with `MalformedPacket`
    /// on fewer than eight bytes or a message that is not UTF-8, and with
    /// `UnknownAction` on an action number above 3.
    pub fn decode(bytes: &[u8]) -> (r: Result<ErrorResponse, DecodeError>)
        ensures
            match r {
                Ok(response) => ErrorResponseView::parse(bytes@) == Ok::<
                    ErrorResponseView,
                    DecodeError,
                >(response@),
                Err(e) => ErrorResponseView::parse(bytes@) == Err::<ErrorResponseView, DecodeError>(
                    e,
                ),
            },
    {
        if bytes.len() < ERROR_RESPONSE_HEAD_LEN {
            return Err(DecodeError::MalformedPacket);
        }
        assert(bytes@.skip(0) =~= bytes@);
        let action = match Action::from_code(get_u32(bytes, 0)) {
            None => {
                return Err(DecodeError::UnknownAction);
            },
            Some(action) => action,
        };
        let message = slice_to_vec(&bytes[ERROR_RESPONSE_HEAD_LEN..bytes.len()]);
        assert(message@ =~= bytes@.skip(8));
        match string_from_utf8(message) {
            None => Err(DecodeError::MalformedPacket),
            Some(error_string) => Ok(
                ErrorResponse { action, transaction_id: get_u32(bytes, 4), error_string },
            ),
        }
    }
}

} // verus!
