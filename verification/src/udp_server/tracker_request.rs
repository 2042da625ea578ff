//! A whole request: the header and the body that its action calls for.
use crate::udp_server::decode_error::DecodeError;
use crate::udp_server::payload::{payload_view, Payload, PayloadView};
use crate::udp_server::request::headers::Headers;
use crate::udp_server::request::request_factory::RequestFactory;
use vstd::prelude::*;

verus! {

/// A request as it was sent.
#[derive(Clone, Debug, PartialEq, Eq)]
pub struct TrackerRequest {
    pub headers: Headers,
    pub payload: Option<Payload>,
}

/// A request as a mathematical value.
pub struct TrackerRequestView {
    pub headers: Headers,
    pub payload: Option<PayloadView>,
}

impl View for TrackerRequest {
    type V = TrackerRequestView;

    open spec fn view(&self) -> TrackerRequestView {
        TrackerRequestView { headers: self.headers, payload: payload_view(self.payload) }
    }
}

impl TrackerRequestView {
    /// The request that the datagram `bytes` is: its header, and the body
    /// that the header's action calls for.
    pub open spec fn parse(bytes: Seq<u8>) -> Result<TrackerRequestView, DecodeError> {
        match Headers::parse(bytes) {
            Err(e) => Err(e),
            Ok(headers) => match RequestFactory::payload_of(headers.action, bytes) {
                Err(e) => Err(e),
                Ok(payload) => Ok(TrackerRequestView { headers, payload }),
            },
        }
    }
}

impl TrackerRequest {
    /// Reads a whole request from the datagram `packet`. Fails as the
    /// header's decoder does, and then as the decoder of the body that the
    /// action calls for.
    pub fn decode(packet: &[u8]) -> (r: Result<TrackerRequest, DecodeError>)
        ensures
            match r {
                Ok(request) => TrackerRequestView::parse(packet@) == Ok::<
                    TrackerRequestView,
                    DecodeError,
                >(request@),
                Err(e) => TrackerRequestView::parse(packet@) == Err::<
                    TrackerRequestView,
                    DecodeError,
                >(e),
            },
    {
        let headers = match Headers::decode(packet) {
            Err(e) => {
                return Err(e);
            },
            Ok(headers) => headers,
        };
        match RequestFactory::new_payload(&headers.action, packet) {
            Err(e) => Err(e),
            Ok(payload) => Ok(TrackerRequest { headers, payload }),
        }
    }
}

} // verus!
