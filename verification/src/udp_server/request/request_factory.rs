//! From an action and a packet to the packet's body.
use crate::udp_server::action::Action;
use crate::udp_server::decode_error::DecodeError;
use crate::udp_server::payload::{payload_view, Payload, PayloadView};
use crate::udp_server::request::announce::{AnnounceRequest, AnnounceRequestView};
use crate::udp_server::request::scrape::{ScrapeRequest, ScrapeRequestView};
use vstd::prelude::*;

verus! {

/// Reads the body that goes with an action.
pub struct RequestFactory;

impl RequestFactory {
    /// The body of the packet `bytes` under `action`: none for a connect or
    /// an error, the announce or scrape request that the packet holds
    /// otherwise.
    pub open spec fn payload_of(action: Action, bytes: Seq<u8>) -> Result<
        Option<PayloadView>,
        DecodeError,
    > {
        match action {
            Action::Connect => Ok(None),
            Action::Announce => match AnnounceRequestView::parse(bytes) {
                Ok(request) => Ok(Some(PayloadView::Announce(request))),
                Err(e) => Err(e),
            },
            Action::Scrape => match ScrapeRequestView::parse(bytes) {
                Ok(request) => Ok(Some(PayloadView::Scrape(request))),
                Err(e) => Err(e),
            },
            Action::Error => Ok(None),
        }
    }

    /// Reads from `packet`, a whole datagram, the body that goes with
    /// `action`. A connect and an error have no body; an announce and a
    /// scrape fail as their decoders do.
    pub fn new_payload(action: &Action, packet: &[u8]) -> (r: Result<Option<Payload>, DecodeError>)
        ensures
            match r {
                Ok(payload) => RequestFactory::payload_of(*action, packet@) == Ok::<
                    Option<PayloadView>,
                    DecodeError,
                >(payload_view(payload)),
                Err(e) => RequestFactory::payload_of(*action, packet@) == Err::<
                    Option<PayloadView>,
                    DecodeError,
                >(e),
            },
    {
        match action {
            Action::Connect => Ok(None),
            Action::Announce => match AnnounceRequest::decode(packet) {
                Ok(request) => Ok(Some(Payload::Announce(request))),
                Err(e) => Err(e),
            },
            Action::Scrape => match ScrapeRequest::decode(packet) {
                Ok(request) => Ok(Some(Payload::Scrape(request))),
                Err(e) => Err(e),
            },
            Action::Error => Ok(None),
        }
    }
}

} // verus!
