//! What a request carries after its header.
use crate::udp_server::request::announce::{AnnounceRequest, AnnounceRequestView};
use crate::udp_server::request::scrape::{ScrapeRequest, ScrapeRequestView};
use vstd::prelude::*;

verus! {

/// The body of a request, by kind. A connect request has none.
#[derive(Clone, Debug, PartialEq, Eq)]
pub enum Payload {
    Announce(AnnounceRequest),
    Scrape(ScrapeRequest),
}

/// The body of a request as a mathematical value.
pub enum PayloadView {
    Announce(AnnounceRequestView),
    Scrape(ScrapeRequestView),
}

impl View for Payload {
    type V = PayloadView;

    open spec fn view(&self) -> PayloadView {
        match self {
            Payload::Announce(request) => PayloadView::Announce(request@),
            Payload::Scrape(request) => PayloadView::Scrape(request@),
        }
    }
}

/// The view of a payload that may be absent.
pub open spec fn payload_view(payload: Option<Payload>) -> Option<PayloadView> {
    match payload {
        Some(p) => Some(p@),
        None => None,
    }
}

} // verus!
