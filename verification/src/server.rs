//! The tracker: one datagram in, at most one datagram out.
//!
//! Each datagram is answered on its own. `step` says, as mathematics, what
//! the tracker answers to a datagram and what it keeps of it; `process`
//! does it. The tracker never reads a clock or a socket: the caller hands
//! it the datagram, the sender's address and the time, and sends what comes
//! back.
use crate::address::PeerAddress;
use crate::swarm::model::{clamp, lemma_upsert_wf, PeerStats, RegistryView, SwarmView};
use crate::swarm::registry::{clamped, SwarmRegistry};
use crate::token::{accepts, bucket_of, lemma_token_lifetime, token_for, TokenService};
use crate::udp_server::action::Action;
use crate::udp_server::decode_error::DecodeError;
use crate::udp_server::request::announce::{AnnounceRequest, AnnounceRequestView};
use crate::udp_server::request::headers::{Headers, PROTOCOL_ID};
use crate::udp_server::request::scrape::{ScrapeRequest, ScrapeRequestView};
use crate::udp_server::response::announce::{AnnounceResponse, AnnounceResponseView};
use crate::udp_server::response::connect::ConnectResponse;
use crate::udp_server::response::error::{ErrorResponse, ErrorResponseView};
use crate::udp_server::response::scrape::{ScrapeResponse, ScrapeResponseView};
use vstd::prelude::*;

verus! {

/// How many peers an announce is answered with where the client names no
/// number.
pub const DEFAULT_NUM_WANT: usize = 50;

/// The tracker as a mathematical value: the secret of its tokens, and its
/// swarms.
pub struct TrackerView {
    pub secret: u128,
    pub registry: RegistryView,
}

/// The bytes of the error response to `transaction_id` with the message
/// `message`.
pub open spec fn error_reply(transaction_id: u32, message: Seq<char>) -> Seq<u8> {
    (ErrorResponseView { action: Action::Error, transaction_id, error_string: message }).wire()
}

/// The answer to a connect request: a fresh token for the sender where the
/// request shows the protocol's magic constant, an error where it does not.
pub open spec fn connect_reply(secret: u128, header: Headers, sender: PeerAddress, now: u64) -> Seq<
    u8,
> {
    if header.connection_id == PROTOCOL_ID {
        (ConnectResponse {
            action: Action::Connect,
            transaction_id: header.transaction_id,
            connection_id: token_for(secret, sender, bucket_of(now)),
        }).wire()
    } else {
        error_reply(header.transaction_id, "Not a valid protocol ID"@)
    }
}

/// The address under which an announce registers its peer: the address that
/// the request names, or the sender's where it names none, and the port
/// that the request names.
pub open spec fn registered_address(request: AnnounceRequestView, sender: PeerAddress)
    -> PeerAddress {
    PeerAddress {
        ip: if request.ip_address != 0 {
            request.ip_address
        } else {
            sender.ip
        },
        port: request.port,
    }
}

/// How many peers a request for `num_want` peers is answered with at most:
/// the default where the number is negative.
pub open spec fn wanted(num_want: i32) -> nat {
    if num_want < 0 {
        DEFAULT_NUM_WANT as nat
    } else {
        num_want as nat
    }
}

/// The registry after the announce `request` from `sender`.
pub open spec fn announced(
    registry: RegistryView,
    request: AnnounceRequestView,
    sender: PeerAddress,
    now: u64,
) -> RegistryView {
    registry.upsert(
        request.info_hash,
        request.peer_id,
        registered_address(request, sender),
        PeerStats { downloaded: request.downloaded, uploaded: request.uploaded, left: request.left },
        request.event,
        now,
    )
}

/// The answer to the announce `request`, given the registry after the
/// announce: the interval, the swarm's counts, and up to as many peers as
/// the request asks for, the requester not among them.
pub open spec fn announce_reply(registry: RegistryView, request: AnnounceRequestView, now: u64)
    -> Seq<u8> {
    let swarm = registry.swarms[request.info_hash];
    (AnnounceResponseView {
        action: Action::Announce,
        transaction_id: request.header.transaction_id,
        interval: registry.interval,
        leechers: clamp(swarm.leechers(now, registry.interval)),
        seeders: clamp(swarm.seeders(now, registry.interval)),
        peers: swarm.sample(request.peer_id, wanted(request.num_want), now, registry.interval),
    }).wire()
}

/// The answer to the scrape `request`: the counts of each swarm asked
/// about, in the order of the request.
pub open spec fn scrape_reply(registry: RegistryView, request: ScrapeRequestView, now: u64) -> Seq<
    u8,
> {
    (ScrapeResponseView {
        action: Action::Scrape,
        transaction_id: request.header.transaction_id,
        entries: registry.scrape(request.info_hashes, now),
    }).wire()
}

/// What an announce packet with the header `header` does to the tracker,
/// and the answer to it.
pub open spec fn announce_step(
    state: TrackerView,
    header: Headers,
    packet: Seq<u8>,
    sender: PeerAddress,
    now: u64,
) -> (TrackerView, Seq<u8>) {
    match AnnounceRequestView::parse(packet) {
        Err(_) => (state, error_reply(header.transaction_id, "Announce error"@)),
        Ok(request) => {
            let registry = announced(state.registry, request, sender, now);
            (
                TrackerView { secret: state.secret, registry },
                announce_reply(registry, request, now),
            )
        },
    }
}

/// The answer to a scrape packet with the header `header`.
pub open spec fn scrape_step(state: TrackerView, header: Headers, packet: Seq<u8>, now: u64)
    -> Seq<u8> {
    match ScrapeRequestView::parse(packet) {
        Err(_) => error_reply(header.transaction_id, "Scrape error"@),
        Ok(request) => scrape_reply(state.registry, request, now),
    }
}

/// What the datagram `packet` from `sender` at the second `now` does to
/// the tracker, and the answer to it, if there is one.
///
/// A datagram without a whole header, with an action number that names no
/// action, or with the action of an error is dropped. A connect is answered
/// without a token. An announce or a scrape must show a token that is good
/// for the sender; then its body is read and served.
pub open spec fn step(state: TrackerView, packet: Seq<u8>, sender: PeerAddress, now: u64) -> (
    TrackerView,
    Option<Seq<u8>>,
) {
    match Headers::parse(packet) {
        Err(_) => (state, None),
        Ok(header) => match header.action {
            Action::Connect => (state, Some(connect_reply(state.secret, header, sender, now))),
            Action::Error => (state, None),
            Action::Announce => if !accepts(state.secret, header.connection_id, sender, now) {
                (
                    state,
                    Some(error_reply(header.transaction_id, "Connection ID expired or invalid"@)),
                )
            } else {
                let (next, reply) = announce_step(state, header, packet, sender, now);
                (next, Some(reply))
            },
            Action::Scrape => if !accepts(state.secret, header.connection_id, sender, now) {
                (
                    state,
                    Some(error_reply(header.transaction_id, "Connection ID expired or invalid"@)),
                )
            } else {
                (state, Some(scrape_step(state, header, packet, now)))
            },
        },
    }
}

/// A connect request that shows the protocol's magic constant is answered
/// with a connect response that repeats its transaction id and carries a
/// token that is good for the sender; one that shows anything else is
/// answered with an error response that repeats its transaction id. Neither
/// changes the tracker.
pub proof fn lemma_connect(state: TrackerView, packet: Seq<u8>, sender: PeerAddress, now: u64)
    requires
        Headers::parse(packet) is Ok,
        Headers::parse(packet).unwrap().action == Action::Connect,
    ensures
        ({
            let header = Headers::parse(packet).unwrap();
            let (next, reply) = step(state, packet, sender, now);
            &&& next == state
            &&& reply is Some
            &&& header.connection_id == PROTOCOL_ID ==> {
                &&& ConnectResponse::parse(reply.unwrap()) is Ok
                &&& ConnectResponse::parse(reply.unwrap()).unwrap().action == Action::Connect
                &&& ConnectResponse::parse(reply.unwrap()).unwrap().transaction_id
                    == header.transaction_id
                &&& accepts(
                    state.secret,
                    ConnectResponse::parse(reply.unwrap()).unwrap().connection_id,
                    sender,
                    now,
                )
            }
            &&& header.connection_id != PROTOCOL_ID ==> {
                &&& ErrorResponseView::parse(reply.unwrap()) is Ok
                &&& ErrorResponseView::parse(reply.unwrap()).unwrap().action == Action::Error
                &&& ErrorResponseView::parse(reply.unwrap()).unwrap().transaction_id
                    == header.transaction_id
            }
        }),
{
    let header = Headers::parse(packet).unwrap();
    if header.connection_id == PROTOCOL_ID {
        ConnectResponse::lemma_round_trip(
            ConnectResponse {
                action: Action::Connect,
                transaction_id: header.transaction_id,
                connection_id: token_for(state.secret, sender, bucket_of(now)),
            },
            Seq::empty(),
        );
        let reply = connect_reply(state.secret, header, sender, now);
        assert(reply + Seq::<u8>::empty() =~= reply);
    } else {
        lemma_error_reply(header.transaction_id, "Not a valid protocol ID"@);
    }
}

/// Why a datagram is not served.
#[derive(Clone, Copy, Debug, PartialEq, Eq, Structural)]
pub enum TrackerError {
    /// The datagram is too short to hold a header. It is dropped.
    MalformedPacket,
    /// The action is none that a client can ask for. The datagram is
    /// dropped.
    UnknownAction,
    /// The connection id is not the protocol's magic constant, in a
    /// connect, or not a token that is good for the sender, in an announce
    /// or a scrape. The datagram is answered with an error response.
    InvalidOrExpiredToken,
    /// The header is in order and the body cannot be read. The datagram is
    /// answered with an error response that names the action.
    PayloadDecodeError,
}

/// Whether the datagram `packet` from `sender` at the second `now` is
/// served, as what, and why not where it is not.
pub open spec fn verdict(state: TrackerView, packet: Seq<u8>, sender: PeerAddress, now: u64)
    -> Result<Action, TrackerError> {
    match Headers::parse(packet) {
        Err(DecodeError::MalformedPacket) => Err(TrackerError::MalformedPacket),
        Err(DecodeError::UnknownAction) => Err(TrackerError::UnknownAction),
        Ok(header) => match header.action {
            Action::Error => Err(TrackerError::UnknownAction),
            Action::Connect => if header.connection_id == PROTOCOL_ID {
                Ok(Action::Connect)
            } else {
                Err(TrackerError::InvalidOrExpiredToken)
            },
            Action::Announce => if !accepts(state.secret, header.connection_id, sender, now) {
                Err(TrackerError::InvalidOrExpiredToken)
            } else if AnnounceRequestView::parse(packet) is Err {
                Err(TrackerError::PayloadDecodeError)
            } else {
                Ok(Action::Announce)
            },
            Action::Scrape => if !accepts(state.secret, header.connection_id, sender, now) {
                Err(TrackerError::InvalidOrExpiredToken)
            } else if ScrapeRequestView::parse(packet) is Err {
                Err(TrackerError::PayloadDecodeError)
            } else {
                Ok(Action::Scrape)
            },
        },
    }
}

/// A datagram that is not served changes nothing in the tracker. It goes
/// without an answer exactly where it is malformed or its action unknown,
/// and is answered with an error response that repeats its transaction id
/// where its token or its body is at fault.
pub proof fn lemma_refusals(state: TrackerView, packet: Seq<u8>, sender: PeerAddress, now: u64)
    ensures
        ({
            let v = verdict(state, packet, sender, now);
            let (next, reply) = step(state, packet, sender, now);
            &&& v is Err ==> next == state
            &&& reply is None <==> (v == Err::<Action, TrackerError>(TrackerError::MalformedPacket)
                || v == Err::<Action, TrackerError>(TrackerError::UnknownAction))
            &&& (v == Err::<Action, TrackerError>(TrackerError::InvalidOrExpiredToken) || v == Err::<
                Action,
                TrackerError,
            >(TrackerError::PayloadDecodeError)) ==> {
                &&& ErrorResponseView::parse(reply.unwrap()) is Ok
                &&& ErrorResponseView::parse(reply.unwrap()).unwrap().action == Action::Error
                &&& ErrorResponseView::parse(reply.unwrap()).unwrap().transaction_id
                    == Headers::parse(packet).unwrap().transaction_id
            }
        }),
{
    if Headers::parse(packet) is Ok {
        let id = Headers::parse(packet).unwrap().transaction_id;
        lemma_error_reply(id, "Not a valid protocol ID"@);
        lemma_error_reply(id, "Connection ID expired or invalid"@);
        lemma_error_reply(id, "Announce error"@);
        lemma_error_reply(id, "Scrape error"@);
    }
}

/// The bytes of an error response are read back as that error response.
proof fn lemma_error_reply(transaction_id: u32, message: Seq<char>)
    ensures
        ErrorResponseView::parse(error_reply(transaction_id, message)) == Ok::<
            ErrorResponseView,
            DecodeError,
        >(ErrorResponseView { action: Action::Error, transaction_id, error_string: message }),
{
    ErrorResponseView::lemma_round_trip(
        ErrorResponseView { action: Action::Error, transaction_id, error_string: message },
    );
}

/// An announce or a scrape that shows a token issued to its sender is
/// refused in every window but the one of the issue and the next: the
/// tracker stays as it is and answers with an error.
pub proof fn lemma_stale_token_refused(
    state: TrackerView,
    packet: Seq<u8>,
    sender: PeerAddress,
    issued_in: u64,
    now: u64,
)
    requires
        Headers::parse(packet) is Ok,
        Headers::parse(packet).unwrap().action == Action::Announce || Headers::parse(
            packet,
        ).unwrap().action == Action::Scrape,
        Headers::parse(packet).unwrap().connection_id == token_for(
            state.secret,
            sender,
            issued_in,
        ),
        bucket_of(now) != issued_in,
        bucket_of(now) != issued_in + 1,
    ensures
        step(state, packet, sender, now) == (
            state,
            Some(
                error_reply(
                    Headers::parse(packet).unwrap().transaction_id,
                    "Connection ID expired or invalid"@,
                ),
            ),
        ),
        verdict(state, packet, sender, now) == Err::<Action, TrackerError>(
            TrackerError::InvalidOrExpiredToken,
        ),
{
    lemma_token_lifetime(state.secret, sender, issued_in, now);
}

/// Whatever the datagram, the tracker's swarms stay well formed.
pub proof fn lemma_step_wf(state: TrackerView, packet: Seq<u8>, sender: PeerAddress, now: u64)
    requires
        state.registry.wf(),
    ensures
        step(state, packet, sender, now).0.registry.wf(),
        step(state, packet, sender, now).0.secret == state.secret,
        step(state, packet, sender, now).0.registry.interval == state.registry.interval,
{
    let next = step(state, packet, sender, now).0;
    if next != state {
        let request = AnnounceRequestView::parse(packet).unwrap();
        let h = request.info_hash;
        assert(state.registry.swarms.dom().contains(h) && state.registry.swarms[h].wf());
        lemma_upsert_wf(
            state.registry.swarms[h],
            request.peer_id,
            registered_address(request, sender),
            PeerStats {
                downloaded: request.downloaded,
                uploaded: request.uploaded,
                left: request.left,
            },
            request.event,
            now,
        );
        assert forall|k: Seq<u8>|
            #![trigger next.registry.swarms[k]]
            #![trigger next.registry.swarms.dom().contains(k)]
            next.registry.swarms.dom().contains(k) && next.registry.swarms[k].wf() by {
            assert(state.registry.swarms.dom().contains(k) && state.registry.swarms[k].wf());
        }
    }
}

/// The bytes of an answer that may be absent.
pub open spec fn reply_view(reply: Option<Vec<u8>>) -> Option<Seq<u8>> {
    match reply {
        Some(bytes) => Some(bytes@),
        None => None,
    }
}

/// The tracker: the token service and the swarm registry.
pub struct UdpTracker {
    tokens: TokenService,
    registry: SwarmRegistry,
}

impl View for UdpTracker {
    type V = TrackerView;

    closed spec fn view(&self) -> TrackerView {
        TrackerView { secret: self.tokens.secret(), registry: self.registry@ }
    }
}

impl UdpTracker {
    /// The invariant of the representation: that of the registry.
    pub closed spec fn inv(&self) -> bool {
        self.registry.inv()
    }

    /// How many swarms the tracker has in store.
    pub closed spec fn slots(&self) -> nat {
        self.registry.slots()
    }

    /// The info hash of the swarm stored at index `i`.
    pub closed spec fn hash_at(&self, i: int) -> Seq<u8> {
        self.registry.hash_at(i)
    }

    /// A tracker that keeps its invariant stands for a well-formed value.
    pub proof fn lemma_view_wf(&self)
        requires
            self.inv(),
        ensures
            self@.registry.wf(),
    {
        self.registry.lemma_view_wf();
    }

    /// A tracker with no swarms, which issues its tokens with `tokens` and
    /// hands out the announce interval `interval`, in seconds.
    pub fn new(tokens: TokenService, interval: u32) -> (tracker: UdpTracker)
        ensures
            tracker.inv(),
            tracker@ == (TrackerView {
                secret: tokens.secret(),
                registry: RegistryView::fresh(interval),
            }),
    {
        UdpTracker { tokens, registry: SwarmRegistry::new(interval) }
    }

    /// The connection id for `addr` at the second `now`: a token that is
    /// good for that address in this time window and the next.
    pub fn generate_connection_id(&self, addr: &PeerAddress, now: u64) -> (id: u64)
        ensures
            id == token_for(self@.secret, *addr, bucket_of(now)),
    {
        self.tokens.issue(addr, now)
    }

    /// Answers a connect request.
    pub fn handle_connect(&self, addr: &PeerAddress, tracker_packet_header: &Headers, now: u64) -> (
        response: Vec<u8>
    )
        ensures
            response@ == connect_reply(self@.secret, *tracker_packet_header, *addr, now),
    {
        if tracker_packet_header.connection_id != PROTOCOL_ID {
            ErrorResponse::new(
                tracker_packet_header.transaction_id,
                "Not a valid protocol ID",
            ).encode()
        } else {
            ConnectResponse::new(
                tracker_packet_header.transaction_id,
                self.generate_connection_id(addr, now),
            ).encode()
        }
    }

    /// Serves an announce whose token was accepted: reads the request from
    /// `payload`, the whole datagram, records the peer, and answers with the
    /// swarm's counts and peers; answers with an error where the request
    /// cannot be read.
    pub fn handle_announce(
        &mut self,
        addr: &PeerAddress,
        tracker_packet_header: &Headers,
        payload: &[u8],
        now: u64,
    ) -> (response: Vec<u8>)
        requires
            old(self).inv(),
        ensures
            final(self).inv(),
            (final(self)@, response@) == announce_step(
                old(self)@,
                *tracker_packet_header,
                payload@,
                *addr,
                now,
            ),
    {
        match AnnounceRequest::decode(payload) {
            Err(_) => ErrorResponse::new(
                tracker_packet_header.transaction_id,
                "Announce error",
            ).encode(),
            Ok(request) => {
                let address = PeerAddress {
                    ip: if request.ip_address != 0 {
                        request.ip_address
                    } else {
                        addr.ip
                    },
                    port: request.port,
                };
                let stats = PeerStats {
                    downloaded: request.downloaded,
                    uploaded: request.uploaded,
                    left: request.left,
                };
                self.registry.upsert(
                    &request.info_hash,
                    &request.peer_id,
                    address,
                    stats,
                    request.event,
                    now,
                );
                let limit: usize = if request.num_want < 0 {
                    DEFAULT_NUM_WANT
                } else {
                    request.num_want as usize
                };
                let counts = self.registry.snapshot(&request.info_hash, now);
                let peers = self.registry.sample_peers(
                    &request.info_hash,
                    &request.peer_id,
                    limit,
                    now,
                );
                let response = AnnounceResponse {
                    action: Action::Announce,
                    transaction_id: request.header.transaction_id,
                    interval: self.registry.interval(),
                    leechers: clamped(counts.leechers),
                    seeders: clamped(counts.seeders),
                    peers,
                };
                response.encode()
            },
        }
    }

    /// Serves a scrape whose token was accepted: reads the request from
    /// `payload`, the whole datagram, and answers with the counts of each
    /// swarm asked about; answers with an error where the request cannot be
    /// read.
    pub fn handle_scrape(&self, tracker_packet_header: &Headers, payload: &[u8], now: u64) -> (response:
        Vec<u8>)
        requires
            self.inv(),
        ensures
            response@ == scrape_step(self@, *tracker_packet_header, payload@, now),
    {
        match ScrapeRequest::decode(payload) {
            Err(_) => ErrorResponse::new(
                tracker_packet_header.transaction_id,
                "Scrape error",
            ).encode(),
            Ok(request) => {
                let entries = self.registry.scrape(request.info_hashes.as_slice(), now);
                let response = ScrapeResponse {
                    action: Action::Scrape,
                    transaction_id: request.header.transaction_id,
                    entries,
                };
                response.encode()
            },
        }
    }

    /// Answers the datagram `packet` that came from `addr` at the second
    /// `now`, and keeps what it says: see [`step`]. `None` means that the
    /// datagram is dropped without an answer.
    pub fn process(&mut self, addr: &PeerAddress, packet: &[u8], now: u64) -> (response: Option<
        Vec<u8>,
    >)
        requires
            old(self).inv(),
        ensures
            final(self).inv(),
            (final(self)@, reply_view(response)) == step(old(self)@, packet@, *addr, now),
    {
        let tracker_packet_header = match Headers::decode(packet) {
            Err(_) => {
                return None;
            },
            Ok(header) => header,
        };
        match tracker_packet_header.action {
            Action::Connect => Some(self.handle_connect(addr, &tracker_packet_header, now)),
            Action::Error => None,
            Action::Announce => {
                if !self.tokens.verify(tracker_packet_header.connection_id, addr, now) {
                    Some(
                        ErrorResponse::new(
                            tracker_packet_header.transaction_id,
                            "Connection ID expired or invalid",
                        ).encode(),
                    )
                } else {
                    Some(self.handle_announce(addr, &tracker_packet_header, packet, now))
                }
            },
            Action::Scrape => {
                if !self.tokens.verify(tracker_packet_header.connection_id, addr, now) {
                    Some(
                        ErrorResponse::new(
                            tracker_packet_header.transaction_id,
                            "Connection ID expired or invalid",
                        ).encode(),
                    )
                } else {
                    Some(self.handle_scrape(&tracker_packet_header, packet, now))
                }
            },
        }
    }

    /// Says whether the datagram `packet` from `addr` at the second `now`
    /// is one that `process` serves, and why not where it is not. Nothing
    /// is changed by asking.
    pub fn classify(&self, addr: &PeerAddress, packet: &[u8], now: u64) -> (v: Result<
        Action,
        TrackerError,
    >)
        ensures
            v == verdict(self@, packet@, *addr, now),
    {
        let header = match Headers::decode(packet) {
            Err(DecodeError::MalformedPacket) => {
                return Err(TrackerError::MalformedPacket);
            },
            Err(DecodeError::UnknownAction) => {
                return Err(TrackerError::UnknownAction);
            },
            Ok(header) => header,
        };
        match header.action {
            Action::Error => Err(TrackerError::UnknownAction),
            Action::Connect => {
                if header.is_torrent() {
                    Ok(Action::Connect)
                } else {
                    Err(TrackerError::InvalidOrExpiredToken)
                }
            },
            Action::Announce => {
                if !self.tokens.verify(header.connection_id, addr, now) {
                    Err(TrackerError::InvalidOrExpiredToken)
                } else {
                    match AnnounceRequest::decode(packet) {
                        Err(_) => Err(TrackerError::PayloadDecodeError),
                        Ok(_) => Ok(Action::Announce),
                    }
                }
            },
            Action::Scrape => {
                if !self.tokens.verify(header.connection_id, addr, now) {
                    Err(TrackerError::InvalidOrExpiredToken)
                } else {
                    match ScrapeRequest::decode(packet) {
                        Err(_) => Err(TrackerError::PayloadDecodeError),
                        Ok(_) => Ok(Action::Scrape),
                    }
                }
            },
        }
    }

    /// How many swarms the tracker has in store.
    pub fn swarm_slots(&self) -> (count: usize)
        ensures
            count == self.slots(),
    {
        self.registry.slot_count()
    }

    /// Takes the peers that are expired at the second `now` off the swarm
    /// stored at index `cursor`, and drops that swarm from the store where
    /// nothing is left of it: the last one then takes its place. Returns the
    /// index at which a pass over the stored swarms goes on. One call takes
    /// the time that one swarm takes, so a pass made of such calls keeps
    /// the tracker from its datagrams for no longer than that at a time.
    pub fn sweep_at(&mut self, cursor: usize, now: u64) -> (next: usize)
        requires
            old(self).inv(),
        ensures
            final(self).inv(),
            final(self)@.secret == old(self)@.secret,
            cursor >= old(self).slots() ==> {
                &&& next == cursor
                &&& final(self)@ == old(self)@
                &&& final(self).slots() == old(self).slots()
                &&& forall|i: int|
                    0 <= i < final(self).slots() ==> #[trigger] final(self).hash_at(i) == old(
                        self,
                    ).hash_at(i)
            },
            cursor < old(self).slots() ==> {
                let h = old(self).hash_at(cursor as int);
                let left = old(self)@.registry.swarms[h].swept(now, old(self)@.registry.interval);
                &&& final(self)@.registry == old(self)@.registry.swept_one(h, now)
                &&& left == SwarmView::empty() ==> {
                    &&& next == cursor
                    &&& final(self).slots() == old(self).slots() - 1
                    &&& forall|i: int|
                        0 <= i < final(self).slots() ==> #[trigger] final(self).hash_at(i) == old(
                            self,
                        ).hash_at(
                            if i == cursor {
                                old(self).slots() - 1
                            } else {
                                i
                            },
                        )
                }
                &&& left != SwarmView::empty() ==> {
                    &&& next == cursor + 1
                    &&& final(self).slots() == old(self).slots()
                    &&& forall|i: int|
                        0 <= i < final(self).slots() ==> #[trigger] final(self).hash_at(i) == old(
                            self,
                        ).hash_at(i)
                }
            },
    {
        self.registry.sweep_at(cursor, now)
    }

    /// Takes the peers that are expired at the second `now` off every
    /// swarm. No answer changes by it: an expired peer counts for nothing
    /// whether it is on a list or not.
    pub fn sweep(&mut self, now: u64)
        requires
            old(self).inv(),
        ensures
            final(self).inv(),
            final(self)@ == (TrackerView {
                secret: old(self)@.secret,
                registry: old(self)@.registry.swept(now),
            }),
    {
        self.registry.sweep(now);
    }
}

} // verus!
