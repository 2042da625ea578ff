use osiris::address::PeerAddress;
use osiris::server::{UdpTracker, DEFAULT_NUM_WANT};
use osiris::token::TokenService;
use osiris::udp_server::action::Action;
use osiris::udp_server::event::Event;
use osiris::udp_server::request::announce::AnnounceRequest;
use osiris::udp_server::request::headers::{Headers, PROTOCOL_ID};
use osiris::udp_server::request::scrape::ScrapeRequest;
use osiris::udp_server::response::announce::{AnnounceResponse, DEFAULT_ANNOUNCE_INTERVAL};
use osiris::udp_server::response::connect::ConnectResponse;
use osiris::udp_server::response::error::ErrorResponse;
use osiris::udp_server::response::scrape::{ScrapeEntry, ScrapeResponse};

const NOW: u64 = 1_700_000_000;

fn tracker() -> UdpTracker {
    UdpTracker::new(TokenService::new(0xFEEDC0DE12345678), DEFAULT_ANNOUNCE_INTERVAL)
}

fn client(n: u8) -> PeerAddress {
    PeerAddress::new(0xC0A80000 + n as u32, 40000 + n as u16)
}

fn connect(tracker: &mut UdpTracker, from: &PeerAddress, now: u64) -> u64 {
    let request = Headers::new(PROTOCOL_ID, Action::Connect, 1);
    let reply = tracker.process(from, &request.encode(), now).unwrap();
    ConnectResponse::decode(&reply).unwrap().connection_id
}

fn announce(token: u64, peer: u8, left: u64, event: Event, num_want: i32) -> AnnounceRequest {
    AnnounceRequest {
        header: Headers::new(token, Action::Announce, 1000 + peer as u32),
        info_hash: [0xAB; 20],
        peer_id: [peer; 20],
        downloaded: 0,
        left,
        uploaded: 0,
        event,
        ip_address: 0,
        key: 0,
        num_want,
        port: 6881,
    }
}

fn error_text(reply: &[u8]) -> (u32, String) {
    let response = ErrorResponse::decode(reply).unwrap();
    assert_eq!(response.action, Action::Error);
    (response.transaction_id, response.error_string)
}

#[test]
fn it_generates_connection_id() {
    let addr = PeerAddress::new(0x7F000001, 8080);
    let tracker = tracker();
    println!("{:?}", tracker.generate_connection_id(&addr, NOW));
    assert_eq!(
        tracker.generate_connection_id(&addr, NOW),
        TokenService::new(0xFEEDC0DE12345678).issue(&addr, NOW)
    );
}

#[test]
fn defaults() {
    assert_eq!(DEFAULT_NUM_WANT, 50);
    assert_eq!(DEFAULT_ANNOUNCE_INTERVAL, 600);
}

#[test]
fn connect_with_the_magic_gets_a_token() {
    let mut tracker = tracker();
    let from = client(1);
    let request = Headers::new(0x41727101980, Action::Connect, 0xCAFE);
    let reply = tracker.process(&from, &request.encode(), NOW).unwrap();
    assert_eq!(reply.len(), 16);
    let response = ConnectResponse::decode(&reply).unwrap();
    assert_eq!(response.action, Action::Connect);
    assert_eq!(response.transaction_id, 0xCAFE);
    assert_eq!(response.connection_id, tracker.generate_connection_id(&from, NOW));
    assert_ne!(response.connection_id, NOW);
    let direct = tracker.handle_connect(&from, &request, NOW);
    assert_eq!(direct, reply);
}

#[test]
fn connect_without_the_magic_gets_an_error() {
    let mut tracker = tracker();
    for cid in [0u64, 1, 0x41727101981, u64::MAX] {
        let request = Headers::new(cid, Action::Connect, 77);
        let reply = tracker.process(&client(1), &request.encode(), NOW).unwrap();
        assert_eq!(error_text(&reply), (77, String::from("Not a valid protocol ID")));
    }
}

#[test]
fn short_and_unknown_packets_are_dropped() {
    let mut tracker = tracker();
    assert_eq!(tracker.process(&client(1), &[], NOW), None);
    assert_eq!(tracker.process(&client(1), &[0u8; 15], NOW), None);
    let mut unknown = Headers::new(PROTOCOL_ID, Action::Connect, 1).encode();
    unknown[11] = 4;
    assert_eq!(tracker.process(&client(1), &unknown, NOW), None);
    let error = Headers::new(PROTOCOL_ID, Action::Error, 1).encode();
    assert_eq!(tracker.process(&client(1), &error, NOW), None);
}

#[test]
fn announce_without_a_token_is_refused() {
    let mut tracker = tracker();
    let request = announce(PROTOCOL_ID, 1, 0, Event::Started, -1);
    let reply = tracker.process(&client(1), &request.encode(), NOW).unwrap();
    assert_eq!(error_text(&reply), (1001, String::from("Connection ID expired or invalid")));

    let token = connect(&mut tracker, &client(1), NOW);
    let scrape = ScrapeRequest {
        header: Headers::new(token, Action::Scrape, 5),
        info_hashes: vec![[0xAB; 20]],
    };
    let reply = tracker.process(&client(1), &scrape.encode(), NOW).unwrap();
    assert_eq!(
        ScrapeResponse::decode(&reply).unwrap().entries,
        vec![ScrapeEntry { seeders: 0, completed: 0, leechers: 0 }]
    );
}

#[test]
fn token_of_another_client_is_refused() {
    let mut tracker = tracker();
    let token = connect(&mut tracker, &client(1), NOW);
    let request = announce(token, 2, 0, Event::Started, -1);
    let reply = tracker.process(&client(2), &request.encode(), NOW).unwrap();
    assert_eq!(error_text(&reply), (1002, String::from("Connection ID expired or invalid")));
}

#[test]
fn token_expires() {
    let mut tracker = tracker();
    let token = connect(&mut tracker, &client(1), NOW);
    let request = announce(token, 1, 0, Event::Started, -1).encode();
    assert!(AnnounceResponse::decode(&tracker.process(&client(1), &request, NOW + 120).unwrap())
        .is_ok());
    let reply = tracker.process(&client(1), &request, NOW + 240).unwrap();
    assert_eq!(error_text(&reply), (1001, String::from("Connection ID expired or invalid")));
}

#[test]
fn old_token_is_refused_for_good() {
    let mut tracker = tracker();
    let token = connect(&mut tracker, &client(1), NOW);
    let request = announce(token, 1, 0, Event::Started, -1).encode();
    for windows in [2u64, 65535, 65536, 65537, 3 * 65536] {
        let reply = tracker.process(&client(1), &request, NOW + windows * 120).unwrap();
        assert_eq!(error_text(&reply), (1001, String::from("Connection ID expired or invalid")));
    }
    let scrape = ScrapeRequest {
        header: Headers::new(token, Action::Scrape, 9),
        info_hashes: vec![[0xAB; 20]],
    };
    let reply = tracker.process(&client(1), &scrape.encode(), NOW + 65536 * 120).unwrap();
    assert_eq!(error_text(&reply), (9, String::from("Connection ID expired or invalid")));
    let reply = tracker.process(&client(1), &scrape.encode(), NOW).unwrap();
    assert_eq!(
        ScrapeResponse::decode(&reply).unwrap().entries,
        vec![ScrapeEntry { seeders: 0, completed: 0, leechers: 0 }]
    );
}

#[test]
fn seeder_and_leecher_are_reported() {
    let mut tracker = tracker();
    let t1 = connect(&mut tracker, &client(1), NOW);
    let t2 = connect(&mut tracker, &client(2), NOW);

    let first = tracker
        .process(&client(1), &announce(t1, 1, 0, Event::Started, -1).encode(), NOW)
        .unwrap();
    assert_eq!(
        AnnounceResponse::decode(&first).unwrap(),
        AnnounceResponse {
            action: Action::Announce,
            transaction_id: 1001,
            interval: 600,
            leechers: 0,
            seeders: 1,
            peers: vec![],
        }
    );

    let second = tracker
        .process(&client(2), &announce(t2, 2, 500, Event::Started, -1).encode(), NOW)
        .unwrap();
    assert_eq!(
        AnnounceResponse::decode(&second).unwrap(),
        AnnounceResponse {
            action: Action::Announce,
            transaction_id: 1002,
            interval: 600,
            leechers: 1,
            seeders: 1,
            peers: vec![PeerAddress::new(0xC0A80001, 6881)],
        }
    );

    let scrape = ScrapeRequest {
        header: Headers::new(t1, Action::Scrape, 9),
        info_hashes: vec![[0xAB; 20], [0xCD; 20]],
    };
    let reply = tracker.process(&client(1), &scrape.encode(), NOW).unwrap();
    assert_eq!(
        ScrapeResponse::decode(&reply).unwrap(),
        ScrapeResponse {
            action: Action::Scrape,
            transaction_id: 9,
            entries: vec![
                ScrapeEntry { seeders: 1, completed: 0, leechers: 1 },
                ScrapeEntry { seeders: 0, completed: 0, leechers: 0 },
            ],
        }
    );
}

#[test]
fn announce_names_its_own_address() {
    let mut tracker = tracker();
    let t1 = connect(&mut tracker, &client(1), NOW);
    let t2 = connect(&mut tracker, &client(2), NOW);
    let mut request = announce(t1, 1, 0, Event::Started, -1);
    request.ip_address = 0x08080808;
    request.port = 12345;
    tracker.process(&client(1), &request.encode(), NOW).unwrap();
    let reply = tracker
        .process(&client(2), &announce(t2, 2, 1, Event::Started, -1).encode(), NOW)
        .unwrap();
    assert_eq!(
        AnnounceResponse::decode(&reply).unwrap().peers,
        vec![PeerAddress::new(0x08080808, 12345)]
    );
}

#[test]
fn num_want_limits_the_peers() {
    let mut tracker = tracker();
    for n in 1..=60u8 {
        let token = connect(&mut tracker, &client(n), NOW);
        tracker
            .process(&client(n), &announce(token, n, 1, Event::Started, 0).encode(), NOW)
            .unwrap();
    }
    let token = connect(&mut tracker, &client(100), NOW);
    let mut peers = |num_want: i32| {
        let reply = tracker
            .process(&client(100), &announce(token, 100, 1, Event::Regular, num_want).encode(), NOW)
            .unwrap();
        let response = AnnounceResponse::decode(&reply).unwrap();
        assert_eq!(response.leechers, 61);
        response.peers.len()
    };
    assert_eq!(peers(-1), 50);
    assert_eq!(peers(i32::MIN), 50);
    assert_eq!(peers(0), 0);
    assert_eq!(peers(7), 7);
    assert_eq!(peers(60), 60);
    assert_eq!(peers(i32::MAX), 60);
}

#[test]
fn bad_bodies_get_an_error() {
    let mut tracker = tracker();
    let token = connect(&mut tracker, &client(1), NOW);
    let request = announce(token, 1, 0, Event::Started, -1).encode();
    let reply = tracker.process(&client(1), &request[..97], NOW).unwrap();
    assert_eq!(error_text(&reply), (1001, String::from("Announce error")));
    let mut bad_event = request.clone();
    bad_event[83] = 9;
    let reply = tracker.process(&client(1), &bad_event, NOW).unwrap();
    assert_eq!(error_text(&reply), (1001, String::from("Announce error")));

    let scrape = Headers::new(token, Action::Scrape, 3).encode();
    let reply = tracker.process(&client(1), &scrape, NOW).unwrap();
    assert_eq!(error_text(&reply), (3, String::from("Scrape error")));
    let mut ragged = scrape.clone();
    ragged.extend_from_slice(&[0u8; 21]);
    let reply = tracker.process(&client(1), &ragged, NOW).unwrap();
    assert_eq!(error_text(&reply), (3, String::from("Scrape error")));

    let scrape_ok = ScrapeRequest {
        header: Headers::new(token, Action::Scrape, 4),
        info_hashes: vec![[0xAB; 20]],
    };
    let reply = tracker.process(&client(1), &scrape_ok.encode(), NOW).unwrap();
    assert_eq!(
        ScrapeResponse::decode(&reply).unwrap().entries,
        vec![ScrapeEntry { seeders: 0, completed: 0, leechers: 0 }]
    );
}

#[test]
fn expired_peers_leave_the_answers() {
    let mut tracker = tracker();
    let t1 = connect(&mut tracker, &client(1), NOW);
    tracker.process(&client(1), &announce(t1, 1, 0, Event::Completed, -1).encode(), NOW).unwrap();

    let later = NOW + 1201;
    let t2 = connect(&mut tracker, &client(2), later);
    let reply = tracker
        .process(&client(2), &announce(t2, 2, 9, Event::Started, -1).encode(), later)
        .unwrap();
    assert_eq!(
        AnnounceResponse::decode(&reply).unwrap(),
        AnnounceResponse {
            action: Action::Announce,
            transaction_id: 1002,
            interval: 600,
            leechers: 1,
            seeders: 0,
            peers: vec![],
        }
    );
    tracker.sweep(later);
    let scrape = ScrapeRequest {
        header: Headers::new(t2, Action::Scrape, 9),
        info_hashes: vec![[0xAB; 20]],
    };
    let reply = tracker.process(&client(2), &scrape.encode(), later).unwrap();
    assert_eq!(
        ScrapeResponse::decode(&reply).unwrap().entries,
        vec![ScrapeEntry { seeders: 0, completed: 1, leechers: 1 }]
    );
}

#[test]
fn handlers_on_their_own() {
    let mut tracker = tracker();
    let from = client(1);
    let request = announce(0, 1, 0, Event::Started, -1);
    let reply = tracker.handle_announce(&from, &request.header, &request.encode(), NOW);
    assert_eq!(AnnounceResponse::decode(&reply).unwrap().seeders, 1);
    let reply = tracker.handle_announce(&from, &request.header, &[0u8; 20], NOW);
    assert_eq!(error_text(&reply), (1001, String::from("Announce error")));

    let scrape = ScrapeRequest {
        header: Headers::new(0, Action::Scrape, 2),
        info_hashes: vec![[0xAB; 20]],
    };
    let reply = tracker.handle_scrape(&scrape.header, &scrape.encode(), NOW);
    assert_eq!(
        ScrapeResponse::decode(&reply).unwrap().entries,
        vec![ScrapeEntry { seeders: 1, completed: 0, leechers: 0 }]
    );
    let reply = tracker.handle_scrape(&scrape.header, &[0u8; 16], NOW);
    assert_eq!(error_text(&reply), (2, String::from("Scrape error")));
}

#[test]
fn tracker_sweeps_swarm_by_swarm() {
    let mut tracker = tracker();
    let t1 = connect(&mut tracker, &client(1), NOW);
    tracker.process(&client(1), &announce(t1, 1, 0, Event::Started, -1).encode(), NOW).unwrap();
    let mut other = announce(t1, 2, 5, Event::Started, -1);
    other.info_hash = [0xCD; 20];
    tracker.process(&client(1), &other.encode(), NOW).unwrap();
    assert_eq!(tracker.swarm_slots(), 2);

    assert_eq!(tracker.sweep_at(0, NOW), 1);
    assert_eq!(tracker.sweep_at(1, NOW), 2);
    assert_eq!(tracker.sweep_at(2, NOW), 2);
    assert_eq!(tracker.swarm_slots(), 2);

    let later = NOW + 1201;
    let mut cursor = 0;
    while cursor < tracker.swarm_slots() {
        cursor = tracker.sweep_at(cursor, later);
    }
    assert_eq!(tracker.swarm_slots(), 0);
    let t2 = connect(&mut tracker, &client(2), later);
    let scrape = ScrapeRequest {
        header: Headers::new(t2, Action::Scrape, 9),
        info_hashes: vec![[0xAB; 20], [0xCD; 20]],
    };
    let reply = tracker.process(&client(2), &scrape.encode(), later).unwrap();
    assert_eq!(
        ScrapeResponse::decode(&reply).unwrap().entries,
        vec![
            ScrapeEntry { seeders: 0, completed: 0, leechers: 0 },
            ScrapeEntry { seeders: 0, completed: 0, leechers: 0 },
        ]
    );
}
