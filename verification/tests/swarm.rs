use osiris::address::PeerAddress;
use osiris::swarm::model::PeerStats;
use osiris::swarm::registry::{clamped, SwarmRegistry};
use osiris::swarm::store::{same_bytes, Swarm, SwarmStats};
use osiris::udp_server::event::Event;
use osiris::udp_server::response::scrape::ScrapeEntry;

const INTERVAL: u32 = 600;

fn id(n: u8) -> [u8; 20] {
    [n; 20]
}

fn seeder() -> PeerStats {
    PeerStats { downloaded: 1000, uploaded: 10, left: 0 }
}

fn leecher() -> PeerStats {
    PeerStats { downloaded: 10, uploaded: 0, left: 990 }
}

fn addr(n: u8) -> PeerAddress {
    PeerAddress::new(0x0A000000 + n as u32, 6881)
}

#[test]
fn same_bytes_compares_all_twenty() {
    let a = id(1);
    let mut b = id(1);
    assert!(same_bytes(&a, &b));
    b[19] = 2;
    assert!(!same_bytes(&a, &b));
    b[19] = 1;
    b[0] = 0;
    assert!(!same_bytes(&a, &b));
}

#[test]
fn clamped_counts() {
    assert_eq!(clamped(0), 0);
    assert_eq!(clamped(77), 77);
    assert_eq!(clamped(u32::MAX as usize), u32::MAX);
    assert_eq!(clamped(usize::MAX), u32::MAX);
}

#[test]
fn unknown_info_hash_is_an_empty_swarm() {
    let registry = SwarmRegistry::new(INTERVAL);
    assert_eq!(registry.interval(), 600);
    assert_eq!(
        registry.snapshot(&id(1), 0),
        SwarmStats { seeders: 0, leechers: 0, completed: 0 }
    );
    assert_eq!(registry.sample_peers(&id(1), &id(2), 50, 0), vec![]);
    assert_eq!(
        registry.scrape(&[id(1), id(2)], 5),
        vec![
            ScrapeEntry { seeders: 0, completed: 0, leechers: 0 },
            ScrapeEntry { seeders: 0, completed: 0, leechers: 0 },
        ]
    );
    assert_eq!(registry.scrape(&[], 5), vec![]);
}

#[test]
fn seeder_and_leecher_are_counted() {
    let mut registry = SwarmRegistry::new(INTERVAL);
    let h = id(9);
    registry.upsert(&h, &id(1), addr(1), seeder(), Event::Started, 100);
    registry.upsert(&h, &id(2), addr(2), leecher(), Event::Started, 100);
    assert_eq!(
        registry.snapshot(&h, 100),
        SwarmStats { seeders: 1, leechers: 1, completed: 0 }
    );
    assert_eq!(
        registry.scrape(&[h], 100),
        vec![ScrapeEntry { seeders: 1, completed: 0, leechers: 1 }]
    );
    assert_eq!(
        registry.snapshot(&id(8), 100),
        SwarmStats { seeders: 0, leechers: 0, completed: 0 }
    );
}

#[test]
fn announce_again_updates_in_place() {
    let mut registry = SwarmRegistry::new(INTERVAL);
    let h = id(9);
    registry.upsert(&h, &id(1), addr(1), leecher(), Event::Started, 100);
    registry.upsert(&h, &id(2), addr(2), leecher(), Event::Started, 101);
    registry.upsert(&h, &id(1), addr(1), seeder(), Event::Regular, 102);
    assert_eq!(
        registry.snapshot(&h, 102),
        SwarmStats { seeders: 1, leechers: 1, completed: 0 }
    );
    assert_eq!(registry.sample_peers(&h, &id(3), 50, 102), vec![addr(1), addr(2)]);
}

#[test]
fn same_id_at_another_address_is_another_peer() {
    let mut registry = SwarmRegistry::new(INTERVAL);
    let h = id(9);
    registry.upsert(&h, &id(1), addr(1), leecher(), Event::Started, 100);
    registry.upsert(&h, &id(1), addr(2), leecher(), Event::Started, 100);
    assert_eq!(registry.snapshot(&h, 100).leechers, 2);
    assert_eq!(registry.sample_peers(&h, &id(1), 50, 100), vec![]);
    assert_eq!(registry.sample_peers(&h, &id(2), 50, 100), vec![addr(1), addr(2)]);
}

#[test]
fn stopped_removes_the_peer_at_once() {
    let mut registry = SwarmRegistry::new(INTERVAL);
    let h = id(9);
    registry.upsert(&h, &id(1), addr(1), seeder(), Event::Started, 100);
    registry.upsert(&h, &id(2), addr(2), leecher(), Event::Started, 100);
    registry.upsert(&h, &id(1), addr(1), seeder(), Event::Stopped, 101);
    assert_eq!(
        registry.snapshot(&h, 101),
        SwarmStats { seeders: 0, leechers: 1, completed: 0 }
    );
    assert_eq!(registry.sample_peers(&h, &id(3), 50, 101), vec![addr(2)]);
    registry.upsert(&h, &id(7), addr(7), seeder(), Event::Stopped, 101);
    registry.upsert(&id(5), &id(7), addr(7), seeder(), Event::Stopped, 101);
    assert_eq!(registry.snapshot(&h, 101).leechers, 1);
    assert_eq!(
        registry.snapshot(&id(5), 101),
        SwarmStats { seeders: 0, leechers: 0, completed: 0 }
    );
}

#[test]
fn completed_counts_once_per_peer() {
    let mut registry = SwarmRegistry::new(INTERVAL);
    let h = id(9);
    registry.upsert(&h, &id(1), addr(1), leecher(), Event::Started, 100);
    assert_eq!(registry.snapshot(&h, 100).completed, 0);
    registry.upsert(&h, &id(1), addr(1), seeder(), Event::Completed, 110);
    assert_eq!(registry.snapshot(&h, 110).completed, 1);
    registry.upsert(&h, &id(1), addr(1), seeder(), Event::Completed, 120);
    registry.upsert(&h, &id(1), addr(1), seeder(), Event::Regular, 130);
    registry.upsert(&h, &id(1), addr(1), seeder(), Event::Completed, 140);
    assert_eq!(registry.snapshot(&h, 140).completed, 1);
    registry.upsert(&h, &id(2), addr(2), seeder(), Event::Completed, 150);
    assert_eq!(
        registry.snapshot(&h, 150),
        SwarmStats { seeders: 2, leechers: 0, completed: 2 }
    );
    registry.upsert(&h, &id(2), addr(2), seeder(), Event::Stopped, 160);
    assert_eq!(registry.snapshot(&h, 160).completed, 2);
}

#[test]
fn sample_keeps_order_and_limit_and_leaves_the_requester_out() {
    let mut registry = SwarmRegistry::new(INTERVAL);
    let h = id(9);
    for n in 1..=5u8 {
        registry.upsert(&h, &id(n), addr(n), leecher(), Event::Started, 100);
    }
    assert_eq!(
        registry.sample_peers(&h, &id(0), 50, 100),
        vec![addr(1), addr(2), addr(3), addr(4), addr(5)]
    );
    assert_eq!(registry.sample_peers(&h, &id(0), 3, 100), vec![addr(1), addr(2), addr(3)]);
    assert_eq!(registry.sample_peers(&h, &id(2), 3, 100), vec![addr(1), addr(3), addr(4)]);
    assert_eq!(registry.sample_peers(&h, &id(0), 5, 100).len(), 5);
    assert_eq!(registry.sample_peers(&h, &id(0), 0, 100), vec![]);
    assert_eq!(registry.sample_peers(&h, &id(0), usize::MAX, 100).len(), 5);
}

#[test]
fn peer_expires_after_twice_the_interval() {
    let mut registry = SwarmRegistry::new(INTERVAL);
    let h = id(9);
    registry.upsert(&h, &id(1), addr(1), seeder(), Event::Started, 1000);
    registry.upsert(&h, &id(2), addr(2), leecher(), Event::Started, 1500);
    assert_eq!(registry.snapshot(&h, 2200).seeders, 1);
    assert_eq!(registry.sample_peers(&h, &id(0), 50, 2200), vec![addr(1), addr(2)]);
    assert_eq!(
        registry.snapshot(&h, 2201),
        SwarmStats { seeders: 0, leechers: 1, completed: 0 }
    );
    assert_eq!(registry.sample_peers(&h, &id(0), 50, 2201), vec![addr(2)]);
    assert_eq!(
        registry.scrape(&[h], 2701),
        vec![ScrapeEntry { seeders: 0, completed: 0, leechers: 0 }]
    );
    assert_eq!(registry.sample_peers(&h, &id(0), 50, 2701), vec![]);
    registry.upsert(&h, &id(1), addr(1), seeder(), Event::Regular, 2701);
    assert_eq!(
        registry.snapshot(&h, 2701),
        SwarmStats { seeders: 1, leechers: 0, completed: 0 }
    );
    assert_eq!(registry.snapshot(&h, 0).seeders, 1);
}

#[test]
fn sweep_changes_no_answer() {
    let mut registry = SwarmRegistry::new(INTERVAL);
    let h = id(9);
    registry.upsert(&h, &id(1), addr(1), seeder(), Event::Completed, 1000);
    registry.upsert(&h, &id(2), addr(2), leecher(), Event::Started, 1500);
    registry.upsert(&id(8), &id(3), addr(3), leecher(), Event::Started, 1000);
    let now = 2300;
    let before = (registry.scrape(&[h, id(8), id(7)], now), registry.sample_peers(&h, &id(0), 50, now));
    registry.sweep(now);
    let after = (registry.scrape(&[h, id(8), id(7)], now), registry.sample_peers(&h, &id(0), 50, now));
    assert_eq!(before, after);
    assert_eq!(
        after.0,
        vec![
            ScrapeEntry { seeders: 0, completed: 1, leechers: 1 },
            ScrapeEntry { seeders: 0, completed: 0, leechers: 0 },
            ScrapeEntry { seeders: 0, completed: 0, leechers: 0 },
        ]
    );
    assert_eq!(registry.snapshot(&h, 1000).seeders, 0);
}

#[test]
fn many_distinct_peers_are_all_counted() {
    let mut registry = SwarmRegistry::new(INTERVAL);
    let h = id(9);
    let n = 200u32;
    for k in 0..n {
        let mut peer = [0u8; 20];
        peer[0] = (k % 256) as u8;
        peer[1] = (k / 256) as u8;
        let stats = if k % 3 == 0 { seeder() } else { leecher() };
        registry.upsert(&h, &peer, PeerAddress::new(k, 6881), stats, Event::Started, 100);
    }
    let stats = registry.snapshot(&h, 100);
    assert_eq!(stats.seeders + stats.leechers, n as usize);
    assert_eq!(stats.seeders, 67);
    assert_eq!(registry.sample_peers(&h, &id(255), 50, 100).len(), 50);
}

#[test]
fn swarm_on_its_own() {
    let mut swarm = Swarm::new();
    assert_eq!(
        swarm.snapshot(0, INTERVAL),
        SwarmStats { seeders: 0, leechers: 0, completed: 0 }
    );
    swarm.upsert(&id(1), addr(1), seeder(), Event::Completed, 10);
    swarm.upsert(&id(2), addr(2), leecher(), Event::Regular, 20);
    assert_eq!(
        swarm.snapshot(20, INTERVAL),
        SwarmStats { seeders: 1, leechers: 1, completed: 1 }
    );
    assert_eq!(swarm.sample_peers(&id(1), 10, 20, INTERVAL), vec![addr(2)]);
    swarm.sweep(1211, INTERVAL);
    assert_eq!(
        swarm.snapshot(20, INTERVAL),
        SwarmStats { seeders: 0, leechers: 1, completed: 1 }
    );
    swarm.sweep(u64::MAX, INTERVAL);
    assert_eq!(swarm.sample_peers(&id(0), 10, 20, INTERVAL), vec![]);
}

#[test]
fn liveness_does_not_overflow() {
    let mut swarm = Swarm::new();
    swarm.upsert(&id(1), addr(1), seeder(), Event::Started, u64::MAX);
    assert_eq!(swarm.snapshot(u64::MAX, u32::MAX).seeders, 1);
    assert_eq!(swarm.snapshot(0, 0).seeders, 1);
    let mut early = Swarm::new();
    early.upsert(&id(1), addr(1), seeder(), Event::Started, 0);
    assert_eq!(early.snapshot(2 * u32::MAX as u64, u32::MAX).seeders, 1);
    assert_eq!(early.snapshot(2 * u32::MAX as u64 + 1, u32::MAX).seeders, 0);
    assert_eq!(early.snapshot(u64::MAX, u32::MAX).seeders, 0);
    assert_eq!(early.snapshot(1, 0).seeders, 0);
}

#[test]
fn sweep_at_takes_one_swarm_at_a_time() {
    let mut registry = SwarmRegistry::new(INTERVAL);
    registry.upsert(&id(1), &id(11), addr(1), seeder(), Event::Started, 1000);
    registry.upsert(&id(2), &id(12), addr(2), leecher(), Event::Completed, 1000);
    registry.upsert(&id(3), &id(13), addr(3), leecher(), Event::Started, 3000);
    registry.upsert(&id(3), &id(14), addr(4), leecher(), Event::Started, 1000);
    assert_eq!(registry.slot_count(), 3);
    let now = 3000;
    let hashes = [id(1), id(2), id(3), id(4)];
    let answers = registry.scrape(&hashes, now);

    // The first swarm is left empty and goes; the last one takes its place.
    assert_eq!(registry.sweep_at(0, now), 0);
    assert_eq!(registry.slot_count(), 2);
    assert_eq!(registry.scrape(&hashes, now), answers);
    // That one keeps a live peer and stays.
    assert_eq!(registry.sweep_at(0, now), 1);
    assert_eq!(registry.slot_count(), 2);
    assert_eq!(registry.snapshot(&id(3), 1000).leechers, 1);
    // The second swarm loses its peer and keeps its count of downloads.
    assert_eq!(registry.sweep_at(1, now), 2);
    assert_eq!(registry.slot_count(), 2);
    assert_eq!(registry.snapshot(&id(2), 1000).leechers, 0);
    assert_eq!(registry.snapshot(&id(2), 1000).completed, 1);
    // Past the end nothing happens.
    assert_eq!(registry.sweep_at(2, now), 2);
    assert_eq!(registry.sweep_at(usize::MAX, now), usize::MAX);
    assert_eq!(registry.slot_count(), 2);
    assert_eq!(registry.scrape(&hashes, now), answers);
}

#[test]
fn a_pass_of_sweep_at_is_a_sweep() {
    let build = || {
        let mut registry = SwarmRegistry::new(INTERVAL);
        for n in 0..20u8 {
            let at = if n % 3 == 0 { 5000 } else { 1000 };
            registry.upsert(&id(n % 7), &id(100 + n), addr(n), leecher(), Event::Started, at);
        }
        registry
    };
    let now = 5000;
    let hashes: Vec<[u8; 20]> = (0..8u8).map(id).collect();
    let mut whole = build();
    whole.sweep(now);
    let mut stepwise = build();
    let mut cursor = 0;
    let mut calls = 0;
    while cursor < stepwise.slot_count() {
        cursor = stepwise.sweep_at(cursor, now);
        calls += 1;
    }
    assert_eq!(calls, 7);
    assert_eq!(stepwise.slot_count(), whole.slot_count());
    for t in [0u64, 1000, 5000, 6200, 6201] {
        assert_eq!(stepwise.scrape(&hashes, t), whole.scrape(&hashes, t));
        for h in &hashes {
            assert_eq!(
                stepwise.sample_peers(h, &id(255), 50, t).len(),
                whole.sample_peers(h, &id(255), 50, t).len()
            );
        }
    }
}
