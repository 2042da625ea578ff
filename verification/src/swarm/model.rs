//! A swarm as a mathematical value.
//!
//! A swarm is the list of the peers that announced for one info hash, in
//! the order in which they first did, and the count of the downloads that
//! were completed in it. A peer that has not announced for more than twice
//! the announce interval is expired: it may still be in the list, and
//! counts for nothing.
use crate::address::PeerAddress;
use crate::udp_server::event::Event;
use crate::udp_server::response::scrape::ScrapeEntry;
use vstd::prelude::*;

verus! {

/// What a peer reports of its download.
#[derive(Clone, Copy, Debug, PartialEq, Eq, Structural)]
pub struct PeerStats {
    pub downloaded: u64,
    pub uploaded: u64,
    /// Bytes still missing; 0 makes the peer a seeder.
    pub left: u64,
}

/// One peer of a swarm.
pub struct PeerView {
    pub peer_id: Seq<u8>,
    pub address: PeerAddress,
    pub stats: PeerStats,
    /// The second of the peer's latest announce.
    pub last_announce: u64,
    /// Whether this peer's completion has been counted.
    pub completed: bool,
}

impl PeerView {
    /// Whether this is the peer with that id at that address.
    pub open spec fn has_key(self, peer_id: Seq<u8>, address: PeerAddress) -> bool {
        self.peer_id == peer_id && self.address == address
    }

    /// Whether the peer announced within twice the interval before `now`.
    pub open spec fn is_live(self, now: u64, interval: u32) -> bool {
        now <= self.last_announce + 2 * interval
    }

    /// Whether the peer holds the whole content.
    pub open spec fn is_seeder(self) -> bool {
        self.stats.left == 0
    }
}

/// The peers that are live at `now`.
pub open spec fn live_at(now: u64, interval: u32) -> spec_fn(PeerView) -> bool {
    |p: PeerView| p.is_live(now, interval)
}

/// The peers that are live at `now` and hold the whole content.
pub open spec fn seeding_at(now: u64, interval: u32) -> spec_fn(PeerView) -> bool {
    |p: PeerView| p.is_live(now, interval) && p.is_seeder()
}

/// The peers that are live at `now` and miss some of the content.
pub open spec fn leeching_at(now: u64, interval: u32) -> spec_fn(PeerView) -> bool {
    |p: PeerView| p.is_live(now, interval) && !p.is_seeder()
}

/// The peers that are live at `now` and have another id than `requester`.
pub open spec fn listed_for(requester: Seq<u8>, now: u64, interval: u32) -> spec_fn(
    PeerView,
) -> bool {
    |p: PeerView| p.is_live(now, interval) && p.peer_id != requester
}

/// The address of a peer.
pub open spec fn address_of() -> spec_fn(PeerView) -> PeerAddress {
    |p: PeerView| p.address
}

/// One more completed download, up to the largest count that fits.
pub open spec fn one_more(count: u32) -> u32 {
    if count < u32::MAX {
        (count + 1) as u32
    } else {
        count
    }
}

/// Whether no two peers of the list have one id and one address.
pub open spec fn distinct(peers: Seq<PeerView>) -> bool {
    forall|i: int, j: int|
        0 <= i < j < peers.len() ==> !(#[trigger] peers[i]).has_key(
            (#[trigger] peers[j]).peer_id,
            peers[j].address,
        )
}

/// A swarm: its peers in the order of their first announce, and the count
/// of completed downloads.
pub struct SwarmView {
    pub peers: Seq<PeerView>,
    pub completed: u32,
}

impl SwarmView {
    /// The swarm of an info hash that nobody announced for.
    pub open spec fn empty() -> SwarmView {
        SwarmView { peers: Seq::empty(), completed: 0 }
    }

    /// Whether no two peers of the swarm have one id and one address.
    pub open spec fn wf(self) -> bool {
        distinct(self.peers)
    }

    /// Whether the peer at index `i` is the one with that id at that
    /// address.
    pub open spec fn is_at(self, peer_id: Seq<u8>, address: PeerAddress, i: int) -> bool {
        0 <= i < self.peers.len() && self.peers[i].has_key(peer_id, address)
    }

    /// Where in the list the peer with that id at that address stands, if
    /// it is in the list.
    pub open spec fn position(self, peer_id: Seq<u8>, address: PeerAddress) -> Option<int> {
        if exists|i: int| self.is_at(peer_id, address, i) {
            Some(choose|i: int| self.is_at(peer_id, address, i))
        } else {
            None
        }
    }

    /// The swarm after an announce. `Stopped` takes the peer off the list.
    /// Any other event puts the peer's report and the time on its record,
    /// or a new record at the end of the list. `Completed` counts one more
    /// download, unless this peer's completion was counted before.
    pub open spec fn upsert(
        self,
        peer_id: Seq<u8>,
        address: PeerAddress,
        stats: PeerStats,
        event: Event,
        now: u64,
    ) -> SwarmView {
        let at = self.position(peer_id, address);
        let counted = at is Some && self.peers[at.unwrap()].completed;
        let record = PeerView {
            peer_id,
            address,
            stats,
            last_announce: now,
            completed: counted || event == Event::Completed,
        };
        if event == Event::Stopped {
            match at {
                Some(i) => SwarmView { peers: self.peers.remove(i), completed: self.completed },
                None => self,
            }
        } else {
            SwarmView {
                peers: match at {
                    Some(i) => self.peers.update(i, record),
                    None => self.peers.push(record),
                },
                completed: if event == Event::Completed && !counted {
                    one_more(self.completed)
                } else {
                    self.completed
                },
            }
        }
    }

    /// The peers that are live at `now`, in the order of the list.
    pub open spec fn live(self, now: u64, interval: u32) -> Seq<PeerView> {
        self.peers.filter(live_at(now, interval))
    }

    /// How many live peers hold the whole content.
    pub open spec fn seeders(self, now: u64, interval: u32) -> nat {
        self.peers.filter(seeding_at(now, interval)).len()
    }

    /// How many live peers miss some of the content.
    pub open spec fn leechers(self, now: u64, interval: u32) -> nat {
        self.peers.filter(leeching_at(now, interval)).len()
    }

    /// The live peers with another id than `requester`, in the order of the
    /// list.
    pub open spec fn listed(self, requester: Seq<u8>, now: u64, interval: u32) -> Seq<PeerView> {
        self.peers.filter(listed_for(requester, now, interval))
    }

    /// The addresses handed to `requester`: those of the first `limit`
    /// listed peers, or of all of them where they are fewer.
    pub open spec fn sample(self, requester: Seq<u8>, limit: nat, now: u64, interval: u32) -> Seq<
        PeerAddress,
    > {
        let listed = self.listed(requester, now, interval);
        let count = if limit <= listed.len() {
            limit
        } else {
            listed.len()
        };
        listed.take(count as int).map_values(address_of())
    }

    /// The swarm without the peers that are expired at `now`.
    pub open spec fn swept(self, now: u64, interval: u32) -> SwarmView {
        SwarmView { peers: self.live(now, interval), completed: self.completed }
    }
}

/// A count as it goes on the wire: itself where it fits in 32 bits, the
/// largest 32-bit number where it does not.
pub open spec fn clamp(count: nat) -> u32 {
    if count <= u32::MAX {
        count as u32
    } else {
        u32::MAX
    }
}

/// All swarms: the swarm of every info hash, and the announce interval by
/// which the peers' liveness is judged.
pub struct RegistryView {
    pub swarms: Map<Seq<u8>, SwarmView>,
    pub interval: u32,
}

impl RegistryView {
    /// The registry in which nobody has announced yet.
    pub open spec fn fresh(interval: u32) -> RegistryView {
        RegistryView { swarms: Map::total(|h: Seq<u8>| SwarmView::empty()), interval }
    }

    /// Whether every info hash has a swarm, and none of them holds a peer
    /// twice.
    pub open spec fn wf(self) -> bool {
        forall|h: Seq<u8>|
            #![trigger self.swarms[h]]
            #![trigger self.swarms.dom().contains(h)]
            self.swarms.dom().contains(h) && self.swarms[h].wf()
    }

    /// The registry after an announce for `info_hash`: that swarm takes the
    /// announce, the others stay as they are.
    pub open spec fn upsert(
        self,
        info_hash: Seq<u8>,
        peer_id: Seq<u8>,
        address: PeerAddress,
        stats: PeerStats,
        event: Event,
        now: u64,
    ) -> RegistryView {
        RegistryView {
            swarms: self.swarms.insert(
                info_hash,
                self.swarms[info_hash].upsert(peer_id, address, stats, event, now),
            ),
            interval: self.interval,
        }
    }

    /// The counts of the swarm of `info_hash` at `now`, as they go on the
    /// wire.
    pub open spec fn scrape_entry(self, info_hash: Seq<u8>, now: u64) -> ScrapeEntry {
        let swarm = self.swarms[info_hash];
        ScrapeEntry {
            seeders: clamp(swarm.seeders(now, self.interval)),
            completed: swarm.completed,
            leechers: clamp(swarm.leechers(now, self.interval)),
        }
    }

    /// The counts of the swarms of `info_hashes` at `now`, in the order of
    /// `info_hashes`.
    pub open spec fn scrape(self, info_hashes: Seq<Seq<u8>>, now: u64) -> Seq<ScrapeEntry> {
        info_hashes.map_values(|h: Seq<u8>| self.scrape_entry(h, now))
    }

    /// The registry after the swarm of `info_hash` lost the peers that are
    /// expired at `now`; the other swarms stay as they are.
    pub open spec fn swept_one(self, info_hash: Seq<u8>, now: u64) -> RegistryView {
        RegistryView {
            swarms: self.swarms.insert(
                info_hash,
                self.swarms[info_hash].swept(now, self.interval),
            ),
            interval: self.interval,
        }
    }

    /// The registry without the peers that are expired at `now`.
    pub open spec fn swept(self, now: u64) -> RegistryView {
        RegistryView {
            swarms: Map::total(|h: Seq<u8>| self.swarms[h].swept(now, self.interval)),
            interval: self.interval,
        }
    }
}

/// In a list without doubles, the peer with a given id and address stands
/// at one index only.
pub proof fn lemma_position_unique(swarm: SwarmView, peer_id: Seq<u8>, address: PeerAddress, i: int)
    requires
        swarm.wf(),
        swarm.is_at(peer_id, address, i),
    ensures
        swarm.position(peer_id, address) == Some(i),
{
    let c = choose|c: int| swarm.is_at(peer_id, address, c);
    assert(swarm.is_at(peer_id, address, c));
    if c < i {
        assert(!swarm.peers[c].has_key(swarm.peers[i].peer_id, swarm.peers[i].address));
    } else if i < c {
        assert(!swarm.peers[i].has_key(swarm.peers[c].peer_id, swarm.peers[c].address));
    }
}

/// What is left of a list without doubles, when some peers are taken out
/// of it, is a list without doubles.
pub proof fn lemma_filter_distinct(peers: Seq<PeerView>, keep: spec_fn(PeerView) -> bool)
    requires
        distinct(peers),
    ensures
        distinct(peers.filter(keep)),
    decreases peers.len(),
{
    reveal(Seq::filter);
    if peers.len() > 0 {
        let rest = peers.drop_last();
        let last = peers.last();
        assert forall|i: int, j: int| 0 <= i < j < rest.len() implies !(#[trigger] rest[i]).has_key(
            (#[trigger] rest[j]).peer_id,
            rest[j].address,
        ) by {
            assert(rest[i] == peers[i] && rest[j] == peers[j]);
        }
        lemma_filter_distinct(rest, keep);
        if keep(last) {
            let kept = rest.filter(keep);
            let all = kept.push(last);
            assert forall|i: int, j: int| 0 <= i < j < all.len() implies !(#[trigger] all[i]).has_key(
                (#[trigger] all[j]).peer_id,
                all[j].address,
            ) by {
                if j == kept.len() {
                    assert(kept.contains(kept[i]));
                    rest.lemma_filter_contains_rev(keep, kept[i]);
                    let m = choose|m: int| 0 <= m < rest.len() && rest[m] == kept[i];
                    assert(peers[m] == kept[i]);
                    assert(peers[peers.len() - 1] == last);
                    assert(!peers[m].has_key(peers[peers.len() - 1].peer_id, peers[peers.len() - 1].address));
                } else {
                    assert(all[i] == kept[i] && all[j] == kept[j]);
                }
            }
        }
    }
}

/// An announce leaves a list without doubles without doubles.
pub proof fn lemma_upsert_wf(
    swarm: SwarmView,
    peer_id: Seq<u8>,
    address: PeerAddress,
    stats: PeerStats,
    event: Event,
    now: u64,
)
    requires
        swarm.wf(),
    ensures
        swarm.upsert(peer_id, address, stats, event, now).wf(),
{
    let old_peers = swarm.peers;
    let new_peers = swarm.upsert(peer_id, address, stats, event, now).peers;
    let at = swarm.position(peer_id, address);
    assert forall|i: int, j: int| 0 <= i < j < new_peers.len() implies !(
    #[trigger] new_peers[i]).has_key((#[trigger] new_peers[j]).peer_id, new_peers[j].address) by {
        match at {
            Some(k) => {
                assert(swarm.is_at(peer_id, address, k));
                if event == Event::Stopped {
                    let a = if i < k { i } else { i + 1 };
                    let b = if j < k { j } else { j + 1 };
                    assert(new_peers[i] == old_peers[a] && new_peers[j] == old_peers[b]);
                    assert(!old_peers[a].has_key(old_peers[b].peer_id, old_peers[b].address));
                } else {
                    assert(!old_peers[i].has_key(old_peers[j].peer_id, old_peers[j].address));
                    assert(new_peers[i].peer_id == old_peers[i].peer_id);
                    assert(new_peers[i].address == old_peers[i].address);
                    assert(new_peers[j].peer_id == old_peers[j].peer_id);
                    assert(new_peers[j].address == old_peers[j].address);
                }
            },
            None => {
                if event != Event::Stopped && j == old_peers.len() {
                    assert(!swarm.is_at(peer_id, address, i));
                    assert(new_peers[i] == old_peers[i]);
                } else {
                    assert(new_peers[i] == old_peers[i] && new_peers[j] == old_peers[j]);
                    assert(!old_peers[i].has_key(old_peers[j].peer_id, old_peers[j].address));
                }
            },
        }
    }
}

/// Every live peer is a seeder or a leecher, and none is both: the two
/// counts add up to the number of live peers.
pub proof fn lemma_counts_partition(swarm: SwarmView, now: u64, interval: u32)
    ensures
        swarm.seeders(now, interval) + swarm.leechers(now, interval) == swarm.live(
            now,
            interval,
        ).len(),
    decreases swarm.peers.len(),
{
    reveal(Seq::filter);
    if swarm.peers.len() > 0 {
        lemma_counts_partition(
            SwarmView { peers: swarm.peers.drop_last(), completed: swarm.completed },
            now,
            interval,
        );
    }
}

/// The swarm that nobody announced for has no seeders, no leechers, no
/// completed downloads and no peers to hand out.
pub proof fn lemma_empty_swarm(requester: Seq<u8>, limit: nat, now: u64, interval: u32)
    ensures
        SwarmView::empty().seeders(now, interval) == 0,
        SwarmView::empty().leechers(now, interval) == 0,
        SwarmView::empty().completed == 0,
        SwarmView::empty().sample(requester, limit, now, interval) == Seq::<PeerAddress>::empty(),
        SwarmView::empty().wf(),
{
    reveal(Seq::filter);
    assert(SwarmView::empty().sample(requester, limit, now, interval) =~= Seq::<
        PeerAddress,
    >::empty());
}

/// The scrape of an info hash that nobody announced for gives zeros, and
/// in a registry in which nobody has announced yet that is every info
/// hash.
pub proof fn lemma_unknown_scrapes_zeros(registry: RegistryView, info_hash: Seq<u8>, now: u64)
    requires
        registry.swarms[info_hash] == SwarmView::empty(),
    ensures
        registry.scrape_entry(info_hash, now) == (ScrapeEntry {
            seeders: 0,
            completed: 0,
            leechers: 0,
        }),
        RegistryView::fresh(registry.interval).wf(),
        RegistryView::fresh(registry.interval).swarms[info_hash] == SwarmView::empty(),
{
    lemma_empty_swarm(Seq::empty(), 0, now, registry.interval);
}

/// Taking a peer that fails `keep` off a list changes nothing in what
/// `keep` lets through.
proof fn lemma_filter_remove(peers: Seq<PeerView>, keep: spec_fn(PeerView) -> bool, i: int)
    requires
        0 <= i < peers.len(),
        !keep(peers[i]),
    ensures
        peers.remove(i).filter(keep) == peers.filter(keep),
{
    reveal(Seq::filter);
    let head = peers.take(i);
    let one = seq![peers[i]];
    let tail = peers.skip(i + 1);
    assert(peers =~= head + one + tail);
    assert(peers.remove(i) =~= head + tail);
    Seq::filter_distributes_over_add(head + one, tail, keep);
    Seq::filter_distributes_over_add(head, one, keep);
    Seq::filter_distributes_over_add(head, tail, keep);
    let none = Seq::<PeerView>::empty();
    none.lemma_filter_push(peers[i], keep);
    assert(one =~= none.push(peers[i]));
    assert(one.filter(keep) =~= none);
    assert(head.filter(keep) + one.filter(keep) =~= head.filter(keep));
}

/// A peer that has not announced for more than twice the interval counts
/// for nothing: the counts and the peers handed out are what they would be
/// without it on the list.
pub proof fn lemma_expired_peer_excluded(
    swarm: SwarmView,
    i: int,
    requester: Seq<u8>,
    limit: nat,
    now: u64,
    interval: u32,
)
    requires
        0 <= i < swarm.peers.len(),
        now > swarm.peers[i].last_announce + 2 * interval,
    ensures
        ({
            let without = SwarmView { peers: swarm.peers.remove(i), completed: swarm.completed };
            &&& without.seeders(now, interval) == swarm.seeders(now, interval)
            &&& without.leechers(now, interval) == swarm.leechers(now, interval)
            &&& without.live(now, interval) == swarm.live(now, interval)
            &&& without.sample(requester, limit, now, interval) == swarm.sample(
                requester,
                limit,
                now,
                interval,
            )
        }),
{
    lemma_filter_remove(swarm.peers, seeding_at(now, interval), i);
    lemma_filter_remove(swarm.peers, leeching_at(now, interval), i);
    lemma_filter_remove(swarm.peers, live_at(now, interval), i);
    lemma_filter_remove(swarm.peers, listed_for(requester, now, interval), i);
}

/// Filtering by `inner` what `outer` let through gives what `inner` lets
/// through, where `inner` lets through nothing that `outer` does not.
proof fn lemma_filter_twice(
    peers: Seq<PeerView>,
    outer: spec_fn(PeerView) -> bool,
    inner: spec_fn(PeerView) -> bool,
)
    requires
        forall|p: PeerView| #[trigger] inner(p) ==> outer(p),
    ensures
        peers.filter(outer).filter(inner) == peers.filter(inner),
    decreases peers.len(),
{
    reveal(Seq::filter);
    if peers.len() > 0 {
        let rest = peers.drop_last();
        lemma_filter_twice(rest, outer, inner);
        if outer(peers.last()) {
            rest.filter(outer).lemma_filter_push(peers.last(), inner);
        }
    }
}

/// Sweeping changes no answer: at the second of the sweep, the counts and
/// the peers handed out are the same before and after it.
pub proof fn lemma_sweep_changes_no_answer(
    swarm: SwarmView,
    requester: Seq<u8>,
    limit: nat,
    now: u64,
    interval: u32,
)
    requires
        swarm.wf(),
    ensures
        swarm.swept(now, interval).wf(),
        swarm.swept(now, interval).seeders(now, interval) == swarm.seeders(now, interval),
        swarm.swept(now, interval).leechers(now, interval) == swarm.leechers(now, interval),
        swarm.swept(now, interval).sample(requester, limit, now, interval) == swarm.sample(
            requester,
            limit,
            now,
            interval,
        ),
{
    let outer = live_at(now, interval);
    lemma_filter_distinct(swarm.peers, outer);
    lemma_filter_twice(swarm.peers, outer, seeding_at(now, interval));
    lemma_filter_twice(swarm.peers, outer, leeching_at(now, interval));
    lemma_filter_twice(swarm.peers, outer, listed_for(requester, now, interval));
}

/// The first announce of a peer, unless it says `Stopped`, puts the peer
/// at the end of the list, and from then on the peer counts once, as a
/// seeder or as a leecher, for as long as it is live.
pub proof fn lemma_new_peer_counted(
    swarm: SwarmView,
    peer_id: Seq<u8>,
    address: PeerAddress,
    stats: PeerStats,
    event: Event,
    now: u64,
    at: u64,
    interval: u32,
)
    requires
        swarm.position(peer_id, address) is None,
        event != Event::Stopped,
        at <= now + 2 * interval,
    ensures
        ({
            let after = swarm.upsert(peer_id, address, stats, event, now);
            &&& after.peers.len() == swarm.peers.len() + 1
            &&& after.peers.last().has_key(peer_id, address)
            &&& after.seeders(at, interval) == swarm.seeders(at, interval) + if stats.left == 0 {
                1int
            } else {
                0int
            }
            &&& after.leechers(at, interval) == swarm.leechers(at, interval) + if stats.left == 0 {
                0int
            } else {
                1int
            }
        }),
{
    let record = PeerView {
        peer_id,
        address,
        stats,
        last_announce: now,
        completed: event == Event::Completed,
    };
    swarm.peers.lemma_filter_push(record, seeding_at(at, interval));
    swarm.peers.lemma_filter_push(record, leeching_at(at, interval));
}

/// One announce, as a value.
pub struct AnnounceView {
    pub peer_id: Seq<u8>,
    pub address: PeerAddress,
    pub stats: PeerStats,
    pub event: Event,
    pub now: u64,
}

/// The swarm after the announces of `announces`, one after the other.
pub open spec fn after_all(swarm: SwarmView, announces: Seq<AnnounceView>) -> SwarmView
    decreases announces.len(),
{
    if announces.len() == 0 {
        swarm
    } else {
        let a = announces.last();
        after_all(swarm, announces.drop_last()).upsert(
            a.peer_id,
            a.address,
            a.stats,
            a.event,
            a.now,
        )
    }
}

/// Whether the announces are of peers that differ from each other, none
/// says `Stopped`, and each is recent enough to be live at `at`.
pub open spec fn joining(announces: Seq<AnnounceView>, at: u64, interval: u32) -> bool {
    &&& forall|i: int, j: int|
        0 <= i < j < announces.len() ==> !((#[trigger] announces[i]).peer_id == (
        #[trigger] announces[j]).peer_id && announces[i].address == announces[j].address)
    &&& forall|i: int|
        0 <= i < announces.len() ==> (#[trigger] announces[i]).event != Event::Stopped && at
            <= announces[i].now + 2 * interval
}

/// After the announces of peers that differ from each other, the empty
/// swarm holds one record for each, in the order of the announces.
proof fn lemma_after_all_joining(announces: Seq<AnnounceView>, at: u64, interval: u32)
    requires
        joining(announces, at, interval),
    ensures
        ({
            let swarm = after_all(SwarmView::empty(), announces);
            &&& swarm.wf()
            &&& swarm.peers.len() == announces.len()
            &&& forall|j: int|
                0 <= j < announces.len() ==> (#[trigger] swarm.peers[j]).has_key(
                    announces[j].peer_id,
                    announces[j].address,
                )
            &&& swarm.seeders(at, interval) + swarm.leechers(at, interval) == announces.len()
        }),
    decreases announces.len(),
{
    if announces.len() == 0 {
        lemma_empty_swarm(Seq::empty(), 0, at, interval);
    } else {
        let rest = announces.drop_last();
        let a = announces.last();
        assert(joining(rest, at, interval)) by {
            assert forall|i: int| 0 <= i < rest.len() implies rest[i] == announces[i] by {}
        }
        lemma_after_all_joining(rest, at, interval);
        let before = after_all(SwarmView::empty(), rest);
        assert(before.position(a.peer_id, a.address) is None) by {
            assert forall|i: int| !before.is_at(a.peer_id, a.address, i) by {
                if before.is_at(a.peer_id, a.address, i) {
                    assert(before.peers[i].has_key(rest[i].peer_id, rest[i].address));
                    assert(announces[i] == rest[i]);
                    assert(announces[announces.len() - 1] == a);
                }
            }
        }
        lemma_upsert_wf(before, a.peer_id, a.address, a.stats, a.event, a.now);
        lemma_new_peer_counted(before, a.peer_id, a.address, a.stats, a.event, a.now, at, interval);
        let after = before.upsert(a.peer_id, a.address, a.stats, a.event, a.now);
        assert forall|j: int| 0 <= j < announces.len() implies (#[trigger] after.peers[j]).has_key(
            announces[j].peer_id,
            announces[j].address,
        ) by {
            if j < rest.len() {
                assert(after.peers[j] == before.peers[j]);
                assert(announces[j] == rest[j]);
            }
        }
    }
}

/// No announce is lost: after the announces of N peers that differ from
/// each other, in whatever order they were served, a swarm that was empty
/// counts N seeders and leechers.
pub proof fn lemma_no_lost_updates(announces: Seq<AnnounceView>, at: u64, interval: u32)
    requires
        joining(announces, at, interval),
    ensures
        after_all(SwarmView::empty(), announces).seeders(at, interval) + after_all(
            SwarmView::empty(),
            announces,
        ).leechers(at, interval) == announces.len(),
{
    lemma_after_all_joining(announces, at, interval);
}

} // verus!
