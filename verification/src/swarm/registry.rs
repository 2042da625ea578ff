//! All swarms in memory, by info hash.
use crate::address::PeerAddress;
use crate::swarm::model::{clamp, PeerStats, RegistryView, SwarmView};
use crate::swarm::store::{same_bytes, Swarm, SwarmStats};
use crate::udp_server::event::Event;
use crate::udp_server::request::scrape::hashes_view;
use crate::udp_server::response::scrape::ScrapeEntry;
use vstd::prelude::*;

verus! {

/// The swarm of one info hash.
struct Entry {
    info_hash: [u8; 20],
    swarm: Swarm,
}

/// The swarms of all info hashes that were announced for. An info hash that
/// was never announced for has the empty swarm.
pub struct SwarmRegistry {
    entries: Vec<Entry>,
    interval: u32,
}

/// A count as it goes on the wire: itself where it fits in 32 bits, the
/// largest 32-bit number where it does not.
pub fn clamped(count: usize) -> (c: u32)
    ensures
        c == clamp(count as nat),
{
    if count <= u32::MAX as usize {
        count as u32
    } else {
        u32::MAX
    }
}

impl View for SwarmRegistry {
    type V = RegistryView;

    closed spec fn view(&self) -> RegistryView {
        RegistryView {
            swarms: Map::total(|h: Seq<u8>| self.swarm_of(h)),
            interval: self.interval,
        }
    }
}

impl SwarmRegistry {
    /// Whether the entry at index `i` is that of `info_hash`.
    spec fn is_at(&self, info_hash: Seq<u8>, i: int) -> bool {
        0 <= i < self.entries@.len() && self.entries@[i].info_hash@ == info_hash
    }

    /// The swarm of `info_hash`.
    spec fn swarm_of(&self, info_hash: Seq<u8>) -> SwarmView {
        if exists|i: int| self.is_at(info_hash, i) {
            self.entries@[choose|i: int| self.is_at(info_hash, i)].swarm@
        } else {
            SwarmView::empty()
        }
    }

    /// How many entries the registry holds: one for each info hash whose
    /// swarm it has in store.
    pub closed spec fn slots(&self) -> nat {
        self.entries@.len()
    }

    /// The info hash of the entry at index `i`.
    pub closed spec fn hash_at(&self, i: int) -> Seq<u8> {
        self.entries@[i].info_hash@
    }

    /// The invariant of the representation: no info hash has two entries,
    /// and no swarm holds a peer twice.
    pub closed spec fn inv(&self) -> bool {
        &&& forall|i: int, j: int|
            0 <= i < j < self.entries@.len() ==> (#[trigger] self.entries@[i]).info_hash@ != (
            #[trigger] self.entries@[j]).info_hash@
        &&& forall|i: int| 0 <= i < self.entries@.len() ==> (#[trigger] self.entries@[i]).swarm@.wf()
    }

    /// In a registry that keeps its invariant, the entry at index `i` holds
    /// the swarm of its info hash.
    proof fn lemma_entry(&self, i: int)
        requires
            self.inv(),
            0 <= i < self.entries@.len(),
        ensures
            self.swarm_of(self.entries@[i].info_hash@) == self.entries@[i].swarm@,
    {
        let h = self.entries@[i].info_hash@;
        assert(self.is_at(h, i));
        let c = choose|c: int| self.is_at(h, c);
        assert(self.is_at(h, c));
        if c < i {
            assert(self.entries@[c].info_hash@ != self.entries@[i].info_hash@);
        } else if i < c {
            assert(self.entries@[i].info_hash@ != self.entries@[c].info_hash@);
        }
    }

    /// A registry that keeps its invariant stands for a well-formed value.
    pub proof fn lemma_view_wf(&self)
        requires
            self.inv(),
        ensures
            self@.wf(),
    {
        assert forall|h: Seq<u8>|
            #![trigger self@.swarms[h]]
            #![trigger self@.swarms.dom().contains(h)]
            self@.swarms.dom().contains(h) && self@.swarms[h].wf() by {
            if exists|i: int| self.is_at(h, i) {
                let c = choose|c: int| self.is_at(h, c);
                assert(self.entries@[c].swarm@.wf());
            }
        }
    }

    /// A registry without swarms, for the announce interval `interval` in
    /// seconds.
    pub fn new(interval: u32) -> (registry: SwarmRegistry)
        ensures
            registry.inv(),
            registry@ == RegistryView::fresh(interval),
    {
        let registry = SwarmRegistry { entries: Vec::new(), interval };
        assert(registry@.swarms =~= RegistryView::fresh(interval).swarms);
        registry
    }

    /// The announce interval, in seconds.
    pub fn interval(&self) -> (interval: u32)
        ensures
            interval == self@.interval,
    {
        self.interval
    }

    /// Where the entry of `info_hash` stands.
    fn find(&self, info_hash: &[u8; 20]) -> (at: Option<usize>)
        requires
            self.inv(),
        ensures
            match at {
                Some(i) => self.is_at(info_hash@, i as int) && self.swarm_of(info_hash@)
                    == self.entries@[i as int].swarm@,
                None => self.swarm_of(info_hash@) == SwarmView::empty() && forall|i: int|
                    !self.is_at(info_hash@, i),
            },
    {
        let mut i: usize = 0;
        while i < self.entries.len()
            invariant
                i <= self.entries.len(),
                self.inv(),
                forall|j: int| 0 <= j < i ==> !self.is_at(info_hash@, j),
            decreases self.entries.len() - i,
        {
            if same_bytes(&self.entries[i].info_hash, info_hash) {
                proof {
                    self.lemma_entry(i as int);
                }
                return Some(i);
            }
            i += 1;
        }
        None
    }

    /// Records an announce of a peer for `info_hash`: see
    /// [`SwarmView::upsert`]. The other swarms stay as they are.
    pub fn upsert(
        &mut self,
        info_hash: &[u8; 20],
        peer_id: &[u8; 20],
        address: PeerAddress,
        stats: PeerStats,
        event: Event,
        now: u64,
    )
        requires
            old(self).inv(),
        ensures
            final(self).inv(),
            final(self)@ == old(self)@.upsert(info_hash@, peer_id@, address, stats, event, now),
    {
        let ghost expected = old(self)@.upsert(info_hash@, peer_id@, address, stats, event, now);
        match self.find(info_hash) {
            Some(i) => {
                self.entries[i].swarm.upsert(peer_id, address, stats, event, now);
                proof {
                    assert(self.entries@.len() == old(self).entries@.len());
                    assert forall|j: int| 0 <= j < self.entries@.len() implies (
                    #[trigger] self.entries@[j]).info_hash@ == old(self).entries@[j].info_hash@
                        && (j != i ==> self.entries@[j].swarm@ == old(self).entries@[j].swarm@) by {}
                    assert(self.inv());
                    assert forall|h: Seq<u8>| #[trigger] self.swarm_of(h) == expected.swarms[h] by {
                        self.lemma_swarm_of_same_hashes(old(self), h);
                        if h == info_hash@ {
                            assert(self.is_at(h, i as int));
                            assert(self.swarm_of(h) == self.entries@[i as int].swarm@);
                            assert(old(self)@.swarms[h] == old(self).entries@[i as int].swarm@);
                        } else if exists|k: int| self.is_at(h, k) {
                            let k = choose|k: int| self.is_at(h, k);
                            assert(self.swarm_of(h) == self.entries@[k].swarm@);
                            assert(old(self).swarm_of(h) == old(self).entries@[k].swarm@);
                            assert(k != i);
                        } else {
                            assert(self.swarm_of(h) == SwarmView::empty());
                            assert(old(self).swarm_of(h) == SwarmView::empty());
                        }
                    }
                    assert(self@.swarms =~= expected.swarms);
                }
            },
            None => {
                let mut swarm = Swarm::new();
                swarm.upsert(peer_id, address, stats, event, now);
                if swarm.is_vacant() {
                    assert(self@.swarms =~= expected.swarms);
                    return ;
                }
                self.entries.push(Entry { info_hash: *info_hash, swarm });
                proof {
                    let n = old(self).entries@.len() as int;
                    assert forall|j: int| 0 <= j < n implies (#[trigger] self.entries@[j])
                        == old(self).entries@[j] by {}
                    assert(self.inv()) by {
                        assert forall|a: int, b: int| 0 <= a < b < self.entries@.len() implies (
                        #[trigger] self.entries@[a]).info_hash@ != (
                        #[trigger] self.entries@[b]).info_hash@ by {
                            if b == n {
                                assert(!old(self).is_at(info_hash@, a));
                            }
                        }
                    }
                    assert forall|h: Seq<u8>| #[trigger] self.swarm_of(h) == expected.swarms[h] by {
                        if h == info_hash@ {
                            self.lemma_entry(n);
                        } else {
                            self.lemma_swarm_of_prefix(old(self), h);
                        }
                    }
                    assert(self@.swarms =~= expected.swarms);
                }
            },
        }
    }

    /// The counts of the swarm of `info_hash` at `now`. A peer that has not
    /// announced for more than twice the interval counts for nothing.
    pub fn snapshot(&self, info_hash: &[u8; 20], now: u64) -> (stats: SwarmStats)
        requires
            self.inv(),
        ensures
            stats.seeders == self@.swarms[info_hash@].seeders(now, self@.interval),
            stats.leechers == self@.swarms[info_hash@].leechers(now, self@.interval),
            stats.completed == self@.swarms[info_hash@].completed,
    {
        match self.find(info_hash) {
            Some(i) => self.entries[i].swarm.snapshot(now, self.interval),
            None => Swarm::new().snapshot(now, self.interval),
        }
    }

    /// The addresses of up to `limit` live peers of the swarm of
    /// `info_hash`, in the order in which they first announced, without the
    /// peers whose id is `requester`.
    pub fn sample_peers(&self, info_hash: &[u8; 20], requester: &[u8; 20], limit: usize, now: u64)
        -> (out: Vec<PeerAddress>)
        requires
            self.inv(),
        ensures
            out@ == self@.swarms[info_hash@].sample(
                requester@,
                limit as nat,
                now,
                self@.interval,
            ),
    {
        match self.find(info_hash) {
            Some(i) => self.entries[i].swarm.sample_peers(requester, limit, now, self.interval),
            None => Swarm::new().sample_peers(requester, limit, now, self.interval),
        }
    }

    /// The counts of the swarms of `info_hashes` at `now`, one entry for
    /// each info hash and in the same order. An info hash that nobody
    /// announced for has zeros.
    pub fn scrape(&self, info_hashes: &[[u8; 20]], now: u64) -> (out: Vec<ScrapeEntry>)
        requires
            self.inv(),
        ensures
            out@ == self@.scrape(hashes_view(info_hashes@), now),
    {
        let mut out: Vec<ScrapeEntry> = Vec::new();
        let mut i: usize = 0;
        while i < info_hashes.len()
            invariant
                i <= info_hashes.len(),
                self.inv(),
                out@.len() == i,
                forall|j: int|
                    0 <= j < i ==> #[trigger] out@[j] == self@.scrape_entry(info_hashes@[j]@, now),
            decreases info_hashes.len() - i,
        {
            let stats = self.snapshot(&info_hashes[i], now);
            out.push(
                ScrapeEntry {
                    seeders: clamped(stats.seeders),
                    completed: stats.completed,
                    leechers: clamped(stats.leechers),
                },
            );
            i += 1;
        }
        assert(out@ =~= self@.scrape(hashes_view(info_hashes@), now));
        out
    }

    /// How many entries the registry holds.
    pub fn slot_count(&self) -> (count: usize)
        ensures
            count == self.slots(),
    {
        self.entries.len()
    }

    /// An info hash whose swarm is not the empty one has an entry, so a
    /// pass over all entries passes over every such swarm.
    pub proof fn lemma_slots_cover(&self, info_hash: Seq<u8>)
        requires
            self.inv(),
            self@.swarms[info_hash] != SwarmView::empty(),
        ensures
            exists|i: int| 0 <= i < self.slots() && self.hash_at(i) == info_hash,
    {
        let i = choose|i: int| self.is_at(info_hash, i);
        assert(self.is_at(info_hash, i));
        assert(0 <= i < self.slots() && self.hash_at(i) == info_hash);
    }

    /// Takes the peers that are expired at `now` off the swarm of the entry
    /// at index `cursor`, and drops the entry where that leaves the empty
    /// swarm: the last entry then takes its place. Returns the index at
    /// which a pass over the entries goes on: `cursor` where the entry was
    /// dropped or `cursor` is past the last entry, the next index
    /// otherwise. One call takes the time that one swarm takes.
    pub fn sweep_at(&mut self, cursor: usize, now: u64) -> (next: usize)
        requires
            old(self).inv(),
        ensures
            final(self).inv(),
            cursor >= old(self).slots() ==> {
                &&& next == cursor
                &&& final(self)@ == old(self)@
                &&& final(self).slots() == old(self).slots()
                &&& forall|i: int|
                    0 <= i < final(self).slots() ==> #[trigger] final(self).hash_at(i) == old(
                        self,
                    ).hash_at(i)
            },
            cursor < old(self).slots() ==> {
                let h = old(self).hash_at(cursor as int);
                let left = old(self)@.swarms[h].swept(now, old(self)@.interval);
                &&& final(self)@ == old(self)@.swept_one(h, now)
                &&& left == SwarmView::empty() ==> {
                    &&& next == cursor
                    &&& final(self).slots() == old(self).slots() - 1
                    &&& forall|i: int|
                        0 <= i < final(self).slots() ==> #[trigger] final(self).hash_at(i) == old(
                            self,
                        ).hash_at(
                            if i == cursor {
                                old(self).slots() - 1
                            } else {
                                i
                            },
                        )
                }
                &&& left != SwarmView::empty() ==> {
                    &&& next == cursor + 1
                    &&& final(self).slots() == old(self).slots()
                    &&& forall|i: int|
                        0 <= i < final(self).slots() ==> #[trigger] final(self).hash_at(i) == old(
                            self,
                        ).hash_at(i)
                }
            },
    {
        if cursor >= self.entries.len() {
            return cursor;
        }
        let ghost expected = old(self)@.swept_one(old(self).hash_at(cursor as int), now);
        let interval = self.interval;
        proof {
            old(self).lemma_entry(cursor as int);
        }
        self.entries[cursor].swarm.sweep(now, interval);
        proof {
            assert forall|j: int| 0 <= j < self.entries@.len() implies (
            #[trigger] self.entries@[j]).info_hash@ == old(self).entries@[j].info_hash@ && (j
                != cursor ==> self.entries@[j].swarm@ == old(self).entries@[j].swarm@) by {}
            assert(self.inv());
            assert forall|h: Seq<u8>| #[trigger] self.swarm_of(h) == expected.swarms[h] by {
                self.lemma_swarm_of_same_hashes(old(self), h);
                if h == old(self).hash_at(cursor as int) {
                    assert(self.is_at(h, cursor as int));
                } else if exists|k: int| self.is_at(h, k) {
                    let k = choose|k: int| self.is_at(h, k);
                    assert(self.swarm_of(h) == self.entries@[k].swarm@);
                    assert(old(self).swarm_of(h) == old(self).entries@[k].swarm@);
                }
            }
            assert(self@.swarms =~= expected.swarms);
            self.lemma_entry(cursor as int);
        }
        let ghost swept = *self;
        if self.entries[cursor].swarm.is_vacant() {
            self.entries.swap_remove(cursor);
            proof {
                self.lemma_without_vacant(&swept, cursor as int);
                assert(self@.swarms =~= swept@.swarms);
            }
            cursor
        } else {
            cursor + 1
        }
    }

    /// Taking an entry with the empty swarm out of a registry, and putting
    /// the last entry in its place, leaves every info hash with the swarm
    /// that it had.
    proof fn lemma_without_vacant(&self, before: &SwarmRegistry, at: int)
        requires
            before.inv(),
            0 <= at < before.entries@.len(),
            before.entries@[at].swarm@ == SwarmView::empty(),
            self.interval == before.interval,
            self.entries@ == before.entries@.update(at, before.entries@.last()).drop_last(),
        ensures
            self.inv(),
            forall|h: Seq<u8>| #[trigger] self.swarm_of(h) == before.swarm_of(h),
    {
        let n = before.entries@.len() as int;
        let from = |i: int|
            if i == at {
                n - 1
            } else {
                i
            };
        assert forall|i: int| 0 <= i < self.entries@.len() implies #[trigger] self.entries@[i]
            == before.entries@[from(i)] by {}
        assert(self.inv()) by {
            assert forall|i: int, j: int| 0 <= i < j < self.entries@.len() implies (
            #[trigger] self.entries@[i]).info_hash@ != (#[trigger] self.entries@[j]).info_hash@ by {
                let a = from(i);
                let b = from(j);
                if a < b {
                    assert(before.entries@[a].info_hash@ != before.entries@[b].info_hash@);
                } else {
                    assert(before.entries@[b].info_hash@ != before.entries@[a].info_hash@);
                }
            }
            assert forall|i: int| 0 <= i < self.entries@.len() implies (
            #[trigger] self.entries@[i]).swarm@.wf() by {
                assert(before.entries@[from(i)].swarm@.wf());
            }
        }
        assert forall|h: Seq<u8>| #[trigger] self.swarm_of(h) == before.swarm_of(h) by {
            if exists|i: int| self.is_at(h, i) {
                let i = choose|i: int| self.is_at(h, i);
                self.lemma_entry(i);
                assert(before.is_at(h, from(i)));
                before.lemma_entry(from(i));
            } else if exists|k: int| before.is_at(h, k) {
                let k = choose|k: int| before.is_at(h, k);
                before.lemma_entry(k);
                if k != at {
                    let i = if k == n - 1 {
                        at
                    } else {
                        k
                    };
                    assert(self.is_at(h, i));
                }
            }
        }
    }

    /// Takes the peers that are expired at `now` off every swarm.
    pub fn sweep(&mut self, now: u64)
        requires
            old(self).inv(),
        ensures
            final(self).inv(),
            final(self)@ == old(self)@.swept(now),
    {
        let ghost expected = old(self)@.swept(now);
        let mut i: usize = 0;
        while i < self.entries.len()
            invariant
                i <= self.entries.len(),
                old(self).inv(),
                self.inv(),
                self.interval == old(self).interval,
                self.entries@.len() == old(self).entries@.len(),
                forall|j: int|
                    0 <= j < self.entries@.len() ==> (#[trigger] self.entries@[j]).info_hash@
                        == old(self).entries@[j].info_hash@,
                forall|j: int|
                    0 <= j < i ==> (#[trigger] self.entries@[j]).swarm@ == old(
                        self,
                    ).entries@[j].swarm@.swept(now, self.interval),
                forall|j: int|
                    i <= j < self.entries@.len() ==> (#[trigger] self.entries@[j]).swarm@ == old(
                        self,
                    ).entries@[j].swarm@,
            decreases self.entries.len() - i,
        {
            let ghost before = self.entries@;
            let interval = self.interval;
            self.entries[i].swarm.sweep(now, interval);
            proof {
                assert forall|j: int| 0 <= j < self.entries@.len() implies (
                #[trigger] self.entries@[j]).info_hash@ == before[j].info_hash@ && (j != i
                    ==> self.entries@[j].swarm@ == before[j].swarm@) by {}
            }
            i += 1;
        }
        proof {
            assert forall|h: Seq<u8>| #[trigger] self.swarm_of(h) == expected.swarms[h] by {
                self.lemma_swarm_of_same_hashes(old(self), h);
                if exists|k: int| self.is_at(h, k) {
                    let k = choose|k: int| self.is_at(h, k);
                    assert(self.swarm_of(h) == self.entries@[k].swarm@);
                    assert(old(self).swarm_of(h) == old(self).entries@[k].swarm@);
                } else {
                    reveal(Seq::filter);
                    assert(self.swarm_of(h) == SwarmView::empty());
                    assert(old(self).swarm_of(h) == SwarmView::empty());
                    assert(SwarmView::empty().swept(now, self.interval).peers
                        =~= SwarmView::empty().peers);
                }
            }
            assert(self@.swarms =~= expected.swarms);
        }
        self.compact();
    }

    /// Drops the entries whose swarm is the empty one, and keeps every
    /// other entry as it is. An info hash without an entry has the empty
    /// swarm, so the registry stands for what it stood for.
    fn compact(&mut self)
        requires
            old(self).inv(),
        ensures
            final(self).inv(),
            final(self)@ == old(self)@,
            forall|i: int|
                0 <= i < final(self).entries@.len() ==> (#[trigger] final(self).entries@[i]).swarm@
                    != SwarmView::empty() && old(self).entries@.contains(final(self).entries@[i]),
            forall|k: int|
                0 <= k < old(self).entries@.len() && (#[trigger] old(self).entries@[k]).swarm@
                    != SwarmView::empty() ==> final(self).entries@.contains(old(self).entries@[k]),
    {
        let ghost all = self.entries@;
        // Where each kept entry stood, and where each entry was kept.
        let ghost mut origin: Seq<int> = Seq::empty();
        let ghost mut slot: Seq<int> = Seq::new(all.len(), |k: int| -1);
        let mut kept: Vec<Entry> = Vec::new();
        while self.entries.len() > 0
            invariant
                old(self).inv(),
                all == old(self).entries@,
                self.interval == old(self).interval,
                self.entries@ == all.take(self.entries@.len() as int),
                self.entries@.len() <= all.len(),
                origin.len() == kept@.len(),
                slot.len() == all.len(),
                forall|a: int|
                    0 <= a < origin.len() ==> self.entries@.len() <= #[trigger] origin[a]
                        < all.len() && kept@[a] == all[origin[a]] && kept@[a].swarm@
                        != SwarmView::empty(),
                forall|a: int, b: int|
                    0 <= a < b < kept@.len() ==> (#[trigger] kept@[a]).info_hash@ != (
                    #[trigger] kept@[b]).info_hash@,
                forall|k: int|
                    self.entries@.len() <= k < all.len() && all[k].swarm@ != SwarmView::empty()
                        ==> 0 <= #[trigger] slot[k] < kept@.len() && kept@[slot[k]] == all[k],
            decreases self.entries.len(),
        {
            let ghost m = self.entries@.len() - 1;
            let ghost before = kept@;
            let entry = self.entries.pop().unwrap();
            if !entry.swarm.is_vacant() {
                kept.push(entry);
                proof {
                    origin = origin.push(m);
                    slot = slot.update(m, before.len() as int);
                    assert forall|a: int, b: int| 0 <= a < b < kept@.len() implies (
                    #[trigger] kept@[a]).info_hash@ != (#[trigger] kept@[b]).info_hash@ by {
                        assert(kept@[a] == before[a]);
                        if b == before.len() {
                            assert(all[m].info_hash@ != all[origin[a]].info_hash@);
                        } else {
                            assert(kept@[b] == before[b]);
                        }
                    }
                }
            }
            assert(self.entries@ =~= all.take(m));
        }
        self.entries = kept;
        proof {
            assert forall|i: int| 0 <= i < self.entries@.len() implies (
            #[trigger] self.entries@[i]).swarm@ != SwarmView::empty() && all.contains(
                self.entries@[i],
            ) && self.entries@[i].swarm@.wf() by {
                assert(all[origin[i]] == self.entries@[i]);
                assert(all[origin[i]].swarm@.wf());
            }
            assert forall|k: int|
                0 <= k < all.len() && (#[trigger] all[k]).swarm@
                    != SwarmView::empty() implies self.entries@.contains(all[k]) by {
                assert(self.entries@[slot[k]] == all[k]);
            }
            assert(self.inv());
            assert forall|h: Seq<u8>| #[trigger] self.swarm_of(h) == old(self).swarm_of(h) by {
                if exists|a: int| self.is_at(h, a) {
                    let a = choose|a: int| self.is_at(h, a);
                    self.lemma_entry(a);
                    assert(old(self).is_at(h, origin[a]));
                    old(self).lemma_entry(origin[a]);
                } else if exists|k: int| old(self).is_at(h, k) {
                    let k = choose|k: int| old(self).is_at(h, k);
                    old(self).lemma_entry(k);
                    if all[k].swarm@ != SwarmView::empty() {
                        assert(self.is_at(h, slot[k]));
                    }
                }
            }
            assert(self@.swarms =~= old(self)@.swarms);
        }
    }

    /// Where two registries hold the same info hashes at the same indices,
    /// the swarm of an info hash is in both the swarm of the same entry.
    proof fn lemma_swarm_of_same_hashes(&self, other: &SwarmRegistry, h: Seq<u8>)
        requires
            self.inv(),
            other.inv(),
            self.entries@.len() == other.entries@.len(),
            forall|j: int|
                0 <= j < self.entries@.len() ==> (#[trigger] self.entries@[j]).info_hash@
                    == other.entries@[j].info_hash@,
        ensures
            (forall|i: int| !self.is_at(h, i)) ==> self.swarm_of(h) == SwarmView::empty()
                && other.swarm_of(h) == SwarmView::empty(),
            forall|i: int|
                self.is_at(h, i) ==> self.swarm_of(h) == self.entries@[i].swarm@ && other.swarm_of(
                    h,
                ) == other.entries@[i].swarm@,
    {
        assert forall|i: int| self.is_at(h, i) implies self.swarm_of(h) == self.entries@[i].swarm@
            && other.swarm_of(h) == other.entries@[i].swarm@ by {
            self.lemma_entry(i);
            assert(other.is_at(h, i));
            other.lemma_entry(i);
        }
        if forall|i: int| !self.is_at(h, i) {
            assert forall|i: int| !other.is_at(h, i) by {
                if other.is_at(h, i) {
                    assert(self.is_at(h, i));
                }
            }
        }
    }

    /// Where this registry is another one with one more entry at the end,
    /// every other info hash has the swarm that it had.
    proof fn lemma_swarm_of_prefix(&self, other: &SwarmRegistry, h: Seq<u8>)
        requires
            self.inv(),
            other.inv(),
            self.entries@.len() == other.entries@.len() + 1,
            forall|j: int|
                0 <= j < other.entries@.len() ==> (#[trigger] self.entries@[j])
                    == other.entries@[j],
            self.entries@.last().info_hash@ != h,
        ensures
            self.swarm_of(h) == other.swarm_of(h),
    {
        if exists|i: int| other.is_at(h, i) {
            let i = choose|i: int| other.is_at(h, i);
            assert(self.is_at(h, i));
            self.lemma_entry(i);
            other.lemma_entry(i);
        } else {
            assert forall|i: int| !self.is_at(h, i) by {
                if self.is_at(h, i) {
                    assert(other.is_at(h, i));
                }
            }
        }
    }
}

} // verus!
