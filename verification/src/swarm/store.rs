//! One swarm in memory.
use crate::address::PeerAddress;
use crate::swarm::model::{
    address_of, leeching_at, lemma_filter_distinct, lemma_position_unique, lemma_upsert_wf,
    listed_for, live_at, one_more, seeding_at, PeerStats, PeerView, SwarmView,
};
use crate::udp_server::event::Event;
use vstd::prelude::*;

verus! {

/// The record of one peer.
#[derive(Clone, Copy, Debug)]
pub struct Peer {
    pub peer_id: [u8; 20],
    pub address: PeerAddress,
    pub stats: PeerStats,
    pub last_announce: u64,
    pub completed: bool,
}

impl View for Peer {
    type V = PeerView;

    open spec fn view(&self) -> PeerView {
        PeerView {
            peer_id: self.peer_id@,
            address: self.address,
            stats: self.stats,
            last_announce: self.last_announce,
            completed: self.completed,
        }
    }
}

/// The counts of a swarm at one moment.
#[derive(Clone, Copy, Debug, PartialEq, Eq, Structural)]
pub struct SwarmStats {
    pub seeders: usize,
    pub leechers: usize,
    pub completed: u32,
}

/// The records of `peers` as mathematical values.
pub open spec fn peers_view(peers: Seq<Peer>) -> Seq<PeerView> {
    peers.map_values(|p: Peer| p@)
}

/// Whether two runs of twenty bytes are the same.
pub fn same_bytes(a: &[u8; 20], b: &[u8; 20]) -> (same: bool)
    ensures
        same == (a@ == b@),
{
    let mut i: usize = 0;
    while i < 20
        invariant
            i <= 20,
            forall|j: int| 0 <= j < i ==> a@[j] == b@[j],
        decreases 20 - i,
    {
        if a[i] != b[i] {
            return false;
        }
        i += 1;
    }
    assert(a@ =~= b@);
    true
}

/// Whether a peer that last announced at `last_announce` is live at `now`.
fn live(last_announce: u64, now: u64, interval: u32) -> (live: bool)
    ensures
        live == (now <= last_announce + 2 * interval),
{
    if now <= last_announce {
        true
    } else {
        now - last_announce <= 2 * (interval as u64)
    }
}

/// The peers of one info hash.
pub struct Swarm {
    peers: Vec<Peer>,
    completed: u32,
}

impl View for Swarm {
    type V = SwarmView;

    closed spec fn view(&self) -> SwarmView {
        SwarmView { peers: peers_view(self.peers@), completed: self.completed }
    }
}

impl Swarm {
    /// A swarm without peers.
    pub fn new() -> (swarm: Swarm)
        ensures
            swarm@ == SwarmView::empty(),
            swarm@.wf(),
    {
        let swarm = Swarm { peers: Vec::new(), completed: 0 };
        assert(swarm@.peers =~= Seq::empty());
        swarm
    }

    /// Whether the swarm is the empty one: no peer on the list and no
    /// download counted.
    pub fn is_vacant(&self) -> (vacant: bool)
        ensures
            vacant == (self@ == SwarmView::empty()),
    {
        let vacant = self.peers.len() == 0 && self.completed == 0;
        proof {
            if vacant {
                assert(self@.peers =~= SwarmView::empty().peers);
            } else if self.peers@.len() > 0 {
                assert(self@.peers.len() > 0);
            }
        }
        vacant
    }

    /// Where the peer with that id at that address stands in the list.
    fn find(&self, peer_id: &[u8; 20], address: PeerAddress) -> (at: Option<usize>)
        requires
            self@.wf(),
        ensures
            match at {
                Some(i) => self@.position(peer_id@, address) == Some(i as int) && i
                    < self.peers@.len(),
                None => self@.position(peer_id@, address) is None,
            },
    {
        let mut i: usize = 0;
        while i < self.peers.len()
            invariant
                i <= self.peers.len(),
                self@.wf(),
                forall|j: int| 0 <= j < i ==> !self@.is_at(peer_id@, address, j),
            decreases self.peers.len() - i,
        {
            let peer = &self.peers[i];
            if peer.address == address && same_bytes(&peer.peer_id, peer_id) {
                proof {
                    lemma_position_unique(self@, peer_id@, address, i as int);
                }
                return Some(i);
            }
            i += 1;
        }
        None
    }

    /// Records an announce. `Stopped` takes the peer off the list; any other
    /// event writes the peer's record, a new one if it has none; `Completed`
    /// counts one more download unless this peer's was counted before.
    pub fn upsert(
        &mut self,
        peer_id: &[u8; 20],
        address: PeerAddress,
        stats: PeerStats,
        event: Event,
        now: u64,
    )
        requires
            old(self)@.wf(),
        ensures
            final(self)@ == old(self)@.upsert(peer_id@, address, stats, event, now),
            final(self)@.wf(),
    {
        let at = self.find(peer_id, address);
        proof {
            lemma_upsert_wf(self@, peer_id@, address, stats, event, now);
        }
        let stopped = match event {
            Event::Stopped => true,
            _ => false,
        };
        let completes = match event {
            Event::Completed => true,
            _ => false,
        };
        match at {
            Some(i) => {
                if stopped {
                    self.peers.remove(i);
                    assert(self@.peers =~= old(self)@.peers.remove(i as int));
                } else {
                    let counted = self.peers[i].completed;
                    let record = Peer {
                        peer_id: *peer_id,
                        address,
                        stats,
                        last_announce: now,
                        completed: counted || completes,
                    };
                    self.peers[i] = record;
                    if completes && !counted {
                        self.bump();
                    }
                    assert(self@.peers =~= old(self)@.peers.update(i as int, record@));
                }
            },
            None => {
                if !stopped {
                    let record = Peer {
                        peer_id: *peer_id,
                        address,
                        stats,
                        last_announce: now,
                        completed: completes,
                    };
                    self.peers.push(record);
                    if completes {
                        self.bump();
                    }
                    assert(self@.peers =~= old(self)@.peers.push(record@));
                }
            },
        }
    }

    /// Counts one more completed download.
    fn bump(&mut self)
        ensures
            final(self).peers == old(self).peers,
            final(self).completed == one_more(old(self).completed),
    {
        if self.completed < u32::MAX {
            self.completed = self.completed + 1;
        }
    }

    /// The counts of the swarm at `now`: the live seeders, the live
    /// leechers, and the downloads completed so far.
    pub fn snapshot(&self, now: u64, interval: u32) -> (stats: SwarmStats)
        ensures
            stats.seeders == self@.seeders(now, interval),
            stats.leechers == self@.leechers(now, interval),
            stats.completed == self@.completed,
    {
        let ghost peers = self@.peers;
        let mut seeders: usize = 0;
        let mut leechers: usize = 0;
        let mut i: usize = 0;
        proof {
            reveal(Seq::filter);
            assert(peers.take(0) =~= Seq::empty());
        }
        while i < self.peers.len()
            invariant
                i <= self.peers.len(),
                peers == self@.peers,
                seeders == peers.take(i as int).filter(seeding_at(now, interval)).len(),
                leechers == peers.take(i as int).filter(leeching_at(now, interval)).len(),
                seeders + leechers <= i,
            decreases self.peers.len() - i,
        {
            let peer = &self.peers[i];
            proof {
                peers.lemma_take_succ_push(i as int);
                peers.take(i as int).lemma_filter_push(peers[i as int], seeding_at(now, interval));
                peers.take(i as int).lemma_filter_push(peers[i as int], leeching_at(now, interval));
            }
            if live(peer.last_announce, now, interval) {
                if peer.stats.left == 0 {
                    seeders += 1;
                } else {
                    leechers += 1;
                }
            }
            i += 1;
        }
        assert(peers.take(i as int) =~= peers);
        SwarmStats { seeders, leechers, completed: self.completed }
    }

    /// The addresses of up to `limit` live peers with another id than
    /// `requester`, in the order in which the peers first announced.
    pub fn sample_peers(&self, requester: &[u8; 20], limit: usize, now: u64, interval: u32) -> (out:
        Vec<PeerAddress>)
        ensures
            out@ == self@.sample(requester@, limit as nat, now, interval),
    {
        let ghost peers = self@.peers;
        let ghost listed = listed_for(requester@, now, interval);
        let mut out: Vec<PeerAddress> = Vec::new();
        let mut i: usize = 0;
        proof {
            reveal(Seq::filter);
            assert(peers.take(0) =~= Seq::empty());
            assert(peers.take(0).filter(listed).map_values(address_of()) =~= Seq::empty());
        }
        while i < self.peers.len() && out.len() < limit
            invariant
                i <= self.peers.len(),
                peers == self@.peers,
                listed == listed_for(requester@, now, interval),
                out@ == peers.take(i as int).filter(listed).map_values(address_of()),
                out@.len() <= limit,
            decreases self.peers.len() - i,
        {
            let peer = &self.peers[i];
            proof {
                peers.lemma_take_succ_push(i as int);
                peers.take(i as int).lemma_filter_push(peers[i as int], listed);
            }
            if live(peer.last_announce, now, interval) && !same_bytes(&peer.peer_id, requester) {
                out.push(peer.address);
                assert(out@ =~= peers.take(i + 1).filter(listed).map_values(address_of()));
            }
            i += 1;
        }
        proof {
            let head = peers.take(i as int);
            let tail = peers.skip(i as int);
            assert(peers =~= head + tail);
            Seq::filter_distributes_over_add(head, tail, listed);
            let all = peers.filter(listed);
            assert(all =~= head.filter(listed) + tail.filter(listed));
            if i < self.peers.len() {
                assert(out@.len() == limit);
                assert(all.take(limit as int) =~= head.filter(listed));
            } else {
                assert(tail =~= Seq::empty());
                assert(all =~= head.filter(listed));
                assert(all.take(all.len() as int) =~= all);
            }
        }
        out
    }

    /// Takes the peers that are expired at `now` off the list.
    pub fn sweep(&mut self, now: u64, interval: u32)
        requires
            old(self)@.wf(),
        ensures
            final(self)@ == old(self)@.swept(now, interval),
            final(self)@.wf(),
    {
        let ghost peers = self@.peers;
        let ghost keep = live_at(now, interval);
        let mut kept: Vec<Peer> = Vec::new();
        let mut i: usize = 0;
        proof {
            reveal(Seq::filter);
            assert(peers.take(0) =~= Seq::empty());
            assert(peers_view(kept@) =~= peers.take(0).filter(keep));
        }
        while i < self.peers.len()
            invariant
                i <= self.peers.len(),
                peers == self@.peers,
                self@ == old(self)@,
                keep == live_at(now, interval),
                peers_view(kept@) == peers.take(i as int).filter(keep),
            decreases self.peers.len() - i,
        {
            let peer = self.peers[i];
            proof {
                peers.lemma_take_succ_push(i as int);
                peers.take(i as int).lemma_filter_push(peers[i as int], keep);
            }
            if live(peer.last_announce, now, interval) {
                let ghost before = kept@;
                kept.push(peer);
                assert(peers_view(kept@) =~= peers_view(before).push(peer@));
            }
            i += 1;
        }
        proof {
            assert(peers.take(i as int) =~= peers);
            lemma_filter_distinct(peers, keep);
        }
        self.peers = kept;
    }
}

} // verus!
