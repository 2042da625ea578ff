//! The answer to a scrape: the counts of each swarm asked about.
use crate::records::{join, lemma_join_len, lemma_join_push, lemma_split_join, split};
use crate::udp_server::action::Action;
use crate::udp_server::decode_error::DecodeError;
use crate::wire::{
    be_u32, get_u32, lemma_u32_reads_prefix, lemma_u32_round_trip, put_u32, u32_from_be,
};
use vstd::prelude::*;

verus! {

/// The length of a scrape response without its entries.
pub const SCRAPE_RESPONSE_HEAD_LEN: usize = 8;

/// The length of one swarm's counts in a scrape response.
pub const SCRAPE_ENTRY_LEN: usize = 12;

/// The counts of one swarm.
#[derive(Clone, Copy, Debug, PartialEq, Eq, Structural)]
pub struct ScrapeEntry {
    /// Peers that hold the whole content.
    pub seeders: u32,
    /// Downloads that were completed over the swarm's lifetime.
    pub completed: u32,
    /// Peers that still miss some of the content.
    pub leechers: u32,
}

impl ScrapeEntry {
    /// The twelve bytes of these counts: seeders, completed, leechers.
    pub open spec fn wire(self) -> Seq<u8> {
        be_u32(self.seeders) + be_u32(self.completed) + be_u32(self.leechers)
    }

    /// The counts that `bytes` begins with.
    pub open spec fn parse(bytes: Seq<u8>) -> ScrapeEntry {
        ScrapeEntry {
            seeders: u32_from_be(bytes),
            completed: u32_from_be(bytes.skip(4)),
            leechers: u32_from_be(bytes.skip(8)),
        }
    }

    /// The bytes of the counts are twelve, and parsing them gives the counts
    /// back.
    pub proof fn lemma_round_trip(e: ScrapeEntry)
        ensures
            e.wire().len() == SCRAPE_ENTRY_LEN,
            ScrapeEntry::parse(e.wire()) == e,
    {
        let t8 = be_u32(e.leechers) + Seq::empty();
        let t4 = be_u32(e.completed) + t8;
        lemma_u32_round_trip(e.seeders, t4);
        lemma_u32_round_trip(e.completed, t8);
        lemma_u32_round_trip(e.leechers, Seq::empty());
        assert(e.wire() =~= be_u32(e.seeders) + t4);
        assert(e.wire().skip(4) =~= t4);
        assert(e.wire().skip(8) =~= t8);
    }
}

/// The counts of `entries` as records of twelve bytes each.
pub open spec fn entry_records(entries: Seq<ScrapeEntry>) -> Seq<Seq<u8>> {
    entries.map_values(|e: ScrapeEntry| e.wire())
}

/// The counts that the records of `records` stand for.
pub open spec fn entries_of_records(records: Seq<Seq<u8>>) -> Seq<ScrapeEntry> {
    records.map_values(|r: Seq<u8>| ScrapeEntry::parse(r))
}

/// A scrape response as it is sent: one entry for each info hash of the
/// request, in the request's order.
#[derive(Clone, Debug, PartialEq, Eq)]
pub struct ScrapeResponse {
    pub action: Action,
    pub transaction_id: u32,
    pub entries: Vec<ScrapeEntry>,
}

/// A scrape response as a mathematical value.
pub struct ScrapeResponseView {
    pub action: Action,
    pub transaction_id: u32,
    pub entries: Seq<ScrapeEntry>,
}

impl View for ScrapeResponse {
    type V = ScrapeResponseView;

    open spec fn view(&self) -> ScrapeResponseView {
        ScrapeResponseView {
            action: self.action,
            transaction_id: self.transaction_id,
            entries: self.entries@,
        }
    }
}

impl ScrapeResponseView {
    /// The eight bytes before the entries: action, transaction id.
    pub open spec fn head(self) -> Seq<u8> {
        be_u32(self.action.code()) + be_u32(self.transaction_id)
    }

    /// The bytes of this response: the head, then twelve bytes for each
    /// entry.
    pub open spec fn wire(self) -> Seq<u8> {
        self.head() + join(entry_records(self.entries), 12)
    }

    /// The scrape response that `bytes` is: the head and any number of
    /// whole entries, with nothing left over.
    pub open spec fn parse(bytes: Seq<u8>) -> Result<ScrapeResponseView, DecodeError> {
        if bytes.len() < SCRAPE_RESPONSE_HEAD_LEN {
            Err(DecodeError::MalformedPacket)
        } else {
            match Action::of_code(u32_from_be(bytes)) {
                None => Err(DecodeError::UnknownAction),
                Some(action) => if (bytes.len() - SCRAPE_RESPONSE_HEAD_LEN) % 12 != 0 {
                    Err(DecodeError::MalformedPacket)
                } else {
                    Ok(
                        ScrapeResponseView {
                            action,
                            transaction_id: u32_from_be(bytes.skip(4)),
                            entries: entries_of_records(split(bytes.skip(8), 12)),
                        },
                    )
                },
            }
        }
    }

    /// Parsing the bytes of a scrape response gives the response back.
    pub proof fn lemma_round_trip(v: ScrapeResponseView)
        ensures
            v.wire().len() == SCRAPE_RESPONSE_HEAD_LEN + 12 * v.entries.len(),
            ScrapeResponseView::parse(v.wire()) == Ok::<ScrapeResponseView, DecodeError>(v),
    {
        let records = entry_records(v.entries);
        let body = join(records, 12);
        let all = v.wire();
        let t4 = be_u32(v.transaction_id) + body;
        lemma_u32_round_trip(v.action.code(), t4);
        lemma_u32_round_trip(v.transaction_id, body);
        Action::lemma_code_round_trip(v.action, v.action.code());
        assert forall|i: int| 0 <= i < records.len() implies (#[trigger] records[i]).len()
            == 12 && ScrapeEntry::parse(records[i]) == v.entries[i] by {
            ScrapeEntry::lemma_round_trip(v.entries[i]);
        }
        lemma_join_len(records, 12);
        lemma_split_join(records, 12);
        assert(all =~= be_u32(v.action.code()) + t4);
        assert(all.skip(4) =~= t4);
        assert(all.skip(8) =~= body);
        assert(entries_of_records(records) =~= v.entries);
    }
}

impl ScrapeResponse {
    /// This response's bytes: eight for the head and twelve for each entry.
    pub fn encode(&self) -> (out: Vec<u8>)
        ensures
            out@ == self@.wire(),
    {
        let mut out: Vec<u8> = Vec::new();
        put_u32(&mut out, self.action.to_code());
        put_u32(&mut out, self.transaction_id);
        let ghost records = entry_records(self.entries@);
        assert(out@ =~= self@.head() + join(records.take(0), 12));
        let mut i: usize = 0;
        while i < self.entries.len()
            invariant
                i <= self.entries.len(),
                records == entry_records(self.entries@),
                out@ == self@.head() + join(records.take(i as int), 12),
            decreases self.entries.len() - i,
        {
            let entry = self.entries[i];
            put_u32(&mut out, entry.seeders);
            put_u32(&mut out, entry.completed);
            put_u32(&mut out, entry.leechers);
            proof {
                assert forall|j: int| 0 <= j < records.len() implies (#[trigger] records[j]).len()
                    == 12 by {
                    ScrapeEntry::lemma_round_trip(self.entries@[j]);
                }
                lemma_join_push(records.take(i as int), records[i as int], 12);
                assert(records.take(i as int).push(records[i as int]) =~= records.take(i + 1));
                assert(out@ =~= self@.head() + join(records.take(i + 1), 12));
            }
            i += 1;
        }
        assert(records.take(i as int) =~= records);
        out
    }

    /// Reads a scrape response from `bytes`. Fails with `MalformedPacket`
    /// unless the bytes are the head and whole entries, and with
    /// `UnknownAction` on an action number above 3.
    pub fn decode(bytes: &[u8]) -> (r: Result<ScrapeResponse, DecodeError>)
        ensures
            match r {
                Ok(response) => ScrapeResponseView::parse(bytes@) == Ok::<
                    ScrapeResponseView,
                    DecodeError,
                >(response@),
                Err(e) => ScrapeResponseView::parse(bytes@) == Err::<
                    ScrapeResponseView,
                    DecodeError,
                >(e),
            },
    {
        if bytes.len() < SCRAPE_RESPONSE_HEAD_LEN {
            return Err(DecodeError::MalformedPacket);
        }
        assert(bytes@.skip(0) =~= bytes@);
        let action = match Action::from_code(get_u32(bytes, 0)) {
            None => {
                return Err(DecodeError::UnknownAction);
            },
            Some(action) => action,
        };
        let body_len: usize = bytes.len() - SCRAPE_RESPONSE_HEAD_LEN;
        if body_len % SCRAPE_ENTRY_LEN != 0 {
            return Err(DecodeError::MalformedPacket);
        }
        let n: usize = body_len / SCRAPE_ENTRY_LEN;
        let ghost body = bytes@.skip(8);
        let mut entries: Vec<ScrapeEntry> = Vec::new();
        let mut i: usize = 0;
        while i < n
            invariant
                i <= n,
                bytes.len() == 8 + 12 * n,
                body == bytes@.skip(8),
                entries@.len() == i,
                forall|j: int| 0 <= j < i ==> #[trigger] entries@[j] == ScrapeEntry::parse(
                    split(body, 12)[j],
                ),
            decreases n - i,
        {
            let at: usize = SCRAPE_RESPONSE_HEAD_LEN + SCRAPE_ENTRY_LEN * i;
            let entry = ScrapeEntry {
                seeders: get_u32(bytes, at),
                completed: get_u32(bytes, at + 4),
                leechers: get_u32(bytes, at + 8),
            };
            proof {
                let record = split(body, 12)[i as int];
                assert(record =~= bytes@.subrange(at as int, at + 12));
                assert(bytes@.skip(at as int).take(4) =~= record.take(4));
                assert(bytes@.skip(at + 4).take(4) =~= record.skip(4).take(4));
                assert(bytes@.skip(at + 8).take(4) =~= record.skip(8).take(4));
                lemma_u32_reads_prefix(bytes@.skip(at as int), record);
                lemma_u32_reads_prefix(bytes@.skip(at + 4), record.skip(4));
                lemma_u32_reads_prefix(bytes@.skip(at + 8), record.skip(8));
            }
            entries.push(entry);
            i += 1;
        }
        let response = ScrapeResponse { action, transaction_id: get_u32(bytes, 4), entries };
        assert(response@.entries =~= entries_of_records(split(body, 12)));
        Ok(response)
    }
}

} // verus!
