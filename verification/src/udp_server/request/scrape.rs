//! The scrape request: a client asks for the counts of one or more swarms.
use crate::records::{all_of_width, join, lemma_join_len, lemma_join_push, lemma_split_join, split};
use crate::udp_server::decode_error::DecodeError;
use crate::udp_server::request::headers::{Headers, HEADERS_LEN};
use crate::wire::{get_bytes20, put_bytes};
use vstd::prelude::*;

verus! {

/// The length of an info hash.
pub const INFO_HASH_LEN: usize = 20;

/// A scrape request as it was sent: the header and the info hashes asked
/// about, in the order in which they were sent.
#[derive(Clone, Debug, PartialEq, Eq)]
pub struct ScrapeRequest {
    pub header: Headers,
    pub info_hashes: Vec<[u8; 20]>,
}

/// A scrape request as a mathematical value.
pub struct ScrapeRequestView {
    pub header: Headers,
    pub info_hashes: Seq<Seq<u8>>,
}

/// The info hashes of `hashes` as byte sequences.
pub open spec fn hashes_view(hashes: Seq<[u8; 20]>) -> Seq<Seq<u8>> {
    Seq::new(hashes.len(), |i: int| hashes[i]@)
}

impl View for ScrapeRequest {
    type V = ScrapeRequestView;

    open spec fn view(&self) -> ScrapeRequestView {
        ScrapeRequestView { header: self.header, info_hashes: hashes_view(self.info_hashes@) }
    }
}

impl ScrapeRequestView {
    /// Whether there is at least one info hash and each is twenty bytes
    /// long.
    pub open spec fn wf(self) -> bool {
        self.info_hashes.len() >= 1 && all_of_width(self.info_hashes, 20)
    }

    /// The bytes of this request: the header, then the info hashes.
    pub open spec fn wire(self) -> Seq<u8> {
        self.header.wire() + join(self.info_hashes, 20)
    }

    /// The scrape request that `bytes` is: a header and one or more whole
    /// info hashes, with nothing left over.
    pub open spec fn parse(bytes: Seq<u8>) -> Result<ScrapeRequestView, DecodeError> {
        if bytes.len() < HEADERS_LEN + INFO_HASH_LEN {
            Err(DecodeError::MalformedPacket)
        } else {
            match Headers::parse(bytes) {
                Err(e) => Err(e),
                Ok(header) => if (bytes.len() - HEADERS_LEN) % 20 != 0 {
                    Err(DecodeError::MalformedPacket)
                } else {
                    Ok(ScrapeRequestView { header, info_hashes: split(bytes.skip(16), 20) })
                },
            }
        }
    }

    /// Parsing the bytes of a scrape request gives the request back.
    pub proof fn lemma_round_trip(v: ScrapeRequestView)
        requires
            v.wf(),
        ensures
            v.wire().len() == HEADERS_LEN + 20 * v.info_hashes.len(),
            ScrapeRequestView::parse(v.wire()) == Ok::<ScrapeRequestView, DecodeError>(v),
    {
        let body = join(v.info_hashes, 20);
        Headers::lemma_round_trip(v.header, body);
        lemma_join_len(v.info_hashes, 20);
        lemma_split_join(v.info_hashes, 20);
        assert(v.wire().skip(16) =~= body);
    }
}

impl ScrapeRequest {
    /// This request's bytes: sixteen for the header and twenty for each
    /// info hash.
    pub fn encode(&self) -> (out: Vec<u8>)
        ensures
            out@ == self@.wire(),
    {
        let mut out: Vec<u8> = Vec::new();
        self.header.encode_into(&mut out);
        let ghost hashes = self@.info_hashes;
        let mut i: usize = 0;
        assert(join(hashes.take(0), 20) =~= Seq::<u8>::empty());
        while i < self.info_hashes.len()
            invariant
                i <= self.info_hashes.len(),
                hashes == self@.info_hashes,
                out@ == self.header.wire() + join(hashes.take(i as int), 20),
            decreases self.info_hashes.len() - i,
        {
            put_bytes(&mut out, &self.info_hashes[i]);
            proof {
                lemma_join_push(hashes.take(i as int), hashes[i as int], 20);
                assert(hashes.take(i as int).push(hashes[i as int]) =~= hashes.take(i + 1));
            }
            i += 1;
        }
        assert(hashes.take(i as int) =~= hashes);
        out
    }

    /// Reads a scrape request from `bytes`, header included. Fails with
    /// `MalformedPacket` unless the bytes after the header are one or more
    /// whole info hashes, and with `UnknownAction` on an action number above
    /// 3.
    pub fn decode(bytes: &[u8]) -> (r: Result<ScrapeRequest, DecodeError>)
        ensures
            match r {
                Ok(request) => ScrapeRequestView::parse(bytes@) == Ok::<
                    ScrapeRequestView,
                    DecodeError,
                >(request@),
                Err(e) => ScrapeRequestView::parse(bytes@) == Err::<ScrapeRequestView, DecodeError>(
                    e,
                ),
            },
    {
        if bytes.len() < HEADERS_LEN + INFO_HASH_LEN {
            return Err(DecodeError::MalformedPacket);
        }
        let header = match Headers::decode(bytes) {
            Err(e) => {
                return Err(e);
            },
            Ok(header) => header,
        };
        let body_len: usize = bytes.len() - HEADERS_LEN;
        if body_len % INFO_HASH_LEN != 0 {
            return Err(DecodeError::MalformedPacket);
        }
        let n: usize = body_len / INFO_HASH_LEN;
        let ghost body = bytes@.skip(16);
        let mut info_hashes: Vec<[u8; 20]> = Vec::new();
        let mut i: usize = 0;
        while i < n
            invariant
                i <= n,
                bytes.len() == 16 + 20 * n,
                body == bytes@.skip(16),
                info_hashes@.len() == i,
                forall|j: int| 0 <= j < i ==> (#[trigger] info_hashes@[j])@ == split(body, 20)[j],
            decreases n - i,
        {
            let hash = get_bytes20(bytes, HEADERS_LEN + INFO_HASH_LEN * i);
            assert(hash@ =~= split(body, 20)[i as int]);
            info_hashes.push(hash);
            i += 1;
        }
        let request = ScrapeRequest { header, info_hashes };
        assert(request@.info_hashes =~= split(body, 20));
        Ok(request)
    }
}

} // verus!
