//! Runs of fixed-width records.
//!
//! The variable part of a packet is a run of records of one width: info
//! hashes of twenty bytes, peers of six, swarm counts of twelve. `join` says
//! which bytes a run of records becomes, `split` which records a run of
//! bytes holds.
use vstd::arithmetic::div_mod::{lemma_fundamental_div_mod, lemma_fundamental_div_mod_converse};
use vstd::arithmetic::mul::lemma_mul_inequality;
use vstd::prelude::*;

verus! {

/// Whether every record in `records` is `width` bytes long.
pub open spec fn all_of_width(records: Seq<Seq<u8>>, width: int) -> bool {
    forall|i: int| 0 <= i < records.len() ==> (#[trigger] records[i]).len() == width
}

/// The records one after the other: byte `k` of the result is byte
/// `k % width` of record `k / width`.
pub open spec fn join(records: Seq<Seq<u8>>, width: int) -> Seq<u8>
    recommends
        width > 0,
        all_of_width(records, width),
{
    Seq::new((records.len() * width) as nat, |k: int| records[k / width][k % width])
}

/// The whole records of `width` bytes that `bytes` holds, in order. Bytes
/// after the last whole record belong to none.
pub open spec fn split(bytes: Seq<u8>, width: int) -> Seq<Seq<u8>>
    recommends
        width > 0,
{
    Seq::new(((bytes.len() as int) / width) as nat, |i: int| bytes.subrange(i * width, i * width + width))
}

/// Byte `j` of record `i` stands at offset `i * width + j`.
proof fn lemma_cell(i: int, j: int, width: int)
    requires
        0 <= i,
        0 <= j < width,
    ensures
        (i * width + j) / width == i,
        (i * width + j) % width == j,
        0 <= i * width,
{
    lemma_fundamental_div_mod_converse(i * width + j, width, i, j);
    lemma_mul_inequality(0, i, width);
}

/// An offset below `n * width` lies in one of the first `n` records.
proof fn lemma_cell_of(k: int, n: int, width: int)
    requires
        0 < width,
        0 <= k < n * width,
    ensures
        0 <= k / width < n,
        0 <= k % width < width,
        k == (k / width) * width + k % width,
{
    lemma_fundamental_div_mod(k, width);
    let q = k / width;
    assert(width * q == q * width) by (nonlinear_arith);
    if q >= n {
        lemma_mul_inequality(n, q, width);
    }
    if q < 0 {
        lemma_mul_inequality(q, -1, width);
    }
}

/// `n` records of `width` bytes take `n * width` bytes, and no fewer than
/// `width` when there is at least one.
pub proof fn lemma_join_len(records: Seq<Seq<u8>>, width: int)
    requires
        width > 0,
    ensures
        join(records, width).len() == records.len() * width,
        records.len() > 0 ==> join(records, width).len() >= width,
        (join(records, width).len() as int) % width == 0,
        (join(records, width).len() as int) / width == records.len(),
{
    lemma_mul_inequality(0, records.len() as int, width);
    if records.len() > 0 {
        lemma_mul_inequality(1, records.len() as int, width);
    }
    lemma_fundamental_div_mod_converse(records.len() * width, width, records.len() as int, 0);
}

/// Joining one more record appends its bytes.
pub proof fn lemma_join_push(records: Seq<Seq<u8>>, record: Seq<u8>, width: int)
    requires
        width > 0,
        all_of_width(records, width),
        record.len() == width,
    ensures
        join(records.push(record), width) == join(records, width) + record,
{
    let n = records.len() as int;
    let more = records.push(record);
    lemma_join_len(records, width);
    lemma_join_len(more, width);
    assert((n + 1) * width == n * width + width) by (nonlinear_arith);
    assert forall|k: int| 0 <= k < (n + 1) * width implies join(more, width)[k] == (join(
        records,
        width,
    ) + record)[k] by {
        lemma_cell_of(k, n + 1, width);
        if k >= n * width {
            lemma_cell(n, k - n * width, width);
        }
    }
    assert(join(more, width) =~= join(records, width) + record);
}

/// Splitting what was joined gives the records back.
pub proof fn lemma_split_join(records: Seq<Seq<u8>>, width: int)
    requires
        width > 0,
        all_of_width(records, width),
    ensures
        split(join(records, width), width) == records,
{
    let bytes = join(records, width);
    let n = records.len() as int;
    lemma_join_len(records, width);
    assert forall|i: int| 0 <= i < n implies split(bytes, width)[i] == records[i] by {
        lemma_cell(i, 0, width);
        assert((i + 1) * width == i * width + width) by (nonlinear_arith);
        lemma_mul_inequality(i + 1, n, width);
        assert forall|j: int| 0 <= j < width implies bytes[i * width + j] == records[i][j] by {
            lemma_cell(i, j, width);
        }
        assert(bytes.subrange(i * width, i * width + width) =~= records[i]);
    }
    assert(split(bytes, width) =~= records);
}

} // verus!
