//! Values of positions as bytes: one record of sixteen bytes for each
//! position, the hash and then the value, each as eight bytes with the
//! lowest first.

use vstd::prelude::*;
use vstd::bytes::{
    lemma_auto_spec_u64_to_from_le_bytes, spec_u64_from_le_bytes, spec_u64_to_le_bytes,
    u64_from_le_bytes, u64_to_le_bytes,
};
use vstd::slice::slice_subrange;
use std::collections::HashMap;
use crate::enums::Millipawns;
use crate::zobrist::{HashResult, PositionHashes};

verus! {

broadcast use vstd::std_specs::hash::group_hash_axioms;

/// The number of bytes of a record.
pub const RECORD_SIZE: usize = 16;

/// A value as the word of the same bits.
pub open spec fn value_word(value: Millipawns) -> u64 {
    value as u64
}

/// A word as the value of the same bits.
pub open spec fn word_value(word: u64) -> Millipawns {
    word as i64
}

/// The bytes of one record.
pub open spec fn record_bytes(record: (HashResult, Millipawns)) -> Seq<u8> {
    spec_u64_to_le_bytes(record.0) + spec_u64_to_le_bytes(value_word(record.1))
}

/// The record that sixteen bytes hold.
pub open spec fn bytes_record(bytes: Seq<u8>) -> (HashResult, Millipawns) {
    (
        spec_u64_from_le_bytes(bytes.subrange(0, 8)),
        word_value(spec_u64_from_le_bytes(bytes.subrange(8, 16))),
    )
}

/// The bytes of the first `n` records, one after the other.
pub open spec fn records_bytes(records: Seq<(HashResult, Millipawns)>, n: int) -> Seq<u8>
    decreases n,
{
    if n <= 0 {
        Seq::empty()
    } else {
        records_bytes(records, n - 1) + record_bytes(records[n - 1])
    }
}

/// The records that bytes hold, sixteen bytes each.
pub open spec fn bytes_records(bytes: Seq<u8>) -> Seq<(HashResult, Millipawns)> {
    Seq::new(bytes.len() / 16, |i: int| bytes_record(bytes.subrange(16 * i, 16 * i + 16)))
}

/// The table that the first `n` records make: where a hash comes twice,
/// the later value stays.
pub open spec fn records_table(records: Seq<(HashResult, Millipawns)>, n: int) -> Map<
    HashResult,
    Millipawns,
>
    decreases n,
{
    if n <= 0 {
        Map::empty()
    } else {
        records_table(records, n - 1).insert(records[n - 1].0, records[n - 1].1)
    }
}

proof fn lemma_value_word(value: i64, word: u64)
    by (bit_vector)
    ensures
        (value as u64) as i64 == value,
        (word as i64) as u64 == word,
{
}

/// A record is the record that its bytes hold.
pub proof fn lemma_record_round_trip(record: (HashResult, Millipawns))
    ensures
        record_bytes(record).len() == 16,
        bytes_record(record_bytes(record)) == record,
{
    lemma_auto_spec_u64_to_from_le_bytes();
    let a = spec_u64_to_le_bytes(record.0);
    let b = spec_u64_to_le_bytes(value_word(record.1));
    assert((a + b).subrange(0, 8) =~= a);
    assert((a + b).subrange(8, 16) =~= b);
    lemma_value_word(record.1, 0);
}

/// The bytes of `n` records are sixteen times as many.
pub proof fn lemma_records_len(records: Seq<(HashResult, Millipawns)>, n: int)
    requires
        0 <= n <= records.len(),
    ensures
        records_bytes(records, n).len() == 16 * n,
    decreases n,
{
    if n > 0 {
        lemma_records_len(records, n - 1);
        lemma_record_round_trip(records[n - 1]);
    }
}

/// Records written as bytes and read again are the same records.
pub proof fn lemma_records_round_trip(records: Seq<(HashResult, Millipawns)>)
    ensures
        records_bytes(records, records.len() as int).len() == 16 * records.len(),
        bytes_records(records_bytes(records, records.len() as int)) == records,
{
    let n = records.len() as int;
    let bytes = records_bytes(records, n);
    lemma_records_len(records, n);
    assert forall|i: int| 0 <= i < n implies bytes_records(bytes)[i] == records[i] by {
        lemma_records_slice(records, n, i);
        lemma_record_round_trip(records[i]);
    }
    assert(bytes_records(bytes) =~= records);
}

/// The sixteen bytes at the place of a record are its bytes.
pub proof fn lemma_records_slice(records: Seq<(HashResult, Millipawns)>, n: int, i: int)
    requires
        0 <= i < n <= records.len(),
    ensures
        records_bytes(records, n).len() == 16 * n,
        records_bytes(records, n).subrange(16 * i, 16 * i + 16) == record_bytes(records[i]),
    decreases n,
{
    lemma_records_len(records, n);
    lemma_records_len(records, n - 1);
    lemma_record_round_trip(records[n - 1]);
    let before = records_bytes(records, n - 1);
    let last = record_bytes(records[n - 1]);
    if i == n - 1 {
        assert((before + last).subrange(16 * i, 16 * i + 16) =~= last);
    } else {
        lemma_records_slice(records, n - 1, i);
        assert((before + last).subrange(16 * i, 16 * i + 16) =~= before.subrange(
            16 * i,
            16 * i + 16,
        ));
    }
}

/// The bytes of records, one after the other.
pub fn encode_position_hashes(records: &[(HashResult, Millipawns)]) -> (r: Vec<u8>)
    ensures
        r@ == records_bytes(records@, records@.len() as int),
{
    let mut out: Vec<u8> = Vec::new();
    let mut n: usize = 0;
    while n < records.len()
        invariant
            n <= records@.len(),
            out@ == records_bytes(records@, n as int),
        decreases records@.len() - n,
    {
        let (hash, value) = records[n];
        let mut h = u64_to_le_bytes(hash);
        let mut v = u64_to_le_bytes(#[verifier::truncate] (value as u64));
        let ghost before = out@;
        out.append(&mut h);
        out.append(&mut v);
        proof {
            assert(out@ =~= before + record_bytes(records@[n as int]));
        }
        n += 1;
    }
    out
}

/// The records that bytes hold, if the bytes are whole records.
pub fn decode_position_hashes(bytes: &[u8]) -> (r: Option<Vec<(HashResult, Millipawns)>>)
    ensures
        r.is_some() <==> bytes@.len() % 16 == 0,
        r.is_some() ==> r.unwrap()@ == bytes_records(bytes@),
{
    if bytes.len() % RECORD_SIZE != 0 {
        return None;
    }
    let count = bytes.len() / RECORD_SIZE;
    let mut out: Vec<(HashResult, Millipawns)> = Vec::new();
    let mut n: usize = 0;
    while n < count
        invariant
            n <= count,
            count == bytes@.len() / 16,
            bytes@.len() % 16 == 0,
            16 * count == bytes@.len(),
            bytes@.len() <= usize::MAX,
            out@.len() == n,
            forall|i: int| 0 <= i < n ==> out@[i] == bytes_records(bytes@)[i],
        decreases count - n,
    {
        let at = 16 * n;
        let hash = u64_from_le_bytes(slice_subrange(bytes, at, at + 8));
        let word = u64_from_le_bytes(slice_subrange(bytes, at + 8, at + 16));
        proof {
            let rec = bytes@.subrange(16 * n, 16 * n + 16);
            assert(rec.subrange(0, 8) =~= bytes@.subrange(at as int, at + 8));
            assert(rec.subrange(8, 16) =~= bytes@.subrange(at + 8, at + 16));
        }
        out.push((hash, #[verifier::truncate] (word as i64)));
        n += 1;
    }
    proof {
        assert(out@ =~= bytes_records(bytes@));
    }
    Some(out)
}

/// The table of the values of positions that records make.
pub fn position_hashes(records: &[(HashResult, Millipawns)]) -> (r: PositionHashes)
    ensures
        r@ == records_table(records@, records@.len() as int),
{
    let mut table: PositionHashes = HashMap::new();
    let mut n: usize = 0;
    while n < records.len()
        invariant
            n <= records@.len(),
            table@ == records_table(records@, n as int),
        decreases records@.len() - n,
    {
        let (hash, value) = records[n];
        table.insert(hash, value);
        n += 1;
    }
    table
}

} // verus!
