//! Fixed-width binary form of one (value, timestamp) record: the eight
//! big-endian bytes of the value's IEEE-754 bit pattern, then the eight
//! big-endian bytes of the timestamp in seconds.
use vstd::prelude::*;

use crate::error::StorageError;
use vstd::arithmetic::div_mod::lemma_fundamental_div_mod;

verus! {

/// Length in bytes of one encoded record.
pub const RECORD_LEN: usize = 16;

/// One stored datapoint. The value is kept as its IEEE-754 bit pattern, so
/// that every float, NaN payloads included, is carried byte for byte.
#[derive(Debug, Clone, Copy, PartialEq, Eq, Structural)]
pub struct Record {
    pub value_bits: u64,
    pub timestamp: u64,
}

/// The eight big-endian bytes of `x`.
pub open spec fn be_bytes(x: u64) -> Seq<u8> {
    seq![
        (x >> 56u64) as u8,
        (x >> 48u64) as u8,
        (x >> 40u64) as u8,
        (x >> 32u64) as u8,
        (x >> 24u64) as u8,
        (x >> 16u64) as u8,
        (x >> 8u64) as u8,
        x as u8,
    ]
}

/// The integer whose big-endian bytes are the first eight of `b`.
pub open spec fn be_value(b: Seq<u8>) -> u64
    recommends
        b.len() >= 8,
{
    ((b[0] as u64) << 56u64) | ((b[1] as u64) << 48u64) | ((b[2] as u64) << 40u64) | ((
    b[3] as u64) << 32u64) | ((b[4] as u64) << 24u64) | ((b[5] as u64) << 16u64) | ((
    b[6] as u64) << 8u64) | (b[7] as u64)
}

/// The wire form of a record.
pub open spec fn record_bytes(r: Record) -> Seq<u8> {
    be_bytes(r.value_bits) + be_bytes(r.timestamp)
}

/// The record whose wire form starts at offset `o` of `b`.
pub open spec fn record_at(b: Seq<u8>, o: int) -> Record {
    Record {
        value_bits: be_value(b.subrange(o, o + 8)),
        timestamp: be_value(b.subrange(o + 8, o + 16)),
    }
}

/// The whole records that `b` holds, in order; a trailing partial record is
/// not among them.
pub open spec fn records_of(b: Seq<u8>) -> Seq<Record> {
    Seq::new(b.len() / 16, |k: int| record_at(b, 16 * k))
}

/// A byte string is well formed when it is a whole number of records.
pub open spec fn well_formed(b: Seq<u8>) -> bool {
    b.len() % 16 == 0
}

/// Reading the big-endian bytes of an integer gives the integer back.
pub proof fn lemma_be_round_trip(x: u64)
    ensures
        be_value(be_bytes(x)) == x,
{
    assert(((((x >> 56u64) as u8) as u64) << 56u64) | ((((x >> 48u64) as u8) as u64) << 48u64)
        | ((((x >> 40u64) as u8) as u64) << 40u64) | ((((x >> 32u64) as u8) as u64) << 32u64)
        | ((((x >> 24u64) as u8) as u64) << 24u64) | ((((x >> 16u64) as u8) as u64) << 16u64)
        | ((((x >> 8u64) as u8) as u64) << 8u64) | ((x as u8) as u64) == x) by (bit_vector);
}

/// Decoding the encoding of any record gives that record back, bit for bit;
/// the wire form is exactly one record long and well formed.
pub proof fn lemma_record_round_trip(r: Record)
    ensures
        record_bytes(r).len() == RECORD_LEN,
        well_formed(record_bytes(r)),
        record_at(record_bytes(r), 0) == r,
        records_of(record_bytes(r)) == seq![r],
{
    let b = record_bytes(r);
    lemma_be_round_trip(r.value_bits);
    lemma_be_round_trip(r.timestamp);
    assert(b.subrange(0, 8) =~= be_bytes(r.value_bits));
    assert(b.subrange(8, 16) =~= be_bytes(r.timestamp));
    assert(records_of(b) =~= seq![r]);
}

/// The wire form of a run of records, one after the other.
pub open spec fn records_bytes(rs: Seq<Record>) -> Seq<u8>
    decreases rs.len(),
{
    if rs.len() == 0 {
        Seq::empty()
    } else {
        records_bytes(rs.drop_last()) + record_bytes(rs.last())
    }
}

/// Decoding the wire forms of any run of records, written one after the
/// other, gives the run back, bit for bit; the bytes are well formed.
pub proof fn lemma_records_round_trip(rs: Seq<Record>)
    ensures
        records_bytes(rs).len() == RECORD_LEN * rs.len(),
        well_formed(records_bytes(rs)),
        records_of(records_bytes(rs)) == rs,
    decreases rs.len(),
{
    if rs.len() > 0 {
        let prev = rs.drop_last();
        let r = rs.last();
        lemma_records_round_trip(prev);
        lemma_be_round_trip(r.value_bits);
        lemma_be_round_trip(r.timestamp);
        let b = records_bytes(prev);
        let c = records_bytes(rs);
        let n = prev.len() as int;
        assert(c == b + record_bytes(r));
        assert(c.len() == 16 * n + 16);
        assert(records_of(c).len() == n + 1);
        assert forall|k: int| 0 <= k < n + 1 implies #[trigger] records_of(c)[k] == rs[k] by {
            if k < n {
                assert(c.subrange(16 * k, 16 * k + 8) =~= b.subrange(16 * k, 16 * k + 8));
                assert(c.subrange(16 * k + 8, 16 * k + 16) =~= b.subrange(16 * k + 8, 16 * k + 16));
                assert(records_of(b)[k] == prev[k]);
            } else {
                assert(c.subrange(16 * n, 16 * n + 8) =~= be_bytes(r.value_bits));
                assert(c.subrange(16 * n + 8, 16 * n + 16) =~= be_bytes(r.timestamp));
            }
        }
        assert(records_of(c) =~= rs);
    }
}

/// Encodes a record in its sixteen-byte wire form.
pub fn encode(value_bits: u64, timestamp: u64) -> (r: Vec<u8>)
    ensures
        r@ == record_bytes(Record { value_bits, timestamp }),
{
    let mut out: Vec<u8> = Vec::with_capacity(RECORD_LEN);
    push_be(&mut out, value_bits);
    push_be(&mut out, timestamp);
    assert(out@ =~= record_bytes(Record { value_bits, timestamp }));
    out
}

fn push_be(out: &mut Vec<u8>, x: u64)
    ensures
        final(out)@ == old(out)@ + be_bytes(x),
{
    out.push((x >> 56u64) as u8);
    out.push((x >> 48u64) as u8);
    out.push((x >> 40u64) as u8);
    out.push((x >> 32u64) as u8);
    out.push((x >> 24u64) as u8);
    out.push((x >> 16u64) as u8);
    out.push((x >> 8u64) as u8);
    out.push(x as u8);
    assert(final(out)@ =~= old(out)@ + be_bytes(x));
}

fn read_be(b: &[u8], o: usize) -> (r: u64)
    requires
        o + 8 <= b@.len(),
    ensures
        r == be_value(b@.subrange(o as int, o + 8)),
{
    ((b[o] as u64) << 56u64) | ((b[o + 1] as u64) << 48u64) | ((b[o + 2] as u64) << 40u64) | ((
    b[o + 3] as u64) << 32u64) | ((b[o + 4] as u64) << 24u64) | ((b[o + 5] as u64) << 16u64)
        | ((b[o + 6] as u64) << 8u64) | (b[o + 7] as u64)
}

/// Decodes one record; the input must be exactly one record long.
pub fn decode(bytes: &[u8]) -> (r: Result<Record, StorageError>)
    ensures
        bytes@.len() == RECORD_LEN <==> r is Ok,
        r is Ok ==> r->Ok_0 == record_at(bytes@, 0),
        r is Err ==> r->Err_0 == StorageError::MalformedRecord,
{
    if bytes.len() != RECORD_LEN {
        return Err(StorageError::MalformedRecord);
    }
    Ok(Record { value_bits: read_be(bytes, 0), timestamp: read_be(bytes, 8) })
}

/// Decodes the contents of one storage file: every whole record, in write
/// order, and whether the file ended in a partial record.
pub fn decode_all(bytes: &[u8]) -> (r: (Vec<Record>, bool))
    ensures
        r.0@ == records_of(bytes@),
        r.1 == !well_formed(bytes@),
{
    let len = bytes.len();
    let n = len / RECORD_LEN;
    let mut out: Vec<Record> = Vec::with_capacity(n);
    let mut k: usize = 0;
    while k < n
        invariant
            len == bytes@.len(),
            n == bytes@.len() / 16,
            k <= n,
            out@ =~= records_of(bytes@).take(k as int),
        decreases n - k,
    {
        proof {
            lemma_fundamental_div_mod(bytes@.len() as int, 16);
            assert(k * 16 + 16 <= bytes@.len()) by (nonlinear_arith)
                requires
                    k < n,
                    bytes@.len() == 16 * n + bytes@.len() % 16,
            ;
        }
        let o = k * RECORD_LEN;
        let rec = Record { value_bits: read_be(bytes, o), timestamp: read_be(bytes, o + 8) };
        out.push(rec);
        k = k + 1;
    }
    assert(out@ =~= records_of(bytes@));
    (out, bytes.len() % RECORD_LEN != 0)
}

} // verus!
