//! Reading a metric back: its files are ordered by the minute stamp in their
//! names (enumeration order among equal or unnamed ones), then decoded in
//! turn, each in write order.
use vstd::prelude::*;

use crate::codec::{decode_all, lemma_records_round_trip, records_bytes, records_of, well_formed, Record};

verus! {

/// Number of characters in a file-name stamp (`YYYYMMDDHHMM`).
pub const STAMP_LEN: usize = 12;

/// Sort key of a file whose name is not a stamp: after every stamp.
pub const UNNAMED_KEY: u64 = 1000000000000;

pub open spec fn is_digit(c: char) -> bool {
    '0' <= c && c <= '9'
}

pub open spec fn digit_value(c: char) -> nat {
    ((c as u32) - ('0' as u32)) as nat
}

/// The number that a string of decimal digits spells.
pub open spec fn digits_value(s: Seq<char>) -> nat
    decreases s.len(),
{
    if s.len() == 0 {
        0
    } else {
        digits_value(s.drop_last()) * 10 + digit_value(s.last())
    }
}

pub open spec fn pow10(n: nat) -> nat
    decreases n,
{
    if n == 0 {
        1
    } else {
        10 * pow10((n - 1) as nat)
    }
}

/// The minute number that a file name spells, when it is a stamp.
pub open spec fn stamp_value(name: Seq<char>) -> Option<nat> {
    if name.len() == STAMP_LEN && forall|i: int| 0 <= i < name.len() ==> is_digit(name[i]) {
        Some(digits_value(name))
    } else {
        None
    }
}

/// The key by which files are ordered.
pub open spec fn sort_key(name: Seq<char>) -> nat {
    match stamp_value(name) {
        Some(v) => v,
        None => UNNAMED_KEY as nat,
    }
}

proof fn lemma_pow10_mono(i: nat, j: nat)
    requires
        i <= j,
    ensures
        pow10(i) <= pow10(j),
    decreases j,
{
    if i < j {
        lemma_pow10_mono(i, (j - 1) as nat);
    }
}

/// Reads the minute number out of a file name that is a stamp.
pub fn parse_stamp(name: &str) -> (r: Option<u64>)
    ensures
        r is Some <==> stamp_value(name@) is Some,
        r is Some ==> r->Some_0 as nat == stamp_value(name@)->Some_0,
{
    let n = name.unicode_len();
    if n != STAMP_LEN {
        return None;
    }
    let mut v: u64 = 0;
    let mut i: usize = 0;
    proof {
        reveal_with_fuel(pow10, 13);
        assert(pow10(12) == 1000000000000);
    }
    while i < n
        invariant
            n == name@.len(),
            n == STAMP_LEN,
            i <= n,
            forall|j: int| 0 <= j < i ==> is_digit(name@[j]),
            v as nat == digits_value(name@.take(i as int)),
            v < pow10(i as nat),
            pow10(12) == 1000000000000,
        decreases n - i,
    {
        let c = name.get_char(i);
        if !('0' <= c && c <= '9') {
            return None;
        }
        let d = (c as u32 - '0' as u32) as u64;
        proof {
            lemma_pow10_mono((i + 1) as nat, 12);
            assert(pow10((i + 1) as nat) == 10 * pow10(i as nat));
            assert(v * 10 + d < 10 * pow10(i as nat)) by (nonlinear_arith)
                requires
                    v < pow10(i as nat),
                    d <= 9,
            ;
            assert(name@.take(i + 1).drop_last() =~= name@.take(i as int));
        }
        v = v * 10 + d;
        i = i + 1;
    }
    assert(name@.take(n as int) =~= name@);
    Some(v)
}

/// The key by which a file named `name` is ordered.
pub fn file_sort_key(name: &str) -> (r: u64)
    ensures
        r as nat == sort_key(name@),
{
    match parse_stamp(name) {
        Some(v) => v,
        None => UNNAMED_KEY,
    }
}

/// `order` lists each position of `keys` once, by nondecreasing key, and
/// positions with equal keys in their original order.
pub open spec fn stable_order(keys: Seq<u64>, order: Seq<usize>) -> bool {
    &&& order.len() == keys.len()
    &&& forall|k: int| 0 <= k < order.len() ==> order[k] < keys.len()
    &&& forall|k1: int, k2: int|
        0 <= k1 < k2 < order.len() ==> order[k1] != order[k2]
    &&& forall|k1: int, k2: int|
        0 <= k1 < k2 < order.len() ==> keys[order[k1] as int] <= keys[order[k2] as int]
    &&& forall|k1: int, k2: int|
        0 <= k1 < k2 < order.len() && keys[order[k1] as int] == keys[order[k2] as int]
            ==> order[k1] < order[k2]
}

/// Orders positions by key, keeping the original order among equal keys.
pub fn stable_order_by(keys: &Vec<u64>) -> (r: Vec<usize>)
    ensures
        stable_order(keys@, r@),
{
    let mut order: Vec<usize> = Vec::new();
    let mut i: usize = 0;
    while i < keys.len()
        invariant
            i <= keys@.len(),
            stable_order(keys@.take(i as int), order@),
        decreases keys@.len() - i,
    {
        let ki = keys[i];
        let mut p: usize = order.len();
        while p > 0 && keys[order[p - 1]] > ki
            invariant
                p <= order@.len(),
                order@.len() == i,
                i < keys@.len(),
                ki == keys@[i as int],
                stable_order(keys@.take(i as int), order@),
                forall|q: int| p <= q < order@.len() ==> keys@[order@[q] as int] > ki,
            decreases p,
        {
            p = p - 1;
        }
        let ghost old_order = order@;
        let ghost ks = keys@.take(i as int);
        assert forall|q: int| 0 <= q < p implies keys@[old_order[q] as int] <= ki by {
            if p > 0 && q < p - 1 {
                assert(ks[old_order[q] as int] <= ks[old_order[p - 1] as int]);
            }
        }
        order.insert(p, i);
        assert(order@ == old_order.insert(p as int, i));
        assert(stable_order(keys@.take(i + 1), order@)) by {
            let kt = keys@.take(i + 1);
            assert forall|k: int| 0 <= k < order@.len() implies order@[k] < kt.len() by {}
            assert forall|k: int|
                0 <= k < order@.len() && order@[k] != i implies #[trigger] kt[order@[k] as int]
                == ks[order@[k] as int] by {}
        }
        i = i + 1;
    }
    assert(keys@.take(i as int) =~= keys@);
    order
}

/// A stored file as read from the metric's directory.
#[derive(Debug)]
pub struct StoredFile {
    pub name: String,
    pub bytes: Vec<u8>,
}

/// The records of the files at the positions `order`, file after file.
pub open spec fn ordered_records(files: Seq<StoredFile>, order: Seq<usize>) -> Seq<Record>
    decreases order.len(),
{
    if order.len() == 0 {
        Seq::empty()
    } else {
        ordered_records(files, order.drop_last()) + records_of(
            files[order.last() as int].bytes@,
        )
    }
}

/// The names of the files at the positions `order` that end in a partial
/// record.
pub open spec fn malformed_names(files: Seq<StoredFile>, order: Seq<usize>) -> Seq<Seq<char>>
    decreases order.len(),
{
    if order.len() == 0 {
        Seq::empty()
    } else {
        malformed_names(files, order.drop_last()) + (if well_formed(
            files[order.last() as int].bytes@,
        ) {
            Seq::empty()
        } else {
            seq![files[order.last() as int].name@]
        })
    }
}

/// The sort keys of the names of `files`.
pub open spec fn file_keys(files: Seq<StoredFile>) -> Seq<u64> {
    files.map_values(|f: StoredFile| sort_key(f.name@) as u64)
}

/// What a query yields: the records, the order in which the files were read
/// (positions in the input), and the names of files that ended in a partial
/// record, whose whole records are still among the results.
#[derive(Debug)]
pub struct QueryResult {
    pub records: Vec<Record>,
    pub order: Vec<usize>,
    pub malformed: Vec<String>,
}

/// Put then query: a metric whose only file holds the records put for it,
/// one after the other, reads back as exactly those records, in write order
/// and bit for bit.
pub proof fn lemma_put_then_query(files: Seq<StoredFile>, order: Seq<usize>, rs: Seq<Record>)
    requires
        files.len() == 1,
        files[0].bytes@ == records_bytes(rs),
        stable_order(file_keys(files), order),
    ensures
        ordered_records(files, order) == rs,
{
    lemma_records_round_trip(rs);
    assert(file_keys(files).len() == 1);
    assert(order.len() == 1);
    assert(order[0] == 0);
    assert(order.drop_last() =~= Seq::<usize>::empty());
    assert(ordered_records(files, order.drop_last()) == Seq::<Record>::empty());
    assert(ordered_records(files, order) =~= rs);
}

/// Decodes a metric's files, ordered by the stamps in their names.
pub fn query_files(files: &Vec<StoredFile>) -> (r: QueryResult)
    ensures
        stable_order(file_keys(files@), r.order@),
        r.records@ == ordered_records(files@, r.order@),
        r.malformed@.map_values(|s: String| s@) == malformed_names(files@, r.order@),
{
    let mut keys: Vec<u64> = Vec::new();
    let mut i: usize = 0;
    while i < files.len()
        invariant
            i <= files@.len(),
            keys@ =~= file_keys(files@).take(i as int),
        decreases files@.len() - i,
    {
        keys.push(file_sort_key(files[i].name.as_str()));
        i = i + 1;
    }
    assert(keys@ =~= file_keys(files@));
    let order = stable_order_by(&keys);
    let mut records: Vec<Record> = Vec::new();
    let mut malformed: Vec<String> = Vec::new();
    let mut k: usize = 0;
    while k < order.len()
        invariant
            k <= order@.len(),
            stable_order(file_keys(files@), order@),
            records@ == ordered_records(files@, order@.take(k as int)),
            malformed@.map_values(|s: String| s@) == malformed_names(files@, order@.take(k as int)),
        decreases order@.len() - k,
    {
        let f = &files[order[k]];
        let (recs, partial) = decode_all(f.bytes.as_slice());
        assert(order@.take(k + 1).drop_last() =~= order@.take(k as int));
        let ghost before = records@;
        let mut j: usize = 0;
        while j < recs.len()
            invariant
                j <= recs@.len(),
                records@ =~= before + recs@.take(j as int),
            decreases recs@.len() - j,
        {
            records.push(recs[j]);
            j = j + 1;
        }
        assert(recs@.take(j as int) =~= recs@);
        if partial {
            malformed.push(f.name.clone());
        }
        assert(malformed@.map_values(|s: String| s@) =~= malformed_names(files@, order@.take(k + 1)));
        k = k + 1;
    }
    assert(order@.take(k as int) =~= order@);
    QueryResult { records, order, malformed }
}

} // verus!
