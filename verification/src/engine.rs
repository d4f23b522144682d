//! The comparison engine: paired iteration over two byte sources with a
//! leading skip offset, reporting mismatching positions by 1-based address.

use vstd::prelude::*;

verus! {

/// A position where the two sources disagree, with the differing bytes.
///
/// `address` is the 1-based ordinal position of the byte within its source;
/// the bytes at positions `[0, skip)` are never compared, so every reported
/// address exceeds the skip offset.
#[derive(Clone, Copy, Debug, PartialEq, Eq, Structural)]
pub struct MismatchRecord {
    /// 1-based position of the byte within its source.
    pub address: usize,
    /// The byte found in the first source at `address`.
    pub byte_a: u8,
    /// The byte found in the second source at `address`.
    pub byte_b: u8,
}

impl View for MismatchRecord {
    type V = (int, u8, u8);

    open spec fn view(&self) -> (int, u8, u8) {
        (self.address as int, self.byte_a, self.byte_b)
    }
}

/// Length of the shorter source: only indices below it can be paired.
pub open spec fn min_len(a: Seq<u8>, b: Seq<u8>) -> nat {
    if a.len() <= b.len() {
        a.len()
    } else {
        b.len()
    }
}

/// The mismatch records for the compared index range `[skip, end)`, in
/// ascending order, as `(address, byte_a, byte_b)` triples with 1-based
/// addresses (the byte at index `i` has address `i + 1`).
pub open spec fn mismatches_up_to(a: Seq<u8>, b: Seq<u8>, skip: int, end: int) -> Seq<(int, u8, u8)>
    decreases end - skip,
{
    if end <= skip {
        Seq::empty()
    } else if a[end - 1] == b[end - 1] {
        mismatches_up_to(a, b, skip, end - 1)
    } else {
        mismatches_up_to(a, b, skip, end - 1).push((end, a[end - 1], b[end - 1]))
    }
}

/// Every mismatch between the two sources after the skip offset, over the
/// whole length of the shorter source.
pub open spec fn spec_compare_all(a: Seq<u8>, b: Seq<u8>, skip: int) -> Seq<(int, u8, u8)> {
    mismatches_up_to(a, b, skip, min_len(a, b) as int)
}

/// The first mismatch between the two sources after the skip offset, if any.
pub open spec fn spec_compare_first(a: Seq<u8>, b: Seq<u8>, skip: int) -> Option<(int, u8, u8)> {
    if spec_compare_all(a, b, skip).len() == 0 {
        None
    } else {
        Some(spec_compare_all(a, b, skip)[0])
    }
}

/// The address one step past the last paired byte: the length of the shorter
/// source, or the skip offset itself when it reaches past that length and
/// the compared range is empty.
pub open spec fn spec_final_address(a: Seq<u8>, b: Seq<u8>, skip: int) -> int {
    if skip <= min_len(a, b) {
        min_len(a, b) as int
    } else {
        skip
    }
}

/// The mathematical reading of a vector of mismatch records.
pub open spec fn records_model(rs: Seq<MismatchRecord>) -> Seq<(int, u8, u8)> {
    rs.map_values(|r: MismatchRecord| r@)
}

/// The mathematical reading of an optional mismatch record.
pub open spec fn first_model(r: Option<MismatchRecord>) -> Option<(int, u8, u8)> {
    match r {
        None => None,
        Some(rec) => Some(rec@),
    }
}

/// Reports the first position after `skip` where the sources disagree, or
/// `None` when every paired byte matches over the shorter source's length.
/// A pure length difference is not a mismatch: when one source is a prefix
/// of the other, the result is `None`.
pub fn compare_files_single(a: &[u8], b: &[u8], skip: usize) -> (r: Option<MismatchRecord>)
    ensures
        first_model(r) == spec_compare_first(a@, b@, skip as int),
{
    let n: usize = if a.len() <= b.len() {
        a.len()
    } else {
        b.len()
    };
    if n <= skip {
        return None;
    }
    let mut i: usize = skip;
    while i < n
        invariant
            skip <= i <= n,
            n == min_len(a@, b@),
            mismatches_up_to(a@, b@, skip as int, i as int).len() == 0,
        decreases n - i,
    {
        if a[i] != b[i] {
            proof {
                lemma_first_of_mismatches(a@, b@, skip as int, i as int, min_len(a@, b@) as int);
            }
            return Some(MismatchRecord { address: i + 1, byte_a: a[i], byte_b: b[i] });
        }
        i += 1;
    }
    None
}

/// Reports every position after `skip` where the sources disagree, in
/// ascending address order, over the whole length of the shorter source,
/// together with the final address: the address one step past the last
/// paired byte (the skip offset itself when nothing could be paired).
pub fn compare_files(a: &[u8], b: &[u8], skip: usize) -> (r: (Vec<MismatchRecord>, usize))
    ensures
        records_model(r.0@) == spec_compare_all(a@, b@, skip as int),
        r.1 == spec_final_address(a@, b@, skip as int),
{
    let n: usize = if a.len() <= b.len() {
        a.len()
    } else {
        b.len()
    };
    let mut out: Vec<MismatchRecord> = Vec::new();
    if n <= skip {
        assert(records_model(out@) =~= spec_compare_all(a@, b@, skip as int));
        return (out, skip);
    }
    let mut i: usize = skip;
    while i < n
        invariant
            skip <= i <= n,
            n == min_len(a@, b@),
            records_model(out@) == mismatches_up_to(a@, b@, skip as int, i as int),
        decreases n - i,
    {
        if a[i] != b[i] {
            let rec = MismatchRecord { address: i + 1, byte_a: a[i], byte_b: b[i] };
            proof {
                assert(records_model(out@.push(rec)) =~= records_model(out@).push(rec@));
            }
            out.push(rec);
        }
        i += 1;
    }
    (out, n)
}

/// If no compared index below `i` holds a mismatch and index `i` does, then
/// the mismatch at `i` heads the record sequence for every range that
/// reaches past it.
proof fn lemma_first_of_mismatches(a: Seq<u8>, b: Seq<u8>, skip: int, i: int, end: int)
    requires
        skip <= i < end,
        mismatches_up_to(a, b, skip, i).len() == 0,
        a[i] != b[i],
    ensures
        mismatches_up_to(a, b, skip, end).len() > 0,
        mismatches_up_to(a, b, skip, end)[0] == (i + 1, a[i], b[i]),
    decreases end - i,
{
    if end == i + 1 {
        assert(mismatches_up_to(a, b, skip, end) == mismatches_up_to(a, b, skip, i).push(
            (i + 1, a[i], b[i]),
        ));
    } else {
        lemma_first_of_mismatches(a, b, skip, i, end - 1);
    }
}

/// A range whose paired bytes all agree yields no mismatch record.
proof fn lemma_equal_range_no_mismatches(a: Seq<u8>, b: Seq<u8>, skip: int, end: int)
    requires
        forall|i: int| skip <= i < end ==> a[i] == b[i],
    ensures
        mismatches_up_to(a, b, skip, end).len() == 0,
    decreases end - skip,
{
    if end > skip {
        lemma_equal_range_no_mismatches(a, b, skip, end - 1);
    }
}

/// A triple appears among the records for the range `[skip, end)` exactly
/// when its address points one past a compared index whose bytes differ and
/// it carries those two bytes.
proof fn lemma_mismatches_contains(a: Seq<u8>, b: Seq<u8>, skip: int, end: int)
    requires
        0 <= skip,
        end <= min_len(a, b),
    ensures
        forall|r: (int, u8, u8)|
            #[trigger] mismatches_up_to(a, b, skip, end).contains(r) <==> (skip < r.0 <= end
                && a[r.0 - 1] != b[r.0 - 1] && r.1 == a[r.0 - 1] && r.2 == b[r.0 - 1]),
    decreases end - skip,
{
    if end > skip {
        lemma_mismatches_contains(a, b, skip, end - 1);
        let prev = mismatches_up_to(a, b, skip, end - 1);
        let cur = mismatches_up_to(a, b, skip, end);
        assert forall|r: (int, u8, u8)| #[trigger] cur.contains(r) <==> (skip < r.0 <= end && a[r.0
            - 1] != b[r.0 - 1] && r.1 == a[r.0 - 1] && r.2 == b[r.0 - 1]) by {
            if a[end - 1] == b[end - 1] {
                assert(cur == prev);
                assert(prev.contains(r) <==> (skip < r.0 <= end - 1 && a[r.0 - 1] != b[r.0 - 1]
                    && r.1 == a[r.0 - 1] && r.2 == b[r.0 - 1]));
            } else {
                let t = (end, a[end - 1], b[end - 1]);
                assert(cur == prev.push(t));
                vstd::seq_lib::lemma_seq_contains_after_push(prev, t, r);
                assert(prev.contains(r) <==> (skip < r.0 <= end - 1 && a[r.0 - 1] != b[r.0 - 1]
                    && r.1 == a[r.0 - 1] && r.2 == b[r.0 - 1]));
            }
        }
    }
}

/// Addresses in a record range are strictly increasing and stay within
/// `(skip, end]`.
proof fn lemma_mismatches_increasing(a: Seq<u8>, b: Seq<u8>, skip: int, end: int)
    ensures
        forall|k: int|
            0 <= k < mismatches_up_to(a, b, skip, end).len() ==> skip < #[trigger] mismatches_up_to(
                a,
                b,
                skip,
                end,
            )[k].0 <= end,
        forall|k1: int, k2: int|
            #![trigger mismatches_up_to(a, b, skip, end)[k1], mismatches_up_to(a, b, skip, end)[k2]]
            0 <= k1 < k2 < mismatches_up_to(a, b, skip, end).len() ==> mismatches_up_to(
                a,
                b,
                skip,
                end,
            )[k1].0 < mismatches_up_to(a, b, skip, end)[k2].0,
    decreases end - skip,
{
    if end > skip {
        lemma_mismatches_increasing(a, b, skip, end - 1);
        let prev = mismatches_up_to(a, b, skip, end - 1);
        let cur = mismatches_up_to(a, b, skip, end);
        assert forall|k: int| 0 <= k < cur.len() implies skip < #[trigger] cur[k].0 <= end by {
            if k < prev.len() {
                assert(cur[k] == prev[k]);
            } else {
                assert(cur[k] == (end, a[end - 1], b[end - 1]));
            }
        }
        assert forall|k1: int, k2: int|
            #![trigger cur[k1], cur[k2]]
            0 <= k1 < k2 < cur.len() implies cur[k1].0 < cur[k2].0 by {
            assert(cur[k1] == prev[k1]);
            if k2 < prev.len() {
                assert(cur[k2] == prev[k2]);
            } else {
                assert(cur[k2] == (end, a[end - 1], b[end - 1]));
            }
        }
    }
}

/// Identical sources produce no mismatch: the full comparison reports an
/// empty record sequence and the first-difference comparison reports none,
/// whatever the skip offset.
pub proof fn lemma_identical_sources(a: Seq<u8>, skip: int)
    ensures
        spec_compare_all(a, a, skip) == Seq::<(int, u8, u8)>::empty(),
        spec_compare_first(a, a, skip) is None,
{
    lemma_equal_range_no_mismatches(a, a, skip, min_len(a, a) as int);
    assert(spec_compare_all(a, a, skip) =~= Seq::<(int, u8, u8)>::empty());
}

/// When the sources agree on the first `p - 1` compared pairs and disagree
/// on the `p`-th, the first reported mismatch has address `skip + p` and
/// carries the two bytes found there.
pub proof fn lemma_first_difference(a: Seq<u8>, b: Seq<u8>, skip: int, p: int)
    requires
        0 <= skip,
        1 <= p,
        skip + p <= min_len(a, b),
        a[skip + p - 1] != b[skip + p - 1],
        forall|i: int| skip <= i < skip + p - 1 ==> a[i] == b[i],
    ensures
        spec_compare_first(a, b, skip) == Some(
            (skip + p, a[skip + p - 1], b[skip + p - 1]),
        ),
{
    lemma_equal_range_no_mismatches(a, b, skip, skip + p - 1);
    lemma_first_of_mismatches(a, b, skip, skip + p - 1, min_len(a, b) as int);
}

/// The full comparison lists its records in strictly increasing address
/// order, and every address lies past the skip offset and within the
/// shorter source.
pub proof fn lemma_addresses_strictly_increasing(a: Seq<u8>, b: Seq<u8>, skip: int)
    ensures
        forall|k: int|
            0 <= k < spec_compare_all(a, b, skip).len() ==> skip < #[trigger] spec_compare_all(
                a,
                b,
                skip,
            )[k].0 <= min_len(a, b),
        forall|k1: int, k2: int|
            #![trigger spec_compare_all(a, b, skip)[k1], spec_compare_all(a, b, skip)[k2]]
            0 <= k1 < k2 < spec_compare_all(a, b, skip).len() ==> spec_compare_all(a, b, skip)[k1].0
                < spec_compare_all(a, b, skip)[k2].0,
{
    lemma_mismatches_increasing(a, b, skip, min_len(a, b) as int);
}

/// The comparison is a function of the two byte sequences and the skip
/// offset alone: any two record vectors that carry its model for the same
/// inputs are equal, so running it twice on unchanged sources yields
/// identical results.
pub proof fn lemma_compare_all_deterministic(
    r1: Seq<MismatchRecord>,
    r2: Seq<MismatchRecord>,
    a: Seq<u8>,
    b: Seq<u8>,
    skip: int,
)
    requires
        records_model(r1) == spec_compare_all(a, b, skip),
        records_model(r2) == spec_compare_all(a, b, skip),
    ensures
        r1 == r2,
{
    assert(records_model(r1).len() == r1.len());
    assert(records_model(r2).len() == r2.len());
    assert forall|k: int| 0 <= k < r1.len() implies r1[k] == r2[k] by {
        assert(records_model(r1)[k] == r1[k]@);
        assert(records_model(r2)[k] == r2[k]@);
        assert(r1[k]@ == r2[k]@);
        assert(r1[k].address == r2[k].address);
    }
    assert(r1 =~= r2);
}

/// The first-difference comparison is likewise a function of its inputs:
/// any two optional records that carry its model for the same inputs are
/// equal.
pub proof fn lemma_compare_first_deterministic(
    r1: Option<MismatchRecord>,
    r2: Option<MismatchRecord>,
    a: Seq<u8>,
    b: Seq<u8>,
    skip: int,
)
    requires
        first_model(r1) == spec_compare_first(a, b, skip),
        first_model(r2) == spec_compare_first(a, b, skip),
    ensures
        r1 == r2,
{
}

/// Raising the skip offset by `k` only discards mismatches: every record
/// reported with offset `skip + k` is also reported with offset `skip`,
/// and its address lies beyond `skip + k`. In particular no mismatch
/// appears at an address at or below the new offset.
pub proof fn lemma_skip_monotonic(a: Seq<u8>, b: Seq<u8>, skip: int, k: int)
    requires
        0 <= skip,
        0 <= k,
    ensures
        forall|r: (int, u8, u8)|
            #[trigger] spec_compare_all(a, b, skip + k).contains(r) ==> spec_compare_all(
                a,
                b,
                skip,
            ).contains(r) && r.0 > skip + k,
{
    let end = min_len(a, b) as int;
    if end > skip + k {
        lemma_mismatches_contains(a, b, skip, end);
        lemma_mismatches_contains(a, b, skip + k, end);
    }
}

} // verus!
