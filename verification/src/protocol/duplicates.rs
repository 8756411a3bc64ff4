//! Duplicate handling over private per-ballot records.
//!
//! After validity evaluation (validity ALWAYS comes first — invalid ballots
//! never consume a voter's duplicate slot), each admitted-board position j
//! yields a record r_j = (valid_j, id_j, pos_j, m_j): the 0/1 validity flag,
//! the voter identity (0 for invalid rows), the board position, and the
//! candidate index (0 for invalid rows).
//!
//! * Strategy A (naive) — O(B^2) pairwise scan, the reference semantics.
//! * Strategy B (sorted) — sort by (-valid, id, pos), then one linear pass
//!   counts the first valid record of each identity block.
//!
//! `lemma_strategies_agree` proves that both strategies give the same flags
//! whenever every record carries its own board position.

use vstd::prelude::*;
use vstd::relations::sorted_by;

verus! {

broadcast use vstd::seq_lib::group_to_multiset_ensures, vstd::multiset::group_multiset_axioms;

/// One private per-ballot record.
#[derive(Clone, Copy, Debug, PartialEq, Eq, Structural)]
pub struct BallotRecord {
    pub valid: bool,
    /// Voter identity / registration index (0 if invalid).
    pub id: u64,
    /// Public board position.
    pub pos: u64,
    /// Candidate index in the public candidate list (0 if invalid).
    pub cand_index: u64,
}

/// The order of the sort key (-valid, id, pos): valid records first, then
/// increasing id, then increasing position.
pub open spec fn key_le(a: BallotRecord, b: BallotRecord) -> bool {
    if a.valid != b.valid {
        a.valid
    } else if a.id != b.id {
        a.id < b.id
    } else {
        a.pos <= b.pos
    }
}

/// The lexicographic order of (valid, id, pos, cand_index), false < true.
pub open spec fn full_le(a: BallotRecord, b: BallotRecord) -> bool {
    if a.valid != b.valid {
        !a.valid
    } else if a.id != b.id {
        a.id < b.id
    } else if a.pos != b.pos {
        a.pos < b.pos
    } else {
        a.cand_index <= b.cand_index
    }
}

/// The sort-key order, or the full-content order when `full`.
pub open spec fn rec_le(full: bool, a: BallotRecord, b: BallotRecord) -> bool {
    if full {
        full_le(a, b)
    } else {
        key_le(a, b)
    }
}

/// `rec_le` as a relation.
pub open spec fn rec_order(full: bool) -> spec_fn(BallotRecord, BallotRecord) -> bool {
    |a: BallotRecord, b: BallotRecord| rec_le(full, a, b)
}

/// Insert `x` after the last element that is not above it (stable).
pub open spec fn sorted_insert(s: Seq<BallotRecord>, x: BallotRecord, full: bool) -> Seq<
    BallotRecord,
>
    decreases s.len(),
{
    if s.len() == 0 {
        seq![x]
    } else if rec_le(full, s.last(), x) {
        s.push(x)
    } else {
        sorted_insert(s.drop_last(), x, full).push(s.last())
    }
}

/// The stable sort of `s` (insertion order from the front).
pub open spec fn insertion_sort(s: Seq<BallotRecord>, full: bool) -> Seq<BallotRecord>
    decreases s.len(),
{
    if s.len() == 0 {
        s
    } else {
        sorted_insert(insertion_sort(s.drop_last(), full), s.last(), full)
    }
}

/// The records sorted by (-valid, id, pos), stably.
pub open spec fn spec_sorted_records(records: Seq<BallotRecord>) -> Seq<BallotRecord> {
    insertion_sort(records, false)
}

/// Strategy A's flag: the record is valid and no earlier record is a valid
/// ballot of the same voter.
pub open spec fn spec_counted_naive(records: Seq<BallotRecord>, j: int) -> bool {
    &&& records[j].valid
    &&& !exists|k: int| 0 <= k < j && #[trigger] records[k].valid && records[k].id == records[j].id
}

/// In the sorted sequence, position j is valid and starts its identity block.
pub open spec fn spec_first_in_block(ss: Seq<BallotRecord>, j: int) -> bool {
    &&& ss[j].valid
    &&& (j == 0 || ss[j - 1].id != ss[j].id)
}

/// Strategy B's flag for board position i: some sorted record carrying
/// position i is valid and first in its identity block.
pub open spec fn spec_counted_sorted(records: Seq<BallotRecord>, i: int) -> bool {
    let ss = spec_sorted_records(records);
    exists|j: int| 0 <= j < ss.len() && ss[j].pos == i && #[trigger] spec_first_in_block(ss, j)
}

/// Every record carries its own board position.
pub open spec fn positions_are_indices(records: Seq<BallotRecord>) -> bool {
    forall|j: int| 0 <= j < records.len() ==> #[trigger] records[j].pos == j
}

proof fn lemma_rec_le_total(full: bool, a: BallotRecord, b: BallotRecord)
    ensures
        rec_le(full, a, b) || rec_le(full, b, a),
        rec_le(full, a, a),
{
}

proof fn lemma_rec_le_trans(full: bool, a: BallotRecord, b: BallotRecord, c: BallotRecord)
    requires
        rec_le(full, a, b),
        rec_le(full, b, c),
    ensures
        rec_le(full, a, c),
{
}

/// `sorted_insert` places `x` at the first position k from which on every
/// element is above `x`.
proof fn lemma_sorted_insert_shape(s: Seq<BallotRecord>, x: BallotRecord, full: bool, k: int)
    requires
        0 <= k <= s.len(),
        forall|i: int| k <= i < s.len() ==> !rec_le(full, #[trigger] s[i], x),
        k == 0 || rec_le(full, s[k - 1], x),
    ensures
        sorted_insert(s, x, full) == s.insert(k, x),
    decreases s.len(),
{
    if s.len() == 0 {
        assert(s.insert(k, x) =~= seq![x]);
    } else if k == s.len() {
        assert(s.insert(k, x) =~= s.push(x));
    } else {
        assert(!rec_le(full, s[s.len() - 1], x));
        lemma_sorted_insert_shape(s.drop_last(), x, full, k);
        assert(s.insert(k, x) =~= s.drop_last().insert(k, x).push(s.last()));
    }
}

proof fn lemma_sorted_insert_multiset(s: Seq<BallotRecord>, x: BallotRecord, full: bool)
    ensures
        sorted_insert(s, x, full).to_multiset() =~= s.to_multiset().insert(x),
        sorted_insert(s, x, full).len() == s.len() + 1,
    decreases s.len(),
{
    if s.len() == 0 {
        assert(seq![x] =~= Seq::<BallotRecord>::empty().push(x));
    } else if rec_le(full, s.last(), x) {
    } else {
        lemma_sorted_insert_multiset(s.drop_last(), x, full);
        assert(s =~= s.drop_last().push(s.last()));
    }
}

proof fn lemma_sorted_insert_sorted(s: Seq<BallotRecord>, x: BallotRecord, full: bool)
    requires
        sorted_by(s, rec_order(full)),
    ensures
        sorted_by(sorted_insert(s, x, full), rec_order(full)),
    decreases s.len(),
{
    let le = rec_order(full);
    if s.len() == 0 {
    } else if rec_le(full, s.last(), x) {
        let t = s.push(x);
        assert forall|i: int, j: int| 0 <= i < j < t.len() implies #[trigger] le(t[i], t[j]) by {
            if j == s.len() {
                if i < s.len() - 1 {
                    assert(le(s[i], s[s.len() - 1]));
                    lemma_rec_le_trans(full, s[i], s.last(), x);
                }
            } else {
                assert(le(s[i], s[j]));
            }
        }
    } else {
        let d = s.drop_last();
        assert(sorted_by(d, le)) by {
            assert forall|i: int, j: int| 0 <= i < j < d.len() implies #[trigger] le(d[i], d[j]) by {
                assert(le(s[i], s[j]));
            }
        }
        lemma_sorted_insert_sorted(d, x, full);
        lemma_sorted_insert_multiset(d, x, full);
        let u = sorted_insert(d, x, full);
        let t = u.push(s.last());
        lemma_rec_le_total(full, s.last(), x);
        assert forall|i: int, j: int| 0 <= i < j < t.len() implies #[trigger] le(t[i], t[j]) by {
            if j == u.len() {
                let e = u[i];
                assert(u.to_multiset().count(e) > 0);
                if e != x {
                    assert(d.to_multiset().count(e) > 0);
                    assert(d.contains(e));
                    let k = choose|k: int| 0 <= k < d.len() && d[k] == e;
                    assert(le(s[k], s[s.len() - 1]));
                }
            } else {
                assert(le(u[i], u[j]));
            }
        }
    }
}

/// The insertion sort is a permutation and is sorted.
proof fn lemma_insertion_sort(s: Seq<BallotRecord>, full: bool)
    ensures
        insertion_sort(s, full).to_multiset() =~= s.to_multiset(),
        sorted_by(insertion_sort(s, full), rec_order(full)),
        insertion_sort(s, full).len() == s.len(),
    decreases s.len(),
{
    if s.len() == 0 {
    } else {
        lemma_insertion_sort(s.drop_last(), full);
        lemma_sorted_insert_multiset(insertion_sort(s.drop_last(), full), s.last(), full);
        lemma_sorted_insert_sorted(insertion_sort(s.drop_last(), full), s.last(), full);
        assert(s =~= s.drop_last().push(s.last()));
    }
}

fn rec_le_exec(a: &BallotRecord, b: &BallotRecord, full: bool) -> (r: bool)
    ensures
        r == rec_le(full, *a, *b),
{
    if a.valid != b.valid {
        if full {
            !a.valid
        } else {
            a.valid
        }
    } else if a.id != b.id {
        a.id < b.id
    } else if full && a.pos != b.pos {
        a.pos < b.pos
    } else if full {
        a.cand_index <= b.cand_index
    } else {
        a.pos <= b.pos
    }
}

/// Stable insertion sort of the records (by the sort key, or by full
/// content when `full`).
fn sort_records(records: &[BallotRecord], full: bool) -> (r: Vec<BallotRecord>)
    ensures
        r@ == insertion_sort(records@, full),
{
    let mut out: Vec<BallotRecord> = Vec::new();
    let mut i: usize = 0;
    while i < records.len()
        invariant
            i <= records@.len(),
            out@ == insertion_sort(records@.subrange(0, i as int), full),
        decreases records@.len() - i,
    {
        let x = records[i];
        let mut k: usize = out.len();
        while k > 0 && !rec_le_exec(&out[k - 1], &x, full)
            invariant
                k <= out@.len(),
                forall|m: int| k <= m < out@.len() ==> !rec_le(full, #[trigger] out@[m], x),
            decreases k,
        {
            k -= 1;
        }
        proof {
            lemma_sorted_insert_shape(out@, x, full, k as int);
            assert(records@.subrange(0, i + 1).drop_last() =~= records@.subrange(0, i as int));
        }
        out.insert(k, x);
        i += 1;
    }
    assert(records@.subrange(0, records@.len() as int) =~= records@);
    out
}

impl BallotRecord {
    /// Lexicographic sort key (-valid, id, pos), written (!valid, id, pos):
    /// valid records first, then increasing id, then increasing position.
    pub fn sort_key(&self) -> (r: (bool, u64, u64))
        ensures
            r == (!self.valid, self.id, self.pos),
    {
        (!self.valid, self.id, self.pos)
    }
}

/// Strategy A — naive O(B^2) first-valid-counts: counted[j] = valid_j AND no
/// earlier valid record with the same id.
pub fn counted_flags_naive(records: &[BallotRecord]) -> (r: Vec<bool>)
    ensures
        r@.len() == records@.len(),
        forall|j: int| 0 <= j < records@.len() ==> #[trigger] r@[j] == spec_counted_naive(
            records@,
            j,
        ),
{
    let mut counted: Vec<bool> = Vec::new();
    let mut j: usize = 0;
    while j < records.len()
        invariant
            j <= records@.len(),
            counted@.len() == j,
            forall|m: int| 0 <= m < j ==> #[trigger] counted@[m] == spec_counted_naive(records@, m),
        decreases records@.len() - j,
    {
        let mut flag = false;
        if records[j].valid {
            let mut dup_before = false;
            let mut k: usize = 0;
            while k < j
                invariant
                    j < records@.len(),
                    k <= j,
                    dup_before == exists|m: int|
                        0 <= m < k && #[trigger] records@[m].valid && records@[m].id
                            == records@[j as int].id,
                decreases j - k,
            {
                if records[k].valid && records[k].id == records[j].id {
                    dup_before = true;
                }
                k += 1;
            }
            flag = !dup_before;
        }
        counted.push(flag);
        j += 1;
    }
    counted
}

/// Strategy B — sorted-record first-valid-counts: sort by (-valid, id, pos),
/// then mark the board position of every valid record that starts its
/// identity block. Returns the flags in board order (mapped back via pos).
/// The sorted list is a permutation of the records (proved, not checked).
pub fn counted_flags_sorted(records: &[BallotRecord]) -> (r: Vec<bool>)
    requires
        forall|j: int| 0 <= j < records@.len() ==> #[trigger] records@[j].pos < records@.len(),
    ensures
        r@.len() == records@.len(),
        forall|i: int| 0 <= i < records@.len() ==> #[trigger] r@[i] == spec_counted_sorted(
            records@,
            i,
        ),
{
    let sorted = sort_records(records, false);
    proof {
        lemma_insertion_sort(records@, false);
        assert forall|j: int| 0 <= j < sorted@.len() implies #[trigger] sorted@[j].pos
            < records@.len() by {
            let e = sorted@[j];
            assert(sorted@.to_multiset().count(e) > 0);
            assert(records@.contains(e));
        }
    }
    let mut counted: Vec<bool> = Vec::new();
    let mut z: usize = 0;
    while z < records.len()
        invariant
            z <= records@.len(),
            counted@.len() == z,
            forall|m: int| 0 <= m < z ==> !#[trigger] counted@[m],
        decreases records@.len() - z,
    {
        counted.push(false);
        z += 1;
    }
    let ghost ss = sorted@;
    let mut j: usize = 0;
    while j < sorted.len()
        invariant
            ss == sorted@,
            ss == spec_sorted_records(records@),
            ss.len() == records@.len(),
            forall|m: int| 0 <= m < ss.len() ==> #[trigger] ss[m].pos < records@.len(),
            j <= ss.len(),
            counted@.len() == records@.len(),
            forall|i: int|
                0 <= i < records@.len() ==> #[trigger] counted@[i] == exists|m: int|
                    0 <= m < j && ss[m].pos == i && #[trigger] spec_first_in_block(ss, m),
        decreases ss.len() - j,
    {
        if sorted[j].valid {
            let first_in_block = j == 0 || sorted[j - 1].id != sorted[j].id;
            if first_in_block {
                let p = sorted[j].pos as usize;
                counted.set(p, true);
                assert(spec_first_in_block(ss, j as int));
            }
        }
        j += 1;
    }
    counted
}

/// Sortedness and multiset facts of the sorted records that the agreement
/// proof needs.
proof fn lemma_sorted_facts(records: Seq<BallotRecord>)
    ensures
        spec_sorted_records(records).len() == records.len(),
        spec_sorted_records(records).to_multiset() =~= records.to_multiset(),
        forall|i: int, j: int|
            0 <= i < j < records.len() ==> key_le(
                #[trigger] spec_sorted_records(records)[i],
                #[trigger] spec_sorted_records(records)[j],
            ),
{
    lemma_insertion_sort(records, false);
    let ss = spec_sorted_records(records);
    assert forall|i: int, j: int| 0 <= i < j < records.len() implies key_le(
        #[trigger] ss[i],
        #[trigger] ss[j],
    ) by {
        assert(rec_order(false)(ss[i], ss[j]));
    }
}

/// The full-content order is a total order.
proof fn lemma_full_total_ordering()
    ensures
        vstd::relations::total_ordering(rec_order(true)),
{
    let r = rec_order(true);
    assert forall|x: BallotRecord, y: BallotRecord| #[trigger] r(x, y) && #[trigger] r(y, x)
        implies x == y by {
        assert(full_le(x, y) && full_le(y, x));
    }
    assert forall|x: BallotRecord, y: BallotRecord, z: BallotRecord| #[trigger] r(x, y)
        && #[trigger] r(y, z) implies r(x, z) by {
        lemma_rec_le_trans(true, x, y, z);
    }
    assert forall|x: BallotRecord, y: BallotRecord| #[trigger] r(x, y) || #[trigger] r(y, x) by {
        lemma_rec_le_total(true, x, y);
    }
    assert forall|x: BallotRecord| #[trigger] r(x, x) by {
        lemma_rec_le_total(true, x, x);
    }
}

/// Records that carry their own positions are pairwise distinct, and so is
/// any sequence with the same multiset.
proof fn lemma_no_duplicates(records: Seq<BallotRecord>, other: Seq<BallotRecord>)
    requires
        positions_are_indices(records),
        other.to_multiset() =~= records.to_multiset(),
    ensures
        other.no_duplicates(),
{
    assert(records.no_duplicates()) by {
        assert forall|i: int, j: int| 0 <= i < records.len() && 0 <= j < records.len() && i
            != j implies records[i] != records[j] by {
            assert(records[i].pos == i && records[j].pos == j);
        }
    }
    records.lemma_multiset_has_no_duplicates();
    other.lemma_multiset_has_no_duplicates_conv();
}

/// Strategy A and Strategy B agree: when every record carries its own
/// board position, the sorted-record flags equal the naive flags.
pub proof fn lemma_strategies_agree(records: Seq<BallotRecord>, i: int)
    requires
        positions_are_indices(records),
        0 <= i < records.len(),
    ensures
        spec_counted_sorted(records, i) == spec_counted_naive(records, i),
{
    lemma_sorted_facts(records);
    let ss = spec_sorted_records(records);
    // Each sorted record is some original record, hence carries its own index.
    assert forall|j: int| 0 <= j < ss.len() implies #[trigger] records[ss[j].pos as int]
        == ss[j] by {
        assert(ss.to_multiset().count(ss[j]) > 0);
        assert(records.contains(ss[j]));
        let k = choose|k: int| 0 <= k < records.len() && records[k] == ss[j];
        assert(records[k].pos == k);
    }
    // Each original record appears in the sorted sequence.
    assert(records.to_multiset().count(records[i]) > 0);
    assert(ss.contains(records[i]));
    let ji = choose|j: int| 0 <= j < ss.len() && ss[j] == records[i];
    assert(ss[ji].pos == i);
    if spec_counted_sorted(records, i) {
        let j = choose|j: int|
            0 <= j < ss.len() && ss[j].pos == i && #[trigger] spec_first_in_block(ss, j);
        assert(records[ss[j].pos as int] == ss[j]);
        assert(ss[j] == records[i]);
        if exists|k: int| 0 <= k < i && #[trigger] records[k].valid && records[k].id == records[i].id {
            let k = choose|k: int|
                0 <= k < i && #[trigger] records[k].valid && records[k].id == records[i].id;
            assert(records.to_multiset().count(records[k]) > 0);
            assert(ss.contains(records[k]));
            let jk = choose|m: int| 0 <= m < ss.len() && ss[m] == records[k];
            assert(records[k].pos == k && records[i].pos == i);
            if jk > j {
                assert(key_le(ss[j], ss[jk]));
            }
            assert(jk != j);
            assert(jk < j);
            assert(key_le(ss[jk], ss[j - 1]) || jk == j - 1);
            assert(key_le(ss[j - 1], ss[j]));
        }
    } else {
        if spec_counted_naive(records, i) {
            lemma_no_duplicates(records, ss);
            if ji > 0 && ss[ji - 1].id == ss[ji].id {
                let prev = ss[ji - 1];
                assert(key_le(prev, ss[ji]));
                assert(records[prev.pos as int] == prev);
                assert(prev.valid);
                assert(prev != ss[ji]);
                assert(prev.pos != i);
                assert(prev.pos < i);
                assert(records[prev.pos as int].valid && records[prev.pos as int].id
                    == records[i].id);
            }
            assert(spec_first_in_block(ss, ji));
        }
    }
}

/// Multiset equality of two record lists (the native permutation check):
/// both lists are sorted by full content and compared.
pub fn multiset_equal(a: &[BallotRecord], b: &[BallotRecord]) -> (r: bool)
    ensures
        r == (a@.to_multiset() == b@.to_multiset()),
{
    if a.len() != b.len() {
        proof {
            assert(a@.to_multiset().len() != b@.to_multiset().len());
        }
        return false;
    }
    let ca = sort_records(a, true);
    let cb = sort_records(b, true);
    proof {
        lemma_insertion_sort(a@, true);
        lemma_insertion_sort(b@, true);
    }
    let mut i: usize = 0;
    while i < ca.len()
        invariant
            ca@.len() == cb@.len(),
            ca@ == insertion_sort(a@, true),
            cb@ == insertion_sort(b@, true),
            i <= ca@.len(),
            forall|m: int| 0 <= m < i ==> #[trigger] ca@[m] == cb@[m],
        decreases ca@.len() - i,
    {
        if ca[i] != cb[i] {
            proof {
                if a@.to_multiset() == b@.to_multiset() {
                    lemma_full_total_ordering();
                    lemma_insertion_sort(a@, true);
                    lemma_insertion_sort(b@, true);
                    vstd::seq_lib::lemma_sorted_unique(
                        ca@,
                        cb@,
                        rec_order(true),
                    );
                }
            }
            return false;
        }
        i += 1;
    }
    assert(ca@ =~= cb@);
    true
}

/// Number of records among the first `n` that are counted and vote for
/// candidate index `c`.
pub open spec fn spec_tally_count(
    records: Seq<BallotRecord>,
    counted: Seq<bool>,
    c: nat,
    n: nat,
) -> nat
    decreases n,
{
    if n == 0 {
        0
    } else {
        spec_tally_count(records, counted, c, (n - 1) as nat) + if counted[n - 1]
            && records[n - 1].cand_index == c {
            1nat
        } else {
            0nat
        }
    }
}

/// Per-candidate tally T_c = sum_j counted_j * [m_j == c] over `num_cands`
/// candidate indices (pairs beyond the shorter list are ignored).
pub fn tally_from_counted(
    records: &[BallotRecord],
    counted: &[bool],
    num_cands: usize,
) -> (r: Vec<u64>)
    requires
        forall|j: int|
            0 <= j < records@.len() && j < counted@.len() && #[trigger] counted@[j]
                ==> records@[j].cand_index < num_cands,
    ensures
        r@.len() == num_cands,
        forall|c: int|
            0 <= c < num_cands ==> #[trigger] r@[c] as nat == spec_tally_count(
                records@,
                counted@,
                c as nat,
                if records@.len() < counted@.len() {
                    records@.len()
                } else {
                    counted@.len()
                },
            ),
{
    let n = if records.len() < counted.len() {
        records.len()
    } else {
        counted.len()
    };
    let mut counts: Vec<u64> = Vec::new();
    let mut z: usize = 0;
    while z < num_cands
        invariant
            z <= num_cands,
            counts@.len() == z,
            forall|c: int| 0 <= c < z ==> #[trigger] counts@[c] == 0,
        decreases num_cands - z,
    {
        counts.push(0);
        z += 1;
    }
    let mut j: usize = 0;
    while j < n
        invariant
            n <= records@.len(),
            n <= counted@.len(),
            j <= n,
            counts@.len() == num_cands,
            forall|m: int|
                0 <= m < records@.len() && m < counted@.len() && #[trigger] counted@[m]
                    ==> records@[m].cand_index < num_cands,
            forall|c: int|
                0 <= c < num_cands ==> #[trigger] counts@[c] as nat == spec_tally_count(
                    records@,
                    counted@,
                    c as nat,
                    j as nat,
                ),
            forall|c: int| 0 <= c < num_cands ==> #[trigger] counts@[c] <= j,
        decreases n - j,
    {
        if counted[j] {
            let c = records[j].cand_index as usize;
            counts.set(c, counts[c] + 1);
        }
        j += 1;
    }
    counts
}

} // verus!
