//! What the tally relation counts: on a network output sorted by the
//! packed key, the block count of every candidate equals the
//! first-valid-counts tally of the slot records in board order — the
//! FilterAndTally rule that only the first valid ballot per voter counts.

use vstd::prelude::*;

use crate::zk::mock_backend::{
    pairs_in_range, sched_cnt, sched_i, sched_j, sched_k, sched_p, spec_batcher, spec_block_tally, spec_ce,
    spec_counts_at, spec_key, spec_network, spec_relation, spec_slot_eval, spec_slot_records, Rec,
};
use crate::zk::statement::TallyStatement;
use crate::zk::witness::TallyWitness;
use crate::zk::CircuitShape;

verus! {

broadcast use vstd::seq_lib::group_to_multiset_ensures;

/// Slot i is a valid ballot whose voter has no earlier valid ballot: the
/// first-valid-counts rule over the records in board order.
pub open spec fn spec_first_valid(r: Seq<Rec>, i: int) -> bool {
    &&& r[i].valid
    &&& !exists|k: int| 0 <= k < i && #[trigger] r[k].valid && r[k].id == r[i].id
}

/// The first-valid-counts tally of candidate index c over the first n
/// records in board order.
pub open spec fn spec_first_valid_tally(r: Seq<Rec>, c: nat, n: nat) -> nat
    decreases n,
{
    if n == 0 {
        0
    } else {
        spec_first_valid_tally(r, c, (n - 1) as nat) + if spec_first_valid(r, n - 1) && r[n - 1].m == c {
            1nat
        } else {
            0nat
        }
    }
}

/// The sequence is in nondecreasing packed-key order.
pub open spec fn spec_key_sorted(s: Seq<Rec>) -> bool {
    forall|i: int, j: int| 0 <= i < j < s.len() ==> spec_key(#[trigger] s[i]) <= spec_key(#[trigger] s[j])
}

/// The (valid first, id, pos) order that the packed key encodes.
pub open spec fn lex_le(a: Rec, b: Rec) -> bool {
    if a.valid != b.valid {
        a.valid
    } else if a.id != b.id {
        a.id < b.id
    } else {
        a.pos <= b.pos
    }
}

/// Ids and positions fit their 8-bit key fields.
pub open spec fn small(r: Rec) -> bool {
    r.id < 256 && r.pos < 256
}

/// On records with 8-bit ids and positions the packed key orders as
/// (valid first, id, pos) and determines those three fields.
proof fn lemma_key_lex(a: Rec, b: Rec)
    requires
        small(a),
        small(b),
    ensures
        spec_key(a) <= spec_key(b) <==> lex_le(a, b),
        spec_key(a) == spec_key(b) ==> a.valid == b.valid && a.id == b.id && a.pos == b.pos,
{
    let va: u64 = if a.valid { 0 } else { 1 };
    let vb: u64 = if b.valid { 0 } else { 1 };
    let ia = a.id;
    let pa = a.pos;
    let ib = b.id;
    let pb = b.pos;
    assert((va << 16u64) | (ia << 8u64) | pa == va * 65536 + ia * 256 + pa) by (bit_vector)
        requires
            va <= 1,
            ia < 256,
            pa < 256,
    ;
    assert((vb << 16u64) | (ib << 8u64) | pb == vb * 65536 + ib * 256 + pb) by (bit_vector)
        requires
            vb <= 1,
            ib < 256,
            pb < 256,
    ;
}


proof fn lemma_pairs_concat(a: Seq<(usize, usize)>, b: Seq<(usize, usize)>, n: int)
    requires
        pairs_in_range(a, n),
        pairs_in_range(b, n),
    ensures
        pairs_in_range(a + b, n),
{
    assert forall|t: int| 0 <= t < (a + b).len() implies (#[trigger] (a + b)[t]).0 < (a + b)[t].1 && (a + b)[t].1 < n by {
        if t < a.len() {
            assert((a + b)[t] == a[t]);
        } else {
            assert((a + b)[t] == b[t - a.len()]);
        }
    }
}

proof fn lemma_sched_i_range(p: int, k: int, j: int, i: int, cnt: int, n: int)
    requires
        k >= 1,
        j >= 0,
        i >= 0,
        j + k + cnt <= n,
        n <= usize::MAX,
    ensures
        pairs_in_range(sched_i(p, k, j, i, cnt), n),
    decreases cnt - i,
{
    if i < cnt {
        lemma_sched_i_range(p, k, j, i + 1, cnt, n);
        let here: Seq<(usize, usize)> = if (i + j) / (2 * p) == (i + j + k) / (2 * p) {
            seq![((i + j) as usize, (i + j + k) as usize)]
        } else {
            Seq::empty()
        };
        assert(pairs_in_range(here, n));
        lemma_pairs_concat(here, sched_i(p, k, j, i + 1, cnt), n);
    }
}

proof fn lemma_sched_j_range(n: int, p: int, k: int, j: int)
    requires
        n <= usize::MAX,
    ensures
        pairs_in_range(sched_j(n, p, k, j), n),
    decreases n + k - j,
{
    if !(k < 1 || j + k >= n || j < 0) {
        let cnt = sched_cnt(n, k, j);
        lemma_sched_i_range(p, k, j, 0, cnt, n);
        lemma_sched_j_range(n, p, k, j + 2 * k);
        lemma_pairs_concat(sched_i(p, k, j, 0, cnt), sched_j(n, p, k, j + 2 * k), n);
    }
}

proof fn lemma_sched_k_range(n: int, p: int, k: int)
    requires
        n <= usize::MAX,
    ensures
        pairs_in_range(sched_k(n, p, k), n),
    decreases k,
{
    if !(k < 1 || p < 1) {
        lemma_sched_j_range(n, p, k, k % p);
        lemma_sched_k_range(n, p, k / 2);
        lemma_pairs_concat(sched_j(n, p, k, k % p), sched_k(n, p, k / 2), n);
    }
}

proof fn lemma_sched_p_range(n: int, p: int)
    requires
        n <= usize::MAX,
    ensures
        pairs_in_range(sched_p(n, p), n),
    decreases 2 * n - p,
{
    if !(p < 1 || p >= n) {
        lemma_sched_k_range(n, p, p);
        lemma_sched_p_range(n, 2 * p);
        lemma_pairs_concat(sched_k(n, p, p), sched_p(n, 2 * p), n);
    }
}

/// Every comparator of the Batcher schedule joins two wires a < b < n.
pub proof fn lemma_batcher_in_range(n: int)
    requires
        n <= usize::MAX,
    ensures
        pairs_in_range(spec_batcher(n), n),
{
    lemma_sched_p_range(n, 1);
}

/// A compare-exchange keeps the multiset of records.
proof fn lemma_ce_multiset(recs: Seq<Rec>, pr: (usize, usize))
    requires
        pr.0 < pr.1 < recs.len(),
    ensures
        spec_ce(recs, pr).to_multiset() == recs.to_multiset(),
        spec_ce(recs, pr).len() == recs.len(),
{
    broadcast use vstd::multiset::group_multiset_axioms;

    let a = pr.0 as int;
    let b = pr.1 as int;
    if spec_key(recs[a]) > spec_key(recs[b]) {
        let u = recs.update(a, recs[b]);
        assert(u[b] == recs[b]);
        assert(u.update(b, recs[a]).to_multiset() =~= recs.to_multiset());
    }
}

/// The network permutes the records.
pub proof fn lemma_network_multiset(recs: Seq<Rec>, sched: Seq<(usize, usize)>)
    requires
        pairs_in_range(sched, recs.len() as int),
    ensures
        spec_network(recs, sched).to_multiset() == recs.to_multiset(),
        spec_network(recs, sched).len() == recs.len(),
    decreases sched.len(),
{
    if sched.len() > 0 {
        assert(pairs_in_range(sched.drop_last(), recs.len() as int)) by {
            assert forall|t: int| 0 <= t < sched.drop_last().len() implies (#[trigger] sched.drop_last()[t]).0
                < sched.drop_last()[t].1 && sched.drop_last()[t].1 < recs.len() by {
                assert(sched.drop_last()[t] == sched[t]);
            }
        }
        lemma_network_multiset(recs, sched.drop_last());
        assert(sched.last() == sched[sched.len() - 1]);
        lemma_ce_multiset(spec_network(recs, sched.drop_last()), sched.last());
    }
}

/// The number of elements of s that satisfy q.
pub open spec fn count_where(s: Seq<Rec>, q: spec_fn(Rec) -> bool) -> nat
    decreases s.len(),
{
    if s.len() == 0 {
        0
    } else {
        count_where(s.drop_last(), q) + if q(s.last()) {
            1nat
        } else {
            0nat
        }
    }
}

proof fn lemma_count_remove(s: Seq<Rec>, q: spec_fn(Rec) -> bool, k: int)
    requires
        0 <= k < s.len(),
    ensures
        count_where(s, q) == count_where(s.remove(k), q) + if q(s[k]) {
            1nat
        } else {
            0nat
        },
    decreases s.len(),
{
    if k == s.len() - 1 {
        assert(s.remove(k) =~= s.drop_last());
    } else {
        lemma_count_remove(s.drop_last(), q, k);
        assert(s.remove(k).drop_last() =~= s.drop_last().remove(k));
        assert(s.remove(k).last() == s.last());
    }
}

/// Counting is invariant under permutation.
proof fn lemma_count_perm(s: Seq<Rec>, t: Seq<Rec>, q: spec_fn(Rec) -> bool)
    requires
        s.to_multiset() == t.to_multiset(),
    ensures
        count_where(s, q) == count_where(t, q),
    decreases s.len(),
{
    broadcast use vstd::multiset::group_multiset_axioms;

    assert(s.to_multiset().len() == s.len());
    assert(t.to_multiset().len() == t.len());
    if s.len() == 0 {
        assert(t.len() == 0);
    } else {
        let x = s.last();
        assert(s.contains(x)) by {
            assert(s[s.len() - 1] == x);
        }
        assert(s.to_multiset().count(x) > 0);
        assert(t.contains(x));
        let k = choose|k: int| 0 <= k < t.len() && t[k] == x;
        lemma_count_remove(t, q, k);
        assert(s.remove(s.len() - 1) =~= s.drop_last());
        assert(s.drop_last().to_multiset() == s.to_multiset().remove(x));
        assert(t.remove(k).to_multiset() == t.to_multiset().remove(x));
        lemma_count_perm(s.drop_last(), t.remove(k), q);
    }
}

/// The block tally over the first n entries is a count of an element predicate.
proof fn lemma_block_count(s: Seq<Rec>, c: nat, n: nat, q: spec_fn(Rec) -> bool)
    requires
        n <= s.len(),
        forall|j: int| 0 <= j < n ==> (spec_counts_at(s, j) && s[j].m == c) == q(#[trigger] s[j]),
    ensures
        spec_block_tally(s, c, n) == count_where(s.take(n as int), q),
    decreases n,
{
    if n > 0 {
        lemma_block_count(s, c, (n - 1) as nat, q);
        assert(s.take(n as int).drop_last() =~= s.take(n - 1));
        assert(s.take(n as int).last() == s[n - 1]);
    } else {
        assert(s.take(0).len() == 0);
    }
}

/// The first-valid tally over the first n records is a count of an element
/// predicate.
proof fn lemma_first_valid_count(r: Seq<Rec>, c: nat, n: nat, q: spec_fn(Rec) -> bool)
    requires
        n <= r.len(),
        forall|i: int| 0 <= i < n ==> (spec_first_valid(r, i) && r[i].m == c) == q(#[trigger] r[i]),
    ensures
        spec_first_valid_tally(r, c, n) == count_where(r.take(n as int), q),
    decreases n,
{
    if n > 0 {
        lemma_first_valid_count(r, c, (n - 1) as nat, q);
        assert(r.take(n as int).drop_last() =~= r.take(n - 1));
        assert(r.take(n as int).last() == r[n - 1]);
    } else {
        assert(r.take(0).len() == 0);
    }
}

/// On a key-sorted permutation s of records r that sit at their own
/// positions with 8-bit ids and positions, slot j of s starts a valid
/// identity block exactly when its record is the first valid record of
/// its voter in r.
proof fn lemma_block_is_first_valid(r: Seq<Rec>, s: Seq<Rec>, j: int)
    requires
        s.to_multiset() == r.to_multiset(),
        forall|i: int| 0 <= i < r.len() ==> (#[trigger] r[i]).pos == i && small(r[i]),
        spec_key_sorted(s),
        0 <= j < s.len(),
    ensures
        0 <= s[j].pos < r.len(),
        r[s[j].pos as int] == s[j],
        spec_counts_at(s, j) == spec_first_valid(r, s[j].pos as int),
{
    assert(s.to_multiset().len() == s.len());
    assert(r.to_multiset().len() == r.len());
    assert(s.len() == r.len());
    assert forall|m: int| 0 <= m < s.len() implies (#[trigger] s[m]).pos < r.len() && r[s[m].pos as int] == s[m] && small(s[m]) by {
        assert(s.contains(s[m]));
        assert(s.to_multiset().count(s[m]) > 0);
        assert(r.contains(s[m]));
        let k = choose|k: int| 0 <= k < r.len() && r[k] == s[m];
        assert(r[k].pos == k);
    }
    let i = s[j].pos as int;
    if spec_counts_at(s, j) {
        if exists|k: int| 0 <= k < i && #[trigger] r[k].valid && r[k].id == r[i].id {
            let k = choose|k: int| 0 <= k < i && #[trigger] r[k].valid && r[k].id == r[i].id;
            assert(r.contains(r[k]));
            assert(r.to_multiset().count(r[k]) > 0);
            assert(s.contains(r[k]));
            let jk = choose|m: int| 0 <= m < s.len() && s[m] == r[k];
            assert(r[k].pos == k);
            lemma_key_lex(s[jk], s[j]);
            lemma_key_lex(s[j], s[jk]);
            if jk >= j {
                if jk > j {
                    assert(spec_key(s[j]) <= spec_key(s[jk]));
                }
                assert(false);
            }
            assert(j > 0);
            lemma_key_lex(s[jk], s[j - 1]);
            lemma_key_lex(s[j - 1], s[j]);
            if jk < j - 1 {
                assert(spec_key(s[jk]) <= spec_key(s[j - 1]));
            }
            assert(spec_key(s[j - 1]) <= spec_key(s[j]));
            assert(s[j - 1].id == s[j].id);
            assert(false);
        }
    } else if spec_first_valid(r, i) {
        assert(j > 0 && s[j - 1].id == s[j].id);
        let prev = s[j - 1];
        lemma_key_lex(prev, s[j]);
        assert(spec_key(prev) <= spec_key(s[j]));
        assert(prev.valid);
        let pp = prev.pos as int;
        assert(r[pp] == prev);
        if pp == i {
            assert(s.to_multiset().count(prev) >= 2) by {
                let sj = s[j];
                assert(prev == sj);
                assert(s.remove(j).contains(prev)) by {
                    assert(s.remove(j)[j - 1] == prev);
                }
                assert(s.remove(j).to_multiset().count(prev) > 0);
                assert(s.remove(j).to_multiset() == s.to_multiset().remove(sj));
            }
            assert(r.to_multiset().count(prev) >= 2);
            assert(r.to_multiset().count(prev) <= 1) by {
                assert(r.no_duplicates()) by {
                    assert forall|a: int, b: int| 0 <= a < r.len() && 0 <= b < r.len() && a != b implies r[a] != r[b] by {
                        assert(r[a].pos == a && r[b].pos == b);
                    }
                }
                r.lemma_multiset_has_no_duplicates();
            }
        }
        assert(pp < i);
        assert(r[pp].valid && r[pp].id == r[i].id);
    }
}

/// What the tally relation counts: when the sorting network's output is in
/// key order (the network's job), every accepted statement's count for
/// candidate index c is the first-valid-counts tally of the slot records in
/// board order — only the first valid ballot of each voter counts.
pub proof fn lemma_relation_counts_first_valid(st: TallyStatement, w: TallyWitness, shape: CircuitShape, c: int)
    requires
        spec_relation(st, w, shape),
        shape.num_ballots <= 256,
        0 <= c < shape.num_candidates,
        spec_key_sorted(spec_network(spec_slot_records(st, w, shape), spec_batcher(shape.num_ballots as int))),
    ensures
        st.tally_counts@[c] == spec_first_valid_tally(spec_slot_records(st, w, shape), c as nat, shape.num_ballots as nat),
{
    let nb = shape.num_ballots;
    let r = spec_slot_records(st, w, shape);
    let sched = spec_batcher(nb as int);
    lemma_batcher_in_range(nb as int);
    lemma_network_multiset(r, sched);
    let s = spec_network(r, sched);
    assert forall|i: int| 0 <= i < r.len() implies (#[trigger] r[i]).pos == i && small(r[i]) by {
        assert(spec_slot_eval(st, w, shape, i) is Some);
        assert(r[i] == spec_slot_eval(st, w, shape, i)->0);
    }
    let q = |e: Rec| spec_first_valid(r, e.pos as int) && e.m == c as nat;
    assert forall|j: int| 0 <= j < nb implies (spec_counts_at(s, j) && s[j].m == c as nat) == q(#[trigger] s[j]) by {
        lemma_block_is_first_valid(r, s, j);
    }
    assert forall|i: int| 0 <= i < nb implies (spec_first_valid(r, i) && r[i].m == c as nat) == q(#[trigger] r[i]) by {}
    lemma_block_count(s, c as nat, nb as nat, q);
    lemma_first_valid_count(r, c as nat, nb as nat, q);
    assert(s.take(nb as int) =~= s);
    assert(r.take(nb as int) =~= r);
    lemma_count_perm(s, r, q);
}

/// The circuit's first-valid tally is FilterAndTally's: over records that
/// agree field by field with FilterAndTally's ballot records (validity,
/// voter id, candidate index), the first-valid-counts tally equals
/// `spec_tally_count` over `spec_counted_flags`.
pub proof fn lemma_first_valid_is_filter_and_tally(
    r: Seq<Rec>,
    br: Seq<crate::protocol::duplicates::BallotRecord>,
    c: nat,
    n: nat,
)
    requires
        n <= r.len(),
        r.len() == br.len(),
        forall|i: int|
            0 <= i < r.len() ==> (#[trigger] r[i]).valid == br[i].valid && r[i].id == br[i].id && r[i].m
                == br[i].cand_index,
    ensures
        spec_first_valid_tally(r, c, n) == crate::protocol::duplicates::spec_tally_count(
            br,
            crate::protocol::filter_and_tally::spec_counted_flags(br),
            c,
            n,
        ),
    decreases n,
{
    if n > 0 {
        lemma_first_valid_is_filter_and_tally(r, br, c, (n - 1) as nat);
        let i = n - 1;
        let fl = crate::protocol::filter_and_tally::spec_counted_flags(br);
        assert(fl[i] == crate::protocol::duplicates::spec_counted_naive(br, i));
        assert(r[i].valid == br[i].valid);
        if spec_first_valid(r, i) != crate::protocol::duplicates::spec_counted_naive(br, i) {
            if spec_first_valid(r, i) {
                let k = choose|k: int| 0 <= k < i && #[trigger] br[k].valid && br[k].id == br[i].id;
                assert(r[k].valid && r[k].id == r[i].id);
            } else {
                let k = choose|k: int| 0 <= k < i && #[trigger] r[k].valid && r[k].id == r[i].id;
                assert(br[k].valid && br[k].id == br[i].id);
            }
        }
    }
}

} // verus!
