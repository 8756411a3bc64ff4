//! The chunked FilterAndTally pipeline for boards larger than one circuit:
//! prover-side construction, the native relation check of every chunk
//! circuit and of the aggregator, and the public-data-only transcript
//! checks.
//!
//! K chunks of C slots (the board padded to K*C, activity gated by the
//! public num_ballots):
//!   phase 1: K validity chunks (per-slot validity with the monolithic
//!            semantics of `eval_row`, a board-chain segment, a blinded
//!            record commitment rc_k), plus the sorted-run commitments sc_k;
//!   Fiat-Shamir: (gamma, delta) = H(statement, rc, sc);
//!   phase 2: K sorted-run chunks (re-open rc_k and sc_k, boundary-record
//!            chain, sortedness across runs, first-valid counting, hiding
//!            partial-tally commitment tc_k, running grand products of
//!            gamma - enc(record) over the sorted and the original side);
//!   final:   the partial tallies sum to the public counts and the two final
//!            grand products are equal (the permutation check).

use vstd::prelude::*;

use crate::crypto::hash::{
    candidate_vals, poseidon, poseidon2, poseidon5, poseidon_spec, spec_chain, vals,
};
use crate::errors::{msg, CrDrError, Result};
use crate::field::{p, Fe};
use crate::protocol::bulletin_board::AdmittedBoard;
use crate::types::{f_to_dec, spec_decimal};
use crate::zk::mock_backend::{eval_row, rec_m_ok, row_view, spec_eval_row, spec_key_wide, spec_sentinel, Rec};
use crate::zk::witness::BallotWitnessRow;
use crate::zk::bits::two_pow;
use crate::zk::statement::TallyStatement;

verus! {

/// Chunk size of the compiled chunk circuits (C).
pub const CHUNK_SIZE: usize = 128;

/// Field addition, multiplication and subtraction on values.
pub open spec fn fadd(a: nat, b: nat) -> nat {
    (a + b) % p()
}

pub open spec fn fmul(a: nat, b: nat) -> nat {
    (a * b) % p()
}

pub open spec fn fsub(a: nat, b: nat) -> nat {
    ((a + p() - b) % (p() as int)) as nat
}

/// A record's four field values (valid, id, pos, m).
pub open spec fn rec_vals(r: Rec) -> Seq<nat> {
    seq![if r.valid { 1nat } else { 0nat }, r.id as nat, r.pos as nat, r.m as nat]
}

fn f_rec(r: &Rec) -> (out: [Fe; 4])
    ensures
        vals(out@) == rec_vals(*r),
{
    let v: u64 = if r.valid {
        1
    } else {
        0
    };
    let out = [Fe::from_u64(v), Fe::from_u64(r.id), Fe::from_u64(r.pos), Fe::from_u64(r.m)];
    assert(vals(out@) =~= rec_vals(*r));
    out
}

/// The blinded Poseidon chain over records (RecordChain).
pub open spec fn spec_record_chain(blind: nat, recs: Seq<Rec>) -> nat
    decreases recs.len(),
{
    if recs.len() == 0 {
        blind
    } else {
        let acc = spec_record_chain(blind, recs.drop_last());
        let f = rec_vals(recs.last());
        poseidon_spec(seq![acc, f[0], f[1], f[2], f[3]])
    }
}

/// Blinded Poseidon chain over records (mirrors RecordChain).
pub fn record_chain(blind: Fe, records: &[Rec]) -> (r: Fe)
    ensures
        r@ == spec_record_chain(blind@, records@),
{
    let mut acc = blind;
    let mut i: usize = 0;
    while i < records.len()
        invariant
            i <= records@.len(),
            acc@ == spec_record_chain(blind@, records@.subrange(0, i as int)),
        decreases records@.len() - i,
    {
        let f = f_rec(&records[i]);
        assert(records@.subrange(0, i + 1).drop_last() =~= records@.subrange(0, i as int));
        acc = poseidon5(acc, f[0], f[1], f[2], f[3]);
        i += 1;
    }
    assert(records@.subrange(0, records@.len() as int) =~= records@);
    acc
}

/// The hiding commitment to one record (RecordCommit).
pub open spec fn spec_record_commit(r: Rec, blind: nat) -> nat {
    poseidon_spec(rec_vals(r).push(blind))
}

/// Hiding commitment to one record (mirrors RecordCommit).
pub fn record_commit(r: &Rec, blind: Fe) -> (out: Fe)
    ensures
        out@ == spec_record_commit(*r, blind@),
{
    let f = f_rec(r);
    assert(seq![f[0]@, f[1]@, f[2]@, f[3]@, blind@] =~= rec_vals(*r).push(blind@));
    poseidon5(f[0], f[1], f[2], f[3], blind)
}

/// The public sentinel boundary commitment (blind 0).
pub open spec fn spec_sentinel_commitment() -> nat {
    spec_record_commit(spec_sentinel(), 0)
}

/// The public sentinel boundary commitment (blind 0, known to everyone).
pub fn sentinel_commitment() -> (r: Fe)
    ensures
        r@ == spec_sentinel_commitment(),
{
    record_commit(&Rec::sentinel(), Fe::zero())
}

/// The public start of both running-product commitment chains.
pub open spec fn spec_product_chain_start() -> nat {
    poseidon_spec(seq![1nat, 0nat])
}

/// The public start of both running-product commitment chains:
/// commit(value 1, blind 0).
pub fn product_chain_start() -> (r: Fe)
    ensures
        r@ == spec_product_chain_start(),
{
    poseidon2(Fe::one(), Fe::zero())
}

/// enc(r) = valid + delta*id + delta^2*pos + delta^3*m, in the field.
pub open spec fn spec_enc(r: Rec, d: nat) -> nat {
    let v = rec_vals(r);
    let d2 = fmul(d, d);
    let d3 = fmul(d2, d);
    fadd(fadd(fadd(v[0], fmul(d, v[1])), fmul(d2, v[2])), fmul(d3, v[3]))
}

fn enc(r: &Rec, delta: Fe) -> (out: Fe)
    ensures
        out@ == spec_enc(*r, delta@),
{
    let f = f_rec(r);
    let d2 = delta.mul(&delta);
    let d3 = d2.mul(&delta);
    let a = f[0].add(&delta.mul(&f[1]));
    let b = a.add(&d2.mul(&f[2]));
    b.add(&d3.mul(&f[3]))
}

/// The Fiat-Shamir challenges from the statement and all phase-1
/// commitments.
pub open spec fn spec_challenges(st: TallyStatement, rc: Seq<nat>, sc: Seq<nat>) -> (nat, nat) {
    let a0 = poseidon_spec(
        seq![
            st.eid_hash@,
            st.mr@,
            st.candidate_set_commitment@,
            st.bb_commitment@,
            st.num_ballots as nat,
            st.num_voters as nat,
            st.duplicate_rule_id as nat,
        ],
    );
    let acc = spec_chain(a0, rc + sc);
    (poseidon_spec(seq![acc, 1nat]), poseidon_spec(seq![acc, 2nat]))
}

/// Fiat-Shamir challenges from the statement and all phase-1 commitments.
pub fn derive_challenges(statement: &TallyStatement, rc: &[Fe], sc: &[Fe]) -> (r: (Fe, Fe))
    ensures
        (r.0@, r.1@) == spec_challenges(*statement, vals(rc@), vals(sc@)),
{
    let head = [
        statement.eid_hash,
        statement.mr,
        statement.candidate_set_commitment,
        statement.bb_commitment,
        Fe::from_u64(statement.num_ballots),
        Fe::from_u64(statement.num_voters),
        Fe::from_u64(statement.duplicate_rule_id),
    ];
    let mut acc = poseidon(&head);
    proof {
        assert(vals(head@) =~= seq![
            statement.eid_hash@,
            statement.mr@,
            statement.candidate_set_commitment@,
            statement.bb_commitment@,
            statement.num_ballots as nat,
            statement.num_voters as nat,
            statement.duplicate_rule_id as nat,
        ]);
    }
    let ghost a0 = acc@;
    let ghost all = vals(rc@) + vals(sc@);
    let mut i: usize = 0;
    while i < rc.len()
        invariant
            i <= rc@.len(),
            all == vals(rc@) + vals(sc@),
            acc@ == spec_chain(a0, all.subrange(0, i as int)),
        decreases rc@.len() - i,
    {
        assert(all.subrange(0, i + 1).drop_last() =~= all.subrange(0, i as int));
        assert(all[i as int] == rc@[i as int]@);
        acc = poseidon2(acc, rc[i]);
        i += 1;
    }
    let mut j: usize = 0;
    while j < sc.len()
        invariant
            j <= sc@.len(),
            all == vals(rc@) + vals(sc@),
            acc@ == spec_chain(a0, all.subrange(0, rc@.len() + j)),
        decreases sc@.len() - j,
    {
        assert(all.subrange(0, rc@.len() + j + 1).drop_last() =~= all.subrange(0, rc@.len() + j));
        assert(all[rc@.len() + j] == sc@[j as int]@);
        acc = poseidon2(acc, sc[j]);
        j += 1;
    }
    assert(all.subrange(0, all.len() as int) =~= all);
    (poseidon2(acc, Fe::from_u64(1)), poseidon2(acc, Fe::from_u64(2)))
}

// ---------------------------------------------------------------------------
// The public transcript and its public-data-only checks
// ---------------------------------------------------------------------------

/// The public transcript of a chunked tally: exactly the values in the
/// 2K+1 proofs' public inputs. Board-chain snapshots are recomputable from
/// BB_adm; every other value that depends on private records is a hiding
/// commitment; (gamma, delta) are recomputable from the statement and
/// rc/sc.
#[derive(Debug, Clone, PartialEq, Eq)]
pub struct ChunkedTranscript {
    pub chunk_size: usize,
    pub bb: Vec<Fe>,
    pub rc: Vec<Fe>,
    pub sc: Vec<Fe>,
    pub boundary_cm: Vec<Fe>,
    pub tc: Vec<Fe>,
    pub acc_p_cm: Vec<Fe>,
    pub acc_q_cm: Vec<Fe>,
    pub gamma: Fe,
    pub delta: Fe,
}

/// Which chunk circuit a proof belongs to.
#[derive(Debug, Clone, Copy, PartialEq, Eq, Structural)]
pub enum ChunkKind {
    Validity,
    SortedRun,
    TallySum,
}

/// The values of the expected public inputs of ValidityChunk k.
pub open spec fn spec_validity_publics(st: TallyStatement, tr: ChunkedTranscript, k: int) -> Seq<Seq<char>> {
    seq![
        spec_decimal(st.eid_hash@),
        spec_decimal(st.mr@),
        spec_decimal(st.candidate_set_commitment@),
        spec_decimal(st.num_ballots as nat),
        spec_decimal(st.num_voters as nat),
        spec_decimal(st.duplicate_rule_id as nat),
        spec_decimal((k * tr.chunk_size) as nat),
        spec_decimal(tr.bb@[k]@),
        spec_decimal(tr.bb@[k + 1]@),
        spec_decimal(tr.rc@[k]@),
    ]
}

/// Expected public inputs of ValidityChunk k, from public data only.
pub fn transcript_validity_publics(st: &TallyStatement, tr: &ChunkedTranscript, k: usize) -> (r: Vec<String>)
    requires
        k + 1 < tr.bb@.len(),
        k < tr.rc@.len(),
    ensures
        r@.len() == 10,
        forall|i: int| 0 <= i < 10 ==> #[trigger] r@[i]@ == spec_validity_publics(*st, *tr, k as int)[i],
{
    let nbb = tr.bb.len();
    let base = Fe::from_u64(k as u64).mul(&Fe::from_u64(tr.chunk_size as u64));
    proof {
        let kk = k as nat;
        let cc = tr.chunk_size as nat;
        assert(kk < 0x1_0000_0000_0000_0000 && cc < 0x1_0000_0000_0000_0000);
        assert(kk * cc < 0x1_0000_0000_0000_0000_0000_0000_0000_0000nat) by (nonlinear_arith)
            requires
                kk < 0x1_0000_0000_0000_0000nat,
                cc < 0x1_0000_0000_0000_0000nat,
        ;
        assert(kk * cc < p());
        vstd::arithmetic::div_mod::lemma_small_mod(kk * cc, p());
    }
    let v = vec![
        f_to_dec(&st.eid_hash),
        f_to_dec(&st.mr),
        f_to_dec(&st.candidate_set_commitment),
        f_to_dec(&Fe::from_u64(st.num_ballots)),
        f_to_dec(&Fe::from_u64(st.num_voters)),
        f_to_dec(&Fe::from_u64(st.duplicate_rule_id)),
        f_to_dec(&base),
        f_to_dec(&tr.bb[k]),
        f_to_dec(&tr.bb[k + 1]),
        f_to_dec(&tr.rc[k]),
    ];
    v
}

/// The values of the expected public inputs of SortedRunChunk k.
pub open spec fn spec_sorted_run_publics(tr: ChunkedTranscript, k: int) -> Seq<Seq<char>> {
    seq![
        spec_decimal(tr.gamma@),
        spec_decimal(tr.delta@),
        spec_decimal(tr.rc@[k]@),
        spec_decimal(tr.sc@[k]@),
        spec_decimal(tr.boundary_cm@[k]@),
        spec_decimal(tr.boundary_cm@[k + 1]@),
        spec_decimal(tr.tc@[k]@),
        spec_decimal(tr.acc_p_cm@[k]@),
        spec_decimal(tr.acc_p_cm@[k + 1]@),
        spec_decimal(tr.acc_q_cm@[k]@),
        spec_decimal(tr.acc_q_cm@[k + 1]@),
    ]
}

/// Expected public inputs of SortedRunChunk k, from public data only.
pub fn transcript_sorted_run_publics(tr: &ChunkedTranscript, k: usize) -> (r: Vec<String>)
    requires
        k < tr.rc@.len(),
        k < tr.sc@.len(),
        k < tr.tc@.len(),
        k + 1 < tr.boundary_cm@.len(),
        k + 1 < tr.acc_p_cm@.len(),
        k + 1 < tr.acc_q_cm@.len(),
    ensures
        r@.len() == 11,
        forall|i: int| 0 <= i < 11 ==> #[trigger] r@[i]@ == spec_sorted_run_publics(*tr, k as int)[i],
{
    let nbc = tr.boundary_cm.len();
    vec![
        f_to_dec(&tr.gamma),
        f_to_dec(&tr.delta),
        f_to_dec(&tr.rc[k]),
        f_to_dec(&tr.sc[k]),
        f_to_dec(&tr.boundary_cm[k]),
        f_to_dec(&tr.boundary_cm[k + 1]),
        f_to_dec(&tr.tc[k]),
        f_to_dec(&tr.acc_p_cm[k]),
        f_to_dec(&tr.acc_p_cm[k + 1]),
        f_to_dec(&tr.acc_q_cm[k]),
        f_to_dec(&tr.acc_q_cm[k + 1]),
    ]
}

/// The values of the expected public inputs of the TallySum proof: tc[..],
/// the final accumulator commitments, then the tally counts.
pub open spec fn spec_tally_sum_publics(st: TallyStatement, tr: ChunkedTranscript) -> Seq<Seq<char>> {
    let k = tr.rc@.len() as int;
    Seq::new(tr.tc@.len(), |i: int| spec_decimal(tr.tc@[i]@)) + seq![
        spec_decimal(tr.acc_p_cm@[k]@),
        spec_decimal(tr.acc_q_cm@[k]@),
    ] + Seq::new(st.tally_counts@.len(), |i: int| spec_decimal(st.tally_counts@[i] as nat))
}

/// Expected public inputs of the TallySum proof, from public data only.
pub fn transcript_tally_sum_publics(st: &TallyStatement, tr: &ChunkedTranscript) -> (r: Vec<String>)
    requires
        tr.rc@.len() < tr.acc_p_cm@.len(),
        tr.rc@.len() < tr.acc_q_cm@.len(),
    ensures
        r@.len() == spec_tally_sum_publics(*st, *tr).len(),
        forall|i: int| 0 <= i < r@.len() ==> #[trigger] r@[i]@ == spec_tally_sum_publics(*st, *tr)[i],
{
    let ghost target = spec_tally_sum_publics(*st, *tr);
    let k = tr.rc.len();
    let mut v: Vec<String> = Vec::new();
    let mut i: usize = 0;
    while i < tr.tc.len()
        invariant
            target == spec_tally_sum_publics(*st, *tr),
            i <= tr.tc@.len(),
            v@.len() == i,
            forall|m: int| 0 <= m < i ==> #[trigger] v@[m]@ == target[m],
        decreases tr.tc@.len() - i,
    {
        v.push(f_to_dec(&tr.tc[i]));
        i += 1;
    }
    v.push(f_to_dec(&tr.acc_p_cm[k]));
    v.push(f_to_dec(&tr.acc_q_cm[k]));
    let base = v.len();
    let mut j: usize = 0;
    while j < st.tally_counts.len()
        invariant
            target == spec_tally_sum_publics(*st, *tr),
            base == tr.tc@.len() + 2,
            j <= st.tally_counts@.len(),
            v@.len() == base + j,
            forall|m: int| 0 <= m < v@.len() ==> #[trigger] v@[m]@ == target[m],
        decreases st.tally_counts@.len() - j,
    {
        v.push(f_to_dec(&Fe::from_u64(st.tally_counts[j])));
        j += 1;
    }
    v
}

/// The board-chain snapshots the admitted board determines: bb[k] is the
/// chain over the first min(k*C, N) admitted commitments.
pub open spec fn spec_bb_snapshot(coms: Seq<Fe>, c: nat, k: nat) -> nat {
    let upto = if k * c < coms.len() { k * c } else { coms.len() };
    spec_chain(0, vals(coms.subrange(0, upto as int)))
}

/// The structural public checks over (statement, admitted board,
/// transcript): shapes; the board chain recomputed from BB_adm and ending
/// in the statement's bb_commitment; the public sentinel and product-chain
/// starts; the Fiat-Shamir challenges.
pub open spec fn spec_transcript_ok(st: TallyStatement, admitted: AdmittedBoard, tr: ChunkedTranscript) -> bool {
    let k = tr.rc@.len();
    let c = tr.chunk_size as nat;
    &&& k > 0
    &&& c > 0
    &&& tr.bb@.len() == k + 1
    &&& tr.sc@.len() == k
    &&& tr.boundary_cm@.len() == k + 1
    &&& tr.tc@.len() == k
    &&& tr.acc_p_cm@.len() == k + 1
    &&& tr.acc_q_cm@.len() == k + 1
    &&& st.num_ballots == admitted.coms@.len()
    &&& admitted.coms@.len() <= k * c
    &&& st.num_ballots < 0x100_0000
    &&& forall|i: int| 0 <= i <= k ==> #[trigger] tr.bb@[i]@ == spec_bb_snapshot(admitted.coms@, c, i as nat)
    &&& tr.bb@[k as int]@ == st.bb_commitment@
    &&& tr.boundary_cm@[0]@ == spec_sentinel_commitment()
    &&& tr.acc_p_cm@[0]@ == spec_product_chain_start()
    &&& tr.acc_q_cm@[0]@ == spec_product_chain_start()
    &&& (tr.gamma@, tr.delta@) == spec_challenges(st, vals(tr.rc@), vals(tr.sc@))
}

proof fn lemma_snapshot_step(n: nat, c: nat, i: nat, j: nat)
    requires
        c > 0,
        i * c == j + 1,
    ensures
        (j + 1) % c == 0,
        (j + 1) / c == i,
{
    vstd::arithmetic::div_mod::lemma_mod_multiples_basic(i as int, c as int);
    vstd::arithmetic::div_mod::lemma_div_multiples_vanish(i as int, c as int);
    vstd::arithmetic::mul::lemma_mul_is_commutative(i as int, c as int);
}

proof fn lemma_snapshot_cover(n: nat, c: nat, i: nat)
    requires
        c > 0,
    ensures
        i <= n / c ==> i * c <= n,
        i > n / c ==> i * c > n,
{
    vstd::arithmetic::div_mod::lemma_fundamental_div_mod(n as int, c as int);
    if i <= n / c {
        vstd::arithmetic::mul::lemma_mul_inequality(i as int, (n / c) as int, c as int);
        vstd::arithmetic::mul::lemma_mul_is_commutative((n / c) as int, c as int);
    } else {
        vstd::arithmetic::mul::lemma_mul_inequality((n / c + 1) as int, i as int, c as int);
        vstd::arithmetic::mul::lemma_mul_is_distributive_add(c as int, (n / c) as int, 1);
        vstd::arithmetic::mul::lemma_mul_is_commutative((n / c) as int, c as int);
        vstd::arithmetic::mul::lemma_mul_is_commutative((n / c + 1) as int, c as int);
    }
}

/// The structural public checks of a chunked transcript (see
/// `spec_transcript_ok`), from public data only.
pub fn check_chunked_transcript(st: &TallyStatement, admitted: &AdmittedBoard, tr: &ChunkedTranscript) -> (r: bool)
    ensures
        r == spec_transcript_ok(*st, *admitted, *tr),
{
    let k_chunks = tr.rc.len();
    let c = tr.chunk_size;
    if k_chunks == 0 || c == 0 || tr.bb.len() == 0 || tr.bb.len() - 1 != k_chunks || tr.sc.len()
        != k_chunks || tr.boundary_cm.len() == 0 || tr.boundary_cm.len() - 1 != k_chunks
        || tr.tc.len() != k_chunks || tr.acc_p_cm.len() == 0 || tr.acc_p_cm.len() - 1 != k_chunks
        || tr.acc_q_cm.len() == 0 || tr.acc_q_cm.len() - 1 != k_chunks {
        return false;
    }
    let n = admitted.coms.len();
    if st.num_ballots != n as u64 || n / c >= k_chunks + 1 || (n / c == k_chunks && n % c != 0)
        || st.num_ballots >= 0x100_0000 {
        proof {
            vstd::arithmetic::div_mod::lemma_fundamental_div_mod(n as int, c as int);
            if n / c >= k_chunks + 1 {
                lemma_snapshot_cover(n as nat, c as nat, (k_chunks + 1) as nat);
                vstd::arithmetic::mul::lemma_mul_inequality(k_chunks as int, (k_chunks + 1) as int, c as int);
                vstd::arithmetic::mul::lemma_mul_is_distributive_add(c as int, k_chunks as int, 1);
                vstd::arithmetic::mul::lemma_mul_is_commutative(k_chunks as int, c as int);
                vstd::arithmetic::mul::lemma_mul_is_commutative((k_chunks + 1) as int, c as int);
                assert((n / c) * c >= (k_chunks + 1) * c) by (nonlinear_arith)
                    requires
                        n / c >= k_chunks + 1,
                        c > 0,
                ;
            }
            if n / c == k_chunks && n % c != 0 {
                vstd::arithmetic::mul::lemma_mul_is_commutative((n / c) as int, c as int);
                assert(n as int == k_chunks * c + n % c);
            }
        }
        return false;
    }
    proof {
        vstd::arithmetic::div_mod::lemma_fundamental_div_mod(n as int, c as int);
        if n / c < k_chunks {
            assert((n / c) * c + n % c <= k_chunks * c) by (nonlinear_arith)
                requires
                    n / c < k_chunks,
                    n % c < c,
                    c > 0,
            ;
        } else {
            assert((n / c) * c == k_chunks * c);
        }
        vstd::arithmetic::mul::lemma_mul_is_commutative((n / c) as int, c as int);
        assert(n as int == (n / c) * c + n % c);
        assert(n <= k_chunks * c);
    }
    let z = Fe::zero();
    if tr.bb[0] != z {
        proof {
            Fe::lemma_eq_iff_view_eq(tr.bb@[0], z);
            assert(admitted.coms@.subrange(0, 0) =~= Seq::<Fe>::empty());
            assert(vals(admitted.coms@.subrange(0, 0)) =~= Seq::<nat>::empty());
            assert(0 * c == 0);
        }
        return false;
    }
    let mut acc = Fe::zero();
    let mut j: usize = 0;
    proof {
        assert(admitted.coms@.subrange(0, 0) =~= Seq::<Fe>::empty());
        assert(vals(admitted.coms@.subrange(0, 0)) =~= Seq::<nat>::empty());
        Fe::lemma_eq_iff_view_eq(tr.bb@[0], z);
        assert forall|i: int| 0 <= i <= k_chunks && i * c <= 0 implies #[trigger] tr.bb@[i]@
            == spec_bb_snapshot(admitted.coms@, c as nat, i as nat) by {
            assert(i == 0) by (nonlinear_arith)
                requires
                    0 <= i,
                    i * c <= 0,
                    c > 0,
            ;
            assert(0 * c == 0);
        }
    }
    while j < n
        invariant
            n == admitted.coms@.len(),
            c == tr.chunk_size,
            c > 0,
            n <= k_chunks * c,
            tr.bb@.len() == k_chunks + 1,
            j <= n,
            acc@ == spec_chain(0, vals(admitted.coms@.subrange(0, j as int))),
            forall|i: int| 0 <= i <= k_chunks && i * c <= j ==> #[trigger] tr.bb@[i]@ == spec_bb_snapshot(
                admitted.coms@,
                c as nat,
                i as nat,
            ),
        decreases n - j,
    {
        let ghost prev = vals(admitted.coms@.subrange(0, j as int));
        acc = poseidon2(acc, admitted.coms[j]);
        assert(vals(admitted.coms@.subrange(0, j + 1)).drop_last() =~= prev);
        if (j + 1) % c == 0 {
            let idx = (j + 1) / c;
            proof {
                vstd::arithmetic::div_mod::lemma_fundamental_div_mod((j + 1) as int, c as int);
                vstd::arithmetic::mul::lemma_mul_is_commutative(idx as int, c as int);
                assert(idx * c == j + 1);
                assert(idx * c <= k_chunks * c);
                if idx > k_chunks {
                    vstd::arithmetic::mul::lemma_mul_strict_inequality(k_chunks as int, idx as int, c as int);
                }
                Fe::lemma_eq_iff_view_eq(tr.bb@[idx as int], acc);
            }
            if tr.bb[idx] != acc {
                proof {
                    assert(spec_bb_snapshot(admitted.coms@, c as nat, idx as nat) == acc@);
                }
                return false;
            }
        }
        proof {
            assert forall|i: int| 0 <= i <= k_chunks && i * c <= j + 1 implies #[trigger] tr.bb@[i]@
                == spec_bb_snapshot(admitted.coms@, c as nat, i as nat) by {
                if i * c == j + 1 {
                    lemma_snapshot_step(n as nat, c as nat, i as nat, j as nat);
                    Fe::lemma_eq_iff_view_eq(tr.bb@[i], acc);
                }
            }
        }
        j += 1;
    }
    assert(admitted.coms@.subrange(0, n as int) =~= admitted.coms@);
    let full = n / c;
    let mut k: usize = full + 1;
    while k <= k_chunks
        invariant
            n == admitted.coms@.len(),
            c == tr.chunk_size,
            c > 0,
            full == n / c,
            tr.bb@.len() == k_chunks + 1,
            k_chunks < usize::MAX,
            full + 1 <= k,
            k <= k_chunks + 1,
            acc@ == spec_chain(0, vals(admitted.coms@)),
            forall|i: int| 0 <= i <= k_chunks && i * c <= n ==> #[trigger] tr.bb@[i]@ == spec_bb_snapshot(
                admitted.coms@,
                c as nat,
                i as nat,
            ),
            forall|i: int| full + 1 <= i < k ==> #[trigger] tr.bb@[i]@ == spec_bb_snapshot(
                admitted.coms@,
                c as nat,
                i as nat,
            ),
        decreases k_chunks + 1 - k,
    {
        proof {
            lemma_snapshot_cover(n as nat, c as nat, k as nat);
            assert(admitted.coms@.subrange(0, n as int) =~= admitted.coms@);
            Fe::lemma_eq_iff_view_eq(tr.bb@[k as int], acc);
        }
        if tr.bb[k] != acc {
            return false;
        }
        k += 1;
    }
    proof {
        assert forall|i: int| 0 <= i <= k_chunks implies #[trigger] tr.bb@[i]@ == spec_bb_snapshot(
            admitted.coms@,
            c as nat,
            i as nat,
        ) by {
            lemma_snapshot_cover(n as nat, c as nat, i as nat);
        }
        lemma_snapshot_cover(n as nat, c as nat, k_chunks as nat);
        assert(admitted.coms@.subrange(0, n as int) =~= admitted.coms@);
        Fe::lemma_eq_iff_view_eq(tr.bb@[k_chunks as int], st.bb_commitment);
    }
    if tr.bb[k_chunks] != st.bb_commitment {
        return false;
    }
    let sent = sentinel_commitment();
    let start = product_chain_start();
    proof {
        Fe::lemma_eq_iff_view_eq(tr.boundary_cm@[0], sent);
        Fe::lemma_eq_iff_view_eq(tr.acc_p_cm@[0], start);
        Fe::lemma_eq_iff_view_eq(tr.acc_q_cm@[0], start);
    }
    if tr.boundary_cm[0] != sent || tr.acc_p_cm[0] != start || tr.acc_q_cm[0] != start {
        return false;
    }
    let (gamma, delta) = derive_challenges(st, tr.rc.as_slice(), tr.sc.as_slice());
    proof {
        Fe::lemma_eq_iff_view_eq(gamma, tr.gamma);
        Fe::lemma_eq_iff_view_eq(delta, tr.delta);
    }
    gamma == tr.gamma && delta == tr.delta
}

/// One chunk proof (JSON text) with the public inputs it carries.
#[derive(Debug, Clone)]
pub struct ChunkProof {
    pub proof: String,
    pub public: Vec<String>,
}

/// The 2K+1 proof objects of a chunked tally.
#[derive(Debug, Clone)]
pub struct ChunkedProofs {
    pub validity: Vec<ChunkProof>,
    pub sorted_run: Vec<ChunkProof>,
    pub tally_sum: ChunkProof,
}

/// The Groth16 verdicts on the proofs, from the proving toolchain, aligned
/// with `ChunkedProofs`.
#[derive(Debug, Clone)]
pub struct ChunkedVerdicts {
    pub validity: Vec<bool>,
    pub sorted_run: Vec<bool>,
    pub tally_sum: bool,
}

/// The carried public inputs are exactly the expected ones.
pub open spec fn spec_publics_match(carried: Seq<String>, expected: Seq<Seq<char>>) -> bool {
    carried.len() == expected.len() && forall|i: int| 0 <= i < carried.len() ==> #[trigger] carried[i]@ == expected[i]
}

fn publics_match(carried: &Vec<String>, expected: &Vec<String>, Ghost(exp): Ghost<Seq<Seq<char>>>) -> (r: bool)
    requires
        expected@.len() == exp.len(),
        forall|i: int| 0 <= i < exp.len() ==> #[trigger] expected@[i]@ == exp[i],
    ensures
        r == spec_publics_match(carried@, exp),
{
    if carried.len() != expected.len() {
        return false;
    }
    let mut i: usize = 0;
    while i < carried.len()
        invariant
            carried@.len() == expected@.len(),
            expected@.len() == exp.len(),
            forall|m: int| 0 <= m < exp.len() ==> #[trigger] expected@[m]@ == exp[m],
            i <= carried@.len(),
            forall|m: int| 0 <= m < i ==> #[trigger] carried@[m]@ == exp[m],
        decreases carried@.len() - i,
    {
        assert(expected@[i as int]@ == exp[i as int]);
        if carried[i] != expected[i] {
            return false;
        }
        i += 1;
    }
    true
}

/// Every validity-chunk proof carries the expected public inputs and was
/// accepted.
fn validity_proofs_ok(
    st: &TallyStatement,
    tr: &ChunkedTranscript,
    proofs: &ChunkedProofs,
    verdicts: &ChunkedVerdicts,
) -> (r: bool)
    requires
        tr.bb@.len() == tr.rc@.len() + 1,
        proofs.validity@.len() == tr.rc@.len(),
        verdicts.validity@.len() == tr.rc@.len(),
    ensures
        r == (forall|i: int|
            0 <= i < tr.rc@.len() ==> spec_publics_match((#[trigger] proofs.validity@[i]).public@, spec_validity_publics(*st, *tr, i))
                && verdicts.validity@[i]),
{
    let k_chunks = tr.rc.len();
    let mut k: usize = 0;
    while k < k_chunks
        invariant
            k_chunks == tr.rc@.len(),
            tr.bb@.len() == k_chunks + 1,
            proofs.validity@.len() == k_chunks,
            verdicts.validity@.len() == k_chunks,
            k <= k_chunks,
            forall|i: int|
                0 <= i < k ==> spec_publics_match((#[trigger] proofs.validity@[i]).public@, spec_validity_publics(*st, *tr, i))
                    && verdicts.validity@[i],
        decreases k_chunks - k,
    {
        let expected = transcript_validity_publics(st, tr, k);
        let ok = publics_match(&proofs.validity[k].public, &expected, Ghost(spec_validity_publics(*st, *tr, k as int)));
        if !ok || !verdicts.validity[k] {
            return false;
        }
        assert forall|i: int| 0 <= i < k + 1 implies spec_publics_match(
            (#[trigger] proofs.validity@[i]).public@,
            spec_validity_publics(*st, *tr, i),
        ) && verdicts.validity@[i] by {
            if i == k {
            }
        }
        k += 1;
    }
    true
}

/// Every sorted-run proof carries the expected public inputs and was
/// accepted.
fn sorted_run_proofs_ok(tr: &ChunkedTranscript, proofs: &ChunkedProofs, verdicts: &ChunkedVerdicts) -> (r: bool)
    requires
        tr.sc@.len() == tr.rc@.len(),
        tr.tc@.len() == tr.rc@.len(),
        tr.boundary_cm@.len() == tr.rc@.len() + 1,
        tr.acc_p_cm@.len() == tr.rc@.len() + 1,
        tr.acc_q_cm@.len() == tr.rc@.len() + 1,
        proofs.sorted_run@.len() == tr.rc@.len(),
        verdicts.sorted_run@.len() == tr.rc@.len(),
    ensures
        r == (forall|i: int|
            0 <= i < tr.rc@.len() ==> spec_publics_match((#[trigger] proofs.sorted_run@[i]).public@, spec_sorted_run_publics(*tr, i))
                && verdicts.sorted_run@[i]),
{
    let k_chunks = tr.rc.len();
    let mut k: usize = 0;
    while k < k_chunks
        invariant
            k_chunks == tr.rc@.len(),
            tr.sc@.len() == k_chunks,
            tr.tc@.len() == k_chunks,
            tr.boundary_cm@.len() == k_chunks + 1,
            tr.acc_p_cm@.len() == k_chunks + 1,
            tr.acc_q_cm@.len() == k_chunks + 1,
            proofs.sorted_run@.len() == k_chunks,
            verdicts.sorted_run@.len() == k_chunks,
            k <= k_chunks,
            forall|i: int|
                0 <= i < k ==> spec_publics_match((#[trigger] proofs.sorted_run@[i]).public@, spec_sorted_run_publics(*tr, i))
                    && verdicts.sorted_run@[i],
        decreases k_chunks - k,
    {
        let expected = transcript_sorted_run_publics(tr, k);
        let ok = publics_match(&proofs.sorted_run[k].public, &expected, Ghost(spec_sorted_run_publics(*tr, k as int)));
        if !ok || !verdicts.sorted_run[k] {
            return false;
        }
        assert forall|i: int| 0 <= i < k + 1 implies spec_publics_match(
            (#[trigger] proofs.sorted_run@[i]).public@,
            spec_sorted_run_publics(*tr, i),
        ) && verdicts.sorted_run@[i] by {
            if i == k {
            }
        }
        k += 1;
    }
    true
}

/// Public aggregate verification of a chunked tally: the structural
/// transcript checks, one proof per chunk and kind, each proof's public
/// inputs exactly the transcript-derived expected ones, and every proof
/// verifying (the verdicts).
pub open spec fn spec_aggregate_ok(
    st: TallyStatement,
    admitted: AdmittedBoard,
    tr: ChunkedTranscript,
    proofs: ChunkedProofs,
    verdicts: ChunkedVerdicts,
) -> bool {
    let k = tr.rc@.len();
    &&& spec_transcript_ok(st, admitted, tr)
    &&& proofs.validity@.len() == k
    &&& proofs.sorted_run@.len() == k
    &&& verdicts.validity@.len() == k
    &&& verdicts.sorted_run@.len() == k
    &&& forall|i: int|
        0 <= i < k ==> spec_publics_match((#[trigger] proofs.validity@[i]).public@, spec_validity_publics(st, tr, i))
            && verdicts.validity@[i]
    &&& forall|i: int|
        0 <= i < k ==> spec_publics_match((#[trigger] proofs.sorted_run@[i]).public@, spec_sorted_run_publics(tr, i))
            && verdicts.sorted_run@[i]
    &&& spec_publics_match(proofs.tally_sum.public@, spec_tally_sum_publics(st, tr))
    &&& verdicts.tally_sum
}

/// Public aggregate verification of a chunked tally (see
/// `spec_aggregate_ok`). Uses public data, the proofs' public inputs and
/// the toolchain's verdicts only; the caller separately binds the
/// statement to the election data with `statement_matches_public_data`.
pub fn verify_chunked_public_transcript(
    st: &TallyStatement,
    admitted: &AdmittedBoard,
    tr: &ChunkedTranscript,
    proofs: &ChunkedProofs,
    verdicts: &ChunkedVerdicts,
) -> (r: bool)
    ensures
        r == spec_aggregate_ok(*st, *admitted, *tr, *proofs, *verdicts),
{
    if !check_chunked_transcript(st, admitted, tr) {
        return false;
    }
    let k_chunks = tr.rc.len();
    if proofs.validity.len() != k_chunks || proofs.sorted_run.len() != k_chunks
        || verdicts.validity.len() != k_chunks || verdicts.sorted_run.len() != k_chunks {
        return false;
    }
    if !validity_proofs_ok(st, tr, proofs, verdicts) {
        return false;
    }
    if !sorted_run_proofs_ok(tr, proofs, verdicts) {
        return false;
    }
    let expected = transcript_tally_sum_publics(st, tr);
    let ok = publics_match(&proofs.tally_sum.public, &expected, Ghost(spec_tally_sum_publics(*st, *tr)));
    ok && verdicts.tally_sum
}

// ---------------------------------------------------------------------------
// The prover-side state and the native check of the whole pipeline
// ---------------------------------------------------------------------------

/// The full prover-side state of a chunked tally: witnesses and every
/// public value of every chunk proof.
#[derive(Debug, Clone)]
pub struct ChunkedTally {
    pub chunk_size: usize,
    pub k_chunks: usize,
    pub merkle_depth: usize,
    pub statement: TallyStatement,
    pub candidates: Vec<u64>,
    /// Rows padded to k_chunks * chunk_size, board order.
    pub rows: Vec<BallotWitnessRow>,
    /// Records per padded slot, board order.
    pub records: Vec<Rec>,
    /// Globally sorted records (runs of chunk_size).
    pub sorted: Vec<Rec>,
    /// Board-chain values bb_0..bb_K.
    pub bb: Vec<Fe>,
    pub rc_blind: Vec<Fe>,
    pub rc: Vec<Fe>,
    pub sc_blind: Vec<Fe>,
    pub sc: Vec<Fe>,
    /// Boundary commitments cm_0..cm_K (cm_0 = sentinel with blind 0).
    pub boundary_cm: Vec<Fe>,
    pub boundary_blind: Vec<Fe>,
    pub gamma: Fe,
    pub delta: Fe,
    /// Running grand-product values p_0..p_K / q_0..q_K (private).
    pub acc_p: Vec<Fe>,
    pub acc_q: Vec<Fe>,
    pub acc_p_blind: Vec<Fe>,
    pub acc_q_blind: Vec<Fe>,
    /// Hiding running-product commitments.
    pub acc_p_cm: Vec<Fe>,
    pub acc_q_cm: Vec<Fe>,
    pub partial_tallies: Vec<Vec<u64>>,
    pub tally_blind: Vec<Fe>,
    pub tc: Vec<Fe>,
}

impl ChunkedTally {
    /// The public transcript (what the prover posts).
    pub fn transcript(&self) -> (r: ChunkedTranscript)
        ensures
            r.chunk_size == self.chunk_size,
            r.bb@ == self.bb@,
            r.rc@ == self.rc@,
            r.sc@ == self.sc@,
            r.boundary_cm@ == self.boundary_cm@,
            r.tc@ == self.tc@,
            r.acc_p_cm@ == self.acc_p_cm@,
            r.acc_q_cm@ == self.acc_q_cm@,
            r.gamma == self.gamma,
            r.delta == self.delta,
    {
        ChunkedTranscript {
            chunk_size: self.chunk_size,
            bb: self.bb.clone(),
            rc: self.rc.clone(),
            sc: self.sc.clone(),
            boundary_cm: self.boundary_cm.clone(),
            tc: self.tc.clone(),
            acc_p_cm: self.acc_p_cm.clone(),
            acc_q_cm: self.acc_q_cm.clone(),
            gamma: self.gamma,
            delta: self.delta,
        }
    }
}

/// The public transcript of a chunked tally, as a spec value.
pub open spec fn spec_transcript_of(ct: ChunkedTally) -> ChunkedTranscript {
    ChunkedTranscript {
        chunk_size: ct.chunk_size,
        bb: ct.bb,
        rc: ct.rc,
        sc: ct.sc,
        boundary_cm: ct.boundary_cm,
        tc: ct.tc,
        acc_p_cm: ct.acc_p_cm,
        acc_q_cm: ct.acc_q_cm,
        gamma: ct.gamma,
        delta: ct.delta,
    }
}

/// The exact public inputs a ValidityChunk-k proof must carry.
pub fn validity_chunk_publics(ct: &ChunkedTally, k: usize) -> (r: Vec<String>)
    requires
        k + 1 < ct.bb@.len(),
        k < ct.rc@.len(),
    ensures
        r@.len() == 10,
        forall|i: int|
            0 <= i < 10 ==> #[trigger] r@[i]@ == spec_validity_publics(ct.statement, spec_transcript_of(*ct), k as int)[i],
{
    let tr = ct.transcript();
    let r = transcript_validity_publics(&ct.statement, &tr, k);
    assert(spec_validity_publics(ct.statement, tr, k as int) =~= spec_validity_publics(
        ct.statement,
        spec_transcript_of(*ct),
        k as int,
    ));
    r
}

/// The exact public inputs a SortedRunChunk-k proof must carry.
pub fn sorted_run_publics(ct: &ChunkedTally, k: usize) -> (r: Vec<String>)
    requires
        k < ct.rc@.len(),
        k < ct.sc@.len(),
        k < ct.tc@.len(),
        k + 1 < ct.boundary_cm@.len(),
        k + 1 < ct.acc_p_cm@.len(),
        k + 1 < ct.acc_q_cm@.len(),
    ensures
        r@.len() == 11,
        forall|i: int| 0 <= i < 11 ==> #[trigger] r@[i]@ == spec_sorted_run_publics(spec_transcript_of(*ct), k as int)[i],
{
    let tr = ct.transcript();
    let r = transcript_sorted_run_publics(&tr, k);
    assert(spec_sorted_run_publics(tr, k as int) =~= spec_sorted_run_publics(spec_transcript_of(*ct), k as int));
    r
}

/// The exact public inputs the TallySum proof must carry.
pub fn tally_sum_publics(ct: &ChunkedTally) -> (r: Vec<String>)
    requires
        ct.rc@.len() < ct.acc_p_cm@.len(),
        ct.rc@.len() < ct.acc_q_cm@.len(),
    ensures
        r@.len() == spec_tally_sum_publics(ct.statement, spec_transcript_of(*ct)).len(),
        forall|i: int| 0 <= i < r@.len() ==> #[trigger] r@[i]@ == spec_tally_sum_publics(ct.statement, spec_transcript_of(*ct))[i],
{
    let tr = ct.transcript();
    let r = transcript_tally_sum_publics(&ct.statement, &tr);
    assert(spec_tally_sum_publics(ct.statement, tr) =~= spec_tally_sum_publics(ct.statement, spec_transcript_of(*ct)));
    r
}

/// Chunk k of a sequence.
pub open spec fn chunk<T>(s: Seq<T>, k: int, c: int) -> Seq<T> {
    s.subrange(k * c, (k + 1) * c)
}

/// The board chain over slots lo..lo+n, from acc0, over active slots only.
pub open spec fn spec_seg_chain(acc0: nat, rows: Seq<BallotWitnessRow>, nb: nat, lo: int, n: nat) -> nat
    decreases n,
{
    if n == 0 {
        acc0
    } else {
        let a = spec_seg_chain(acc0, rows, nb, lo, (n - 1) as nat);
        let j = lo + n - 1;
        if j < nb {
            poseidon_spec(seq![a, rows[j].ct@])
        } else {
            a
        }
    }
}

/// Slot j has a path of the circuit's depth and evaluates to its record.
#[verifier::opaque]
pub open spec fn spec_phase1_slot(ct: ChunkedTally, j: int) -> bool {
    let st = ct.statement;
    &&& ct.rows@[j].merkle_path@.len() == ct.merkle_depth
    &&& spec_eval_row(
        st.eid_hash@,
        st.mr@,
        st.num_voters,
        candidate_vals(ct.candidates@),
        j < st.num_ballots,
        row_view(ct.rows@[j]),
        j as u64,
    ) == Some(ct.records@[j])
}

/// What the validity chunk k constrains.
pub open spec fn spec_phase1_ok(ct: ChunkedTally, k: int) -> bool {
    let c = ct.chunk_size as int;
    let st = ct.statement;
    &&& forall|j: int| k * c <= j < (k + 1) * c ==> #[trigger] spec_phase1_slot(ct, j)
    &&& spec_seg_chain(ct.bb@[k]@, ct.rows@, st.num_ballots as nat, k * c, c as nat) == ct.bb@[k + 1]@
    &&& spec_record_chain(ct.rc_blind@[k]@, chunk(ct.records@, k, c)) == ct.rc@[k]@
}

/// The run's records are in range and sorted by the wide key, starting
/// from `start` (the boundary record's key, or 0 after the sentinel).
pub open spec fn spec_run_sorted(start: u64, run: Seq<Rec>) -> bool {
    forall|i: int|
        0 <= i < run.len() ==> (#[trigger] run[i]).id < 512 && run[i].pos < 0x100_0000 && (if i == 0 {
            start
        } else {
            spec_key_wide(run[i - 1])
        }) <= spec_key_wide(run[i])
}

/// First-valid counting over a run for candidate index c: records that
/// are valid and start a new identity (the boundary record's id precedes
/// the run).
pub open spec fn spec_run_count(bnd_id: u64, run: Seq<Rec>, cand: nat, n: nat) -> nat
    decreases n,
{
    if n == 0 {
        0
    } else {
        let i = n - 1;
        let prev = if i == 0 {
            bnd_id
        } else {
            run[i - 1].id
        };
        spec_run_count(bnd_id, run, cand, (n - 1) as nat) + if run[i].valid && run[i].id != prev
            && run[i].m == cand {
            1nat
        } else {
            0nat
        }
    }
}

/// The running product acc * prod (gamma - enc(r)) over a run.
pub open spec fn spec_run_product(acc: nat, run: Seq<Rec>, gamma: nat, delta: nat) -> nat
    decreases run.len(),
{
    if run.len() == 0 {
        acc
    } else {
        fmul(spec_run_product(acc, run.drop_last(), gamma, delta), fsub(gamma, spec_enc(run.last(), delta)))
    }
}

/// The boundary record entering run k.
pub open spec fn spec_bnd_in(ct: ChunkedTally, k: int) -> Rec {
    if k == 0 {
        spec_sentinel()
    } else {
        ct.sorted@[k * ct.chunk_size - 1]
    }
}

/// What the sorted-run chunk k constrains.
pub open spec fn spec_phase2_ok(ct: ChunkedTally, k: int) -> bool {
    let c = ct.chunk_size as int;
    let run = chunk(ct.sorted@, k, c);
    let orig = chunk(ct.records@, k, c);
    let bnd_in = spec_bnd_in(ct, k);
    let nc = ct.candidates@.len();
    &&& spec_record_chain(ct.sc_blind@[k]@, run) == ct.sc@[k]@
    &&& spec_record_chain(ct.rc_blind@[k]@, orig) == ct.rc@[k]@
    &&& spec_record_commit(bnd_in, ct.boundary_blind@[k]@) == ct.boundary_cm@[k]@
    &&& spec_record_commit(run[c - 1], ct.boundary_blind@[k + 1]@) == ct.boundary_cm@[k + 1]@
    &&& spec_run_sorted(if bnd_in.id == 256 { 0u64 } else { spec_key_wide(bnd_in) }, run)
    &&& ct.partial_tallies@[k]@.len() == nc
    &&& forall|i: int| 0 <= i < nc ==> #[trigger] ct.partial_tallies@[k]@[i] as nat == spec_run_count(bnd_in.id, run, i as nat, c as nat)
    &&& poseidon_spec(candidate_vals(ct.partial_tallies@[k]@).push(ct.tally_blind@[k]@)) == ct.tc@[k]@
    &&& poseidon_spec(seq![ct.acc_p@[k]@, ct.acc_p_blind@[k]@]) == ct.acc_p_cm@[k]@
    &&& poseidon_spec(seq![ct.acc_q@[k]@, ct.acc_q_blind@[k]@]) == ct.acc_q_cm@[k]@
    &&& spec_run_product(ct.acc_p@[k]@, run, ct.gamma@, ct.delta@) == ct.acc_p@[k + 1]@
    &&& spec_run_product(ct.acc_q@[k]@, orig, ct.gamma@, ct.delta@) == ct.acc_q@[k + 1]@
    &&& poseidon_spec(seq![ct.acc_p@[k + 1]@, ct.acc_p_blind@[k + 1]@]) == ct.acc_p_cm@[k + 1]@
    &&& poseidon_spec(seq![ct.acc_q@[k + 1]@, ct.acc_q_blind@[k + 1]@]) == ct.acc_q_cm@[k + 1]@
}

/// Sum over the first n runs of the partial tallies of candidate index i.
pub open spec fn spec_total(ct: ChunkedTally, i: int, n: nat) -> nat
    decreases n,
{
    if n == 0 {
        0
    } else {
        spec_total(ct, i, (n - 1) as nat) + ct.partial_tallies@[n - 1]@[i] as nat
    }
}

/// The shape a chunked tally must have for the check to be defined: the
/// vectors it indexes are long enough, a positive chunk size, the
/// candidate count Poseidon can hash together with a blind, and sorted
/// records naming candidate positions.
pub open spec fn spec_chunked_shape(ct: ChunkedTally) -> bool {
    let kk = ct.k_chunks as int;
    let c = ct.chunk_size as int;
    &&& c >= 1
    &&& kk * c <= usize::MAX
    &&& 1 <= ct.candidates@.len() <= 11
    &&& ct.rc_blind@.len() >= kk
    &&& ct.rc@.len() >= kk
    &&& ct.sc@.len() >= kk
    &&& ct.sc_blind@.len() >= kk
    &&& ct.partial_tallies@.len() >= kk
    &&& ct.tally_blind@.len() >= kk
    &&& ct.tc@.len() >= kk
    &&& ct.boundary_cm@.len() >= kk + 1
    &&& ct.boundary_blind@.len() >= kk + 1
    &&& ct.acc_p@.len() >= kk + 1
    &&& ct.acc_q@.len() >= kk + 1
    &&& ct.acc_p_blind@.len() >= kk + 1
    &&& ct.acc_q_blind@.len() >= kk + 1
    &&& ct.sorted@.len() >= kk * c
    &&& forall|j: int| 0 <= j < ct.sorted@.len() ==> (#[trigger] ct.sorted@[j]).m < ct.candidates@.len()
}

/// The whole chunked relation: every constraint of every chunk circuit and
/// every aggregator check.
pub open spec fn spec_chunked_relation(ct: ChunkedTally) -> bool {
    let kk = ct.k_chunks as int;
    let c = ct.chunk_size as int;
    let st = ct.statement;
    let nc = ct.candidates@.len();
    &&& ct.rows@.len() == kk * c
    &&& ct.records@.len() == kk * c
    &&& st.duplicate_rule_id == 1
    &&& st.num_voters < 256
    &&& (ct.merkle_depth < 8 ==> st.num_voters <= two_pow(ct.merkle_depth as nat))
    &&& st.num_ballots <= kk * c
    &&& st.num_ballots < 0x100_0000
    &&& poseidon_spec(candidate_vals(ct.candidates@)) == st.candidate_set_commitment@
    &&& ct.bb@.len() == kk + 1
    &&& ct.bb@[0]@ == 0
    &&& forall|k: int| 0 <= k < kk ==> #[trigger] spec_phase1_ok(ct, k)
    &&& ct.bb@[kk]@ == st.bb_commitment@
    &&& (ct.gamma@, ct.delta@) == spec_challenges(st, vals(ct.rc@), vals(ct.sc@))
    &&& ct.boundary_cm@[0]@ == spec_sentinel_commitment()
    &&& ct.acc_p_cm@.len() == kk + 1
    &&& ct.acc_q_cm@.len() == kk + 1
    &&& ct.acc_p_cm@[0]@ == spec_product_chain_start()
    &&& ct.acc_q_cm@[0]@ == spec_product_chain_start()
    &&& ct.acc_p@[0]@ == 1
    &&& ct.acc_q@[0]@ == 1
    &&& forall|k: int| 0 <= k < kk ==> #[trigger] spec_phase2_ok(ct, k)
    &&& ct.acc_p@[kk] == ct.acc_q@[kk]
    &&& st.tally_counts@.len() == nc
    &&& forall|i: int| 0 <= i < nc ==> #[trigger] st.tally_counts@[i] as nat == spec_total(ct, i, kk as nat)
}

/// The record chain over recs[lo..hi].
fn record_chain_range(blind: Fe, recs: &Vec<Rec>, lo: usize, hi: usize) -> (r: Fe)
    requires
        lo <= hi <= recs@.len(),
    ensures
        r@ == spec_record_chain(blind@, recs@.subrange(lo as int, hi as int)),
{
    let mut acc = blind;
    let mut i: usize = lo;
    assert(recs@.subrange(lo as int, lo as int) =~= Seq::<Rec>::empty());
    while i < hi
        invariant
            lo <= i <= hi <= recs@.len(),
            acc@ == spec_record_chain(blind@, recs@.subrange(lo as int, i as int)),
        decreases hi - i,
    {
        let f = f_rec(&recs[i]);
        assert(recs@.subrange(lo as int, i + 1).drop_last() =~= recs@.subrange(lo as int, i as int));
        acc = poseidon5(acc, f[0], f[1], f[2], f[3]);
        i += 1;
    }
    acc
}

/// The validity chunk k (see `spec_phase1_ok`).
fn phase1_chunk(ct: &ChunkedTally, cand_f: &Vec<Fe>, k: usize) -> (r: bool)
    requires
        spec_chunked_shape(*ct),
        ct.rows@.len() == ct.k_chunks * ct.chunk_size,
        ct.records@.len() == ct.k_chunks * ct.chunk_size,
        ct.bb@.len() == ct.k_chunks + 1,
        k < ct.k_chunks,
        vals(cand_f@) == candidate_vals(ct.candidates@),
    ensures
        r == spec_phase1_ok(*ct, k as int),
{
    let c = ct.chunk_size;
    let st = &ct.statement;
    proof {
        assert((k + 1) * c <= ct.k_chunks * c) by (nonlinear_arith)
            requires
                k < ct.k_chunks,
        ;
        assert((k + 1) * c == k * c + c) by (nonlinear_arith);
    }
    let lo = k * c;
    let hi = lo + c;
    let mut acc = ct.bb[k];
    let mut j: usize = lo;
    while j < hi
        invariant
            c == ct.chunk_size,
            *st == ct.statement,
            lo == k * c,
            hi == (k + 1) * c,
            hi <= ct.rows@.len(),
            ct.rows@.len() == ct.records@.len(),
            lo <= j <= hi,
            vals(cand_f@) == candidate_vals(ct.candidates@),
            acc@ == spec_seg_chain(ct.bb@[k as int]@, ct.rows@, st.num_ballots as nat, lo as int, (j - lo) as nat),
            forall|m: int| lo <= m < j ==> #[trigger] spec_phase1_slot(*ct, m),
        decreases hi - j,
    {
        let active = (j as u64) < st.num_ballots;
        let row = &ct.rows[j];
        if row.merkle_path.len() != ct.merkle_depth {
            proof {
                reveal(spec_phase1_slot);
                assert(!spec_phase1_slot(*ct, j as int));
                assert((k as int) * (ct.chunk_size as int) <= j && j < (k as int + 1) * (ct.chunk_size as int));
                assert(!spec_phase1_ok(*ct, k as int));
            }
            return false;
        }
        match eval_row(st.eid_hash, st.mr, st.num_voters, cand_f.as_slice(), active, row, j as u64) {
            Ok(rec) => {
                if rec != ct.records[j] {
                    proof {
                        reveal(spec_phase1_slot);
                        assert(ct.rows@[j as int] == *row);
                        assert(!spec_phase1_slot(*ct, j as int));
                        assert((k as int) * (ct.chunk_size as int) <= j && j < (k as int + 1) * (ct.chunk_size as int));
                        assert(!spec_phase1_ok(*ct, k as int));
                    }
                    return false;
                }
            },
            Err(_) => {
                proof {
                    reveal(spec_phase1_slot);
                    assert(ct.rows@[j as int] == *row);
                    assert(!spec_phase1_slot(*ct, j as int));
                    assert(!spec_phase1_ok(*ct, k as int));
                }
                return false;
            },
        }
        proof {
            reveal(spec_phase1_slot);
            assert(ct.rows@[j as int] == *row);
            assert(spec_phase1_slot(*ct, j as int));
        }
        if active {
            acc = poseidon2(acc, row.ct);
        }
        j += 1;
    }
    let rc = record_chain_range(ct.rc_blind[k], &ct.records, lo, hi);
    proof {
        Fe::lemma_eq_iff_view_eq(acc, ct.bb@[k + 1]);
        Fe::lemma_eq_iff_view_eq(rc, ct.rc@[k as int]);
    }
    acc == ct.bb[k + 1] && rc == ct.rc[k]
}

/// The run recs[lo..hi] is in range and sorted from `start`.
fn run_sorted(start: u64, recs: &Vec<Rec>, lo: usize, hi: usize) -> (r: bool)
    requires
        lo <= hi <= recs@.len(),
    ensures
        r == spec_run_sorted(start, recs@.subrange(lo as int, hi as int)),
{
    let ghost run = recs@.subrange(lo as int, hi as int);
    let mut prev_key = start;
    let mut i: usize = lo;
    while i < hi
        invariant
            lo <= i <= hi <= recs@.len(),
            run == recs@.subrange(lo as int, hi as int),
            prev_key == if i == lo { start } else { spec_key_wide(recs@[i - 1]) },
            forall|m: int|
                0 <= m < i - lo ==> (#[trigger] run[m]).id < 512 && run[m].pos < 0x100_0000 && (if m == 0 {
                    start
                } else {
                    spec_key_wide(run[m - 1])
                }) <= spec_key_wide(run[m]),
        decreases hi - i,
    {
        let r = recs[i];
        assert(run[i - lo] == r);
        if i > lo {
            assert(run[i - lo - 1] == recs@[i - 1]);
        }
        if r.id >= 512 || r.pos >= 0x100_0000 {
            return false;
        }
        let kw = r.key_wide();
        if prev_key > kw {
            return false;
        }
        prev_key = kw;
        i += 1;
    }
    true
}

/// First-valid counts of the run recs[lo..hi] per candidate index.
fn run_counts(bnd_id: u64, recs: &Vec<Rec>, lo: usize, hi: usize, nc: usize) -> (r: Vec<u64>)
    requires
        lo <= hi <= recs@.len(),
        forall|j: int| lo <= j < hi ==> (#[trigger] recs@[j]).m < nc,
    ensures
        r@.len() == nc,
        forall|c: int|
            0 <= c < nc ==> #[trigger] r@[c] as nat == spec_run_count(
                bnd_id,
                recs@.subrange(lo as int, hi as int),
                c as nat,
                (hi - lo) as nat,
            ),
{
    let ghost run = recs@.subrange(lo as int, hi as int);
    let mut t: Vec<u64> = Vec::new();
    let mut z: usize = 0;
    while z < nc
        invariant
            z <= nc,
            t@.len() == z,
            forall|c: int| 0 <= c < z ==> #[trigger] t@[c] == 0,
        decreases nc - z,
    {
        t.push(0);
        z += 1;
    }
    let mut prev_id = bnd_id;
    let mut i: usize = lo;
    while i < hi
        invariant
            lo <= i <= hi <= recs@.len(),
            run == recs@.subrange(lo as int, hi as int),
            forall|j: int| lo <= j < hi ==> (#[trigger] recs@[j]).m < nc,
            t@.len() == nc,
            prev_id == if i == lo { bnd_id } else { recs@[i - 1].id },
            forall|c: int| 0 <= c < nc ==> #[trigger] t@[c] as nat == spec_run_count(bnd_id, run, c as nat, (i - lo) as nat),
            forall|c: int| 0 <= c < nc ==> #[trigger] t@[c] <= i - lo,
        decreases hi - i,
    {
        let r = recs[i];
        assert(run[i - lo] == r);
        if i > lo {
            assert(run[i - lo - 1] == recs@[i - 1]);
        }
        if r.valid && r.id != prev_id {
            let mi = r.m as usize;
            t.set(mi, t[mi] + 1);
        }
        prev_id = r.id;
        i += 1;
    }
    t
}

/// The running product over recs[lo..hi].
fn run_product(acc0: Fe, recs: &Vec<Rec>, lo: usize, hi: usize, gamma: Fe, delta: Fe) -> (r: Fe)
    requires
        lo <= hi <= recs@.len(),
    ensures
        r@ == spec_run_product(acc0@, recs@.subrange(lo as int, hi as int), gamma@, delta@),
{
    let mut acc = acc0;
    let mut i: usize = lo;
    assert(recs@.subrange(lo as int, lo as int) =~= Seq::<Rec>::empty());
    while i < hi
        invariant
            lo <= i <= hi <= recs@.len(),
            acc@ == spec_run_product(acc0@, recs@.subrange(lo as int, i as int), gamma@, delta@),
        decreases hi - i,
    {
        assert(recs@.subrange(lo as int, i + 1).drop_last() =~= recs@.subrange(lo as int, i as int));
        let e = enc(&recs[i], delta);
        acc = acc.mul(&gamma.sub(&e));
        i += 1;
    }
    acc
}

/// Counts as field elements, then the blind.
fn counts_with_blind(t: &Vec<u64>, blind: Fe) -> (r: Vec<Fe>)
    ensures
        vals(r@) == candidate_vals(t@).push(blind@),
{
    let mut v: Vec<Fe> = Vec::new();
    let mut i: usize = 0;
    while i < t.len()
        invariant
            i <= t@.len(),
            v@.len() == i,
            forall|m: int| 0 <= m < i ==> (#[trigger] v@[m])@ == t@[m] as nat,
        decreases t@.len() - i,
    {
        v.push(Fe::from_u64(t[i]));
        i += 1;
    }
    v.push(blind);
    assert(vals(v@) =~= candidate_vals(t@).push(blind@));
    v
}

/// The sorted-run chunk k (see `spec_phase2_ok`).
fn phase2_run(ct: &ChunkedTally, k: usize) -> (r: bool)
    requires
        spec_chunked_shape(*ct),
        ct.records@.len() == ct.k_chunks * ct.chunk_size,
        ct.acc_p_cm@.len() == ct.k_chunks + 1,
        ct.acc_q_cm@.len() == ct.k_chunks + 1,
        k < ct.k_chunks,
    ensures
        r == spec_phase2_ok(*ct, k as int),
{
    let c = ct.chunk_size;
    let nc = ct.candidates.len();
    proof {
        assert((k + 1) * c <= ct.k_chunks * c) by (nonlinear_arith)
            requires
                k < ct.k_chunks,
        ;
        assert((k + 1) * c == k * c + c) by (nonlinear_arith);
    }
    let lo = k * c;
    let hi = lo + c;
    let sc = record_chain_range(ct.sc_blind[k], &ct.sorted, lo, hi);
    proof {
        Fe::lemma_eq_iff_view_eq(sc, ct.sc@[k as int]);
    }
    if sc != ct.sc[k] {
        return false;
    }
    let rc = record_chain_range(ct.rc_blind[k], &ct.records, lo, hi);
    proof {
        Fe::lemma_eq_iff_view_eq(rc, ct.rc@[k as int]);
    }
    if rc != ct.rc[k] {
        return false;
    }
    proof {
        if k > 0 {
            assert(k * c >= c) by (nonlinear_arith)
                requires
                    k >= 1,
            ;
        }
    }
    let bnd_in = if k == 0 {
        Rec::sentinel()
    } else {
        ct.sorted[lo - 1]
    };
    let bc = record_commit(&bnd_in, ct.boundary_blind[k]);
    proof {
        Fe::lemma_eq_iff_view_eq(bc, ct.boundary_cm@[k as int]);
    }
    if bc != ct.boundary_cm[k] {
        return false;
    }
    let oc = record_commit(&ct.sorted[hi - 1], ct.boundary_blind[k + 1]);
    proof {
        Fe::lemma_eq_iff_view_eq(oc, ct.boundary_cm@[k + 1]);
        assert(chunk(ct.sorted@, k as int, c as int)[c - 1] == ct.sorted@[hi - 1]);
    }
    if oc != ct.boundary_cm[k + 1] {
        return false;
    }
    let start: u64 = if bnd_in.id == 256 {
        0
    } else {
        bnd_in.key_wide()
    };
    if !run_sorted(start, &ct.sorted, lo, hi) {
        return false;
    }
    let t = run_counts(bnd_in.id, &ct.sorted, lo, hi, nc);
    let pt = &ct.partial_tallies[k];
    if !crate::zk::statement::counts_equal(&t, pt) {
        proof {
            if pt@.len() == nc {
                assert(exists|i: int| 0 <= i < nc && t@[i] != pt@[i]) by {
                    if forall|i: int| 0 <= i < nc ==> t@[i] == pt@[i] {
                        assert(t@ =~= pt@);
                    }
                }
                let i = choose|i: int| 0 <= i < nc && t@[i] != pt@[i];
                assert(ct.partial_tallies@[k as int]@[i] as nat != spec_run_count(
                    spec_bnd_in(*ct, k as int).id,
                    chunk(ct.sorted@, k as int, c as int),
                    i as nat,
                    c as nat,
                ));
            }
        }
        return false;
    }
    let inputs = counts_with_blind(&t, ct.tally_blind[k]);
    assert(vals(inputs@).len() == inputs@.len());
    let tcv = poseidon(inputs.as_slice());
    proof {
        Fe::lemma_eq_iff_view_eq(tcv, ct.tc@[k as int]);
    }
    if tcv != ct.tc[k] {
        return false;
    }
    let pin = poseidon2(ct.acc_p[k], ct.acc_p_blind[k]);
    let qin = poseidon2(ct.acc_q[k], ct.acc_q_blind[k]);
    proof {
        Fe::lemma_eq_iff_view_eq(pin, ct.acc_p_cm@[k as int]);
        Fe::lemma_eq_iff_view_eq(qin, ct.acc_q_cm@[k as int]);
    }
    if pin != ct.acc_p_cm[k] || qin != ct.acc_q_cm[k] {
        return false;
    }
    let pv = run_product(ct.acc_p[k], &ct.sorted, lo, hi, ct.gamma, ct.delta);
    let qv = run_product(ct.acc_q[k], &ct.records, lo, hi, ct.gamma, ct.delta);
    let pout = poseidon2(pv, ct.acc_p_blind[k + 1]);
    let qout = poseidon2(qv, ct.acc_q_blind[k + 1]);
    proof {
        Fe::lemma_eq_iff_view_eq(pv, ct.acc_p@[k + 1]);
        Fe::lemma_eq_iff_view_eq(qv, ct.acc_q@[k + 1]);
        Fe::lemma_eq_iff_view_eq(pout, ct.acc_p_cm@[k + 1]);
        Fe::lemma_eq_iff_view_eq(qout, ct.acc_q_cm@[k + 1]);
    }
    pv == ct.acc_p[k + 1] && qv == ct.acc_q[k + 1] && pout == ct.acc_p_cm[k + 1] && qout
        == ct.acc_q_cm[k + 1]
}

/// Every validity chunk.
fn phase1_all(ct: &ChunkedTally, cand_f: &Vec<Fe>) -> (r: bool)
    requires
        spec_chunked_shape(*ct),
        ct.rows@.len() == ct.k_chunks * ct.chunk_size,
        ct.records@.len() == ct.k_chunks * ct.chunk_size,
        ct.bb@.len() == ct.k_chunks + 1,
        vals(cand_f@) == candidate_vals(ct.candidates@),
    ensures
        r == forall|m: int| 0 <= m < ct.k_chunks ==> #[trigger] spec_phase1_ok(*ct, m),
{
    let k_chunks = ct.k_chunks;
    let mut k: usize = 0;
    while k < k_chunks
        invariant
            spec_chunked_shape(*ct),
            k_chunks == ct.k_chunks,
            ct.rows@.len() == k_chunks * ct.chunk_size,
            ct.records@.len() == k_chunks * ct.chunk_size,
            ct.bb@.len() == k_chunks + 1,
            vals(cand_f@) == candidate_vals(ct.candidates@),
            k <= k_chunks,
            forall|m: int| 0 <= m < k ==> #[trigger] spec_phase1_ok(*ct, m),
        decreases k_chunks - k,
    {
        if !phase1_chunk(ct, cand_f, k) {
            return false;
        }
        k += 1;
    }
    true
}

/// Every sorted-run chunk, and the summed partial tallies.
fn phase2_all(ct: &ChunkedTally) -> (r: Option<Vec<u64>>)
    requires
        spec_chunked_shape(*ct),
        ct.records@.len() == ct.k_chunks * ct.chunk_size,
        ct.acc_p_cm@.len() == ct.k_chunks + 1,
        ct.acc_q_cm@.len() == ct.k_chunks + 1,
    ensures
        r is Some <==> forall|m: int| 0 <= m < ct.k_chunks ==> #[trigger] spec_phase2_ok(*ct, m),
        r matches Some(total) ==> total@.len() == ct.candidates@.len() && forall|i: int|
            0 <= i < ct.candidates@.len() ==> #[trigger] total@[i] as nat == spec_total(*ct, i, ct.k_chunks as nat),
{
    let k_chunks = ct.k_chunks;
    let nc = ct.candidates.len();
    let mut total: Vec<u64> = Vec::new();
    let mut z2: usize = 0;
    while z2 < nc
        invariant
            z2 <= nc,
            total@.len() == z2,
            forall|m: int| 0 <= m < z2 ==> #[trigger] total@[m] == 0,
        decreases nc - z2,
    {
        total.push(0);
        z2 += 1;
    }
    let mut k: usize = 0;
    while k < k_chunks
        invariant
            spec_chunked_shape(*ct),
            k_chunks == ct.k_chunks,
            nc == ct.candidates@.len(),
            ct.records@.len() == k_chunks * ct.chunk_size,
            ct.acc_p_cm@.len() == ct.k_chunks + 1,
            ct.acc_q_cm@.len() == ct.k_chunks + 1,
            k <= k_chunks,
            total@.len() == nc,
            forall|m: int| 0 <= m < k ==> #[trigger] spec_phase2_ok(*ct, m),
            forall|i: int| 0 <= i < nc ==> #[trigger] total@[i] as nat == spec_total(*ct, i, k as nat),
            forall|i: int| 0 <= i < nc ==> #[trigger] total@[i] <= k * ct.chunk_size,
        decreases k_chunks - k,
    {
        if !phase2_run(ct, k) {
            return None;
        }
        let pt = &ct.partial_tallies[k];
        proof {
            assert forall|m: int| 0 <= m < nc implies #[trigger] pt@[m] <= ct.chunk_size by {
                lemma_run_count_bound(
                    spec_bnd_in(*ct, k as int).id,
                    chunk(ct.sorted@, k as int, ct.chunk_size as int),
                    m as nat,
                    ct.chunk_size as nat,
                );
            }
            assert((k + 1) * ct.chunk_size == k * ct.chunk_size + ct.chunk_size) by (nonlinear_arith);
            assert((k + 1) * ct.chunk_size <= ct.k_chunks * ct.chunk_size) by (nonlinear_arith)
                requires
                    k < ct.k_chunks,
            ;
        }
        let mut i: usize = 0;
        while i < nc
            invariant
                k < k_chunks,
                k_chunks == ct.k_chunks,
                (k + 1) * ct.chunk_size == k * ct.chunk_size + ct.chunk_size,
                (k + 1) * ct.chunk_size <= usize::MAX,
                forall|m: int| 0 <= m < nc ==> #[trigger] pt@[m] <= ct.chunk_size,
                pt@ == ct.partial_tallies@[k as int]@,
                pt@.len() == nc,
                i <= nc,
                total@.len() == nc,
                forall|m: int| 0 <= m < i ==> #[trigger] total@[m] as nat == spec_total(*ct, m, (k + 1) as nat),
                forall|m: int| i <= m < nc ==> #[trigger] total@[m] as nat == spec_total(*ct, m, k as nat),
                forall|m: int| 0 <= m < i ==> #[trigger] total@[m] <= (k + 1) * ct.chunk_size,
                forall|m: int| i <= m < nc ==> #[trigger] total@[m] <= k * ct.chunk_size,
            decreases nc - i,
        {
            total.set(i, total[i] + pt[i]);
            i += 1;
        }
        k += 1;
    }
    Some(total)
}

/// Native check of the entire chunked pipeline: every constraint of every
/// chunk circuit plus every aggregator check (the chunked analogue of
/// `relation_check_native`).
pub fn chunked_relation_check_native(ct: &ChunkedTally) -> (r: bool)
    requires
        spec_chunked_shape(*ct),
    ensures
        r == spec_chunked_relation(*ct),
{
    let c = ct.chunk_size;
    let k_chunks = ct.k_chunks;
    let st = &ct.statement;
    let n = k_chunks * c;
    if ct.rows.len() != n || ct.records.len() != n {
        return false;
    }
    if st.duplicate_rule_id != 1 || st.num_voters >= 256 {
        return false;
    }
    if ct.merkle_depth < 8 {
        let cap: u64 = 1u64 << ct.merkle_depth as u64;
        proof {
            vstd::arithmetic::power2::lemma2_to64();
            vstd::arithmetic::power2::lemma_pow2_strictly_increases(ct.merkle_depth as nat, 8);
            vstd::bits::lemma_u64_shl_is_mul(1, ct.merkle_depth as u64);
            crate::zk::bits::lemma_two_pow_pow2(ct.merkle_depth as nat);
        }
        if st.num_voters > cap {
            return false;
        }
    }
    if st.num_ballots > n as u64 || st.num_ballots >= 0x100_0000 {
        return false;
    }
    let nc = ct.candidates.len();
    let mut cand_f: Vec<Fe> = Vec::new();
    let mut i: usize = 0;
    while i < nc
        invariant
            nc == ct.candidates@.len(),
            i <= nc,
            cand_f@.len() == i,
            forall|m: int| 0 <= m < i ==> (#[trigger] cand_f@[m])@ == ct.candidates@[m] as nat,
        decreases nc - i,
    {
        cand_f.push(Fe::from_u64(ct.candidates[i]));
        i += 1;
    }
    assert(vals(cand_f@) =~= candidate_vals(ct.candidates@));
    let ccm = poseidon(cand_f.as_slice());
    proof {
        Fe::lemma_eq_iff_view_eq(ccm, st.candidate_set_commitment);
    }
    if ccm != st.candidate_set_commitment {
        return false;
    }
    // phase 1: validity chunks
    if ct.bb.len() == 0 || ct.bb.len() - 1 != k_chunks {
        return false;
    }
    let z = Fe::zero();
    proof {
        Fe::lemma_eq_iff_view_eq(ct.bb@[0], z);
    }
    if ct.bb[0] != z {
        return false;
    }
    if !phase1_all(ct, &cand_f) {
        return false;
    }
    proof {
        Fe::lemma_eq_iff_view_eq(ct.bb@[k_chunks as int], st.bb_commitment);
    }
    if ct.bb[k_chunks] != st.bb_commitment {
        return false;
    }
    // Fiat-Shamir
    let (gamma, delta) = derive_challenges(st, ct.rc.as_slice(), ct.sc.as_slice());
    proof {
        Fe::lemma_eq_iff_view_eq(gamma, ct.gamma);
        Fe::lemma_eq_iff_view_eq(delta, ct.delta);
    }
    if gamma != ct.gamma || delta != ct.delta {
        return false;
    }
    // phase 2: sorted runs
    let sent = sentinel_commitment();
    proof {
        Fe::lemma_eq_iff_view_eq(ct.boundary_cm@[0], sent);
    }
    if ct.boundary_cm[0] != sent {
        return false;
    }
    if ct.acc_p_cm.len() == 0 || ct.acc_p_cm.len() - 1 != k_chunks || ct.acc_q_cm.len() == 0
        || ct.acc_q_cm.len() - 1 != k_chunks {
        return false;
    }
    let start = product_chain_start();
    let one = Fe::one();
    proof {
        Fe::lemma_eq_iff_view_eq(ct.acc_p_cm@[0], start);
        Fe::lemma_eq_iff_view_eq(ct.acc_q_cm@[0], start);
        Fe::lemma_eq_iff_view_eq(ct.acc_p@[0], one);
        Fe::lemma_eq_iff_view_eq(ct.acc_q@[0], one);
    }
    if ct.acc_p_cm[0] != start || ct.acc_q_cm[0] != start || ct.acc_p[0] != one || ct.acc_q[0] != one {
        return false;
    }
    let total = match phase2_all(ct) {
        Some(t) => t,
        None => return false,
    };
    if ct.acc_p[k_chunks] != ct.acc_q[k_chunks] {
        return false;
    }
    let eq = crate::zk::statement::counts_equal(&total, &st.tally_counts);
    proof {
        if eq {
            assert forall|i: int| 0 <= i < nc implies #[trigger] st.tally_counts@[i] as nat == spec_total(
                *ct,
                i,
                k_chunks as nat,
            ) by {
                assert(total@[i] == st.tally_counts@[i]);
            }
        } else {
            if st.tally_counts@.len() == nc {
                assert(exists|i: int| 0 <= i < nc && total@[i] != st.tally_counts@[i]) by {
                    if forall|i: int| 0 <= i < nc ==> total@[i] == st.tally_counts@[i] {
                        assert(total@ =~= st.tally_counts@);
                    }
                }
            }
        }
    }
    eq
}

proof fn lemma_run_count_bound(bnd_id: u64, run: Seq<Rec>, cand: nat, n: nat)
    ensures
        spec_run_count(bnd_id, run, cand, n) <= n,
    decreases n,
{
    if n > 0 {
        lemma_run_count_bound(bnd_id, run, cand, (n - 1) as nat);
    }
}

// ---------------------------------------------------------------------------
// Prover-side construction
// ---------------------------------------------------------------------------

/// Insert x after the last record whose wide key is not above x's (stable).
pub open spec fn sorted_insert_w(s: Seq<Rec>, x: Rec) -> Seq<Rec>
    decreases s.len(),
{
    if s.len() == 0 {
        seq![x]
    } else if spec_key_wide(s.last()) <= spec_key_wide(x) {
        s.push(x)
    } else {
        sorted_insert_w(s.drop_last(), x).push(s.last())
    }
}

/// The records stably sorted by their wide key.
pub open spec fn spec_sort_wide(s: Seq<Rec>) -> Seq<Rec>
    decreases s.len(),
{
    if s.len() == 0 {
        s
    } else {
        sorted_insert_w(spec_sort_wide(s.drop_last()), s.last())
    }
}

proof fn lemma_sorted_insert_w_shape(s: Seq<Rec>, x: Rec, k: int)
    requires
        0 <= k <= s.len(),
        forall|i: int| k <= i < s.len() ==> spec_key_wide(#[trigger] s[i]) > spec_key_wide(x),
        k == 0 || spec_key_wide(s[k - 1]) <= spec_key_wide(x),
    ensures
        sorted_insert_w(s, x) == s.insert(k, x),
    decreases s.len(),
{
    if s.len() == 0 {
        assert(s.insert(k, x) =~= seq![x]);
    } else if k == s.len() {
        assert(s.insert(k, x) =~= s.push(x));
    } else {
        assert(spec_key_wide(s[s.len() - 1]) > spec_key_wide(x));
        lemma_sorted_insert_w_shape(s.drop_last(), x, k);
        assert(s.insert(k, x) =~= s.drop_last().insert(k, x).push(s.last()));
    }
}

/// Stable insertion sort of the records by their wide key.
fn sort_wide(records: &Vec<Rec>) -> (r: Vec<Rec>)
    ensures
        r@ == spec_sort_wide(records@),
{
    let mut out: Vec<Rec> = Vec::new();
    let mut i: usize = 0;
    while i < records.len()
        invariant
            i <= records@.len(),
            out@ == spec_sort_wide(records@.subrange(0, i as int)),
        decreases records@.len() - i,
    {
        let x = records[i];
        let kx = x.key_wide();
        let mut k: usize = out.len();
        while k > 0 && out[k - 1].key_wide() > kx
            invariant
                k <= out@.len(),
                kx == spec_key_wide(x),
                forall|m: int| k <= m < out@.len() ==> spec_key_wide(#[trigger] out@[m]) > spec_key_wide(x),
            decreases k,
        {
            k -= 1;
        }
        proof {
            lemma_sorted_insert_w_shape(out@, x, k as int);
            assert(records@.subrange(0, i + 1).drop_last() =~= records@.subrange(0, i as int));
        }
        out.insert(k, x);
        i += 1;
    }
    assert(records@.subrange(0, records@.len() as int) =~= records@);
    out
}

/// The number of chunks for a board of n slots: ceil(n / c), at least 1.
pub open spec fn spec_k_chunks(n: nat, c: nat) -> nat {
    if n == 0 {
        1
    } else if n % c == 0 {
        n / c
    } else {
        n / c + 1
    }
}

/// What `build_chunked_tally` produces, component by component (the
/// witness side is stated by `build_tally_witness`; see also
/// `spec_chunked_relation`, which the check establishes).
pub open spec fn spec_built(ct: ChunkedTally, pp: crate::types::PublicParams, n: nat, c: nat) -> bool {
    let kk = ct.k_chunks as int;
    let st = ct.statement;
    &&& ct.chunk_size == c
    &&& ct.k_chunks == spec_k_chunks(n, c)
    &&& ct.merkle_depth == pp.merkle_depth
    &&& ct.candidates@ == pp.candidates@
    &&& ct.rows@.len() == kk * c
    &&& ct.records@.len() == kk * c
    &&& forall|j: int|
        0 <= j < kk * c ==> spec_eval_row(
            st.eid_hash@,
            st.mr@,
            st.num_voters,
            candidate_vals(ct.candidates@),
            j < st.num_ballots,
            row_view(#[trigger] ct.rows@[j]),
            j as u64,
        ) == Some(ct.records@[j])
    &&& ct.sorted@ == spec_sort_wide(ct.records@)
    &&& ct.bb@.len() == kk + 1
    &&& ct.bb@[0]@ == 0
    &&& forall|k: int|
        0 <= k < kk ==> spec_seg_chain(#[trigger] ct.bb@[k]@, ct.rows@, st.num_ballots as nat, k * c, c)
            == ct.bb@[k + 1]@
    &&& ct.rc@.len() == kk
    &&& ct.sc@.len() == kk
    &&& ct.rc_blind@.len() == kk
    &&& ct.sc_blind@.len() == kk
    &&& forall|k: int| 0 <= k < kk ==> spec_record_chain((#[trigger] ct.rc_blind@[k])@, chunk(ct.records@, k, c as int)) == ct.rc@[k]@
    &&& forall|k: int| 0 <= k < kk ==> spec_record_chain((#[trigger] ct.sc_blind@[k])@, chunk(ct.sorted@, k, c as int)) == ct.sc@[k]@
    &&& (ct.gamma@, ct.delta@) == spec_challenges(st, vals(ct.rc@), vals(ct.sc@))
    &&& ct.boundary_cm@.len() == kk + 1
    &&& ct.boundary_blind@.len() == kk + 1
    &&& ct.boundary_cm@[0]@ == spec_sentinel_commitment()
    &&& ct.boundary_blind@[0]@ == 0
    &&& forall|k: int|
        0 <= k < kk ==> spec_record_commit(ct.sorted@[(k + 1) * c - 1], (#[trigger] ct.boundary_blind@[k + 1])@)
            == ct.boundary_cm@[k + 1]@
    &&& ct.acc_p@.len() == kk + 1
    &&& ct.acc_q@.len() == kk + 1
    &&& ct.acc_p_blind@.len() == kk + 1
    &&& ct.acc_q_blind@.len() == kk + 1
    &&& ct.acc_p_cm@.len() == kk + 1
    &&& ct.acc_q_cm@.len() == kk + 1
    &&& ct.acc_p@[0]@ == 1
    &&& ct.acc_q@[0]@ == 1
    &&& ct.acc_p_blind@[0]@ == 0
    &&& ct.acc_q_blind@[0]@ == 0
    &&& ct.acc_p_cm@[0]@ == spec_product_chain_start()
    &&& ct.acc_q_cm@[0]@ == spec_product_chain_start()
    &&& forall|k: int|
        0 <= k < kk ==> {
            &&& spec_run_product((#[trigger] ct.acc_p@[k])@, chunk(ct.sorted@, k, c as int), ct.gamma@, ct.delta@)
                == ct.acc_p@[k + 1]@
            &&& spec_run_product(ct.acc_q@[k]@, chunk(ct.records@, k, c as int), ct.gamma@, ct.delta@)
                == ct.acc_q@[k + 1]@
            &&& poseidon_spec(seq![ct.acc_p@[k + 1]@, ct.acc_p_blind@[k + 1]@]) == ct.acc_p_cm@[k + 1]@
            &&& poseidon_spec(seq![ct.acc_q@[k + 1]@, ct.acc_q_blind@[k + 1]@]) == ct.acc_q_cm@[k + 1]@
        }
    &&& ct.partial_tallies@.len() == kk
    &&& ct.tally_blind@.len() == kk
    &&& ct.tc@.len() == kk
    &&& forall|k: int|
        0 <= k < kk ==> {
            &&& (#[trigger] ct.partial_tallies@[k])@.len() == ct.candidates@.len()
            &&& forall|i: int|
                0 <= i < ct.candidates@.len() ==> #[trigger] ct.partial_tallies@[k]@[i] as nat == spec_run_count(
                    spec_bnd_in(ct, k).id,
                    chunk(ct.sorted@, k, c as int),
                    i as nat,
                    c,
                )
            &&& poseidon_spec(candidate_vals(ct.partial_tallies@[k]@).push(ct.tally_blind@[k]@)) == ct.tc@[k]@
        }
}

/// The records of all rows, or `None` if some row is hard-unsatisfiable.
fn eval_all(st: &TallyStatement, cand_f: &Vec<Fe>, cands: Ghost<Seq<u64>>, rows: &Vec<BallotWitnessRow>) -> (r: Option<Vec<Rec>>)
    requires
        vals(cand_f@) == candidate_vals(cands@),
    ensures
        r is Some <==> forall|j: int|
            0 <= j < rows@.len() ==> (spec_eval_row(
                st.eid_hash@,
                st.mr@,
                st.num_voters,
                candidate_vals(cands@),
                j < st.num_ballots,
                row_view(#[trigger] rows@[j]),
                j as u64,
            ) is Some),
        r matches Some(recs) ==> recs@.len() == rows@.len() && forall|j: int|
            0 <= j < rows@.len() ==> spec_eval_row(
                st.eid_hash@,
                st.mr@,
                st.num_voters,
                candidate_vals(cands@),
                j < st.num_ballots,
                row_view(#[trigger] rows@[j]),
                j as u64,
            ) == Some(recs@[j]) && rec_m_ok(recs@[j], cand_f@.len() as nat),
{
    let mut records: Vec<Rec> = Vec::new();
    let mut j: usize = 0;
    while j < rows.len()
        invariant
            vals(cand_f@) == candidate_vals(cands@),
            j <= rows@.len(),
            records@.len() == j,
            forall|m: int|
                0 <= m < j ==> spec_eval_row(
                    st.eid_hash@,
                    st.mr@,
                    st.num_voters,
                    candidate_vals(cands@),
                    m < st.num_ballots,
                    row_view(#[trigger] rows@[m]),
                    m as u64,
                ) == Some(records@[m]) && rec_m_ok(records@[m], cand_f@.len() as nat),
        decreases rows@.len() - j,
    {
        let active = (j as u64) < st.num_ballots;
        match eval_row(st.eid_hash, st.mr, st.num_voters, cand_f.as_slice(), active, &rows[j], j as u64) {
            Ok(rec) => records.push(rec),
            Err(_) => {
                proof {
                    assert(rows@[j as int] == rows[j as int]);
                }
                return None;
            },
        }
        j += 1;
    }
    Some(records)
}

/// The board-chain snapshots bb_0..bb_K over K chunks of c rows.
fn board_chain(rows: &Vec<BallotWitnessRow>, nb: u64, c: usize, k_chunks: usize) -> (r: Vec<Fe>)
    requires
        c > 0,
        rows@.len() == k_chunks * c,
    ensures
        r@.len() == k_chunks + 1,
        r@[0]@ == 0,
        forall|k: int|
            0 <= k < k_chunks ==> spec_seg_chain(#[trigger] r@[k]@, rows@, nb as nat, k * c, c as nat) == r@[k + 1]@,
{
    let mut bb: Vec<Fe> = vec![Fe::zero()];
    let total = rows.len();
    let mut k: usize = 0;
    while k < k_chunks
        invariant
            c > 0,
            total == rows@.len(),
            rows@.len() == k_chunks * c,
            k <= k_chunks,
            bb@.len() == k + 1,
            bb@[0]@ == 0,
            forall|m: int| 0 <= m < k ==> spec_seg_chain(#[trigger] bb@[m]@, rows@, nb as nat, m * c, c as nat) == bb@[m + 1]@,
        decreases k_chunks - k,
    {
        proof {
            assert((k + 1) * c <= k_chunks * c) by (nonlinear_arith)
                requires
                    k < k_chunks,
            ;
            assert((k + 1) * c == k * c + c) by (nonlinear_arith);
        }
        let lo = k * c;
        let mut acc = bb[k];
        let mut j: usize = 0;
        while j < c
            invariant
                c > 0,
                total == rows@.len(),
                lo == k * c,
                lo + c <= rows@.len(),
                j <= c,
                bb@.len() == k + 1,
                acc@ == spec_seg_chain(bb@[k as int]@, rows@, nb as nat, lo as int, j as nat),
            decreases c - j,
        {
            if ((lo + j) as u64) < nb {
                acc = poseidon2(acc, rows[lo + j].ct);
            }
            j += 1;
        }
        bb.push(acc);
        proof {
            assert forall|m: int| 0 <= m < k + 1 implies spec_seg_chain(#[trigger] bb@[m]@, rows@, nb as nat, m * c, c as nat)
                == bb@[m + 1]@ by {
                if m < k {
                }
            }
        }
        k += 1;
    }
    bb
}

/// The blinded record chains of every chunk of `recs` with fresh blinds.
fn chain_chunks(recs: &Vec<Rec>, c: usize, k_chunks: usize, rng: &mut rand_chacha::ChaCha20Rng) -> (r: (Vec<Fe>, Vec<Fe>))
    requires
        c > 0,
        recs@.len() == k_chunks * c,
    ensures
        r.0@.len() == k_chunks,
        r.1@.len() == k_chunks,
        forall|k: int|
            0 <= k < k_chunks ==> spec_record_chain((#[trigger] r.0@[k])@, chunk(recs@, k, c as int)) == r.1@[k]@,
{
    let mut blinds: Vec<Fe> = Vec::new();
    let mut chains: Vec<Fe> = Vec::new();
    let total = recs.len();
    let mut k: usize = 0;
    while k < k_chunks
        invariant
            c > 0,
            total == recs@.len(),
            recs@.len() == k_chunks * c,
            k <= k_chunks,
            blinds@.len() == k,
            chains@.len() == k,
            forall|m: int| 0 <= m < k ==> spec_record_chain((#[trigger] blinds@[m])@, chunk(recs@, m, c as int)) == chains@[m]@,
        decreases k_chunks - k,
    {
        proof {
            assert((k + 1) * c <= k_chunks * c) by (nonlinear_arith)
                requires
                    k < k_chunks,
            ;
            assert((k + 1) * c == k * c + c) by (nonlinear_arith);
        }
        let b = Fe::random(rng);
        let ch = record_chain_range(b, recs, k * c, k * c + c);
        blinds.push(b);
        chains.push(ch);
        k += 1;
    }
    (blinds, chains)
}

proof fn lemma_sorted_insert_w_elems(s: Seq<Rec>, x: Rec, nc: nat)
    requires
        forall|i: int| 0 <= i < s.len() ==> (#[trigger] s[i]).m < nc,
        x.m < nc,
    ensures
        sorted_insert_w(s, x).len() == s.len() + 1,
        forall|i: int| 0 <= i < sorted_insert_w(s, x).len() ==> (#[trigger] sorted_insert_w(s, x)[i]).m < nc,
    decreases s.len(),
{
    if s.len() > 0 && spec_key_wide(s.last()) > spec_key_wide(x) {
        lemma_sorted_insert_w_elems(s.drop_last(), x, nc);
    }
}

/// Sorting keeps the length, and records naming candidate positions.
proof fn lemma_sort_wide_elems(s: Seq<Rec>, nc: nat)
    requires
        forall|i: int| 0 <= i < s.len() ==> (#[trigger] s[i]).m < nc,
    ensures
        spec_sort_wide(s).len() == s.len(),
        forall|i: int| 0 <= i < spec_sort_wide(s).len() ==> (#[trigger] spec_sort_wide(s)[i]).m < nc,
    decreases s.len(),
{
    if s.len() > 0 {
        lemma_sort_wide_elems(s.drop_last(), nc);
        lemma_sorted_insert_w_elems(spec_sort_wide(s.drop_last()), s.last(), nc);
    }
}

/// Boundary commitments cm_0..cm_K (cm_0 = the sentinel with blind 0).
fn boundary_commits(sorted: &Vec<Rec>, c: usize, k_chunks: usize, rng: &mut rand_chacha::ChaCha20Rng) -> (r: (Vec<Fe>, Vec<Fe>))
    requires
        c > 0,
        sorted@.len() == k_chunks * c,
    ensures
        r.0@.len() == k_chunks + 1,
        r.1@.len() == k_chunks + 1,
        r.0@[0]@ == spec_sentinel_commitment(),
        r.1@[0]@ == 0,
        forall|k: int|
            0 <= k < k_chunks ==> spec_record_commit(sorted@[(k + 1) * c - 1], (#[trigger] r.1@[k + 1])@) == r.0@[k + 1]@,
{
    let mut cm: Vec<Fe> = vec![sentinel_commitment()];
    let mut bl: Vec<Fe> = vec![Fe::zero()];
    let total = sorted.len();
    let mut k: usize = 0;
    while k < k_chunks
        invariant
            c > 0,
            total == sorted@.len(),
            sorted@.len() == k_chunks * c,
            k <= k_chunks,
            cm@.len() == k + 1,
            bl@.len() == k + 1,
            cm@[0]@ == spec_sentinel_commitment(),
            bl@[0]@ == 0,
            forall|m: int| 0 <= m < k ==> spec_record_commit(sorted@[(m + 1) * c - 1], (#[trigger] bl@[m + 1])@) == cm@[m + 1]@,
        decreases k_chunks - k,
    {
        proof {
            assert((k + 1) * c <= k_chunks * c) by (nonlinear_arith)
                requires
                    k < k_chunks,
            ;
            assert((k + 1) * c >= 1) by (nonlinear_arith)
                requires
                    c > 0,
            ;
        }
        let b = Fe::random(rng);
        let last = (k + 1) * c - 1;
        cm.push(record_commit(&sorted[last], b));
        bl.push(b);
        k += 1;
    }
    (cm, bl)
}

#[verifier::rlimit(40)]
/// A hiding running-product chain over the chunks of `recs`: values
/// acc_0 = 1, acc_{k+1} = acc_k * prod (gamma - enc(r)) over chunk k, blinds
/// (b_0 = 0) and commitments Poseidon(acc_k, b_k).
fn product_chain(recs: &Vec<Rec>, c: usize, k_chunks: usize, gamma: Fe, delta: Fe, rng: &mut rand_chacha::ChaCha20Rng) -> (r: (Vec<Fe>, Vec<Fe>, Vec<Fe>))
    requires
        c > 0,
        recs@.len() == k_chunks * c,
    ensures
        r.0@.len() == k_chunks + 1,
        r.1@.len() == k_chunks + 1,
        r.2@.len() == k_chunks + 1,
        r.0@[0]@ == 1,
        r.1@[0]@ == 0,
        r.2@[0]@ == spec_product_chain_start(),
        forall|k: int|
            0 <= k < k_chunks ==> spec_run_product((#[trigger] r.0@[k])@, chunk(recs@, k, c as int), gamma@, delta@)
                == r.0@[k + 1]@ && poseidon_spec(seq![r.0@[k + 1]@, r.1@[k + 1]@]) == r.2@[k + 1]@,
{
    let mut acc: Vec<Fe> = vec![Fe::one()];
    let mut blind: Vec<Fe> = vec![Fe::zero()];
    let mut cm: Vec<Fe> = vec![product_chain_start()];
    let total = recs.len();
    let mut k: usize = 0;
    while k < k_chunks
        invariant
            c > 0,
            total == recs@.len(),
            recs@.len() == k_chunks * c,
            k <= k_chunks,
            acc@.len() == k + 1,
            blind@.len() == k + 1,
            cm@.len() == k + 1,
            acc@[0]@ == 1,
            blind@[0]@ == 0,
            cm@[0]@ == spec_product_chain_start(),
            forall|m: int|
                0 <= m < k ==> #[trigger] spec_run_product(acc@[m]@, chunk(recs@, m, c as int), gamma@, delta@)
                    == acc@[m + 1]@,
            forall|m: int|
                1 <= m <= k ==> poseidon_spec(seq![acc@[m]@, blind@[m]@]) == (#[trigger] cm@[m])@,
        decreases k_chunks - k,
    {
        proof {
            assert((k + 1) * c <= k_chunks * c) by (nonlinear_arith)
                requires
                    k < k_chunks,
            ;
            assert((k + 1) * c == k * c + c) by (nonlinear_arith);
        }
        let lo = k * c;
        let p = run_product(acc[k], recs, lo, lo + c, gamma, delta);
        let b = Fe::random(rng);
        let h = poseidon2(p, b);
        proof {
            assert(chunk(recs@, k as int, c as int) == recs@.subrange(lo as int, lo + c));
        }
        cm.push(h);
        acc.push(p);
        blind.push(b);
        k += 1;
    }
    proof {
        assert forall|m: int| 0 <= m < k_chunks implies spec_run_product(
            (#[trigger] acc@[m])@,
            chunk(recs@, m, c as int),
            gamma@,
            delta@,
        ) == acc@[m + 1]@ && poseidon_spec(seq![acc@[m + 1]@, blind@[m + 1]@]) == cm@[m + 1]@ by {
            assert(cm@[m + 1]@ == poseidon_spec(seq![acc@[m + 1]@, blind@[m + 1]@]));
            assert(spec_run_product(acc@[m]@, chunk(recs@, m, c as int), gamma@, delta@) == acc@[m + 1]@);
        }
    }
    (acc, blind, cm)
}

/// The partial tally of run k counted after its boundary record.
pub open spec fn spec_partial_ok(sorted: Seq<Rec>, c: nat, k: int, nc: nat, t: Seq<u64>) -> bool {
    &&& t.len() == nc
    &&& forall|i: int|
        0 <= i < nc ==> #[trigger] t[i] as nat == spec_run_count(
            if k == 0 { spec_sentinel().id } else { sorted[k * c - 1].id },
            chunk(sorted, k, c as int),
            i as nat,
            c,
        )
}

/// Per-run first-valid counting and the hiding partial-tally commitments.
fn run_tallies(sorted: &Vec<Rec>, c: usize, k_chunks: usize, nc: usize, rng: &mut rand_chacha::ChaCha20Rng) -> (r: (Vec<Vec<u64>>, Vec<Fe>, Vec<Fe>))
    requires
        c > 0,
        1 <= nc <= 11,
        sorted@.len() == k_chunks * c,
        forall|j: int| 0 <= j < sorted@.len() ==> (#[trigger] sorted@[j]).m < nc,
    ensures
        r.0@.len() == k_chunks,
        r.1@.len() == k_chunks,
        r.2@.len() == k_chunks,
        forall|k: int|
            0 <= k < k_chunks ==> spec_partial_ok(sorted@, c as nat, k, nc as nat, (#[trigger] r.0@[k])@)
                && poseidon_spec(candidate_vals(r.0@[k]@).push(r.1@[k]@)) == r.2@[k]@,
{
    let mut partial: Vec<Vec<u64>> = Vec::new();
    let mut blinds: Vec<Fe> = Vec::new();
    let mut tc: Vec<Fe> = Vec::new();
    let total = sorted.len();
    let mut k: usize = 0;
    while k < k_chunks
        invariant
            c > 0,
            1 <= nc <= 11,
            total == sorted@.len(),
            sorted@.len() == k_chunks * c,
            forall|j: int| 0 <= j < sorted@.len() ==> (#[trigger] sorted@[j]).m < nc,
            k <= k_chunks,
            partial@.len() == k,
            blinds@.len() == k,
            tc@.len() == k,
            forall|m: int|
                0 <= m < k ==> spec_partial_ok(sorted@, c as nat, m, nc as nat, (#[trigger] partial@[m])@)
                    && poseidon_spec(candidate_vals(partial@[m]@).push(blinds@[m]@)) == tc@[m]@,
        decreases k_chunks - k,
    {
        proof {
            assert((k + 1) * c <= k_chunks * c) by (nonlinear_arith)
                requires
                    k < k_chunks,
            ;
            assert((k + 1) * c == k * c + c) by (nonlinear_arith);
            if k > 0 {
                assert(k * c >= c) by (nonlinear_arith)
                    requires
                        k >= 1,
                ;
            }
        }
        let lo = k * c;
        let bnd_id: u64 = if k == 0 {
            256
        } else {
            sorted[lo - 1].id
        };
        let t = run_counts(bnd_id, sorted, lo, lo + c, nc);
        let tb = Fe::random(rng);
        let inputs = counts_with_blind(&t, tb);
        assert(vals(inputs@).len() == inputs@.len());
        tc.push(poseidon(inputs.as_slice()));
        blinds.push(tb);
        partial.push(t);
        proof {
            assert forall|m: int| 0 <= m < k + 1 implies spec_partial_ok(sorted@, c as nat, m, nc as nat, (#[trigger] partial@[m])@)
                && poseidon_spec(candidate_vals(partial@[m]@).push(blinds@[m]@)) == tc@[m]@ by {
                if m < k {
                }
            }
        }
        k += 1;
    }
    (partial, blinds, tc)
}

/// The witness rows padded with padding rows to `padded` slots.
fn pad_rows(rows: Vec<BallotWitnessRow>, padded: usize, depth: usize) -> (r: Vec<BallotWitnessRow>)
    requires
        rows@.len() <= padded,
    ensures
        r@.len() == padded,
        forall|j: int| 0 <= j < rows@.len() ==> #[trigger] r@[j] == rows@[j],
        forall|j: int| rows@.len() <= j < padded ==> crate::zk::witness::spec_is_padding_row(#[trigger] r@[j], depth as nat),
{
    let ghost orig = rows@;
    let mut out = rows;
    while out.len() < padded
        invariant
            orig.len() <= out@.len() <= padded,
            forall|j: int| 0 <= j < orig.len() ==> #[trigger] out@[j] == orig[j],
            forall|j: int| orig.len() <= j < out@.len() ==> crate::zk::witness::spec_is_padding_row(#[trigger] out@[j], depth as nat),
        decreases padded - out@.len(),
    {
        out.push(crate::zk::witness::padding_row(depth));
    }
    out
}

/// The number of chunks for `n` board slots in chunks of `c`: at least
/// one, and enough to cover every slot.
fn k_chunks_for(n: usize, c: usize) -> (k: usize)
    requires
        c > 0,
        n + c <= usize::MAX,
    ensures
        k == spec_k_chunks(n as nat, c as nat),
        k >= 1,
        n <= k * c <= n + c,
{
    let k_chunks: usize = if n == 0 {
        1
    } else if n % c == 0 {
        n / c
    } else {
        n / c + 1
    };
    proof {
        vstd::arithmetic::div_mod::lemma_fundamental_div_mod(n as int, c as int);
        vstd::arithmetic::mul::lemma_mul_is_commutative((n / c) as int, c as int);
        if n == 0 {
        } else if n % c == 0 {
            assert(k_chunks * c == n);
            assert(k_chunks > 0) by (nonlinear_arith)
                requires
                    k_chunks * c == n,
                    n > 0,
            ;
        } else {
            assert(k_chunks * c == (n / c) * c + c) by (nonlinear_arith)
                requires
                    k_chunks == n / c + 1,
            ;
        }
    }
    k_chunks
}

/// The candidate identifiers as field elements.
fn candidate_fes(cands: &Vec<u64>) -> (r: Vec<Fe>)
    ensures
        vals(r@) == candidate_vals(cands@),
{
    let nc = cands.len();
    let mut cand_f: Vec<Fe> = Vec::new();
    let mut i: usize = 0;
    while i < nc
        invariant
            nc == cands@.len(),
            i <= nc,
            cand_f@.len() == i,
            forall|m: int| 0 <= m < i ==> (#[trigger] cand_f@[m])@ == cands@[m] as nat,
        decreases nc - i,
    {
        cand_f.push(Fe::from_u64(cands[i]));
        i += 1;
    }
    assert(vals(cand_f@) =~= candidate_vals(cands@));
    cand_f
}

/// Every value derived from the evaluated records: board chain, sorted
/// records, blinded chunk commitments, challenges, boundary commitments,
/// product chains and partial tallies (see `spec_built`).
#[verifier::rlimit(60)]
fn assemble_chunked(
    pp: &crate::types::PublicParams,
    statement: TallyStatement,
    rows: Vec<BallotWitnessRow>,
    records: Vec<Rec>,
    n: usize,
    c: usize,
    k_chunks: usize,
    rng: &mut rand_chacha::ChaCha20Rng,
) -> (ct: ChunkedTally)
    requires
        c > 0,
        1 <= pp.candidates@.len() <= 11,
        k_chunks == spec_k_chunks(n as nat, c as nat),
        rows@.len() == k_chunks * c,
        records@.len() == k_chunks * c,
        forall|j: int|
            0 <= j < k_chunks * c ==> spec_eval_row(
                statement.eid_hash@,
                statement.mr@,
                statement.num_voters,
                candidate_vals(pp.candidates@),
                j < statement.num_ballots,
                row_view(#[trigger] rows@[j]),
                j as u64,
            ) == Some(records@[j]),
        forall|j: int| 0 <= j < records@.len() ==> (#[trigger] records@[j]).m < pp.candidates@.len(),
    ensures
        spec_built(ct, *pp, n as nat, c as nat),
        ct.statement == statement,
        ct.rows@ == rows@,
        ct.records@ == records@,
{
    let nc = pp.candidates.len();
    let bb = board_chain(&rows, statement.num_ballots, c, k_chunks);
    let sorted = sort_wide(&records);
    proof {
        lemma_sort_wide_elems(records@, nc as nat);
    }
    let (rc_blind, rc) = chain_chunks(&records, c, k_chunks, rng);
    let (sc_blind, sc) = chain_chunks(&sorted, c, k_chunks, rng);
    let (gamma, delta) = derive_challenges(&statement, rc.as_slice(), sc.as_slice());
    let (boundary_cm, boundary_blind) = boundary_commits(&sorted, c, k_chunks, rng);
    let (acc_p, acc_p_blind, acc_p_cm) = product_chain(&sorted, c, k_chunks, gamma, delta, rng);
    let (acc_q, acc_q_blind, acc_q_cm) = product_chain(&records, c, k_chunks, gamma, delta, rng);
    let (partial_tallies, tally_blind, tc) = run_tallies(&sorted, c, k_chunks, nc, rng);
    let ct = ChunkedTally {
        chunk_size: c,
        k_chunks,
        merkle_depth: pp.merkle_depth,
        statement,
        candidates: pp.candidates.clone(),
        rows,
        records,
        sorted,
        bb,
        rc_blind,
        rc,
        sc_blind,
        sc,
        boundary_cm,
        boundary_blind,
        gamma,
        delta,
        acc_p,
        acc_q,
        acc_p_blind,
        acc_q_blind,
        acc_p_cm,
        acc_q_cm,
        partial_tallies,
        tally_blind,
        tc,
    };
    proof {
        assert forall|k: int| 0 <= k < k_chunks implies {
            &&& (#[trigger] ct.partial_tallies@[k])@.len() == ct.candidates@.len()
            &&& forall|i: int|
                0 <= i < ct.candidates@.len() ==> #[trigger] ct.partial_tallies@[k]@[i] as nat == spec_run_count(
                    spec_bnd_in(ct, k).id,
                    chunk(ct.sorted@, k, c as int),
                    i as nat,
                    c as nat,
                )
            &&& poseidon_spec(candidate_vals(ct.partial_tallies@[k]@).push(ct.tally_blind@[k]@)) == ct.tc@[k]@
        } by {
            assert(spec_partial_ok(ct.sorted@, c as nat, k, nc as nat, ct.partial_tallies@[k]@));
        }
        assert forall|k: int| 0 <= k < k_chunks implies {
            &&& spec_run_product((#[trigger] ct.acc_p@[k])@, chunk(ct.sorted@, k, c as int), ct.gamma@, ct.delta@)
                == ct.acc_p@[k + 1]@
            &&& spec_run_product(ct.acc_q@[k]@, chunk(ct.records@, k, c as int), ct.gamma@, ct.delta@)
                == ct.acc_q@[k + 1]@
            &&& poseidon_spec(seq![ct.acc_p@[k + 1]@, ct.acc_p_blind@[k + 1]@]) == ct.acc_p_cm@[k + 1]@
            &&& poseidon_spec(seq![ct.acc_q@[k + 1]@, ct.acc_q_blind@[k + 1]@]) == ct.acc_q_cm@[k + 1]@
        } by {
            assert(spec_run_product(ct.acc_q@[k]@, chunk(ct.records@, k, c as int), ct.gamma@, ct.delta@)
                == ct.acc_q@[k + 1]@);
        }
    }
    ct
}

/// Whether the hard registration-row fetch of an active slot whose opening
/// claims id field `id_field` succeeds: an id out of circuit range is not
/// fetched; an in-range id's table row, hashed into its leaf, must fold
/// along its stored path (zeros where none is stored) to the registration
/// root.
pub open spec fn spec_fetch_ok(
    pp: crate::types::PublicParams,
    reg: crate::protocol::preprocessing::RegistrationState,
    id_field: nat,
) -> bool {
    if id_field < 256 && id_field < reg.records@.len() {
        let rec = reg.records@[id_field as int];
        let path = if id_field < reg.paths@.len() {
            vals(reg.paths@[id_field as int].elements@)
        } else {
            Seq::new(pp.merkle_depth as nat, |d: int| 0nat)
        };
        let leaf = crate::crypto::hash::spec_h_reg(pp.eid_hash@, id_field, rec.vk.x@, rec.vk.y@, rec.h@);
        crate::crypto::merkle::spec_fold(leaf, path, crate::crypto::merkle::spec_path_indices(path.len(), id_field))
            == reg.root@
    } else {
        true
    }
}

/// An admitted ballot's witness row passes the circuit's hard constraints
/// exactly when the registration-row fetch of its claimed id succeeds.
proof fn lemma_fetch_iff(
    pp: crate::types::PublicParams,
    auth: crate::types::AuthoritySecretState,
    reg: crate::protocol::preprocessing::RegistrationState,
    admitted: AdmittedBoard,
    openings: crate::protocol::admission::AdmittedOpenings,
    st: TallyStatement,
    cands: Seq<nat>,
    j: int,
    row: BallotWitnessRow,
)
    requires
        0 <= j < openings.openings@.len(),
        crate::zk::witness::spec_witness_row(pp, auth, reg, admitted, openings, j, row),
        st.eid_hash == pp.eid_hash,
        st.mr == reg.root,
        st.num_voters == reg.records@.len(),
    ensures
        (spec_eval_row(st.eid_hash@, st.mr@, st.num_voters, cands, true, row_view(row), j as u64) is Some)
            <==> spec_fetch_ok(pp, reg, openings.openings@[j].plaintext_fields@[1]@),
{
    let o = openings.openings@[j];
    let rv = row_view(row);
    assert(rv.pt[1] == o.plaintext_fields@[1]@);
    let id_field = rv.pt[1];
    if id_field < 256 && id_field < reg.records@.len() {
        vstd::arithmetic::power2::lemma2_to64();
        assert(id_field < crate::field::w64());
        if id_field < reg.paths@.len() {
            assert(rv.path =~= vals(reg.paths@[id_field as int].elements@));
        } else {
            assert(rv.path =~= Seq::new(pp.merkle_depth as nat, |d: int| 0nat));
        }
    }
}

/// Multiplication mod p may take its two factors in either order.
proof fn lemma_fmul_swap(a: nat, b: nat, c: nat)
    ensures
        fmul(fmul(a, b), c) == fmul(fmul(a, c), b),
{
    let m = p() as int;
    vstd::arithmetic::div_mod::lemma_mul_mod_noop_left((a * b) as int, c as int, m);
    vstd::arithmetic::div_mod::lemma_mul_mod_noop_left((a * c) as int, b as int, m);
    assert((a * b) * c == (a * c) * b) by (nonlinear_arith);
}

/// Inserting a record multiplies the running product by its factor.
proof fn lemma_run_insert_w(acc: nat, s: Seq<Rec>, x: Rec, gamma: nat, delta: nat)
    ensures
        spec_run_product(acc, sorted_insert_w(s, x), gamma, delta) == fmul(
            spec_run_product(acc, s, gamma, delta),
            fsub(gamma, spec_enc(x, delta)),
        ),
    decreases s.len(),
{
    let g = |r: Rec| fsub(gamma, spec_enc(r, delta));
    if s.len() == 0 {
        assert(seq![x].drop_last() =~= s);
    } else if spec_key_wide(s.last()) <= spec_key_wide(x) {
        assert(s.push(x).drop_last() =~= s);
    } else {
        let t = s.drop_last();
        lemma_run_insert_w(acc, t, x, gamma, delta);
        let r = sorted_insert_w(t, x).push(s.last());
        assert(r.drop_last() =~= sorted_insert_w(t, x));
        lemma_fmul_swap(
            spec_run_product(acc, t, gamma, delta),
            fsub(gamma, spec_enc(x, delta)),
            fsub(gamma, spec_enc(s.last(), delta)),
        );
    }
}

/// Sorting does not change the running product.
proof fn lemma_run_sort(acc: nat, s: Seq<Rec>, gamma: nat, delta: nat)
    ensures
        spec_run_product(acc, spec_sort_wide(s), gamma, delta) == spec_run_product(acc, s, gamma, delta),
    decreases s.len(),
{
    if s.len() > 0 {
        lemma_run_sort(acc, s.drop_last(), gamma, delta);
        lemma_run_insert_w(acc, spec_sort_wide(s.drop_last()), s.last(), gamma, delta);
    }
}

/// The running product over a concatenation continues from the first part.
proof fn lemma_run_concat(acc: nat, a: Seq<Rec>, b: Seq<Rec>, gamma: nat, delta: nat)
    ensures
        spec_run_product(acc, a + b, gamma, delta) == spec_run_product(
            spec_run_product(acc, a, gamma, delta),
            b,
            gamma,
            delta,
        ),
    decreases b.len(),
{
    if b.len() == 0 {
        assert(a + b =~= a);
    } else {
        lemma_run_concat(acc, a, b.drop_last(), gamma, delta);
        assert((a + b).drop_last() =~= a + b.drop_last());
        assert((a + b).last() == b.last());
    }
}

/// A chain of chunk products from 1 is the product over the prefix.
/// The product over the first k chunks of s, from 1.
pub open spec fn spec_chunks_product(s: Seq<Rec>, c: int, k: nat, gamma: nat, delta: nat) -> nat
    decreases k,
{
    if k == 0 {
        1
    } else {
        spec_run_product(spec_chunks_product(s, c, (k - 1) as nat, gamma, delta), chunk(s, k - 1, c), gamma, delta)
    }
}

/// A chain of chunk products from 1 is the product over the chunks.
proof fn lemma_chunk_chain(accs: Seq<Fe>, s: Seq<Rec>, c: int, k: nat, gamma: nat, delta: nat)
    requires
        accs.len() > k,
        accs[0]@ == 1,
        forall|q: int|
            0 <= q < k ==> spec_run_product((#[trigger] accs[q])@, chunk(s, q, c), gamma, delta) == accs[q + 1]@,
    ensures
        accs[k as int]@ == spec_chunks_product(s, c, k, gamma, delta),
    decreases k,
{
    if k > 0 {
        lemma_chunk_chain(accs, s, c, (k - 1) as nat, gamma, delta);
        assert(spec_run_product(accs[k - 1]@, chunk(s, k - 1, c), gamma, delta) == accs[k as int]@);
    }
}

/// The product over the first k chunks is the product over their
/// concatenation.
proof fn lemma_chunks_prefix(s: Seq<Rec>, c: int, k: nat, gamma: nat, delta: nat)
    requires
        c >= 1,
        k * c <= s.len(),
    ensures
        spec_chunks_product(s, c, k, gamma, delta) == spec_run_product(1, s.subrange(0, k * c), gamma, delta),
    decreases k,
{
    if k == 0 {
        assert(s.subrange(0, 0) =~= Seq::<Rec>::empty());
    } else {
        let k1 = (k - 1) as nat;
        let lo = k1 * c;
        let hi = k * c;
        assert(lo + c == hi && (k1 + 1) * c == hi && 0 <= lo <= hi) by (nonlinear_arith)
            requires
                k1 == k - 1,
                lo == k1 * c,
                hi == k * c,
                c >= 1,
        ;
        lemma_chunks_prefix(s, c, k1, gamma, delta);
        let pre = s.subrange(0, lo);
        let ch = s.subrange(lo, hi);
        let a = spec_chunks_product(s, c, k1, gamma, delta);
        assert(a == spec_run_product(1, pre, gamma, delta));
        assert(spec_chunks_product(s, c, k, gamma, delta) == spec_run_product(a, chunk(s, k - 1, c), gamma, delta));
        assert(chunk(s, k - 1, c) == ch) by {
            assert(k - 1 == k1);
        }
        assert(s.subrange(0, hi) == pre + ch) by {
            assert(s.subrange(0, hi) =~= pre + ch);
        }
        lemma_run_concat(1, pre, ch, gamma, delta);
    }
}

/// The two product chains of a built instance end equal: the sorted
/// records are a permutation of the records (the permutation argument).
proof fn lemma_built_products_equal(ct: ChunkedTally, pp: crate::types::PublicParams, n: nat, c: nat)
    requires
        c >= 1,
        spec_built(ct, pp, n, c),
    ensures
        ct.acc_p@[ct.k_chunks as int] == ct.acc_q@[ct.k_chunks as int],
{
    let kk = ct.k_chunks as nat;
    lemma_sort_wide_elems(ct.records@, 0x1_0000_0000_0000_0000nat);
    assert forall|q: int| 0 <= q < kk implies spec_run_product((#[trigger] ct.acc_p@[q])@, chunk(ct.sorted@, q, c as int), ct.gamma@, ct.delta@)
        == ct.acc_p@[q + 1]@ by {}
    assert forall|q: int| 0 <= q < kk implies spec_run_product((#[trigger] ct.acc_q@[q])@, chunk(ct.records@, q, c as int), ct.gamma@, ct.delta@)
        == ct.acc_q@[q + 1]@ by {
        assert(spec_run_product(ct.acc_p@[q]@, chunk(ct.sorted@, q, c as int), ct.gamma@, ct.delta@) == ct.acc_p@[q + 1]@);
    }
    lemma_chunk_chain(ct.acc_p@, ct.sorted@, c as int, kk, ct.gamma@, ct.delta@);
    lemma_chunk_chain(ct.acc_q@, ct.records@, c as int, kk, ct.gamma@, ct.delta@);
    lemma_chunks_prefix(ct.sorted@, c as int, kk, ct.gamma@, ct.delta@);
    lemma_chunks_prefix(ct.records@, c as int, kk, ct.gamma@, ct.delta@);
    assert(ct.sorted@.subrange(0, kk * (c as int)) =~= ct.sorted@);
    assert(ct.records@.subrange(0, kk * (c as int)) =~= ct.records@);
    lemma_run_sort(1, ct.records@, ct.gamma@, ct.delta@);
    Fe::lemma_eq_iff_view_eq(ct.acc_p@[ct.k_chunks as int], ct.acc_q@[ct.k_chunks as int]);
}

/// A built instance has the shape the chunked check is defined on.
proof fn lemma_built_shape(ct: ChunkedTally, pp: crate::types::PublicParams, n: nat, c: nat)
    requires
        c >= 1,
        spec_built(ct, pp, n, c),
        1 <= pp.candidates@.len() <= 11,
        ct.k_chunks * c <= usize::MAX,
        forall|j: int| 0 <= j < ct.records@.len() ==> (#[trigger] ct.records@[j]).m < pp.candidates@.len(),
    ensures
        spec_chunked_shape(ct),
{
    lemma_sort_wide_elems(ct.records@, pp.candidates@.len());
}

#[verifier::rlimit(40)]
/// Build the full chunked-tally state for the admitted ballots: statement,
/// padded rows, records by the shared circuit semantics, board chain,
/// globally sorted records, blinded commitments, challenges, boundary
/// commitments, partial tallies and the hiding product chains (see
/// `spec_built`). Fails on a board over 2^24 slots, when FilterAndTally
/// fails, and on a hard-unsatisfiable row.
pub fn build_chunked_tally(
    pp: &crate::types::PublicParams,
    authority_secret: &crate::types::AuthoritySecretState,
    registration_state: &crate::protocol::preprocessing::RegistrationState,
    admitted: &AdmittedBoard,
    openings: &crate::protocol::admission::AdmittedOpenings,
    chunk_size: usize,
    rng: &mut rand_chacha::ChaCha20Rng,
) -> (r: Result<ChunkedTally>)
    requires
        chunk_size > 0,
        admitted.coms@.len() + chunk_size <= usize::MAX,
        1 <= pp.candidates@.len() <= 11,
    ensures
        admitted.coms@.len() > 0x100_0000 ==> (r matches Err(e) && e is ZkToolchain),
        admitted.coms@.len() <= 0x100_0000 && !(admitted.coms@.len() == openings.openings@.len() && forall|j: int|
            0 <= j < admitted.coms@.len() ==> #[trigger] crate::protocol::filter_and_tally::spec_opening_ok(
                *admitted,
                *openings,
                j,
            )) ==> (r matches Err(e) && e is Crypto),
        r matches Err(e) ==> e is Crypto || e is ZkToolchain,
        admitted.coms@.len() <= 0x100_0000 && admitted.coms@.len() == openings.openings@.len() && (forall|j: int|
            0 <= j < admitted.coms@.len() ==> #[trigger] crate::protocol::filter_and_tally::spec_opening_ok(
                *admitted,
                *openings,
                j,
            )) ==> (r is Ok <==> forall|j: int|
            0 <= j < admitted.coms@.len() ==> #[trigger] spec_fetch_ok(
                *pp,
                *registration_state,
                openings.openings@[j].plaintext_fields@[1]@,
            )),
        r matches Ok(ct) ==> {
            let recs = crate::protocol::filter_and_tally::spec_records(
                crate::protocol::filter_and_tally::spec_outcomes(*pp, *authority_secret, *registration_state, *openings),
            );
            &&& ct.statement.tally_counts@.len() == pp.candidates@.len()
            &&& forall|c: int|
                0 <= c < pp.candidates@.len() ==> #[trigger] ct.statement.tally_counts@[c] as nat
                    == crate::protocol::duplicates::spec_tally_count(
                    recs,
                    crate::protocol::filter_and_tally::spec_counted_flags(recs),
                    c as nat,
                    recs.len(),
                )
            &&& spec_built(ct, *pp, admitted.coms@.len(), chunk_size as nat)
            &&& spec_chunked_shape(ct)
            &&& ct.acc_p@[ct.k_chunks as int] == ct.acc_q@[ct.k_chunks as int]
            &&& crate::zk::statement::spec_statement_of(
                *pp,
                *admitted,
                *registration_state,
                ct.statement.tally_counts@,
                ct.statement,
            )
            &&& forall|j: int|
                0 <= j < admitted.coms@.len() ==> crate::zk::witness::spec_witness_row(
                    *pp,
                    *authority_secret,
                    *registration_state,
                    *admitted,
                    *openings,
                    j,
                    #[trigger] ct.rows@[j],
                )
            &&& forall|j: int|
                admitted.coms@.len() <= j < ct.rows@.len() ==> crate::zk::witness::spec_is_padding_row(
                    #[trigger] ct.rows@[j],
                    pp.merkle_depth as nat,
                )
        },
{
    let c = chunk_size;
    let n = admitted.len();
    let k_chunks = k_chunks_for(n, c);
    let padded = k_chunks * c;
    if n > 0x100_0000 {
        return Err(CrDrError::ZkToolchain(msg("board exceeds 2^24 slots")));
    }
    let (tally, _evals) = match crate::protocol::filter_and_tally::filter_and_tally(
        pp,
        authority_secret,
        registration_state,
        admitted,
        openings,
    ) {
        Ok(x) => x,
        Err(e) => return Err(e),
    };
    let statement = crate::zk::statement::build_tally_statement(pp, admitted, registration_state, &tally);
    let witness = match crate::zk::witness::build_tally_witness(
        pp,
        authority_secret,
        registration_state,
        admitted,
        openings,
    ) {
        Ok(w) => w,
        Err(e) => return Err(e),
    };
    let ghost wrows = witness.rows@;
    let rows = pad_rows(witness.rows, padded, pp.merkle_depth);
    let cand_f = candidate_fes(&pp.candidates);
    proof {
        assert forall|j: int| 0 <= j < n implies (spec_eval_row(
            statement.eid_hash@,
            statement.mr@,
            statement.num_voters,
            candidate_vals(pp.candidates@),
            j < statement.num_ballots,
            row_view(#[trigger] rows@[j]),
            j as u64,
        ) is Some) == spec_fetch_ok(*pp, *registration_state, openings.openings@[j].plaintext_fields@[1]@) by {
            assert(rows@[j] == wrows[j]);
            lemma_fetch_iff(
                *pp,
                *authority_secret,
                *registration_state,
                *admitted,
                *openings,
                statement,
                candidate_vals(pp.candidates@),
                j,
                rows@[j],
            );
        }
    }
    let records = match eval_all(&statement, &cand_f, Ghost(pp.candidates@), &rows) {
        Some(r) => r,
        None => {
            proof {
                let j = choose|j: int| 0 <= j < rows@.len() && !(spec_eval_row(
                    statement.eid_hash@,
                    statement.mr@,
                    statement.num_voters,
                    candidate_vals(pp.candidates@),
                    j < statement.num_ballots,
                    row_view(#[trigger] rows@[j]),
                    j as u64,
                ) is Some);
                assert(j < n);
                assert(!spec_fetch_ok(*pp, *registration_state, openings.openings@[j].plaintext_fields@[1]@));
            }
            return Err(CrDrError::ZkToolchain(msg("hard-unsatisfiable row")));
        },
    };
    proof {
        assert forall|j: int| 0 <= j < n implies #[trigger] spec_fetch_ok(
            *pp,
            *registration_state,
            openings.openings@[j].plaintext_fields@[1]@,
        ) by {
            assert(spec_eval_row(
                statement.eid_hash@,
                statement.mr@,
                statement.num_voters,
                candidate_vals(pp.candidates@),
                j < statement.num_ballots,
                row_view(rows@[j]),
                j as u64,
            ) is Some);
        }
    }
    proof {
        assert forall|j: int| 0 <= j < records@.len() implies (#[trigger] records@[j]).m < pp.candidates@.len() by {
            assert(spec_eval_row(
                statement.eid_hash@,
                statement.mr@,
                statement.num_voters,
                candidate_vals(pp.candidates@),
                j < statement.num_ballots,
                row_view(rows@[j]),
                j as u64,
            ) == Some(records@[j]));
            assert(rec_m_ok(records@[j], cand_f@.len() as nat));
        }
    }
    let ct = assemble_chunked(pp, statement, rows, records, n, c, k_chunks, rng);
    proof {
        lemma_built_shape(ct, *pp, n as nat, c as nat);
        lemma_built_products_equal(ct, *pp, n as nat, c as nat);
        assert forall|j: int| 0 <= j < admitted.coms@.len() implies crate::zk::witness::spec_witness_row(
            *pp,
            *authority_secret,
            *registration_state,
            *admitted,
            *openings,
            j,
            #[trigger] ct.rows@[j],
        ) by {
            assert(ct.rows@[j] == wrows[j]);
        }
    }
    Ok(ct)
}

} // verus!
