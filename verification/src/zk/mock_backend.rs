//! Native relation checker that mirrors the FilterAndTally circuit
//! constraint for constraint, hard-constraint failures included (they make
//! the relation unsatisfiable and are reported as `false`).
//!
//! Stages, in circuit order:
//!   1. per slot: soft opening/eid/candidate/signature flags; the
//!      deterministic in-range flag from the strict bit decomposition of the
//!      claimed id; the hard indexed registration-row fetch for active
//!      in-range slots; soft vk-equality and hidden-nonce flags; the record
//!      r_j = (valid, id, pos, m);
//!   2. duplicates: a Batcher odd-even mergesort network, then adjacent-row
//!      first-in-identity-block counting;
//!   3. the tally equals the public counts.

use ark_ec::{AffineRepr, CurveGroup, Group};
use ark_ff::PrimeField;
use vstd::prelude::*;

use crate::crypto::hash::{
    candidate_vals, merkle_hash, poseidon, poseidon4, poseidon5, poseidon6, poseidon_spec,
    spec_chain, spec_ct_commit, spec_h_com, spec_h_reg, vals,
};
use crate::crypto::merkle::{spec_fold, spec_path_indices};
use crate::crypto::signature::{
    base8, from_circom_point, jub_add_spec, jub_double_spec, spec_base8, spec_from_circom,
    spec_on_curve, JubAffine,
};
use crate::field::{f_is_canonical_scalar, l, w64, Fe};
use crate::zk::bits::{f_bits_le, is_bits_of, lemma_spec_bits, lemma_two_pow_64, spec_bits, two_pow};
use crate::zk::statement::TallyStatement;
use crate::zk::witness::{padded_rows, spec_dummy_pt, spec_is_padding_row, spec_padded_row_ok, BallotWitnessRow, TallyWitness};
use crate::zk::CircuitShape;

verus! {

// ---------------------------------------------------------------------------
// The Batcher odd-even mergesort schedule
// ---------------------------------------------------------------------------

/// Comparators of the innermost loop: i from `i` to `cnt`.
pub open spec fn sched_i(p: int, k: int, j: int, i: int, cnt: int) -> Seq<(usize, usize)>
    decreases cnt - i,
{
    if i >= cnt {
        Seq::empty()
    } else {
        let here: Seq<(usize, usize)> = if (i + j) / (2 * p) == (i + j + k) / (2 * p) {
            seq![((i + j) as usize, (i + j + k) as usize)]
        } else {
            Seq::empty()
        };
        here + sched_i(p, k, j, i + 1, cnt)
    }
}

/// The comparator count of the innermost loop at offset j.
pub open spec fn sched_cnt(n: int, k: int, j: int) -> int {
    if k < n - j - k {
        k
    } else {
        n - j - k
    }
}

/// Comparators of the j loop, from offset `j` on.
pub open spec fn sched_j(n: int, p: int, k: int, j: int) -> Seq<(usize, usize)>
    decreases n + k - j,
{
    if k < 1 || j + k >= n || j < 0 {
        Seq::empty()
    } else {
        sched_i(p, k, j, 0, sched_cnt(n, k, j)) + sched_j(n, p, k, j + 2 * k)
    }
}

/// Comparators of the k loop, from distance `k` down.
pub open spec fn sched_k(n: int, p: int, k: int) -> Seq<(usize, usize)>
    decreases k,
{
    if k < 1 || p < 1 {
        Seq::empty()
    } else {
        sched_j(n, p, k, k % p) + sched_k(n, p, k / 2)
    }
}

/// Comparators of the p loop, from block size `p` up.
pub open spec fn sched_p(n: int, p: int) -> Seq<(usize, usize)>
    decreases 2 * n - p,
{
    if p < 1 || p >= n {
        Seq::empty()
    } else {
        sched_k(n, p, p) + sched_p(n, 2 * p)
    }
}

/// Batcher's odd-even mergesort network on n wires, as (i, j) comparator
/// pairs in application order.
pub open spec fn spec_batcher(n: int) -> Seq<(usize, usize)> {
    sched_p(n, 1)
}

/// Every comparator joins two distinct wires a < b < n.
pub open spec fn pairs_in_range(s: Seq<(usize, usize)>, n: int) -> bool {
    forall|t: int| 0 <= t < s.len() ==> (#[trigger] s[t]).0 < s[t].1 && s[t].1 < n
}

/// The comparator schedule of Batcher's odd-even mergesort network on n
/// elements, in application order (the circuit's sort component is built
/// by the same loops).
pub fn batcher_schedule(n: usize) -> (r: Vec<(usize, usize)>)
    requires
        n <= usize::MAX / 4,
    ensures
        r@ == spec_batcher(n as int),
        pairs_in_range(r@, n as int),
{
    let ghost target = spec_batcher(n as int);
    let mut out: Vec<(usize, usize)> = Vec::new();
    let mut p: usize = 1;
    assert(out@ + sched_p(n as int, p as int) =~= target);
    while p < n
        invariant
            n <= usize::MAX / 4,
            1 <= p,
            p <= 2 * n + 1,
            out@ + sched_p(n as int, p as int) == target,
            pairs_in_range(out@, n as int),
        decreases 2 * n + 1 - p,
    {
        let ghost rest_p = sched_p(n as int, 2 * p as int);
        assert(out@ + (sched_k(n as int, p as int, p as int) + rest_p) == target);
        assert(out@ + sched_k(n as int, p as int, p as int) + rest_p =~= target);
        let mut k: usize = p;
        while k >= 1
            invariant
                n <= usize::MAX / 4,
                1 <= p < n,
                k <= p,
                rest_p == sched_p(n as int, 2 * p as int),
                out@ + sched_k(n as int, p as int, k as int) + rest_p == target,
                pairs_in_range(out@, n as int),
            decreases k,
        {
            let ghost rest_k = sched_k(n as int, p as int, (k / 2) as int);
            assert(out@ + sched_j(n as int, p as int, k as int, (k % p) as int) + rest_k + rest_p
                =~= target);
            let mut j: usize = k % p;
            while j + k < n
                invariant
                    n <= usize::MAX / 4,
                    1 <= p < n,
                    1 <= k <= p,
                    j < 2 * n,
                    rest_p == sched_p(n as int, 2 * p as int),
                    rest_k == sched_k(n as int, p as int, (k / 2) as int),
                    out@ + sched_j(n as int, p as int, k as int, j as int) + rest_k + rest_p == target,
                    pairs_in_range(out@, n as int),
                decreases n + k - j,
            {
                let cnt: usize = if k < n - j - k {
                    k
                } else {
                    n - j - k
                };
                let ghost rest_j = sched_j(n as int, p as int, k as int, (j + 2 * k) as int);
                assert(out@ + sched_i(p as int, k as int, j as int, 0, cnt as int) + rest_j + rest_k
                    + rest_p =~= target);
                let mut i: usize = 0;
                while i < cnt
                    invariant
                        n <= usize::MAX / 4,
                        1 <= p < n,
                        1 <= k <= p,
                        j + k < n,
                        cnt <= k,
                        cnt <= n - j - k,
                        i <= cnt,
                        rest_p == sched_p(n as int, 2 * p as int),
                        rest_k == sched_k(n as int, p as int, (k / 2) as int),
                        rest_j == sched_j(n as int, p as int, k as int, (j + 2 * k) as int),
                        out@ + sched_i(p as int, k as int, j as int, i as int, cnt as int) + rest_j
                            + rest_k + rest_p == target,
                        pairs_in_range(out@, n as int),
                    decreases cnt - i,
                {
                    let ghost before = out@;
                    if (i + j) / (2 * p) == (i + j + k) / (2 * p) {
                        out.push((i + j, i + j + k));
                    }
                    proof {
                        let nxt = sched_i(p as int, k as int, j as int, (i + 1) as int, cnt as int);
                        assert(out@ + nxt + rest_j + rest_k + rest_p =~= before + sched_i(
                            p as int,
                            k as int,
                            j as int,
                            i as int,
                            cnt as int,
                        ) + rest_j + rest_k + rest_p);
                    }
                    i += 1;
                }
                assert(sched_i(p as int, k as int, j as int, i as int, cnt as int) =~= Seq::<
                    (usize, usize),
                >::empty());
                assert(out@ + rest_j + rest_k + rest_p =~= target);
                j += 2 * k;
            }
            assert(sched_j(n as int, p as int, k as int, j as int) =~= Seq::<(usize, usize)>::empty());
            assert(out@ + rest_k + rest_p =~= target);
            k /= 2;
        }
        assert(sched_k(n as int, p as int, k as int) =~= Seq::<(usize, usize)>::empty());
        assert(out@ + rest_p =~= target);
        p *= 2;
    }
    assert(sched_p(n as int, p as int) =~= Seq::<(usize, usize)>::empty());
    assert(out@ =~= target);
    out
}

// ---------------------------------------------------------------------------
// Records
// ---------------------------------------------------------------------------

/// One private record as the circuit sees it.
#[derive(Debug, Clone, Copy, PartialEq, Eq, Structural)]
pub struct Rec {
    pub valid: bool,
    pub id: u64,
    pub pos: u64,
    pub m: u64,
}

/// The monolithic circuit's key packing (1-valid)<<16 | id<<8 | pos.
pub open spec fn spec_key(r: Rec) -> u64 {
    ((if r.valid {
        0u64
    } else {
        1u64
    }) << 16u64) | (r.id << 8u64) | r.pos
}

/// The chunked pipeline's key packing (1-valid)<<24 | id<<16 | pos.
pub open spec fn spec_key_wide(r: Rec) -> u64 {
    ((if r.valid {
        0u64
    } else {
        1u64
    }) << 24u64) | (r.id << 16u64) | r.pos
}

impl Rec {
    /// key = (1-valid)*2^16 + id*2^8 + pos for in-range id and pos.
    pub fn key(&self) -> (r: u64)
        ensures
            r == spec_key(*self),
            self.id < 256 && self.pos < 256 ==> r == (if self.valid {
                0u64
            } else {
                1u64
            }) * 65536 + self.id * 256 + self.pos,
    {
        let inv: u64 = if self.valid {
            0
        } else {
            1
        };
        let id = self.id;
        let pos = self.pos;
        let r = (inv << 16u64) | (id << 8u64) | pos;
        assert(id < 256 && pos < 256 && inv <= 1 ==> (inv << 16u64) | (id << 8u64) | pos == inv
            * 65536 + id * 256 + pos) by (bit_vector);
        r
    }

    /// key = (1-valid)*2^24 + id*2^16 + pos for id < 2^8, pos < 2^16.
    pub fn key_wide(&self) -> (r: u64)
        ensures
            r == spec_key_wide(*self),
            self.id < 256 && self.pos < 65536 ==> r == (if self.valid {
                0u64
            } else {
                1u64
            }) * 16777216 + self.id * 65536 + self.pos,
    {
        let inv: u64 = if self.valid {
            0
        } else {
            1
        };
        let id = self.id;
        let pos = self.pos;
        let r = (inv << 24u64) | (id << 16u64) | pos;
        assert(id < 256 && pos < 65536 && inv <= 1 ==> (inv << 24u64) | (id << 16u64) | pos == inv
            * 16777216 + id * 65536 + pos) by (bit_vector);
        r
    }

    /// The cross-run sentinel predecessor record: id 256 collides with no
    /// real id (< 2^8) and no invalid-row id (0).
    pub fn sentinel() -> (r: Rec)
        ensures
            r == spec_sentinel(),
    {
        Rec { valid: false, id: 256, pos: 0, m: 0 }
    }
}

/// The sentinel record.
pub open spec fn spec_sentinel() -> Rec {
    Rec { valid: false, id: 256, pos: 0, m: 0 }
}

// ---------------------------------------------------------------------------
// Signature semantics
// ---------------------------------------------------------------------------

/// Integer scalar multiplication by explicit bits, most significant first:
/// acc <- 2 acc (+ P when the bit is set).
pub open spec fn spec_mul_bits(pt: (nat, nat), bits: Seq<bool>) -> (nat, nat)
    decreases bits.len(),
{
    if bits.len() == 0 {
        (0nat, 1nat)
    } else {
        let rest = spec_mul_bits(pt, bits.drop_first());
        let d = jub_double_spec(rest.0, rest.1);
        if bits[0] {
            jub_add_spec(d.0, d.1, pt.0, pt.1)
        } else {
            d
        }
    }
}

/// The multiple of a curve point by the integer `k` whose bits (least
/// significant first, leading zeros allowed) are `bits`:
/// `(into_group(pt).mul_bigint(k)).into_affine()` of ark-ec. arkworks runs
/// double-and-add over the bits of k from the most significant one set, in
/// projective coordinates; mapping to affine form is a group isomorphism
/// and doubling the identity gives the identity, so the result is the
/// affine double-and-add `spec_mul_bits` over `bits`, each step the group
/// law's double and sum of its named results. A curve point's multiple is
/// a curve point. (`bits` only fixes the bit length that `spec_mul_bits`
/// walks; the call reads k.) Like circomlib's EscalarMulAny/EscalarMulFix,
/// this multiplies by the integer the bits denote, not by a value mod l.
#[verifier::external_body]
fn mul_bits(pt: &JubAffine, bits: &Vec<bool>, k: &Fe) -> (r: JubAffine)
    requires
        spec_on_curve(pt.x@, pt.y@),
        is_bits_of(bits@, bits@.len(), k@),
    ensures
        r@ == spec_mul_bits(pt@, bits@),
        spec_on_curve(r.x@, r.y@),
{
    let x = ark_ed_on_bn254::Fq::from_bigint(ark_ff::BigInt(pt.x.to_limbs())).unwrap();
    let y = ark_ed_on_bn254::Fq::from_bigint(ark_ff::BigInt(pt.y.to_limbs())).unwrap();
    let a = ark_ed_on_bn254::EdwardsAffine::new_unchecked(x, y).into_group().mul_bigint(k.to_limbs()).into_affine();
    JubAffine {
        x: Fe::from_limbs(a.x.into_bigint().0).unwrap(),
        y: Fe::from_limbs(a.y.into_bigint().0).unwrap(),
    }
}

/// The circuit semantics of the Schnorr verification component on
/// circomlib coordinates. Every check is soft (a failing check makes the
/// signature invalid, never the relation unsatisfiable): both points on
/// the curve, the key not the identity, S canonical (S < l, so a valid
/// signature cannot be malleated into S + l) and below 2^251, and
/// S * B8 == R + c * A with c = Poseidon(R, A, msg), both products taken
/// by bits.
pub open spec fn spec_circuit_sig(ax: nat, ay: nat, rx: nat, ry: nat, s: nat, msg: nat) -> bool {
    let a = spec_from_circom(ax, ay);
    let r = spec_from_circom(rx, ry);
    &&& spec_on_curve(a.0, a.1)
    &&& spec_on_curve(r.0, r.1)
    &&& a != (0nat, 1nat)
    &&& s < l()
    &&& s < two_pow(251)
    &&& {
        let c = poseidon_spec(seq![rx, ry, ax, ay, msg]);
        let lhs = spec_mul_bits(spec_base8(), spec_bits(s, 251));
        let ca = spec_mul_bits(a, spec_bits(c, 254));
        lhs == jub_add_spec(r.0, r.1, ca.0, ca.1)
    }
}

/// Circuit semantics of the Schnorr verification component (see
/// `spec_circuit_sig`).
fn circuit_sig_ok(ax: Fe, ay: Fe, rx: Fe, ry: Fe, s: Fe, msg: Fe) -> (r: bool)
    ensures
        r == spec_circuit_sig(ax@, ay@, rx@, ry@, s@, msg@),
{
    let a = from_circom_point(ax, ay);
    let r = from_circom_point(rx, ry);
    if !a.is_on_curve() || !r.is_on_curve() {
        return false;
    }
    if a.is_identity() {
        return false;
    }
    if !f_is_canonical_scalar(&s) {
        return false;
    }
    let s_bits = match f_bits_le(&s, 251) {
        Some(b) => b,
        None => return false,
    };
    let c = poseidon5(rx, ry, ax, ay, msg);
    c.bound();
    let c_bits = match f_bits_le(&c, 254) {
        Some(b) => b,
        None => {
            proof {
                lemma_two_pow_64();
            }
            return false;
        },
    };
    proof {
        lemma_spec_bits(s_bits@, 251, s@);
        lemma_spec_bits(c_bits@, 254, c@);
    }
    let lhs = mul_bits(&base8(), &s_bits, &s);
    let rhs = r.add(&mul_bits(&a, &c_bits, &c));
    proof {
        Fe::lemma_eq_iff_view_eq(lhs.x, rhs.x);
        Fe::lemma_eq_iff_view_eq(lhs.y, rhs.y);
    }
    lhs.x == rhs.x && lhs.y == rhs.y
}

// ---------------------------------------------------------------------------
// Per-row evaluation
// ---------------------------------------------------------------------------

/// A witness row in values.
pub struct RowView {
    pub ct: nat,
    pub pt: Seq<nat>,
    pub rho: nat,
    pub r_ea: nat,
    pub vkx: nat,
    pub vky: nat,
    pub h: nat,
    pub path: Seq<nat>,
}

/// The values of a witness row.
pub open spec fn row_view(row: BallotWitnessRow) -> RowView {
    RowView {
        ct: row.ct@,
        pt: vals(row.pt_fields@),
        rho: row.rho@,
        r_ea: row.r_ea@,
        vkx: row.reg_vkx@,
        vky: row.reg_vky@,
        h: row.reg_h@,
        path: vals(row.merkle_path@),
    }
}

/// The values of the padding row of a depth-`depth` circuit.
pub open spec fn padding_view(depth: nat) -> RowView {
    RowView {
        ct: spec_ct_commit(spec_dummy_pt(), 0),
        pt: spec_dummy_pt(),
        rho: 0,
        r_ea: 0,
        vkx: 0,
        vky: 0,
        h: 0,
        path: Seq::new(depth, |d: int| 0nat),
    }
}

/// Scan of the candidate selector over the first n candidates: whether some
/// candidate matches, and the last matching index.
pub open spec fn spec_cand_scan(cands: Seq<nat>, v: nat, n: nat) -> (bool, nat)
    decreases n,
{
    if n == 0 {
        (false, 0)
    } else {
        let prev = spec_cand_scan(cands, v, (n - 1) as nat);
        if cands[n - 1] == v {
            (true, (n - 1) as nat)
        } else {
            prev
        }
    }
}

/// The circuit's per-row semantics (`BallotValidity`): `None` when the hard
/// registration-row fetch of an active in-range slot fails, else the
/// record (every other check is a soft flag of the record).
pub open spec fn spec_eval_row(
    eid: nat,
    mr: nat,
    num_voters: u64,
    cands: Seq<nat>,
    active: bool,
    rv: RowView,
    pos: u64,
) -> Option<Rec> {
    let pt = rv.pt;
    let open_ok = poseidon_spec(pt.push(rv.rho)) == rv.ct;
    let eid_ok = pt[0] == eid;
    let scan = spec_cand_scan(cands, pt[4], cands.len());
    let sig_ok = spec_circuit_sig(pt[2], pt[3], pt[6], pt[7], pt[8], poseidon_spec(seq![pt[0], pt[1], pt[4], pt[5]]));
    let in_range = pt[1] < 256 && pt[1] < num_voters;
    let leaf = spec_h_reg(eid, pt[1], rv.vkx, rv.vky, rv.h);
    if active && in_range && spec_fold(leaf, rv.path, spec_path_indices(rv.path.len(), pt[1])) != mr {
        None
    } else {
        let vk_match = pt[2] == rv.vkx && pt[3] == rv.vky;
        let h_match = spec_h_com(pt[0], pt[1], pt[2], pt[3], pt[5], rv.r_ea) == rv.h;
        let valid = open_ok && eid_ok && scan.0 && sig_ok && in_range && vk_match && h_match && active;
        Some(
            Rec {
                valid,
                id: if valid {
                    pt[1] as u64
                } else {
                    0
                },
                pos,
                m: if scan.0 {
                    scan.1 as u64
                } else {
                    0
                },
            },
        )
    }
}

/// The record's candidate index is a candidate position.
pub open spec fn rec_m_ok(r: Rec, nc: nat) -> bool {
    r.m < nc || (r.m == 0 && nc == 0)
}

proof fn lemma_cand_scan(cands: Seq<nat>, v: nat, n: nat)
    requires
        n <= cands.len(),
    ensures
        spec_cand_scan(cands, v, n).0 ==> spec_cand_scan(cands, v, n).1 < n,
    decreases n,
{
    if n > 0 {
        lemma_cand_scan(cands, v, (n - 1) as nat);
    }
}

/// Per-row evaluation shared by the monolithic relation checker and the
/// chunked pipeline: the exact circuit semantics of `BallotValidity`.
/// `Err(())` means a hard constraint is violated.
pub fn eval_row(
    eid_hash: Fe,
    mr: Fe,
    num_voters: u64,
    cand_f: &[Fe],
    active: bool,
    row: &BallotWitnessRow,
    pos: u64,
) -> (r: Result<Rec, ()>)
    ensures
        match r {
            Ok(rec) => spec_eval_row(eid_hash@, mr@, num_voters, vals(cand_f@), active, row_view(*row), pos)
                == Some(rec) && rec_m_ok(rec, cand_f@.len()),
            Err(_) => spec_eval_row(eid_hash@, mr@, num_voters, vals(cand_f@), active, row_view(*row), pos)
                is None,
        },
{
    let pt = &row.pt_fields;
    let ghost ptv = vals(pt@);
    // open_ok (soft)
    let open_c = poseidon(&[pt[0], pt[1], pt[2], pt[3], pt[4], pt[5], pt[6], pt[7], pt[8], row.rho]);
    proof {
        let inp = seq![pt[0], pt[1], pt[2], pt[3], pt[4], pt[5], pt[6], pt[7], pt[8], row.rho];
        assert(vals(inp) =~= ptv.push(row.rho@));
        Fe::lemma_eq_iff_view_eq(open_c, row.ct);
    }
    let open_ok = open_c == row.ct;
    // eid_ok (soft)
    proof {
        Fe::lemma_eq_iff_view_eq(pt[0], eid_hash);
    }
    let eid_ok = pt[0] == eid_hash;
    // candidate selector (soft); m = candidate index
    let mut cand_ok = false;
    let mut m: u64 = 0;
    let mut c: usize = 0;
    while c < cand_f.len()
        invariant
            c <= cand_f@.len(),
            ptv == vals(pt@),
            pt@.len() == 9,
            (cand_ok, m as nat) == spec_cand_scan(vals(cand_f@), ptv[4], c as nat),
        decreases cand_f@.len() - c,
    {
        proof {
            Fe::lemma_eq_iff_view_eq(pt[4], cand_f[c as int]);
        }
        if pt[4] == cand_f[c] {
            m = c as u64;
            cand_ok = true;
        }
        c += 1;
    }
    proof {
        lemma_cand_scan(vals(cand_f@), ptv[4], cand_f@.len() as nat);
    }
    // signature (soft)
    let msg = poseidon4(pt[0], pt[1], pt[4], pt[5]);
    let sig_ok = circuit_sig_ok(pt[2], pt[3], pt[6], pt[7], pt[8], msg);
    // deterministic in-range flag from the strict bit decomposition
    pt[1].bound();
    let in_range = match pt[1].to_u64() {
        Some(v) => v < 256 && v < num_voters,
        None => false,
    };
    let id_low: u64 = match pt[1].to_u64() {
        Some(v) => v,
        None => 0,
    };
    // hard indexed registration-row fetch, gated by active && in_range
    if active && in_range {
        let leaf = poseidon5(eid_hash, pt[1], row.reg_vkx, row.reg_vky, row.reg_h);
        let path = &row.merkle_path;
        let ghost pv = vals(path@);
        let ghost idx = spec_path_indices(pv.len(), ptv[1]);
        let mut cur = leaf;
        let mut bitsrc: u64 = id_low;
        let mut d: usize = 0;
        proof {
            assert(pv.subrange(0, pv.len() as int) =~= pv);
            assert(idx.subrange(0, idx.len() as int) =~= idx);
            vstd::arithmetic::power2::lemma2_to64();
        }
        while d < path.len()
            invariant
                d <= path@.len(),
                pv == vals(path@),
                pv.len() == path@.len(),
                idx == spec_path_indices(pv.len(), ptv[1]),
                ptv[1] == id_low as nat,
                bitsrc as nat == (id_low as nat) / vstd::arithmetic::power2::pow2(d as nat),
                spec_fold(leaf@, pv, idx) == spec_fold(
                    cur@,
                    pv.subrange(d as int, pv.len() as int),
                    idx.subrange(d as int, idx.len() as int),
                ),
            decreases path@.len() - d,
        {
            let is_right = bitsrc % 2 == 1;
            let ghost be = pv.subrange(d as int, pv.len() as int);
            let ghost bi = idx.subrange(d as int, idx.len() as int);
            assert(bi[0] == idx[d as int]);
            assert(idx[d as int] == ((ptv[1] / vstd::arithmetic::power2::pow2(d as nat)) % 2 == 1));
            cur = if is_right {
                merkle_hash(path[d], cur)
            } else {
                merkle_hash(cur, path[d])
            };
            assert(be.drop_first() =~= pv.subrange(d + 1, pv.len() as int));
            assert(bi.drop_first() =~= idx.subrange(d + 1, idx.len() as int));
            proof {
                vstd::arithmetic::power2::lemma_pow2_unfold((d + 1) as nat);
                vstd::arithmetic::power2::lemma_pow2_pos(d as nat);
                vstd::arithmetic::div_mod::lemma_div_denominator(
                    id_low as int,
                    vstd::arithmetic::power2::pow2(d as nat) as int,
                    2,
                );
                vstd::arithmetic::mul::lemma_mul_is_commutative(vstd::arithmetic::power2::pow2(d as nat) as int, 2);
            }
            bitsrc = bitsrc / 2;
            d += 1;
        }
        proof {
            Fe::lemma_eq_iff_view_eq(cur, mr);
            assert(pv.subrange(pv.len() as int, pv.len() as int) =~= Seq::<nat>::empty());
        }
        if cur != mr {
            return Err(());
        }
    }
    // soft row-consistency flags against the fetched row
    proof {
        Fe::lemma_eq_iff_view_eq(pt[2], row.reg_vkx);
        Fe::lemma_eq_iff_view_eq(pt[3], row.reg_vky);
    }
    let vk_match = pt[2] == row.reg_vkx && pt[3] == row.reg_vky;
    let h = poseidon6(pt[0], pt[1], pt[2], pt[3], pt[5], row.r_ea);
    proof {
        Fe::lemma_eq_iff_view_eq(h, row.reg_h);
    }
    let h_match = h == row.reg_h;
    let valid = open_ok && eid_ok && cand_ok && sig_ok && in_range && vk_match && h_match && active;
    Ok(Rec { valid, id: if valid { id_low } else { 0 }, pos, m: if cand_ok { m } else { 0 } })
}

// ---------------------------------------------------------------------------
// The monolithic relation
// ---------------------------------------------------------------------------

/// Slot j of the padded witness, in values.
pub open spec fn row_view_at(w: TallyWitness, depth: nat, j: int) -> RowView {
    if j < w.rows@.len() {
        row_view(w.rows@[j])
    } else {
        padding_view(depth)
    }
}

/// The circuit's evaluation of slot j.
pub open spec fn spec_slot_eval(st: TallyStatement, w: TallyWitness, shape: CircuitShape, j: int) -> Option<Rec> {
    spec_eval_row(
        st.eid_hash@,
        st.mr@,
        st.num_voters,
        candidate_vals(w.candidates@),
        j < st.num_ballots,
        row_view_at(w, shape.merkle_depth as nat, j),
        j as u64,
    )
}

/// Every slot has a path of the circuit's depth and satisfies the hard
/// constraints.
pub open spec fn spec_slots_ok(st: TallyStatement, w: TallyWitness, shape: CircuitShape) -> bool {
    forall|j: int|
        0 <= j < shape.num_ballots ==> (#[trigger] row_view_at(w, shape.merkle_depth as nat, j)).path.len()
            == shape.merkle_depth && spec_slot_eval(st, w, shape, j) is Some
}

/// The records of all slots.
pub open spec fn spec_slot_records(st: TallyStatement, w: TallyWitness, shape: CircuitShape) -> Seq<Rec> {
    Seq::new(shape.num_ballots as nat, |j: int| spec_slot_eval(st, w, shape, j)->0)
}

/// One compare-exchange on the packed key.
pub open spec fn spec_ce(recs: Seq<Rec>, pr: (usize, usize)) -> Seq<Rec> {
    let a = pr.0 as int;
    let b = pr.1 as int;
    if spec_key(recs[a]) > spec_key(recs[b]) {
        recs.update(a, recs[b]).update(b, recs[a])
    } else {
        recs
    }
}

/// The network applied in order.
pub open spec fn spec_network(recs: Seq<Rec>, sched: Seq<(usize, usize)>) -> Seq<Rec>
    decreases sched.len(),
{
    if sched.len() == 0 {
        recs
    } else {
        spec_ce(spec_network(recs, sched.drop_last()), sched.last())
    }
}

/// Slot j of the sorted records is valid and starts its identity block.
pub open spec fn spec_counts_at(s: Seq<Rec>, j: int) -> bool {
    s[j].valid && (j == 0 || s[j].id != s[j - 1].id)
}

/// The tally of candidate index c over the first n sorted records.
pub open spec fn spec_block_tally(s: Seq<Rec>, c: nat, n: nat) -> nat
    decreases n,
{
    if n == 0 {
        0
    } else {
        spec_block_tally(s, c, (n - 1) as nat) + if spec_counts_at(s, n - 1) && s[n - 1].m == c {
            1nat
        } else {
            0nat
        }
    }
}

/// The values of the posted rows' commitments.
pub open spec fn active_cts(w: TallyWitness) -> Seq<nat> {
    Seq::new(w.rows@.len(), |j: int| w.rows@[j].ct@)
}

/// The exact FilterAndTally relation.
pub open spec fn spec_relation(st: TallyStatement, w: TallyWitness, shape: CircuitShape) -> bool {
    let nc = shape.num_candidates;
    let nb = shape.num_ballots;
    let depth = shape.merkle_depth;
    &&& st.duplicate_rule_id == 1
    &&& st.tally_counts@.len() == nc
    &&& w.candidates@.len() == nc
    &&& st.num_ballots <= nb
    &&& st.num_voters < 256
    &&& (depth < 8 ==> st.num_voters <= two_pow(depth as nat))
    &&& w.rows@.len() <= nb
    &&& st.num_ballots == w.rows@.len()
    &&& poseidon_spec(candidate_vals(w.candidates@)) == st.candidate_set_commitment@
    &&& spec_slots_ok(st, w, shape)
    &&& spec_chain(0, active_cts(w)) == st.bb_commitment@
    &&& forall|c: int|
        0 <= c < nc ==> #[trigger] st.tally_counts@[c] == spec_block_tally(
            spec_network(spec_slot_records(st, w, shape), spec_batcher(nb as int)),
            c as nat,
            nb as nat,
        )
}

proof fn lemma_network_facts(recs: Seq<Rec>, sched: Seq<(usize, usize)>, nc: nat)
    requires
        pairs_in_range(sched, recs.len() as int),
    ensures
        spec_network(recs, sched).len() == recs.len(),
        (forall|i: int| 0 <= i < recs.len() ==> rec_m_ok(#[trigger] recs[i], nc)) ==> (forall|i: int|
            0 <= i < recs.len() ==> rec_m_ok(#[trigger] spec_network(recs, sched)[i], nc)),
    decreases sched.len(),
{
    if sched.len() > 0 {
        assert(pairs_in_range(sched.drop_last(), recs.len() as int)) by {
            assert forall|t: int| 0 <= t < sched.drop_last().len() implies (#[trigger] sched.drop_last()[t]).0
                < sched.drop_last()[t].1 && sched.drop_last()[t].1 < recs.len() by {
                assert(sched.drop_last()[t] == sched[t]);
            }
        }
        lemma_network_facts(recs, sched.drop_last(), nc);
        assert(sched.last() == sched[sched.len() - 1]);
    }
}

/// Apply the compare-exchange network in place.
fn apply_network(recs: &mut Vec<Rec>, sched: &Vec<(usize, usize)>)
    requires
        pairs_in_range(sched@, old(recs)@.len() as int),
    ensures
        final(recs)@ == spec_network(old(recs)@, sched@),
{
    let ghost orig = recs@;
    let mut t: usize = 0;
    assert(sched@.subrange(0, 0) =~= Seq::<(usize, usize)>::empty());
    while t < sched.len()
        invariant
            t <= sched@.len(),
            pairs_in_range(sched@, orig.len() as int),
            recs@ == spec_network(orig, sched@.subrange(0, t as int)),
            recs@.len() == orig.len(),
        decreases sched@.len() - t,
    {
        let (a, b) = sched[t];
        assert(sched@.subrange(0, t + 1).drop_last() =~= sched@.subrange(0, t as int));
        assert(sched@.subrange(0, t + 1).last() == sched@[t as int]);
        let ra = recs[a];
        let rb = recs[b];
        if ra.key() > rb.key() {
            recs.set(a, rb);
            recs.set(b, ra);
        }
        t += 1;
    }
    assert(sched@.subrange(0, sched@.len() as int) =~= sched@);
}

/// First-in-identity-block counting over sorted records.
fn block_tally(sorted: &Vec<Rec>, nc: usize) -> (r: Vec<u64>)
    requires
        forall|j: int| 0 <= j < sorted@.len() ==> (#[trigger] sorted@[j]).m < nc,
    ensures
        r@.len() == nc,
        forall|c: int| 0 <= c < nc ==> #[trigger] r@[c] as nat == spec_block_tally(sorted@, c as nat, sorted@.len() as nat),
{
    let mut tally: Vec<u64> = Vec::new();
    let mut z: usize = 0;
    while z < nc
        invariant
            z <= nc,
            tally@.len() == z,
            forall|c: int| 0 <= c < z ==> #[trigger] tally@[c] == 0,
        decreases nc - z,
    {
        tally.push(0);
        z += 1;
    }
    let mut j: usize = 0;
    while j < sorted.len()
        invariant
            j <= sorted@.len(),
            tally@.len() == nc,
            forall|i: int| 0 <= i < sorted@.len() ==> (#[trigger] sorted@[i]).m < nc,
            forall|c: int| 0 <= c < nc ==> #[trigger] tally@[c] as nat == spec_block_tally(sorted@, c as nat, j as nat),
            forall|c: int| 0 <= c < nc ==> #[trigger] tally@[c] <= j,
        decreases sorted@.len() - j,
    {
        let first_in_block = j == 0 || sorted[j].id != sorted[j - 1].id;
        let counted = sorted[j].valid && first_in_block;
        if counted {
            let mi = sorted[j].m as usize;
            tally.set(mi, tally[mi] + 1);
        }
        proof {
            assert(counted == spec_counts_at(sorted@, j as int));
        }
        j += 1;
    }
    tally
}

/// Check the exact FilterAndTally relation natively: the statement's shape
/// and bindings, every slot's circuit semantics (hard failures make it
/// false), the board chain, the sorting network and the counting.
pub fn relation_check_native(statement: &TallyStatement, witness: &TallyWitness, shape: &CircuitShape) -> (r: bool)
    requires
        1 <= shape.num_candidates <= 12,
        shape.num_ballots <= usize::MAX / 4,
    ensures
        r == spec_relation(*statement, *witness, *shape),
{
    let nc = shape.num_candidates;
    let nb = shape.num_ballots;
    let depth = shape.merkle_depth;
    if statement.duplicate_rule_id != 1 {
        return false;
    }
    if statement.tally_counts.len() != nc || witness.candidates.len() != nc {
        return false;
    }
    if statement.num_ballots > nb as u64 {
        return false;
    }
    if statement.num_voters >= 256 {
        return false;
    }
    if depth < 8 {
        let cap: u64 = 1u64 << depth as u64;
        proof {
            vstd::arithmetic::power2::lemma2_to64();
            if depth < 8 {
                vstd::arithmetic::power2::lemma_pow2_strictly_increases(depth as nat, 8);
            }
            vstd::bits::lemma_u64_shl_is_mul(1, depth as u64);
            crate::zk::bits::lemma_two_pow_pow2(depth as nat);
        }
        if statement.num_voters > cap {
            return false;
        }
    }
    let rows = match padded_rows(witness, shape) {
        Ok(r) => r,
        Err(_) => return false,
    };
    if statement.num_ballots != witness.rows.len() as u64 {
        return false;
    }
    let mut cand_f: Vec<Fe> = Vec::new();
    let mut i: usize = 0;
    while i < nc
        invariant
            nc == witness.candidates@.len(),
            i <= nc,
            cand_f@.len() == i,
            forall|k: int| 0 <= k < i ==> (#[trigger] cand_f@[k])@ == witness.candidates@[k] as nat,
        decreases nc - i,
    {
        cand_f.push(Fe::from_u64(witness.candidates[i]));
        i += 1;
    }
    assert(vals(cand_f@) =~= candidate_vals(witness.candidates@));
    let cc = poseidon(cand_f.as_slice());
    proof {
        Fe::lemma_eq_iff_view_eq(cc, statement.candidate_set_commitment);
    }
    if cc != statement.candidate_set_commitment {
        return false;
    }
    let mut records: Vec<Rec> = Vec::new();
    let mut bb_acc = Fe::zero();
    let mut j: usize = 0;
    while j < nb
        invariant
            nb == shape.num_ballots,
            depth == shape.merkle_depth,
            nc == shape.num_candidates,
            rows@.len() == nb,
            forall|m: int| 0 <= m < rows@.len() ==> spec_padded_row_ok(*witness, depth as nat, m, #[trigger] rows@[m]),
            statement.num_ballots == witness.rows@.len(),
            witness.rows@.len() <= nb,
            vals(cand_f@) == candidate_vals(witness.candidates@),
            cand_f@.len() == nc,
            j <= nb,
            records@.len() == j,
            forall|m: int|
                0 <= m < j ==> (#[trigger] row_view_at(*witness, depth as nat, m)).path.len() == depth
                    && spec_slot_eval(*statement, *witness, *shape, m) == Some(records@[m]),
            forall|m: int| 0 <= m < j ==> rec_m_ok(#[trigger] records@[m], nc as nat),
            bb_acc@ == spec_chain(0, active_cts(*witness).subrange(0, if j < witness.rows@.len() { j as int } else { witness.rows@.len() as int })),
        decreases nb - j,
    {
        let row = &rows[j];
        proof {
            lemma_row_view(*witness, depth as nat, j as int, *row);
        }
        let active = (j as u64) < statement.num_ballots;
        if active {
            let ghost prev = active_cts(*witness).subrange(0, j as int);
            bb_acc = crate::crypto::hash::poseidon2(bb_acc, row.ct);
            assert(active_cts(*witness).subrange(0, j + 1).drop_last() =~= prev);
            assert(active_cts(*witness).subrange(0, j + 1).last() == row.ct@);
        }
        if row.merkle_path.len() != depth {
            proof {
                assert(vals(row.merkle_path@).len() == row.merkle_path@.len());
                assert(!spec_slots_ok(*statement, *witness, *shape)) by {
                    assert(row_view_at(*witness, depth as nat, j as int).path.len() != depth);
                }
            }
            return false;
        }
        match eval_row(
            statement.eid_hash,
            statement.mr,
            statement.num_voters,
            cand_f.as_slice(),
            active,
            row,
            j as u64,
        ) {
            Ok(rec) => {
                records.push(rec);
            },
            Err(_) => {
                proof {
                    assert(!spec_slots_ok(*statement, *witness, *shape)) by {
                        assert(row_view_at(*witness, depth as nat, j as int).path.len() == depth);
                        assert(spec_slot_eval(*statement, *witness, *shape, j as int) is None);
                    }
                }
                return false;
            },
        }
        proof {
            assert(vals(row.merkle_path@).len() == row.merkle_path@.len());
        }
        j += 1;
    }
    proof {
        assert(active_cts(*witness).subrange(0, witness.rows@.len() as int) =~= active_cts(*witness));
        assert(spec_slots_ok(*statement, *witness, *shape));
        assert(records@ =~= spec_slot_records(*statement, *witness, *shape));
        Fe::lemma_eq_iff_view_eq(bb_acc, statement.bb_commitment);
    }
    if bb_acc != statement.bb_commitment {
        return false;
    }
    let sched = batcher_schedule(nb);
    let ghost recs0 = records@;
    proof {
        lemma_network_facts(recs0, sched@, nc as nat);
    }
    let mut sorted = records;
    apply_network(&mut sorted, &sched);
    let tally = block_tally(&sorted, nc);
    let ghost net = spec_network(spec_slot_records(*statement, *witness, *shape), spec_batcher(nb as int));
    assert(sorted@ == net);
    let mut c: usize = 0;
    while c < nc
        invariant
            nc == shape.num_candidates,
            nb == shape.num_ballots,
            net == spec_network(spec_slot_records(*statement, *witness, *shape), spec_batcher(nb as int)),
            net.len() == nb,
            forall|k: int| 0 <= k < nc ==> #[trigger] tally@[k] as nat == spec_block_tally(net, k as nat, nb as nat),
            tally@.len() == nc,
            statement.tally_counts@.len() == nc,
            c <= nc,
            forall|k: int| 0 <= k < c ==> tally@[k] == statement.tally_counts@[k],
        decreases nc - c,
    {
        if tally[c] != statement.tally_counts[c] {
            return false;
        }
        c += 1;
    }
    proof {
        assert forall|k: int| 0 <= k < nc implies #[trigger] statement.tally_counts@[k] == spec_block_tally(
            spec_network(spec_slot_records(*statement, *witness, *shape), spec_batcher(nb as int)),
            k as nat,
            nb as nat,
        ) by {
            assert(tally@[k] == statement.tally_counts@[k]);
        }
    }
    true
}

/// A padded slot's values are those of the witness row or of the padding
/// row.
proof fn lemma_row_view(w: TallyWitness, depth: nat, j: int, row: BallotWitnessRow)
    requires
        spec_padded_row_ok(w, depth, j, row),
    ensures
        row_view(row) == row_view_at(w, depth, j),
{
    if j < w.rows@.len() {
    } else {
        assert(vals(row.merkle_path@) =~= Seq::new(depth, |d: int| 0nat));
    }
}

} // verus!
