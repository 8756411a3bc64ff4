//! Decentralized proving of the tally relation: the inputs of each input
//! provider, partitioned so that no single provider holds R_EA.
//!
//! The MPC circuit takes the two Shamir shares of each ballot's R_EA as
//! separately named inputs (`r_ea_share_a` at x = 1, `r_ea_share_b` at
//! x = 2) and combines them in-circuit as 2a - b, the Lagrange
//! interpolation at 0 of a degree-1 polynomial. The opening provider holds
//! the openings and the public registration rows; each authority holds
//! only its own share array.

use vstd::prelude::*;

use crate::crypto::shamir::spec_poly_eval;
use crate::crypto::hash::{candidate_set_commitment, pk_ea_commitment, poseidon_spec, spec_chain, candidate_vals, vals};
use crate::errors::{msg, CrDrError, Result};
use crate::field::{p, w64, Fe};
use crate::protocol::admission::AdmittedOpenings;
use crate::protocol::bulletin_board::AdmittedBoard;
use crate::protocol::filter_and_tally::{opening_checked, spec_opening_ok};
use crate::protocol::preprocessing::RegistrationState;
use crate::types::{f_to_u64, AuthoritySecretState, PublicParams};
use crate::zk::chunked::ChunkedTally;
use crate::zk::statement::admitted_chain;
use crate::zk::witness::zeros;

verus! {

broadcast use vstd::std_specs::hash::group_hash_axioms;

/// The stored shares at x = 1 and x = 2 of the voter that a claimed id
/// field names, or (0, 0) for an id out of range, an unknown voter or
/// fewer than two stored shares.
pub open spec fn spec_share_pair(auth: AuthoritySecretState, id_field: nat, num_voters: u64) -> (nat, nat) {
    let id = id_field as u64;
    if id_field < w64() && id_field < num_voters && auth.voter_secrets@.contains_key(id)
        && auth.voter_secrets@[id].r_ea_shares@.len() >= 2 {
        (auth.voter_secrets@[id].r_ea_shares@[0].value@, auth.voter_secrets@[id].r_ea_shares@[1].value@)
    } else {
        (0, 0)
    }
}

/// The in-circuit combine 2a - b mod p.
pub open spec fn spec_combine(a: nat, b: nat) -> nat {
    (((2 * a) % p() + p() - b) % (p() as int)) as nat
}

/// Two stored shares at x = 1 and x = 2 of a degree-one polynomial combine
/// (2a - b mod p) to its constant term: the in-circuit combine of the
/// decentralized prover recovers exactly the secret that `share` split.
pub proof fn lemma_combine_recovers_secret(coeffs: Seq<nat>)
    requires
        coeffs.len() == 2,
        coeffs[0] < p(),
    ensures
        spec_combine(spec_poly_eval(coeffs, 1), spec_poly_eval(coeffs, 2)) == coeffs[0],
{
    reveal_with_fuel(spec_poly_eval, 3);
    assert(coeffs.drop_first().drop_first().len() == 0);
    let q = coeffs[1] % p();
    assert(spec_poly_eval(coeffs.drop_first(), 1) == q);
    assert(spec_poly_eval(coeffs.drop_first(), 2) == q);
    assert(spec_poly_eval(coeffs, 1) == (q * 1 + coeffs[0]) % p());
    assert(spec_poly_eval(coeffs, 2) == (q * 2 + coeffs[0]) % p());
    lemma_combine_arith(coeffs[0] as int, q as int, p() as int);
}

/// ((2 ((q + c) mod m)) mod m + m - (2q + c) mod m) mod m == c for 0 <= c < m.
proof fn lemma_combine_arith(c: int, q: int, m: int)
    requires
        m > 0,
        0 <= c < m,
        0 <= q,
    ensures
        ((2 * ((q + c) % m)) % m + m - (2 * q + c) % m) % m == c,
{
    let a = (q + c) % m;
    let b = (2 * q + c) % m;
    let t = (2 * a) % m;
    let da = (q + c) / m;
    let db = (2 * q + c) / m;
    let dt = (2 * a) / m;
    vstd::arithmetic::div_mod::lemma_fundamental_div_mod(q + c, m);
    vstd::arithmetic::div_mod::lemma_fundamental_div_mod(2 * q + c, m);
    vstd::arithmetic::div_mod::lemma_fundamental_div_mod(2 * a, m);
    let k = 1 - 2 * da - dt + db;
    assert(m * k == m - 2 * (m * da) - m * dt + m * db) by (nonlinear_arith)
        requires
            k == 1 - 2 * da - dt + db,
    ;
    assert(t + m - b == m * k + c);
    vstd::arithmetic::div_mod::lemma_mod_multiples_vanish(k, c, m);
    vstd::arithmetic::div_mod::lemma_small_mod(c as nat, m as nat);
}

/// The share pair of a claimed id (see `spec_share_pair`).
fn share_pair(authority: &AuthoritySecretState, id_field: &Fe, num_voters: u64) -> (r: (Fe, Fe))
    ensures
        (r.0@, r.1@) == spec_share_pair(*authority, id_field@, num_voters),
{
    let id = match f_to_u64(id_field) {
        Some(v) => v,
        None => return (Fe::zero(), Fe::zero()),
    };
    if id >= num_voters {
        return (Fe::zero(), Fe::zero());
    }
    match authority.voter_secrets.get(&id) {
        Some(sec) => {
            if sec.r_ea_shares.len() >= 2 {
                (sec.r_ea_shares[0].value, sec.r_ea_shares[1].value)
            } else {
                (Fe::zero(), Fe::zero())
            }
        },
        None => (Fe::zero(), Fe::zero()),
    }
}

/// Per-slot shares (x = 1, x = 2) for validity chunk `k`, taken from the
/// authority's stored shares and never reconstructed. Fails unless every
/// slot's in-circuit combine 2a - b equals the row's r_ea, so that the
/// MPC computes exactly the witness of the single-prover pipeline.
pub fn chunk_shares(ct: &ChunkedTally, authority: &AuthoritySecretState, k: usize) -> (r: Result<(Vec<Fe>, Vec<Fe>)>)
    requires
        (k + 1) * ct.chunk_size <= ct.rows@.len(),
    ensures
        r is Ok <==> forall|j: int|
            k * ct.chunk_size <= j < (k + 1) * ct.chunk_size ==> {
                let pair = spec_share_pair(*authority, (#[trigger] ct.rows@[j]).pt_fields@[1]@, ct.statement.num_voters);
                spec_combine(pair.0, pair.1) == ct.rows@[j].r_ea@
            },
        r matches Err(e) ==> e is ZkToolchain,
        r matches Ok((a, b)) ==> a@.len() == ct.chunk_size && b@.len() == ct.chunk_size && forall|i: int|
            0 <= i < ct.chunk_size ==> (#[trigger] a@[i]@, b@[i]@) == spec_share_pair(
                *authority,
                ct.rows@[k * ct.chunk_size + i].pt_fields@[1]@,
                ct.statement.num_voters,
            ),
{
    let c = ct.chunk_size;
    let nrows = ct.rows.len();
    proof {
        assert((k + 1) * c == k * c + c) by (nonlinear_arith);
        assert(k * c + c <= ct.rows@.len());
    }
    let lo = k * c;
    let num_voters = ct.statement.num_voters;
    let two = Fe::from_u64(2);
    let mut a: Vec<Fe> = Vec::new();
    let mut b: Vec<Fe> = Vec::new();
    let mut i: usize = 0;
    while i < c
        invariant
            lo == k * c,
            lo + c == (k + 1) * c,
            c == ct.chunk_size,
            nrows == ct.rows@.len(),
            lo + c <= ct.rows@.len(),
            num_voters == ct.statement.num_voters,
            two@ == 2,
            i <= c,
            a@.len() == i,
            b@.len() == i,
            forall|m: int|
                0 <= m < i ==> (#[trigger] a@[m]@, b@[m]@) == spec_share_pair(
                    *authority,
                    ct.rows@[lo + m].pt_fields@[1]@,
                    num_voters,
                ),
            forall|j: int|
                lo <= j < lo + i ==> {
                    let pair = spec_share_pair(*authority, (#[trigger] ct.rows@[j]).pt_fields@[1]@, num_voters);
                    spec_combine(pair.0, pair.1) == ct.rows@[j].r_ea@
                },
        decreases c - i,
    {
        let row = &ct.rows[lo + i];
        let (sa, sb) = share_pair(authority, &row.pt_fields[1], num_voters);
        let combined = two.mul(&sa).sub(&sb);
        proof {
            Fe::lemma_eq_iff_view_eq(combined, row.r_ea);
        }
        if combined != row.r_ea {
            proof {
                let j = (lo + i) as int;
                assert(ct.rows@[j].r_ea@ != spec_combine(sa@, sb@));
            }
            return Err(CrDrError::ZkToolchain(msg("share combine does not match the reconstructed R_EA")));
        }
        a.push(sa);
        b.push(sb);
        i += 1;
    }
    Ok((a, b))
}

/// One slot of the full relation's provider inputs: the opening, the
/// public registration row and path of the claimed id, and the two share
/// values that the two authorities supply for it.
#[derive(Debug, Clone)]
pub struct ProviderSlot {
    pub ct: Fe,
    pub pt: [Fe; 9],
    pub rho: Fe,
    pub reg_vkx: Fe,
    pub reg_vky: Fe,
    pub reg_h: Fe,
    pub path: Vec<Fe>,
    pub share_a: Fe,
    pub share_b: Fe,
}

/// The provider inputs of the full (monolithic) MPC relation, as values:
/// the public statement values the circuit takes as inputs (without the
/// tally, which is the circuit's output) and one slot per circuit ballot.
#[derive(Debug, Clone)]
pub struct FullProviderValues {
    pub eid_hash: Fe,
    pub mr: Fe,
    pub candidate_set_commitment: Fe,
    pub bb_commitment: Fe,
    pub num_ballots: u64,
    pub num_voters: u64,
    pub duplicate_rule_id: u64,
    pub pk_ea_commitment: Fe,
    pub candidates: Vec<u64>,
    pub slots: Vec<ProviderSlot>,
}

/// `depth` zero field elements.
pub open spec fn spec_zero_path(path: Seq<Fe>, depth: nat) -> bool {
    path.len() == depth && forall|d: int| 0 <= d < depth ==> (#[trigger] path[d])@ == 0
}

/// The registration part of a slot whose opening claims id field
/// `id_field`: the table row and path of an in-range id, zeros otherwise,
/// and the share pair of the id.
pub open spec fn spec_provider_reg(
    auth: AuthoritySecretState,
    reg: RegistrationState,
    id_field: nat,
    depth: nat,
    slot: ProviderSlot,
) -> bool {
    let num_voters = reg.records@.len() as u64;
    let pair = spec_share_pair(auth, id_field, num_voters);
    &&& slot.share_a@ == pair.0
    &&& slot.share_b@ == pair.1
    &&& if id_field < w64() && id_field < reg.records@.len() {
        let id = id_field as u64;
        let rec = reg.records@[id as int];
        &&& slot.reg_vkx == rec.vk.x
        &&& slot.reg_vky == rec.vk.y
        &&& slot.reg_h == rec.h
        &&& if id < reg.paths@.len() {
            slot.path@ == reg.paths@[id as int].elements@
        } else {
            spec_zero_path(slot.path@, depth)
        }
    } else {
        &&& slot.reg_vkx@ == 0
        &&& slot.reg_vky@ == 0
        &&& slot.reg_h@ == 0
        &&& spec_zero_path(slot.path@, depth)
    }
}

/// What slot j of the full provider inputs holds: the admitted ballot's
/// opening and registration part, or an all-zero padding slot.
pub open spec fn spec_provider_slot(
    auth: AuthoritySecretState,
    reg: RegistrationState,
    admitted: AdmittedBoard,
    openings: AdmittedOpenings,
    depth: nat,
    j: int,
    slot: ProviderSlot,
) -> bool {
    if j < admitted.coms@.len() {
        let o = openings.openings@[j];
        &&& slot.ct == admitted.coms@[j]
        &&& slot.pt@ == o.plaintext_fields@
        &&& slot.rho == o.rho
        &&& spec_provider_reg(auth, reg, o.plaintext_fields@[1]@, depth, slot)
    } else {
        &&& slot.ct@ == 0
        &&& forall|f: int| 0 <= f < 9 ==> (#[trigger] slot.pt@[f])@ == 0
        &&& slot.rho@ == 0
        &&& slot.reg_vkx@ == 0
        &&& slot.reg_vky@ == 0
        &&& slot.reg_h@ == 0
        &&& spec_zero_path(slot.path@, depth)
        &&& slot.share_a@ == 0
        &&& slot.share_b@ == 0
    }
}

/// The all-zero padding slot.
fn padding_slot(depth: usize) -> (r: ProviderSlot)
    ensures
        r.ct@ == 0,
        forall|f: int| 0 <= f < 9 ==> (#[trigger] r.pt@[f])@ == 0,
        r.rho@ == 0,
        r.reg_vkx@ == 0,
        r.reg_vky@ == 0,
        r.reg_h@ == 0,
        spec_zero_path(r.path@, depth as nat),
        r.share_a@ == 0,
        r.share_b@ == 0,
{
    let z = Fe::zero();
    ProviderSlot {
        ct: z,
        pt: [z, z, z, z, z, z, z, z, z],
        rho: z,
        reg_vkx: z,
        reg_vky: z,
        reg_h: z,
        path: zeros(depth),
        share_a: z,
        share_b: z,
    }
}

/// The registration part of a slot (see `spec_provider_reg`).
fn provider_reg(
    authority: &AuthoritySecretState,
    reg: &RegistrationState,
    ct: Fe,
    pt: [Fe; 9],
    rho: Fe,
    depth: usize,
) -> (r: ProviderSlot)
    requires
        reg.records@.len() <= u64::MAX,
    ensures
        r.ct == ct,
        r.pt == pt,
        r.rho == rho,
        spec_provider_reg(*authority, *reg, pt@[1]@, depth as nat, r),
{
    let num_voters = reg.records.len() as u64;
    let (share_a, share_b) = share_pair(authority, &pt[1], num_voters);
    let z = Fe::zero();
    let id = match f_to_u64(&pt[1]) {
        Some(v) => v,
        None => {
            return ProviderSlot { ct, pt, rho, reg_vkx: z, reg_vky: z, reg_h: z, path: zeros(depth), share_a, share_b };
        },
    };
    let rec = match reg.record(id) {
        Some(rec) => rec,
        None => {
            return ProviderSlot { ct, pt, rho, reg_vkx: z, reg_vky: z, reg_h: z, path: zeros(depth), share_a, share_b };
        },
    };
    let path = match reg.path(id) {
        Some(p) => p.elements.clone(),
        None => zeros(depth),
    };
    ProviderSlot { ct, pt, rho, reg_vkx: rec.vk.x, reg_vky: rec.vk.y, reg_h: rec.h, path, share_a, share_b }
}

/// The provider inputs of the full MPC relation over `nb` circuit slots,
/// built from the openings and the public registration table and never
/// reconstructing R_EA: no record, sort, duplicate structure or tally is
/// computed here. Fails when the board holds more than `nb` ballots, or
/// when an admitted commitment has no opening that opens it.
pub fn full_provider_values(
    pp: &PublicParams,
    authority: &AuthoritySecretState,
    reg: &RegistrationState,
    admitted: &AdmittedBoard,
    openings: &AdmittedOpenings,
    nb: usize,
    depth: usize,
) -> (r: Result<FullProviderValues>)
    requires
        1 <= pp.candidates@.len() <= 12,
        reg.records@.len() <= u64::MAX,
    ensures
        admitted.coms@.len() > nb ==> (r matches Err(e) && e is ZkToolchain),
        r is Ok <==> admitted.coms@.len() <= nb && forall|j: int|
            0 <= j < admitted.coms@.len() ==> #[trigger] spec_opening_ok(*admitted, *openings, j),
        r matches Err(e) ==> e is ZkToolchain || e is Crypto,
        r matches Ok(v) ==> {
            &&& v.eid_hash == pp.eid_hash
            &&& v.mr == reg.root
            &&& v.candidate_set_commitment@ == poseidon_spec(candidate_vals(pp.candidates@))
            &&& v.bb_commitment@ == spec_chain(0, vals(admitted.coms@))
            &&& v.num_ballots == admitted.coms@.len()
            &&& v.num_voters == reg.records@.len()
            &&& v.duplicate_rule_id == 1
            &&& v.pk_ea_commitment@ == poseidon_spec(seq![pp.pk_ea.x@, pp.pk_ea.y@])
            &&& v.candidates@ == pp.candidates@
            &&& v.slots@.len() == nb
            &&& forall|j: int|
                0 <= j < nb ==> spec_provider_slot(
                    *authority,
                    *reg,
                    *admitted,
                    *openings,
                    depth as nat,
                    j,
                    #[trigger] v.slots@[j],
                )
        },
{
    let num_ballots = admitted.coms.len();
    if num_ballots > nb {
        return Err(CrDrError::ZkToolchain(msg("board holds more ballots than the circuit")));
    }
    let mut slots: Vec<ProviderSlot> = Vec::new();
    let mut j: usize = 0;
    while j < nb
        invariant
            num_ballots == admitted.coms@.len(),
            num_ballots <= nb,
            reg.records@.len() <= u64::MAX,
            j <= nb,
            slots@.len() == j,
            forall|m: int| 0 <= m < j && m < num_ballots ==> #[trigger] spec_opening_ok(*admitted, *openings, m),
            forall|m: int|
                0 <= m < j ==> spec_provider_slot(
                    *authority,
                    *reg,
                    *admitted,
                    *openings,
                    depth as nat,
                    m,
                    #[trigger] slots@[m],
                ),
        decreases nb - j,
    {
        if j < num_ballots {
            let (pt, rho) = match opening_checked(admitted, openings, j) {
                Ok(x) => x,
                Err(e) => return Err(e),
            };
            let slot = provider_reg(authority, reg, admitted.coms[j], pt, rho, depth);
            slots.push(slot);
        } else {
            slots.push(padding_slot(depth));
        }
        j += 1;
    }
    Ok(FullProviderValues {
        eid_hash: pp.eid_hash,
        mr: reg.root,
        candidate_set_commitment: candidate_set_commitment(pp.candidates.as_slice()),
        bb_commitment: admitted_chain(admitted.coms.as_slice()),
        num_ballots: num_ballots as u64,
        num_voters: reg.records.len() as u64,
        duplicate_rule_id: pp.duplicate_rule.id(),
        pk_ea_commitment: pk_ea_commitment(&pp.pk_ea),
        candidates: pp.candidates.clone(),
        slots,
    })
}

} // verus!
