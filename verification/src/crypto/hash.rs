//! Protocol hash functions. Every hash that appears inside the circuit is
//! circomlib-compatible Poseidon over BN254 with a fixed arity; the arity
//! gives (weak) domain separation between H_com (6), H_reg (5), the
//! signature message hash (4) and the ballot commitment (10).

use light_poseidon::{Poseidon, PoseidonHasher};
use sha2::{Digest, Sha256};
use vstd::prelude::*;
use vstd::string::StringSliceAdditionalSpecFns;
use ark_ff::PrimeField;

use crate::crypto::signature::VerificationKey;
use crate::field::{be_bytes_value, p, Fe};
use crate::types::PLAINTEXT_FIELD_LEN;

verus! {

/// The values of a sequence of field elements.
pub open spec fn vals(s: Seq<Fe>) -> Seq<nat> {
    s.map_values(|f: Fe| f@)
}

/// What circomlib-compatible Poseidon returns on the given inputs.
pub uninterp spec fn poseidon_spec(inputs: Seq<nat>) -> nat;

/// What SHA-256 returns on the given message.
pub uninterp spec fn sha256_spec(data: Seq<u8>) -> Seq<u8>;

/// `light_poseidon::Poseidon::new_circom(n).hash(inputs)` over BN254 (the
/// circomlib parameters). Its parameters exist for 1..=12 inputs; outside
/// that range `new_circom` fails, hence the precondition. The result is named: it is the value of
/// `poseidon_spec` on the input values.
#[verifier::external_body]
fn poseidon_raw(inputs: &[Fe]) -> (r: Fe)
    requires
        1 <= inputs@.len() <= 12,
    ensures
        r@ == poseidon_spec(vals(inputs@)),
{
    let v: Vec<ark_bn254::Fr> = inputs.iter().map(|f| ark_bn254::Fr::from_bigint(
        ark_ff::BigInt(f.to_limbs()),
    ).unwrap()).collect();
    let h = Poseidon::<ark_bn254::Fr>::new_circom(v.len()).unwrap().hash(&v).unwrap();
    Fe::from_limbs(h.into_bigint().0).unwrap()
}

/// `sha2::Sha256::digest`: the 32-byte SHA-256 digest of `data`, named.
#[verifier::external_body]
fn sha256_raw(data: &[u8]) -> (r: Vec<u8>)
    ensures
        r@ == sha256_spec(data@),
        r@.len() == 32,
{
    Sha256::digest(data).to_vec()
}

/// Poseidon hash of 1..=12 field elements, circomlib-compatible.
pub fn poseidon(inputs: &[Fe]) -> (r: Fe)
    requires
        1 <= inputs@.len() <= 12,
    ensures
        r@ == poseidon_spec(vals(inputs@)),
{
    poseidon_raw(inputs)
}

/// Poseidon of two elements.
pub fn poseidon2(a: Fe, b: Fe) -> (r: Fe)
    ensures
        r@ == poseidon_spec(seq![a@, b@]),
{
    let v = vec![a, b];
    assert(vals(v@) =~= seq![a@, b@]);
    poseidon(v.as_slice())
}

/// Poseidon of three elements.
pub fn poseidon3(a: Fe, b: Fe, c: Fe) -> (r: Fe)
    ensures
        r@ == poseidon_spec(seq![a@, b@, c@]),
{
    let v = vec![a, b, c];
    assert(vals(v@) =~= seq![a@, b@, c@]);
    poseidon(v.as_slice())
}

/// Poseidon of four elements.
pub fn poseidon4(a: Fe, b: Fe, c: Fe, d: Fe) -> (r: Fe)
    ensures
        r@ == poseidon_spec(seq![a@, b@, c@, d@]),
{
    let v = vec![a, b, c, d];
    assert(vals(v@) =~= seq![a@, b@, c@, d@]);
    poseidon(v.as_slice())
}

/// Poseidon of five elements.
pub fn poseidon5(a: Fe, b: Fe, c: Fe, d: Fe, e: Fe) -> (r: Fe)
    ensures
        r@ == poseidon_spec(seq![a@, b@, c@, d@, e@]),
{
    let v = vec![a, b, c, d, e];
    assert(vals(v@) =~= seq![a@, b@, c@, d@, e@]);
    poseidon(v.as_slice())
}

/// Poseidon of six elements.
pub fn poseidon6(a: Fe, b: Fe, c: Fe, d: Fe, e: Fe, f: Fe) -> (r: Fe)
    ensures
        r@ == poseidon_spec(seq![a@, b@, c@, d@, e@, f@]),
{
    let v = vec![a, b, c, d, e, f];
    assert(vals(v@) =~= seq![a@, b@, c@, d@, e@, f@]);
    poseidon(v.as_slice())
}

/// The domain prefix of the election-id hash.
pub open spec fn eid_prefix() -> Seq<u8> {
    seq![67u8, 82, 68, 82, 45, 69, 73, 68, 45, 86, 49]
}

/// eid_to_field(eid) = SHA-256("CRDR-EID-V1" || eid) read big-endian, mod p.
pub open spec fn spec_eid_to_field(eid: Seq<u8>) -> nat {
    be_bytes_value(sha256_spec(eid_prefix() + eid)) % p()
}

/// Map an election id string into the field: SHA-256 with a domain prefix,
/// reduced mod p (computed outside the circuit).
pub fn eid_to_field(eid: &str) -> (r: Fe)
    ensures
        r@ == spec_eid_to_field(eid.spec_bytes()),
{
    // "CRDR-EID-V1"
    let prefix: Vec<u8> = vec![67u8, 82, 68, 82, 45, 69, 73, 68, 45, 86, 49];
    let mut msg: Vec<u8> = Vec::new();
    let pb = prefix.as_slice();
    let eb = eid.as_bytes();
    let mut i: usize = 0;
    while i < pb.len()
        invariant
            i <= pb@.len(),
            msg@ == pb@.subrange(0, i as int),
        decreases pb@.len() - i,
    {
        msg.push(pb[i]);
        i += 1;
    }
    let mut j: usize = 0;
    while j < eb.len()
        invariant
            j <= eb@.len(),
            msg@ == pb@ + eb@.subrange(0, j as int),
        decreases eb@.len() - j,
    {
        msg.push(eb[j]);
        j += 1;
        assert(eb@.subrange(0, j as int) =~= eb@.subrange(0, j - 1).push(eb@[j - 1]));
    }
    assert(eb@.subrange(0, eb@.len() as int) =~= eb@);
    assert(pb@ =~= eid_prefix());
    let digest = sha256_raw(msg.as_slice());
    Fe::from_be_bytes_mod_order(digest.as_slice())
}

/// h_i = H_com(eid_hash, i, vk_i, R_i, R_EA,i).
pub open spec fn spec_h_com(eid_hash: nat, id: nat, vkx: nat, vky: nat, r: nat, r_ea: nat) -> nat {
    poseidon_spec(seq![eid_hash, id, vkx, vky, r, r_ea])
}

/// leaf_i = H_reg(eid_hash, i, vk_i, h_i).
pub open spec fn spec_h_reg(eid_hash: nat, id: nat, vkx: nat, vky: nat, h: nat) -> nat {
    poseidon_spec(seq![eid_hash, id, vkx, vky, h])
}

/// The signed message: Poseidon(eid_hash, id, candidate, R).
pub open spec fn spec_sig_msg_hash(eid_hash: nat, id: nat, candidate: nat, r: nat) -> nat {
    poseidon_spec(seq![eid_hash, id, candidate, r])
}

/// h_i = H_com(eid_hash, i, vk_i, R_i, R_EA,i) — Poseidon arity 6.
pub fn h_com(eid_hash: Fe, id: u64, vk: &VerificationKey, r: Fe, r_ea: Fe) -> (out: Fe)
    ensures
        out@ == spec_h_com(eid_hash@, id as nat, vk.x@, vk.y@, r@, r_ea@),
{
    poseidon6(eid_hash, Fe::from_u64(id), vk.x, vk.y, r, r_ea)
}

/// leaf_i = H_reg(eid_hash, i, vk_i, h_i) — Poseidon arity 5.
pub fn h_reg(eid_hash: Fe, id: u64, vk: &VerificationKey, h: Fe) -> (out: Fe)
    ensures
        out@ == spec_h_reg(eid_hash@, id as nat, vk.x@, vk.y@, h@),
{
    poseidon5(eid_hash, Fe::from_u64(id), vk.x, vk.y, h)
}

/// Signature message hash: Poseidon(eid_hash, id, candidate, R) — arity 4.
pub fn sig_msg_hash(eid_hash: Fe, id: u64, candidate: u64, r: Fe) -> (out: Fe)
    ensures
        out@ == spec_sig_msg_hash(eid_hash@, id as nat, candidate as nat, r@),
{
    poseidon4(eid_hash, Fe::from_u64(id), Fe::from_u64(candidate), r)
}

/// The ballot commitment H_ballot_com(opening, r_com) = Poseidon(opening || r_com).
pub open spec fn spec_ct_commit(plaintext: Seq<nat>, rho: nat) -> nat {
    poseidon_spec(plaintext.push(rho))
}

/// Ballot commitment: Poseidon(plaintext_fields || rho) — arity 10.
pub fn ct_commit(plaintext_fields: &[Fe], rho: Fe) -> (out: Fe)
    requires
        plaintext_fields@.len() == PLAINTEXT_FIELD_LEN,
    ensures
        out@ == spec_ct_commit(vals(plaintext_fields@), rho@),
{
    let mut inp: Vec<Fe> = Vec::new();
    let mut i: usize = 0;
    while i < plaintext_fields.len()
        invariant
            i <= plaintext_fields@.len(),
            inp@ == plaintext_fields@.subrange(0, i as int),
        decreases plaintext_fields@.len() - i,
    {
        inp.push(plaintext_fields[i]);
        i += 1;
    }
    assert(plaintext_fields@.subrange(0, plaintext_fields@.len() as int) =~= plaintext_fields@);
    inp.push(rho);
    assert(vals(inp@) =~= vals(plaintext_fields@).push(rho@));
    poseidon(inp.as_slice())
}

/// Merkle inner node: Poseidon(left, right).
pub open spec fn spec_merkle_hash(left: nat, right: nat) -> nat {
    poseidon_spec(seq![left, right])
}

/// Merkle inner node hash — Poseidon arity 2.
pub fn merkle_hash(left: Fe, right: Fe) -> (out: Fe)
    ensures
        out@ == spec_merkle_hash(left@, right@),
{
    poseidon2(left, right)
}

/// The Poseidon chain acc_0 = start, acc <- Poseidon(acc, x) over `xs`.
pub open spec fn spec_chain(start: nat, xs: Seq<nat>) -> nat
    decreases xs.len(),
{
    if xs.len() == 0 {
        start
    } else {
        poseidon_spec(seq![spec_chain(start, xs.drop_last()), xs.last()])
    }
}

/// Flattening of a list of field lists.
pub open spec fn flatten_vals(xs: Seq<Vec<Fe>>) -> Seq<nat>
    decreases xs.len(),
{
    if xs.len() == 0 {
        Seq::empty()
    } else {
        flatten_vals(xs.drop_last()) + vals(xs.last()@)
    }
}

/// Bulletin-board commitment: the Poseidon chain from 0 over every listed
/// field, in board order.
pub fn bb_commitment(ciphertext_fields: &[Vec<Fe>]) -> (out: Fe)
    ensures
        out@ == spec_chain(0, flatten_vals(ciphertext_fields@)),
{
    let mut acc = Fe::zero();
    let mut i: usize = 0;
    while i < ciphertext_fields.len()
        invariant
            i <= ciphertext_fields@.len(),
            acc@ == spec_chain(0, flatten_vals(ciphertext_fields@.subrange(0, i as int))),
        decreases ciphertext_fields@.len() - i,
    {
        let ct = &ciphertext_fields[i];
        let ghost before = flatten_vals(ciphertext_fields@.subrange(0, i as int));
        let mut j: usize = 0;
        while j < ct.len()
            invariant
                j <= ct@.len(),
                acc@ == spec_chain(0, before + vals(ct@.subrange(0, j as int))),
            decreases ct@.len() - j,
        {
            let ghost prev = before + vals(ct@.subrange(0, j as int));
            acc = poseidon2(acc, ct[j as usize]);
            assert((before + vals(ct@.subrange(0, j + 1))).drop_last() =~= prev);
            j += 1;
        }
        assert(ct@.subrange(0, ct@.len() as int) =~= ct@);
        assert(ciphertext_fields@.subrange(0, i + 1).drop_last() =~= ciphertext_fields@.subrange(
            0,
            i as int,
        ));
        i += 1;
    }
    assert(ciphertext_fields@.subrange(0, ciphertext_fields@.len() as int) =~= ciphertext_fields@);
    acc
}

/// Hash of one ballot's public fields (for receipts): the Poseidon chain
/// from 0 over the fields.
pub fn ballot_hash(ciphertext_fields: &[Fe]) -> (out: Fe)
    ensures
        out@ == spec_chain(0, vals(ciphertext_fields@)),
{
    let mut acc = Fe::zero();
    let mut j: usize = 0;
    while j < ciphertext_fields.len()
        invariant
            j <= ciphertext_fields@.len(),
            acc@ == spec_chain(0, vals(ciphertext_fields@.subrange(0, j as int))),
        decreases ciphertext_fields@.len() - j,
    {
        let ghost prev = vals(ciphertext_fields@.subrange(0, j as int));
        acc = poseidon2(acc, ciphertext_fields[j]);
        assert(vals(ciphertext_fields@.subrange(0, j + 1)).drop_last() =~= prev);
        j += 1;
    }
    assert(ciphertext_fields@.subrange(0, ciphertext_fields@.len() as int) =~= ciphertext_fields@);
    acc
}

/// Commitment to the EA public key: Poseidon(pk.x, pk.y).
pub fn pk_ea_commitment(pk: &crate::crypto::encryption::EaPublicKey) -> (out: Fe)
    ensures
        out@ == poseidon_spec(seq![pk.x@, pk.y@]),
{
    poseidon2(pk.x, pk.y)
}

/// The values of a candidate list as field elements.
pub open spec fn candidate_vals(candidates: Seq<u64>) -> Seq<nat> {
    candidates.map_values(|c: u64| c as nat)
}

/// Commitment to the candidate list — Poseidon over the candidate values
/// (Poseidon takes 1..=12 inputs).
pub fn candidate_set_commitment(candidates: &[u64]) -> (out: Fe)
    requires
        1 <= candidates@.len() <= 12,
    ensures
        out@ == poseidon_spec(candidate_vals(candidates@)),
{
    let mut inp: Vec<Fe> = Vec::new();
    let mut i: usize = 0;
    while i < candidates.len()
        invariant
            i <= candidates@.len(),
            inp@.len() == i,
            forall|k: int| 0 <= k < i ==> #[trigger] inp@[k]@ == candidates@[k] as nat,
        decreases candidates@.len() - i,
    {
        inp.push(Fe::from_u64(candidates[i]));
        i += 1;
    }
    assert(vals(inp@) =~= candidate_vals(candidates@));
    poseidon(inp.as_slice())
}

} // verus!
