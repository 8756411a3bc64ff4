//! Chaff ballots: well-formed, correctly signed ballots for fresh
//! identities that are not registered. FilterAndTally rejects them exactly
//! like fake-compliance ballots, and they carry no public marker.

use vstd::prelude::*;

use crate::crypto::encryption::spec_decodes_pk;
use crate::crypto::hash::{sig_msg_hash, spec_sig_msg_hash, vals};
use crate::crypto::signature::{keygen, sign, spec_is_signature_with_nonce, spec_vk_of};
use crate::errors::Result;
use crate::field::Fe;
use crate::protocol::vote::{seal_ballot, spec_public};
use crate::rng::sample_below;
use crate::types::{Ballot, BallotPlaintext, PublicParams};
use crate::zk::cast::spec_cast_relation;

verus! {

/// Generate one chaff ballot: a plausible in-range voter id, a fresh key
/// pair and nonce, a valid candidate, and a correct signature under the
/// fresh key. It passes every syntactic check and fails only the hidden
/// registration relation.
pub fn chaff_ballot(pp: &PublicParams, rng: &mut rand_chacha::ChaCha20Rng) -> (r: Result<Ballot>)
    requires
        pp.max_voters > 0,
        pp.candidates@.len() > 0,
    ensures
        r is Ok <==> spec_decodes_pk(pp.pk_ea),
        r matches Ok(b) ==> exists|pt: BallotPlaintext|
            {
                &&& pt.eid_hash == pp.eid_hash
                &&& pt.id < pp.max_voters
                &&& pp.candidates@.contains(pt.candidate)
                &&& exists|sk: nat, k: nat|
                    spec_vk_of(sk) == (pt.vk.x@, pt.vk.y@) && spec_is_signature_with_nonce(
                        sk,
                        spec_sig_msg_hash(pt.eid_hash@, pt.id as nat, pt.candidate as nat, pt.r@),
                        pt.sigma,
                        k,
                    )
                &&& vals(b.secret.opening.plaintext_fields@) == #[trigger] pt.spec_fields()
                &&& spec_cast_relation(pp.pk_ea.x@, pp.pk_ea.y@, spec_public(b), b.secret)
            },
{
    let id = sample_below(rng, pp.max_voters as u64);
    let (sk, vk) = keygen(rng);
    let r = Fe::random(rng);
    let ci = sample_below(rng, pp.candidates.len() as u64) as usize;
    let candidate = pp.candidates[ci];
    let msg = sig_msg_hash(pp.eid_hash, id, candidate, r);
    let sigma = sign(&sk, msg, rng);
    let plaintext = BallotPlaintext { eid_hash: pp.eid_hash, id, vk, candidate, r, sigma };
    assert(pp.candidates@.contains(candidate)) by {
        assert(pp.candidates@[ci as int] == candidate);
    }
    seal_ballot(pp, &plaintext, rng)
}

} // verus!
