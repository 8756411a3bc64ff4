//! Fake compliance: what a coerced voter hands to (or performs for) the
//! coercer. The voter reveals the real signing key together with a fake
//! nonce R~ != R_i and signs the coercer's candidate under R~. The coercer
//! can verify the signature but cannot test whether R~ is the registered
//! nonce: that needs the authority nonce R_EA,i, which the voter never had.

use vstd::prelude::*;

use crate::crypto::hash::{sig_msg_hash, spec_sig_msg_hash};
use crate::crypto::signature::{sign, spec_is_signature_with_nonce, SecretKey, Signature, VerificationKey};
use crate::errors::{CrDrError, Result};
use crate::field::Fe;
use crate::protocol::vote::{candidates_contain, seal_ballot, spec_public};
use crate::crypto::encryption::spec_decodes_pk;
use crate::crypto::hash::vals;
use crate::types::{Ballot, BallotPlaintext, Candidate, Nonce, PublicParams, VoterState};
use crate::zk::cast::spec_cast_relation;

verus! {

/// Everything the coerced voter surrenders, including the real signing key.
#[derive(Debug, Clone, Copy, PartialEq, Eq, Structural)]
pub struct FakeComplianceTranscript {
    pub voter_id: u64,
    pub sk: SecretKey,
    pub vk: VerificationKey,
    pub r_fake: Nonce,
    pub requested_candidate: Candidate,
    pub sigma_fake: Signature,
}

/// Draw field elements until one differs from `avoid` (a draw equal to it
/// has probability 1/p; after a bounded number of equal draws the value
/// avoid + 1 is used).
fn sample_other_than(avoid: Fe, rng: &mut rand_chacha::ChaCha20Rng) -> (r: Fe)
    ensures
        r != avoid,
{
    let mut tries: u32 = 0;
    while tries < 64
        decreases 64 - tries,
    {
        let x = Fe::random(rng);
        if x != avoid {
            return x;
        }
        tries += 1;
    }
    let one = Fe::one();
    avoid.bound();
    let x = avoid.add(&one);
    proof {
        Fe::lemma_eq_iff_view_eq(x, avoid);
        assert(x@ == (avoid@ + 1) % crate::field::p());
    }
    x
}

/// Produce the fake-compliance transcript for the coercer's requested
/// candidate: a nonce R~ != R_i and a signature with the real key over
/// (eid, i, m*, R~). Refuses a candidate outside the candidate set.
pub fn fake_compliance(
    pp: &PublicParams,
    voter_state: &VoterState,
    requested_candidate: Candidate,
    rng: &mut rand_chacha::ChaCha20Rng,
) -> (r: Result<FakeComplianceTranscript>)
    ensures
        r is Ok <==> pp.candidates@.contains(requested_candidate),
        r is Err ==> r == Err::<FakeComplianceTranscript, CrDrError>(
            CrDrError::InvalidCandidate(requested_candidate),
        ),
        r matches Ok(t) ==> {
            &&& t.voter_id == voter_state.id
            &&& t.sk == voter_state.sk
            &&& t.vk == voter_state.vk
            &&& t.r_fake != voter_state.r
            &&& t.requested_candidate == requested_candidate
            &&& exists|k: nat|
                spec_is_signature_with_nonce(
                    voter_state.sk.0@,
                    spec_sig_msg_hash(pp.eid_hash@, voter_state.id as nat, requested_candidate as nat, t.r_fake@),
                    t.sigma_fake,
                    k,
                )
        },
{
    if !candidates_contain(&pp.candidates, requested_candidate) {
        return Err(CrDrError::InvalidCandidate(requested_candidate));
    }
    let r_fake = sample_other_than(voter_state.r, rng);
    let msg = sig_msg_hash(pp.eid_hash, voter_state.id, requested_candidate, r_fake);
    let sigma_fake = sign(&voter_state.sk, msg, rng);
    let ghost k = choose|k: nat| spec_is_signature_with_nonce(voter_state.sk.0@, msg@, sigma_fake, k);
    let t = FakeComplianceTranscript {
        voter_id: voter_state.id,
        sk: voter_state.sk,
        vk: voter_state.vk,
        r_fake,
        requested_candidate,
        sigma_fake,
    };
    assert(spec_is_signature_with_nonce(
        voter_state.sk.0@,
        spec_sig_msg_hash(pp.eid_hash@, voter_state.id as nat, requested_candidate as nat, t.r_fake@),
        t.sigma_fake,
        k,
    ));
    Ok(t)
}

/// The plaintext of the fake ballot built from a transcript.
pub open spec fn spec_fake_plaintext(pp: PublicParams, t: FakeComplianceTranscript) -> BallotPlaintext {
    BallotPlaintext {
        eid_hash: pp.eid_hash,
        id: t.voter_id,
        vk: t.vk,
        candidate: t.requested_candidate,
        r: t.r_fake,
        sigma: t.sigma_fake,
    }
}

/// Build the ballot the coercer submits from a fake-compliance transcript:
/// it has the public shape of a real ballot.
pub fn build_fake_ballot(
    pp: &PublicParams,
    transcript: &FakeComplianceTranscript,
    rng: &mut rand_chacha::ChaCha20Rng,
) -> (r: Result<Ballot>)
    ensures
        r is Ok <==> spec_decodes_pk(pp.pk_ea),
        r matches Ok(b) ==> {
            &&& vals(b.secret.opening.plaintext_fields@) == spec_fake_plaintext(*pp, *transcript).spec_fields()
            &&& spec_cast_relation(pp.pk_ea.x@, pp.pk_ea.y@, spec_public(b), b.secret)
        },
{
    let plaintext = BallotPlaintext {
        eid_hash: pp.eid_hash,
        id: transcript.voter_id,
        vk: transcript.vk,
        candidate: transcript.requested_candidate,
        r: transcript.r_fake,
        sigma: transcript.sigma_fake,
    };
    seal_ballot(pp, &plaintext, rng)
}

} // verus!
