//! Real-vote casting in the CAST-ZK format.

use vstd::prelude::*;

use crate::crypto::encryption::{cast_encrypt, sample_rho_enc, spec_decodes_pk, CastSecret, EncOpening};
use crate::crypto::hash::{ct_commit, sig_msg_hash, spec_sig_msg_hash, vals};
use crate::crypto::signature::{sign, spec_is_signature_with_nonce};
use crate::errors::{CrDrError, Result};
use crate::field::Fe;
use crate::protocol::preprocessing::RegistrationState;
use crate::types::{Ballot, BallotPlaintext, Candidate, PublicBallot, PublicParams, VoterState};
use crate::zk::cast::spec_cast_relation;

verus! {

/// The public part of a ballot as a value.
pub open spec fn spec_public(b: Ballot) -> PublicBallot {
    PublicBallot { com: b.com, ct_open: b.ct_open }
}

/// Seal a plaintext into the CAST-ZK ballot format:
///     com     = H_ballot_com(opening, r_com)
///     ct_open = Enc_pkEA(opening, r_com; rho_enc)
/// The ballot carries the cast secret; only its public part goes on the
/// board. Fails exactly when pk_EA is not a valid subgroup point.
pub fn seal_ballot(pp: &PublicParams, plaintext: &BallotPlaintext, rng: &mut rand_chacha::ChaCha20Rng) -> (r: Result<Ballot>)
    ensures
        r is Ok <==> spec_decodes_pk(pp.pk_ea),
        r matches Ok(b) ==> {
            &&& vals(b.secret.opening.plaintext_fields@) == plaintext.spec_fields()
            &&& spec_cast_relation(pp.pk_ea.x@, pp.pk_ea.y@, spec_public(b), b.secret)
        },
{
    let fields = plaintext.to_fields();
    let r_com = Fe::random(rng);
    let com = ct_commit(fields.as_slice(), r_com);
    let rho_enc = sample_rho_enc(rng);
    let mut cast_fields: Vec<Fe> = Vec::new();
    let mut i: usize = 0;
    while i < fields.len()
        invariant
            i <= fields@.len(),
            cast_fields@ == fields@.subrange(0, i as int),
        decreases fields@.len() - i,
    {
        cast_fields.push(fields[i]);
        i += 1;
    }
    cast_fields.push(r_com);
    proof {
        assert(fields@.subrange(0, fields@.len() as int) =~= fields@);
        assert(vals(cast_fields@) =~= vals(fields@).push(r_com@));
    }
    let ct_open = match cast_encrypt(&pp.pk_ea, cast_fields.as_slice(), rho_enc) {
        Ok(ct) => ct,
        Err(e) => return Err(e),
    };
    Ok(Ballot {
        com,
        ct_open,
        secret: CastSecret { opening: EncOpening { plaintext_fields: fields, rho: r_com }, rho_enc },
    })
}

/// Whether the candidate is in the candidate list.
pub fn candidates_contain(candidates: &Vec<u64>, candidate: u64) -> (r: bool)
    ensures
        r == candidates@.contains(candidate),
{
    let mut i: usize = 0;
    while i < candidates.len()
        invariant
            i <= candidates@.len(),
            forall|k: int| 0 <= k < i ==> candidates@[k] != candidate,
        decreases candidates@.len() - i,
    {
        if candidates[i] == candidate {
            assert(candidates@[i as int] == candidate);
            return true;
        }
        i += 1;
    }
    false
}

/// Build a real ballot for `candidate`: sign (eid_hash, id, candidate, R_i)
/// with the voter's key and seal the plaintext (eid_hash, id, vk,
/// candidate, R_i, sigma). Refuses a candidate outside the candidate set
/// and a voter without a registration row.
pub fn cast_vote(
    pp: &PublicParams,
    registration_state: &RegistrationState,
    voter_state: &VoterState,
    candidate: Candidate,
    rng: &mut rand_chacha::ChaCha20Rng,
) -> (r: Result<Ballot>)
    ensures
        !pp.candidates@.contains(candidate) ==> r == Err::<Ballot, CrDrError>(
            CrDrError::InvalidCandidate(candidate),
        ),
        pp.candidates@.contains(candidate) && registration_state.spec_record(voter_state.id) is None
            ==> r == Err::<Ballot, CrDrError>(CrDrError::UnknownVoter(voter_state.id)),
        r is Ok <==> pp.candidates@.contains(candidate) && registration_state.spec_record(
            voter_state.id,
        ) is Some && spec_decodes_pk(pp.pk_ea),
        r matches Ok(b) ==> exists|pt: BallotPlaintext|
            {
                &&& pt.eid_hash == pp.eid_hash
                &&& pt.id == voter_state.id
                &&& pt.vk == voter_state.vk
                &&& pt.candidate == candidate
                &&& pt.r == voter_state.r
                &&& exists|k: nat|
                    spec_is_signature_with_nonce(
                        voter_state.sk.0@,
                        spec_sig_msg_hash(pp.eid_hash@, voter_state.id as nat, candidate as nat, voter_state.r@),
                        pt.sigma,
                        k,
                    )
                &&& vals(b.secret.opening.plaintext_fields@) == #[trigger] pt.spec_fields()
                &&& spec_cast_relation(pp.pk_ea.x@, pp.pk_ea.y@, spec_public(b), b.secret)
            },
{
    if !candidates_contain(&pp.candidates, candidate) {
        return Err(CrDrError::InvalidCandidate(candidate));
    }
    if registration_state.record(voter_state.id).is_none() {
        return Err(CrDrError::UnknownVoter(voter_state.id));
    }
    let msg = sig_msg_hash(pp.eid_hash, voter_state.id, candidate, voter_state.r);
    let sigma = sign(&voter_state.sk, msg, rng);
    let plaintext = BallotPlaintext {
        eid_hash: pp.eid_hash,
        id: voter_state.id,
        vk: voter_state.vk,
        candidate,
        r: voter_state.r,
        sigma,
    };
    seal_ballot(pp, &plaintext, rng)
}

} // verus!
