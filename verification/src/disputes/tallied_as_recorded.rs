//! Tallied-as-recorded dispute resolution (private judge).
//!
//! The judge privately receives the voter's claimed ballot opening and the
//! authority nonce R_EA,i, directly from the EA or reconstructed from >= t
//! threshold shares, so it can test the hidden nonce relation that neither
//! the voter nor a coercer can test. R_EA,i never leaves the judge, and the
//! detailed report is judge-private.

use vstd::prelude::*;

use crate::crypto::encryption::EncOpening;
use crate::crypto::hash::{sig_msg_hash, spec_sig_msg_hash, vals};
use crate::crypto::shamir::{reconstruct, spec_reconstruct, Share};
use crate::crypto::signature::{spec_verify, verify};
use crate::disputes::judge::{JudgeReport, Verdict};
use crate::field::Fe;
use crate::protocol::admission::{opening_opens, spec_opens, AdmittedOpenings};
use crate::protocol::bulletin_board::AdmittedBoard;
use crate::protocol::filter_and_tally::{
    ballot_is_valid_for_id, registration_check, spec_opening_ok, spec_parse, spec_registration_check,
    spec_valid_for_id, RegistrationCheck,
};
use crate::protocol::preprocessing::RegistrationState;
use crate::protocol::vote::candidates_contain;
use crate::types::{spec_parses, BallotPlaintext, PublicParams};

verus! {

/// How the judge obtains R_EA,i.
#[derive(Debug, Clone)]
pub enum NonceSource {
    /// Directly from the (single) election authority.
    Direct(Fe),
    /// Reconstructed from >= t threshold authority shares.
    ThresholdShares(Vec<Share>),
}

/// A voter's tallied-as-recorded complaint, delivered privately: the
/// admitted commitment and the voter's claimed opening of it.
#[derive(Debug, Clone)]
pub struct TalliedAsRecordedComplaint {
    pub com: Fe,
    pub opening: EncOpening,
}

/// Outcome of checking the public tally proof, as established by the
/// judge. `Verified` only if the proof verifies against the current public
/// statement.
#[derive(Debug, Clone, Copy, PartialEq, Eq, Structural)]
pub enum TallyProofStatus {
    Verified,
    Invalid,
    Unavailable,
}

/// Evidence the judge obtains from the authority side.
pub struct AuthorityEvidence<'a> {
    pub nonce_source: NonceSource,
    /// The EA's openings of the admitted board, from which the judge
    /// recomputes the duplicate status of the complained ballot.
    pub openings: &'a AdmittedOpenings,
    pub tally_proof: TallyProofStatus,
}

/// i is the first position of `com` on the board.
pub open spec fn is_first_com(s: Seq<Fe>, com: Fe, i: int) -> bool {
    &&& 0 <= i < s.len()
    &&& s[i] == com
    &&& forall|j: int| 0 <= j < i ==> s[j] != com
}

/// The first position of `com` on the board.
pub open spec fn spec_com_position(s: Seq<Fe>, com: Fe) -> Option<int> {
    if s.contains(com) {
        Some(choose|i: int| is_first_com(s, com, i))
    } else {
        None
    }
}

fn com_position(s: &Vec<Fe>, com: Fe) -> (r: Option<usize>)
    ensures
        match r {
            Some(i) => spec_com_position(s@, com) == Some(i as int),
            None => spec_com_position(s@, com) is None,
        },
{
    let mut i: usize = 0;
    while i < s.len()
        invariant
            i <= s@.len(),
            forall|j: int| 0 <= j < i ==> s@[j] != com,
        decreases s@.len() - i,
    {
        if s[i] == com {
            proof {
                assert(is_first_com(s@, com, i as int));
                let ch = choose|k: int| is_first_com(s@, com, k);
                if ch < i {
                    assert(s@[ch] != com);
                }
                if ch > i {
                    assert(s@[i as int] != com);
                }
            }
            return Some(i);
        }
        i += 1;
    }
    proof {
        assert(!s@.contains(com)) by {
            if s@.contains(com) {
                let w = choose|w: int| 0 <= w < s@.len() && s@[w] == com;
                assert(s@[w] != com);
            }
        }
    }
    None
}

/// The nonce the judge obtains, if any.
pub open spec fn spec_nonce(src: NonceSource) -> Option<nat> {
    match src {
        NonceSource::Direct(v) => Some(v@),
        NonceSource::ThresholdShares(shares) => spec_reconstruct(shares@),
    }
}

/// What the scan of the first n admitted slots finds, in board order: the
/// first slot for which the authority supplied no opening (incomplete
/// evidence: undetermined), whose stored opening does not open its
/// commitment (an authority fault), or that is a valid ballot of voter `id`
/// under nonce `r_ea` (an earlier valid ballot: the complained ballot is
/// not the one that counts), or nothing.
pub open spec fn spec_prior_scan(
    pp: PublicParams,
    reg: RegistrationState,
    admitted: AdmittedBoard,
    openings: AdmittedOpenings,
    id: u64,
    r_ea: nat,
    n: nat,
) -> Option<Verdict>
    decreases n,
{
    if n == 0 {
        None
    } else {
        match spec_prior_scan(pp, reg, admitted, openings, id, r_ea, (n - 1) as nat) {
            Some(v) => Some(v),
            None => if n - 1 >= openings.openings@.len() {
                Some(Verdict::Undetermined)
            } else if !spec_opening_ok(admitted, openings, n - 1) {
                Some(Verdict::AuthorityFaulty)
            } else if spec_valid_for_id(pp, reg, openings.openings@[n - 1].plaintext_fields@, id, r_ea) {
                Some(Verdict::VoterFaulty)
            } else {
                None
            },
        }
    }
}

/// Once the scan has found a slot, scanning further slots keeps it.
proof fn lemma_scan_stable(
    pp: PublicParams,
    reg: RegistrationState,
    admitted: AdmittedBoard,
    openings: AdmittedOpenings,
    id: u64,
    r_ea: nat,
    n1: nat,
    n2: nat,
)
    requires
        n1 <= n2,
        spec_prior_scan(pp, reg, admitted, openings, id, r_ea, n1) is Some,
    ensures
        spec_prior_scan(pp, reg, admitted, openings, id, r_ea, n2) == spec_prior_scan(
            pp,
            reg,
            admitted,
            openings,
            id,
            r_ea,
            n1,
        ),
    decreases n2 - n1,
{
    if n1 < n2 {
        lemma_scan_stable(pp, reg, admitted, openings, id, r_ea, n1, (n2 - 1) as nat);
    }
}

/// The scan of the first `upto` admitted slots (see `spec_prior_scan`).
fn prior_scan(
    pp: &PublicParams,
    registration_state: &RegistrationState,
    admitted: &AdmittedBoard,
    openings: &AdmittedOpenings,
    upto: usize,
    id: u64,
    r_ea: Fe,
) -> (r: Option<Verdict>)
    ensures
        r == spec_prior_scan(*pp, *registration_state, *admitted, *openings, id, r_ea@, upto as nat),
        r matches Some(v) ==> v == Verdict::AuthorityFaulty || v == Verdict::VoterFaulty || v
            == Verdict::Undetermined,
{
    let mut j: usize = 0;
    while j < upto
        invariant
            j <= upto,
            spec_prior_scan(*pp, *registration_state, *admitted, *openings, id, r_ea@, j as nat) is None,
        decreases upto - j,
    {
        if j >= openings.openings.len() {
            proof {
                lemma_scan_stable(*pp, *registration_state, *admitted, *openings, id, r_ea@, (j + 1) as nat, upto as nat);
            }
            return Some(Verdict::Undetermined);
        }
        let res = ballot_is_valid_for_id(pp, registration_state, admitted, openings, j, id, r_ea);
        match res {
            Err(_) => {
                proof {
                    lemma_scan_stable(*pp, *registration_state, *admitted, *openings, id, r_ea@, (j + 1) as nat, upto as nat);
                }
                return Some(Verdict::AuthorityFaulty);
            },
            Ok(true) => {
                proof {
                    lemma_scan_stable(*pp, *registration_state, *admitted, *openings, id, r_ea@, (j + 1) as nat, upto as nat);
                }
                return Some(Verdict::VoterFaulty);
            },
            Ok(false) => {},
        }
        j += 1;
    }
    None
}

/// The verdict on a valid first ballot: it rests on the tally proof.
pub open spec fn spec_proof_verdict(status: TallyProofStatus) -> Verdict {
    match status {
        TallyProofStatus::Invalid => Verdict::AuthorityFaulty,
        TallyProofStatus::Unavailable => Verdict::Undetermined,
        TallyProofStatus::Verified => Verdict::NoAuthorityFault,
    }
}

/// The judge's report as a verdict and its detail text. Every detail is
/// one of a fixed set of texts: none carries the nonce or any other
/// evidence value.
pub open spec fn spec_judge_outcome(
    pp: PublicParams,
    reg: RegistrationState,
    admitted: AdmittedBoard,
    complaint: TalliedAsRecordedComplaint,
    nonce: Option<nat>,
    openings: AdmittedOpenings,
    proof_status: TallyProofStatus,
) -> (Verdict, Seq<char>) {
    let f = complaint.opening.plaintext_fields@;
    match spec_com_position(admitted.coms@, complaint.com) {
        None => (
            Verdict::Undetermined,
            "commitment is not on the admitted board; file a recorded-as-cast dispute instead"@,
        ),
        Some(board_index) => if f.len() != 9 {
            (Verdict::VoterFaulty, "malformed opening"@)
        } else if !spec_opens(complaint.com, complaint.opening) {
            (Verdict::VoterFaulty, "claimed opening does not open the ballot commitment"@)
        } else if !spec_parses(f) {
            (Verdict::VoterFaulty, "malformed plaintext"@)
        } else {
            let pt = spec_parse(f);
            if pt.eid_hash != pp.eid_hash {
                (Verdict::VoterFaulty, "wrong election id"@)
            } else if !pp.candidates@.contains(pt.candidate) {
                (Verdict::VoterFaulty, "invalid candidate"@)
            } else if !spec_verify(
                pt.vk.x@,
                pt.vk.y@,
                spec_sig_msg_hash(pt.eid_hash@, pt.id as nat, pt.candidate as nat, pt.r@),
                pt.sigma.rx@,
                pt.sigma.ry@,
                pt.sigma.s@,
            ) {
                (Verdict::VoterFaulty, "invalid signature"@)
            } else {
                match nonce {
                    None => (Verdict::Undetermined, "could not reconstruct authority nonce from shares"@),
                    Some(r_ea) => match spec_registration_check(pp, reg, pt, r_ea) {
                        RegistrationCheck::NotRegistered => (
                            Verdict::VoterFaulty,
                            "voter id not a registered row"@,
                        ),
                        RegistrationCheck::VkMismatch => (
                            Verdict::VoterFaulty,
                            "vk does not match registration row"@,
                        ),
                        RegistrationCheck::NonceMismatch => (
                            Verdict::VoterFaulty,
                            "hidden nonce relation fails: claimed R is not the registered nonce"@,
                        ),
                        RegistrationCheck::LeafInconsistent => (
                            Verdict::AuthorityFaulty,
                            "registration leaf inconsistent with the published root"@,
                        ),
                        RegistrationCheck::Accepted => match spec_prior_scan(
                            pp,
                            reg,
                            admitted,
                            openings,
                            pt.id,
                            r_ea,
                            board_index as nat,
                        ) {
                            Some(Verdict::Undetermined) => (
                                Verdict::Undetermined,
                                "the authority supplied fewer prior openings than the board requires"@,
                            ),
                            Some(Verdict::AuthorityFaulty) => (
                                Verdict::AuthorityFaulty,
                                "the stored opening of an earlier slot does not open its admitted commitment"@,
                            ),
                            Some(v) => (
                                v,
                                "ballot is valid but an earlier valid ballot for this voter counts first"@,
                            ),
                            None => match proof_status {
                                TallyProofStatus::Invalid => (
                                    Verdict::AuthorityFaulty,
                                    "valid first ballot, and the public tally proof does not verify"@,
                                ),
                                TallyProofStatus::Unavailable => (
                                    Verdict::Undetermined,
                                    "valid first ballot, but no tally proof was checked against the current statement; cannot conclude the ballot was counted"@,
                                ),
                                TallyProofStatus::Verified => (
                                    Verdict::NoAuthorityFault,
                                    "valid first ballot and a verifying tally proof: under proof soundness the ballot was counted; no authority fault"@,
                                ),
                            },
                        },
                    },
                }
            }
        },
    }
}

/// The judge's verdict.
pub open spec fn spec_judge_verdict(
    pp: PublicParams,
    reg: RegistrationState,
    admitted: AdmittedBoard,
    complaint: TalliedAsRecordedComplaint,
    nonce: Option<nat>,
    openings: AdmittedOpenings,
    proof_status: TallyProofStatus,
) -> Verdict {
    spec_judge_outcome(pp, reg, admitted, complaint, nonce, openings, proof_status).0
}

/// Adjudicate a tallied-as-recorded complaint: the commitment must be
/// admitted; the claimed opening must open it and parse, bind this
/// election, name a candidate and carry a valid signature; the ballot must
/// pass the same indexed-registration predicate as the tally (a fake nonce
/// fails here, privately); an earlier counted ballot of the same voter
/// makes the complaint unfounded; otherwise the verdict rests on the tally
/// proof.
pub fn judge_tallied_as_recorded(
    pp: &PublicParams,
    registration_state: &RegistrationState,
    admitted: &AdmittedBoard,
    complaint: &TalliedAsRecordedComplaint,
    evidence: &AuthorityEvidence<'_>,
) -> (r: JudgeReport)
    ensures
        (r.verdict, r.detail@) == spec_judge_outcome(
            *pp,
            *registration_state,
            *admitted,
            *complaint,
            spec_nonce(evidence.nonce_source),
            *evidence.openings,
            evidence.tally_proof,
        ),
        r.verdict == spec_judge_verdict(
            *pp,
            *registration_state,
            *admitted,
            *complaint,
            spec_nonce(evidence.nonce_source),
            *evidence.openings,
            evidence.tally_proof,
        ),
{
    let board_index = match com_position(&admitted.coms, complaint.com) {
        Some(i) => i,
        None => {
            return JudgeReport::new(
                Verdict::Undetermined,
                "commitment is not on the admitted board; file a recorded-as-cast dispute instead",
            );
        },
    };
    if complaint.opening.plaintext_fields.len() != 9 {
        return JudgeReport::new(Verdict::VoterFaulty, "malformed opening");
    }
    if !opening_opens(&complaint.com, &complaint.opening) {
        return JudgeReport::new(Verdict::VoterFaulty, "claimed opening does not open the ballot commitment");
    }
    let pt = match BallotPlaintext::from_fields(complaint.opening.plaintext_fields.as_slice()) {
        Ok(p) => p,
        Err(_) => return JudgeReport::new(Verdict::VoterFaulty, "malformed plaintext"),
    };
    proof {
        let f = complaint.opening.plaintext_fields@;
        assert(pt.spec_fields()[1] == vals(f)[1]);
        assert(pt.spec_fields()[4] == vals(f)[4]);
        assert(pt == spec_parse(f));
    }
    if pt.eid_hash != pp.eid_hash {
        return JudgeReport::new(Verdict::VoterFaulty, "wrong election id");
    }
    if !candidates_contain(&pp.candidates, pt.candidate) {
        return JudgeReport::new(Verdict::VoterFaulty, "invalid candidate");
    }
    let m = sig_msg_hash(pt.eid_hash, pt.id, pt.candidate, pt.r);
    if !verify(&pt.vk, m, &pt.sigma) {
        return JudgeReport::new(Verdict::VoterFaulty, "invalid signature");
    }
    let r_ea = match &evidence.nonce_source {
        NonceSource::Direct(v) => *v,
        NonceSource::ThresholdShares(shares) => match reconstruct(shares.as_slice()) {
            Ok(v) => v,
            Err(_) => {
                return JudgeReport::new(
                    Verdict::Undetermined,
                    "could not reconstruct authority nonce from shares",
                );
            },
        },
    };
    match registration_check(pp, registration_state, &pt, r_ea) {
        RegistrationCheck::Accepted => {},
        RegistrationCheck::NotRegistered => {
            return JudgeReport::new(Verdict::VoterFaulty, "voter id not a registered row");
        },
        RegistrationCheck::VkMismatch => {
            return JudgeReport::new(Verdict::VoterFaulty, "vk does not match registration row");
        },
        RegistrationCheck::NonceMismatch => {
            return JudgeReport::new(
                Verdict::VoterFaulty,
                "hidden nonce relation fails: claimed R is not the registered nonce",
            );
        },
        RegistrationCheck::LeafInconsistent => {
            return JudgeReport::new(
                Verdict::AuthorityFaulty,
                "registration leaf inconsistent with the published root",
            );
        },
    }
    match prior_scan(pp, registration_state, admitted, evidence.openings, board_index, pt.id, r_ea) {
        Some(Verdict::Undetermined) => {
            return JudgeReport::new(
                Verdict::Undetermined,
                "the authority supplied fewer prior openings than the board requires",
            );
        },
        Some(Verdict::AuthorityFaulty) => {
            return JudgeReport::new(
                Verdict::AuthorityFaulty,
                "the stored opening of an earlier slot does not open its admitted commitment",
            );
        },
        Some(_) => {
            return JudgeReport::new(
                Verdict::VoterFaulty,
                "ballot is valid but an earlier valid ballot for this voter counts first",
            );
        },
        None => {},
    }
    match evidence.tally_proof {
        TallyProofStatus::Invalid => JudgeReport::new(
            Verdict::AuthorityFaulty,
            "valid first ballot, and the public tally proof does not verify",
        ),
        TallyProofStatus::Unavailable => JudgeReport::new(
            Verdict::Undetermined,
            "valid first ballot, but no tally proof was checked against the current statement; cannot conclude the ballot was counted",
        ),
        TallyProofStatus::Verified => JudgeReport::new(
            Verdict::NoAuthorityFault,
            "valid first ballot and a verifying tally proof: under proof soundness the ballot was counted; no authority fault",
        ),
    }
}

/// A fake-nonce complaint cannot blame the authority: when the claimed
/// nonce fails the hidden nonce relation against the registered row, the
/// judge's verdict is `VoterFaulty`, and its released form is the same as
/// for any unfounded complaint.
pub proof fn lemma_fake_nonce_never_blames_authority(
    pp: PublicParams,
    reg: RegistrationState,
    admitted: AdmittedBoard,
    complaint: TalliedAsRecordedComplaint,
    r_ea: nat,
    openings: AdmittedOpenings,
    proof_status: TallyProofStatus,
)
    requires
        spec_com_position(admitted.coms@, complaint.com) is Some,
        spec_opens(complaint.com, complaint.opening),
        spec_parses(complaint.opening.plaintext_fields@),
        spec_registration_check(pp, reg, spec_parse(complaint.opening.plaintext_fields@), r_ea)
            == RegistrationCheck::NonceMismatch,
    ensures
        spec_judge_verdict(pp, reg, admitted, complaint, Some(r_ea), openings, proof_status)
            == Verdict::VoterFaulty,
{
}

} // verus!
