//! Recorded-as-cast dispute resolution, per admission path.
//!
//! Path 1 (public cast-ZK): the anonymous channel preserves exact entry
//! bytes, so a voter checks BB_raw membership by exact byte matching,
//! privately (exposing the matching entry would identify the real ballot).
//!
//! Path 2 (EA-mediated): on private submission the EA issues
//! receipt = Sign_EA(eid, com, timestamp). The receipt certifies submission
//! and admission only, so fake-nonce ballots carry receipts
//! indistinguishable from real ones. A receipted commitment absent from the
//! posted BB_adm is evidence against the EA.

use vstd::prelude::*;

use crate::crypto::encryption::spec_encodes;
use crate::crypto::hash::{poseidon3, poseidon_spec};
use crate::crypto::signature::{sign, spec_is_signature_with_nonce, spec_verify, verify, Signature};
use crate::disputes::judge::{JudgeReport, Verdict};
use crate::field::Fe;
use crate::errors::{msg, CrDrError, Result};
use crate::protocol::admission::spec_kept;
use crate::protocol::bulletin_board::{lemma_encoding_unique, slices_equal, AdmittedBoard, BulletinBoard};
use crate::zk::cast::CastProof;
use crate::types::{AuthoritySecretState, PublicParams};

verus! {

/// The bytes are exactly some entry of the raw board.
pub open spec fn spec_on_raw_board(bb: Seq<crate::types::PublicBallot>, bytes: Seq<u8>) -> bool {
    exists|i: int| 0 <= i < bb.len() && spec_encodes(bytes, #[trigger] bb[i].spec_fields())
}

/// Direct recorded-as-cast check (Path 1): exact entry bytes on BB_raw.
pub fn check_direct(bb: &BulletinBoard, ballot_bytes: &[u8]) -> (r: bool)
    ensures
        r == spec_on_raw_board(bb@, ballot_bytes@),
{
    bb.contains_exact_bytes(ballot_bytes)
}

/// EA admission receipt (Path 2): Sign_EA(eid_hash, com, timestamp).
#[derive(Debug, Clone, Copy, PartialEq, Eq, Structural)]
pub struct SubmissionReceipt {
    pub eid_hash: Fe,
    pub com: Fe,
    pub timestamp: u64,
    pub sig: Signature,
}

/// The signed receipt message: Poseidon(eid_hash, com, timestamp).
pub open spec fn spec_receipt_msg(eid_hash: nat, com: nat, timestamp: nat) -> nat {
    poseidon_spec(seq![eid_hash, com, timestamp])
}

fn receipt_msg(eid_hash: Fe, com: Fe, timestamp: u64) -> (r: Fe)
    ensures
        r@ == spec_receipt_msg(eid_hash@, com@, timestamp as nat),
{
    poseidon3(eid_hash, com, Fe::from_u64(timestamp))
}

/// The EA issues an admission receipt for a commitment it admitted: a
/// signature with the receipt key over (eid_hash, com, timestamp).
pub fn ea_issue_admission_receipt(
    pp: &PublicParams,
    authority_secret: &AuthoritySecretState,
    com: Fe,
    timestamp: u64,
    rng: &mut rand_chacha::ChaCha20Rng,
) -> (r: SubmissionReceipt)
    ensures
        r.eid_hash == pp.eid_hash,
        r.com == com,
        r.timestamp == timestamp,
        exists|k: nat|
            spec_is_signature_with_nonce(
                authority_secret.receipt_sk.0@,
                spec_receipt_msg(pp.eid_hash@, com@, timestamp as nat),
                r.sig,
                k,
            ),
{
    let msg = receipt_msg(pp.eid_hash, com, timestamp);
    let sig = sign(&authority_secret.receipt_sk, msg, rng);
    let ghost k = choose|k: nat| spec_is_signature_with_nonce(authority_secret.receipt_sk.0@, msg@, sig, k);
    let r = SubmissionReceipt { eid_hash: pp.eid_hash, com, timestamp, sig };
    assert(spec_is_signature_with_nonce(
        authority_secret.receipt_sk.0@,
        spec_receipt_msg(pp.eid_hash@, com@, timestamp as nat),
        r.sig,
        k,
    ));
    r
}

/// Whether a receipt is for this election and carries a valid EA
/// signature.
pub open spec fn spec_receipt_valid(pp: PublicParams, receipt: SubmissionReceipt) -> bool {
    &&& receipt.eid_hash == pp.eid_hash
    &&& spec_verify(
        pp.ea_receipt_vk.x@,
        pp.ea_receipt_vk.y@,
        spec_receipt_msg(receipt.eid_hash@, receipt.com@, receipt.timestamp as nat),
        receipt.sig.rx@,
        receipt.sig.ry@,
        receipt.sig.s@,
    )
}

/// Verify an EA receipt.
pub fn verify_receipt(pp: &PublicParams, receipt: &SubmissionReceipt) -> (r: bool)
    ensures
        r == spec_receipt_valid(*pp, *receipt),
{
    let msg = receipt_msg(receipt.eid_hash, receipt.com, receipt.timestamp);
    receipt.eid_hash == pp.eid_hash && verify(&pp.ea_receipt_vk, msg, &receipt.sig)
}

/// Path-2 adjudication: an invalid receipt, or a receipted commitment that
/// is on the admitted board, makes the complaint unfounded; a valid receipt
/// for a commitment missing from BB_adm is an authority fault (the EA posts
/// BB_adm in this model).
pub fn adjudicate_admission_receipt(pp: &PublicParams, admitted: &AdmittedBoard, receipt: &SubmissionReceipt) -> (r: JudgeReport)
    ensures
        r.verdict == if !spec_receipt_valid(*pp, *receipt) {
            Verdict::VoterFaulty
        } else if admitted.coms@.contains(receipt.com) {
            Verdict::VoterFaulty
        } else {
            Verdict::AuthorityFaulty
        },
        r.detail@ == if !spec_receipt_valid(*pp, *receipt) {
            "invalid EA receipt"@
        } else if admitted.coms@.contains(receipt.com) {
            "receipted commitment is on the admitted board; complaint unfounded"@
        } else {
            "EA receipted this commitment but did not post it to the admitted board"@
        },
{
    if !verify_receipt(pp, receipt) {
        return JudgeReport::new(Verdict::VoterFaulty, "invalid EA receipt");
    }
    if admitted.contains(&receipt.com) {
        return JudgeReport::new(
            Verdict::VoterFaulty,
            "receipted commitment is on the admitted board; complaint unfounded",
        );
    }
    JudgeReport::new(
        Verdict::AuthorityFaulty,
        "EA receipted this commitment but did not post it to the admitted board",
    )
}

/// The bytes are exactly some raw entry that cleaning keeps (an entry with
/// a verifying pi_cast), i.e. the entry was admitted.
pub open spec fn spec_admitted_copy(
    bb: Seq<crate::types::PublicBallot>,
    proofs: Seq<Option<CastProof>>,
    verdicts: Seq<bool>,
    bytes: Seq<u8>,
) -> bool {
    exists|i: int| 0 <= i < bb.len() && spec_encodes(bytes, #[trigger] bb[i].spec_fields()) && spec_kept(proofs, verdicts, i)
}

/// Path-1 adjudication over the raw board. BB_adm = Clean(BB_raw) is
/// publicly recomputable, so the judge checks admission, not mere byte
/// presence: `verdicts[i]` is the outcome of verifying `proofs[i]` against
/// raw entry i. An admitted copy of the entry makes the complaint
/// unfounded; otherwise nothing is decided (an entry without a verifying
/// proof is dropped by cleaning, and Path 1 has no receipts). Fails when
/// the proof or verdict list does not match the board.
pub fn adjudicate_recorded_as_cast(
    _pp: &PublicParams,
    bb: &BulletinBoard,
    proofs: &[Option<CastProof>],
    verdicts: &[bool],
    ballot_bytes: &[u8],
) -> (r: Result<JudgeReport>)
    ensures
        r is Ok <==> proofs@.len() == bb@.len() && verdicts@.len() == bb@.len(),
        r matches Err(e) ==> e is Crypto,
        r matches Ok(rep) ==> rep.verdict == if spec_admitted_copy(bb@, proofs@, verdicts@, ballot_bytes@) {
            Verdict::VoterFaulty
        } else {
            Verdict::Undetermined
        },
        r matches Ok(rep) ==> rep.detail@ == if spec_admitted_copy(bb@, proofs@, verdicts@, ballot_bytes@) {
            "entry bytes are on the raw board with a verifying pi_cast, so the entry is admitted; complaint unfounded"@
        } else if exists|i: int| 0 <= i < bb@.len() && spec_encodes(ballot_bytes@, #[trigger] bb@[i].spec_fields()) {
            "entry bytes are on the raw board but carry no verifying pi_cast, so cleaning drops them; no evidence either way"@
        } else {
            "entry absent and no admission receipt exists on this path; no evidence either way"@
        },
{
    if proofs.len() != bb.len() || verdicts.len() != bb.len() {
        return Err(CrDrError::Crypto(msg("raw board, proofs and verdicts differ in length")));
    }
    let entries = bb.list_public_ballots();
    let mut i: usize = 0;
    while i < entries.len()
        invariant
            entries@ == bb@,
            proofs@.len() == bb@.len(),
            verdicts@.len() == bb@.len(),
            i <= entries@.len(),
            forall|k: int|
                0 <= k < i ==> !(spec_encodes(ballot_bytes@, #[trigger] bb@[k].spec_fields()) && spec_kept(
                    proofs@,
                    verdicts@,
                    k,
                )),
        decreases entries@.len() - i,
    {
        let b = entries[i].bytes();
        let kept = proofs[i].is_some() && verdicts[i];
        if kept && slices_equal(b.as_slice(), ballot_bytes) {
            assert(spec_encodes(ballot_bytes@, bb@[i as int].spec_fields()));
            return Ok(JudgeReport::new(
                Verdict::VoterFaulty,
                "entry bytes are on the raw board with a verifying pi_cast, so the entry is admitted; complaint unfounded",
            ));
        }
        proof {
            if spec_encodes(ballot_bytes@, bb@[i as int].spec_fields()) {
                lemma_encoding_unique(b@, ballot_bytes@, bb@[i as int].spec_fields());
            }
        }
        i += 1;
    }
    if bb.contains_exact_bytes(ballot_bytes) {
        return Ok(JudgeReport::new(
            Verdict::Undetermined,
            "entry bytes are on the raw board but carry no verifying pi_cast, so cleaning drops them; no evidence either way",
        ));
    }
    Ok(JudgeReport::new(
        Verdict::Undetermined,
        "entry absent and no admission receipt exists on this path; no evidence either way",
    ))
}

} // verus!
