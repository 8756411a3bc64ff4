//! Ballot admission: how commitments get onto the admitted board BB_adm
//! that the tally processes. Two paths, never mixed implicitly.
//!
//! Path 1 (public anonymous cast-ZK): voters post raw entries
//! (com, ct_open, pi_cast) anonymously; anyone recomputes
//! BB_adm = Clean(BB_raw), keeping exactly the entries whose pi_cast
//! verifies. pi_cast attests casting well-formedness only, so fake and
//! chaff entries are admitted and rejected later inside the private tally.
//! The EA obtains the openings by decrypting each admitted ct_open.
//!
//! Path 2 (EA-mediated private submission): the voter privately sends
//! (com, opening); the EA checks only that the opening opens com, admits
//! com and returns a receipt that certifies admission only.

use vstd::prelude::*;

use crate::crypto::encryption::{cast_decrypt, spec_cast_decrypt, spec_decryptable, EncOpening};
use crate::crypto::hash::{ct_commit, spec_ct_commit, vals};
use crate::disputes::recorded_as_cast::{
    ea_issue_admission_receipt, spec_receipt_msg, SubmissionReceipt,
};
use crate::crypto::signature::spec_is_signature_with_nonce;
use crate::errors::{msg, CrDrError, Result};
use crate::field::Fe;
use crate::protocol::bulletin_board::{AdmittedBoard, BulletinBoard};
use crate::types::{AuthoritySecretState, Ballot, PublicBallot, PublicParams, PLAINTEXT_FIELD_LEN};
use crate::zk::cast::CastProof;

verus! {

/// EA-private openings of the admitted commitments, aligned with BB_adm:
/// `openings[j]` opens `admitted.coms[j]`. Never published.
#[derive(Debug, Clone)]
pub struct AdmittedOpenings {
    pub openings: Vec<EncOpening>,
}

/// The opening has nine plaintext fields and opens the commitment.
pub open spec fn spec_opens(com: Fe, opening: EncOpening) -> bool {
    &&& opening.plaintext_fields@.len() == PLAINTEXT_FIELD_LEN
    &&& spec_ct_commit(vals(opening.plaintext_fields@), opening.rho@) == com@
}

/// Whether the opening opens the commitment.
pub fn opening_opens(com: &Fe, opening: &EncOpening) -> (r: bool)
    ensures
        r == spec_opens(*com, *opening),
{
    if opening.plaintext_fields.len() != PLAINTEXT_FIELD_LEN {
        return false;
    }
    let c = ct_commit(opening.plaintext_fields.as_slice(), opening.rho);
    proof {
        Fe::lemma_eq_iff_view_eq(c, *com);
    }
    c == *com
}

/// Entry i survives cleaning: it carries a proof, and that proof verified.
pub open spec fn spec_kept(proofs: Seq<Option<CastProof>>, verdicts: Seq<bool>, i: int) -> bool {
    proofs[i] is Some && verdicts[i]
}

/// The raw-board indices that survive cleaning, in board order.
pub open spec fn spec_clean_indices(proofs: Seq<Option<CastProof>>, verdicts: Seq<bool>, n: nat) -> Seq<
    usize,
>
    decreases n,
{
    if n == 0 {
        Seq::empty()
    } else {
        let prev = spec_clean_indices(proofs, verdicts, (n - 1) as nat);
        if spec_kept(proofs, verdicts, n - 1) {
            prev.push((n - 1) as usize)
        } else {
            prev
        }
    }
}

/// Public cleaning: BB_adm = Clean(BB_raw). `verdicts[i]` is the outcome of
/// verifying `proofs[i]` against entry i (ignored where there is no
/// proof). Keeps exactly the entries with a verified proof and returns the
/// admitted board and the raw-board index of every admitted entry. Fails
/// when the proof or verdict list does not match the board.
pub fn clean(raw: &BulletinBoard, proofs: &[Option<CastProof>], verdicts: &[bool]) -> (r: Result<
    (AdmittedBoard, Vec<usize>),
>)
    ensures
        r is Ok <==> proofs@.len() == raw@.len() && verdicts@.len() == raw@.len(),
        r matches Err(e) ==> e is Crypto,
        r matches Ok((adm, idx)) ==> {
            &&& idx@ == spec_clean_indices(proofs@, verdicts@, raw@.len())
            &&& adm.coms@.len() == idx@.len()
            &&& forall|k: int| 0 <= k < idx@.len() ==> #[trigger] adm.coms@[k] == raw@[idx@[k] as int].com
        },
{
    if proofs.len() != raw.len() || verdicts.len() != raw.len() {
        return Err(CrDrError::Crypto(msg("raw board, proofs and verdicts differ in length")));
    }
    let entries = raw.list_public_ballots();
    let mut admitted = AdmittedBoard::new();
    let mut indices: Vec<usize> = Vec::new();
    let mut i: usize = 0;
    while i < entries.len()
        invariant
            entries@ == raw@,
            proofs@.len() == raw@.len(),
            verdicts@.len() == raw@.len(),
            i <= raw@.len(),
            indices@ == spec_clean_indices(proofs@, verdicts@, i as nat),
            admitted.coms@.len() == indices@.len(),
            forall|k: int| 0 <= k < indices@.len() ==> indices@[k] < i,
            forall|k: int| 0 <= k < indices@.len() ==> #[trigger] admitted.coms@[k] == raw@[indices@[k] as int].com,
        decreases raw@.len() - i,
    {
        let ok = match &proofs[i] {
            Some(_) => verdicts[i],
            None => false,
        };
        if ok {
            admitted.coms.push(entries[i].com);
            indices.push(i);
        }
        i += 1;
    }
    Ok((admitted, indices))
}

/// The opening the EA obtains by decrypting a cast ciphertext: the first
/// nine fields and r_com.
pub open spec fn spec_decrypted_fields(sk: nat, entry: PublicBallot) -> Seq<nat> {
    spec_cast_decrypt(sk, entry.ct_open)
}

/// The EA can decrypt the entry, and the decrypted opening opens its
/// commitment.
pub open spec fn spec_entry_opens(sk: nat, entry: PublicBallot) -> bool {
    let d = spec_decrypted_fields(sk, entry);
    &&& spec_decryptable(entry.ct_open)
    &&& spec_ct_commit(d.subrange(0, PLAINTEXT_FIELD_LEN as int), d[PLAINTEXT_FIELD_LEN as int]) == entry.com@
}

/// Path-1 EA step: decrypt the admitted entries' ct_opens into the private
/// openings store. Fails on an index off the board, an undecryptable entry,
/// or a decryption that does not open the commitment (impossible when its
/// pi_cast verified).
pub fn ea_open_admitted(
    authority_secret: &AuthoritySecretState,
    raw: &BulletinBoard,
    admitted_indices: &[usize],
) -> (r: Result<AdmittedOpenings>)
    ensures
        r is Ok <==> forall|k: int|
            0 <= k < admitted_indices@.len() ==> #[trigger] admitted_indices@[k] < raw@.len()
                && spec_entry_opens(authority_secret.sk_ea.0@, raw@[admitted_indices@[k] as int]),
        r matches Ok(o) ==> {
            &&& o.openings@.len() == admitted_indices@.len()
            &&& forall|k: int|
                0 <= k < o.openings@.len() ==> {
                    let d = spec_decrypted_fields(authority_secret.sk_ea.0@, raw@[admitted_indices@[k] as int]);
                    &&& vals(#[trigger] o.openings@[k].plaintext_fields@) == d.subrange(0, PLAINTEXT_FIELD_LEN as int)
                    &&& o.openings@[k].rho@ == d[PLAINTEXT_FIELD_LEN as int]
                    &&& spec_opens(raw@[admitted_indices@[k] as int].com, o.openings@[k])
                }
        },
{
    let entries = raw.list_public_ballots();
    let mut openings: Vec<EncOpening> = Vec::new();
    let mut k: usize = 0;
    while k < admitted_indices.len()
        invariant
            entries@ == raw@,
            k <= admitted_indices@.len(),
            openings@.len() == k,
            forall|m: int|
                0 <= m < k ==> #[trigger] admitted_indices@[m] < raw@.len() && spec_entry_opens(
                    authority_secret.sk_ea.0@,
                    raw@[admitted_indices@[m] as int],
                ),
            forall|m: int|
                0 <= m < k ==> {
                    let d = spec_decrypted_fields(authority_secret.sk_ea.0@, raw@[admitted_indices@[m] as int]);
                    &&& vals(#[trigger] openings@[m].plaintext_fields@) == d.subrange(0, PLAINTEXT_FIELD_LEN as int)
                    &&& openings@[m].rho@ == d[PLAINTEXT_FIELD_LEN as int]
                    &&& spec_opens(raw@[admitted_indices@[m] as int].com, openings@[m])
                },
        decreases admitted_indices@.len() - k,
    {
        let i = admitted_indices[k];
        if i >= entries.len() {
            return Err(CrDrError::Crypto(msg("admitted index out of range")));
        }
        let entry = &entries[i];
        let fields = match cast_decrypt(&authority_secret.sk_ea, &entry.ct_open) {
            Ok(f) => f,
            Err(e) => return Err(e),
        };
        assert(vals(fields@).len() == fields@.len());
        let mut pf: Vec<Fe> = Vec::new();
        let mut j: usize = 0;
        while j < PLAINTEXT_FIELD_LEN
            invariant
                fields@.len() == 10,
                j <= PLAINTEXT_FIELD_LEN,
                pf@ == fields@.subrange(0, j as int),
            decreases PLAINTEXT_FIELD_LEN - j,
        {
            pf.push(fields[j]);
            j += 1;
        }
        let opening = EncOpening { plaintext_fields: pf, rho: fields[PLAINTEXT_FIELD_LEN] };
        proof {
            assert(vals(opening.plaintext_fields@) =~= vals(fields@).subrange(0, PLAINTEXT_FIELD_LEN as int));
        }
        if !opening_opens(&entry.com, &opening) {
            return Err(CrDrError::Crypto(msg("decrypted opening does not open com")));
        }
        openings.push(opening);
        k += 1;
    }
    Ok(AdmittedOpenings { openings })
}

/// The EA's Path-2 admission state: the admitted board it will post and
/// the private openings.
#[derive(Debug, Clone)]
pub struct EaAdmissionState {
    pub admitted: AdmittedBoard,
    pub openings: AdmittedOpenings,
}

/// Path-2 admission: the EA checks only that the opening opens com (no
/// nonce, registration or candidate check), appends com and the opening to
/// its state and returns a receipt for com. Fake-nonce ballots receive the
/// same kind of receipt as real ones.
pub fn ea_admit_private(
    pp: &PublicParams,
    authority_secret: &AuthoritySecretState,
    state: &mut EaAdmissionState,
    com: Fe,
    opening: EncOpening,
    timestamp: u64,
    rng: &mut rand_chacha::ChaCha20Rng,
) -> (r: Result<SubmissionReceipt>)
    ensures
        r is Ok <==> spec_opens(com, opening),
        r matches Err(e) ==> e is Crypto && final(state).admitted.coms@ == old(state).admitted.coms@
            && final(state).openings.openings@ == old(state).openings.openings@,
        r matches Ok(receipt) ==> {
            &&& final(state).admitted.coms@ == old(state).admitted.coms@.push(com)
            &&& final(state).openings.openings@ == old(state).openings.openings@.push(opening)
            &&& receipt.eid_hash == pp.eid_hash
            &&& receipt.com == com
            &&& receipt.timestamp == timestamp
            &&& exists|k: nat|
                spec_is_signature_with_nonce(
                    authority_secret.receipt_sk.0@,
                    spec_receipt_msg(pp.eid_hash@, com@, timestamp as nat),
                    receipt.sig,
                    k,
                )
        },
{
    if !opening_opens(&com, &opening) {
        return Err(CrDrError::Crypto(msg("submission rejected: opening does not open com")));
    }
    state.admitted.coms.push(com);
    state.openings.openings.push(opening);
    Ok(ea_issue_admission_receipt(pp, authority_secret, com, timestamp, rng))
}

/// Build (BB_adm, openings) directly from voter-side ballots: an already
/// admitted board, for tests and benchmarks that do not exercise an
/// admission path.
pub fn admitted_from_ballots(ballots: &[Ballot]) -> (r: (AdmittedBoard, AdmittedOpenings))
    ensures
        r.0.coms@.len() == ballots@.len(),
        r.1.openings@.len() == ballots@.len(),
        forall|j: int|
            0 <= j < ballots@.len() ==> #[trigger] r.0.coms@[j] == ballots@[j].com
                && r.1.openings@[j].plaintext_fields@ == ballots@[j].secret.opening.plaintext_fields@
                && r.1.openings@[j].rho == ballots@[j].secret.opening.rho,
{
    let mut coms: Vec<Fe> = Vec::new();
    let mut openings: Vec<EncOpening> = Vec::new();
    let mut j: usize = 0;
    while j < ballots.len()
        invariant
            j <= ballots@.len(),
            coms@.len() == j,
            openings@.len() == j,
            forall|m: int|
                0 <= m < j ==> #[trigger] coms@[m] == ballots@[m].com
                    && openings@[m].plaintext_fields@ == ballots@[m].secret.opening.plaintext_fields@
                    && openings@[m].rho == ballots@[m].secret.opening.rho,
        decreases ballots@.len() - j,
    {
        coms.push(ballots[j].com);
        openings.push(ballots[j].secret.opening.duplicate());
        j += 1;
    }
    (AdmittedBoard { coms }, AdmittedOpenings { openings })
}

} // verus!
