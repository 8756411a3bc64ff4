//! Exact FilterAndTally.
//!
//! Duplicate handling is applied only after a ballot has passed every
//! validity check: invalid ballots (fake-compliance, chaff, garbage) never
//! consume the voter's slot, so a fake ballot posted before the real one
//! cannot block it.
//!
//! Per board slot: open -> parse -> eid/candidate/signature -> indexed
//! registration-row check (the claimed id selects row Reg[id]; vk
//! equality; hidden nonce relation h = H_com(eid, id, vk, R, R_EA)) ->
//! record r_j = (valid_j, id_j, pos_j, m_j); then sorted-record duplicate
//! resolution and the tally.

use vstd::prelude::*;

use crate::crypto::encryption::EncOpening;
use crate::crypto::hash::{
    h_com, h_reg, sig_msg_hash, spec_h_com, spec_h_reg, spec_sig_msg_hash, vals,
};
use crate::crypto::merkle::{spec_verify_path, verify_path};
use crate::crypto::signature::{spec_verify, verify};
use crate::errors::{msg, CrDrError, Result};
use crate::field::{w64, Fe};
use crate::protocol::admission::{spec_opens, AdmittedOpenings};
use crate::protocol::bulletin_board::AdmittedBoard;
use crate::protocol::duplicates::{
    counted_flags_sorted, lemma_strategies_agree, positions_are_indices, spec_counted_naive,
    spec_counted_sorted, spec_tally_count, BallotRecord,
};
use crate::protocol::preprocessing::RegistrationState;
use crate::crypto::signature::{Signature, VerificationKey};
use crate::types::{
    spec_parses, AuthoritySecretState, BallotPlaintext, DuplicateRule, InternalBallotEvaluation,
    InternalBallotStatus, Nonce, PublicParams, TallyResult, PLAINTEXT_FIELD_LEN,
};

verus! {

/// The admitted commitment j has an opening in the store, and it opens it.
pub open spec fn spec_opening_ok(admitted: AdmittedBoard, openings: AdmittedOpenings, j: int) -> bool {
    &&& 0 <= j < admitted.coms@.len()
    &&& j < openings.openings@.len()
    &&& spec_opens(admitted.coms@[j], openings.openings@[j])
}

/// The opening of admitted commitment j, checked to open it. The tally
/// circuit hard-opens every commitment, so a missing or non-opening entry
/// is a hard error here, never a soft-invalid ballot.
pub fn opening_checked(admitted: &AdmittedBoard, openings: &AdmittedOpenings, j: usize) -> (r: Result<
    ([Fe; 9], Fe),
>)
    ensures
        r is Ok <==> spec_opening_ok(*admitted, *openings, j as int),
        r matches Err(e) ==> e is Crypto,
        r matches Ok((pt, rho)) ==> pt@ == openings.openings@[j as int].plaintext_fields@ && rho
            == openings.openings@[j as int].rho,
{
    if j >= admitted.coms.len() {
        return Err(CrDrError::Crypto(msg("admitted index out of range")));
    }
    if j >= openings.openings.len() {
        return Err(CrDrError::Crypto(msg("no opening for admitted index")));
    }
    let opening = &openings.openings[j];
    if !crate::protocol::admission::opening_opens(&admitted.coms[j], opening) {
        return Err(CrDrError::Crypto(
            msg("stored opening does not open the admitted commitment"),
        ));
    }
    let f = &opening.plaintext_fields;
    let pt: [Fe; 9] = [f[0], f[1], f[2], f[3], f[4], f[5], f[6], f[7], f[8]];
    assert(pt@ =~= f@);
    Ok((pt, opening.rho))
}

/// Outcome of the deterministic indexed registration check, shared by
/// FilterAndTally and the dispute judge.
#[derive(Debug, Clone, Copy, PartialEq, Eq, Structural)]
pub enum RegistrationCheck {
    Accepted,
    /// id is not a registered row index (out of range 0..N).
    NotRegistered,
    /// Row Reg[id] exists but its vk differs from the ballot's.
    VkMismatch,
    /// vk matches but h != H_com(eid, id, vk, R, R_EA): the claimed R is not
    /// the registered voter nonce.
    NonceMismatch,
    /// The nonce relation holds, but the row's leaf or Merkle path is
    /// inconsistent with the published root: an authority-side fault.
    LeafInconsistent,
}

/// The indexed-registration validity predicate (see `registration_check`).
pub open spec fn spec_registration_check(
    pp: PublicParams,
    reg: RegistrationState,
    pt: BallotPlaintext,
    r_ea: nat,
) -> RegistrationCheck {
    if pt.id >= reg.records@.len() {
        RegistrationCheck::NotRegistered
    } else {
        let rec = reg.records@[pt.id as int];
        if rec.vk != pt.vk {
            RegistrationCheck::VkMismatch
        } else if spec_h_com(pt.eid_hash@, pt.id as nat, pt.vk.x@, pt.vk.y@, pt.r@, r_ea) != rec.h@ {
            RegistrationCheck::NonceMismatch
        } else {
            let leaf = spec_h_reg(pp.eid_hash@, pt.id as nat, rec.vk.x@, rec.vk.y@, rec.h@);
            let path_ok = pt.id < reg.paths@.len() && spec_verify_path(
                reg.root@,
                leaf,
                vals(reg.paths@[pt.id as int].elements@),
                reg.paths@[pt.id as int].indices@,
            );
            if !path_ok || leaf != rec.leaf@ {
                RegistrationCheck::LeafInconsistent
            } else {
                RegistrationCheck::Accepted
            }
        }
    }
}

/// The indexed-registration validity predicate: fetch row Reg[pt.id] (the
/// identity determines the row), check vk equality, the hidden nonce
/// relation, and leaf/root consistency.
pub fn registration_check(
    pp: &PublicParams,
    registration_state: &RegistrationState,
    pt: &BallotPlaintext,
    r_ea: Nonce,
) -> (r: RegistrationCheck)
    ensures
        r == spec_registration_check(*pp, *registration_state, *pt, r_ea@),
{
    let num_voters = registration_state.num_voters();
    if pt.id >= num_voters as u64 {
        return RegistrationCheck::NotRegistered;
    }
    let record = match registration_state.record(pt.id) {
        Some(rec) => rec,
        None => return RegistrationCheck::NotRegistered,
    };
    if record.vk != pt.vk {
        return RegistrationCheck::VkMismatch;
    }
    let h = h_com(pt.eid_hash, pt.id, &pt.vk, pt.r, r_ea);
    if h != record.h {
        proof {
            Fe::lemma_eq_iff_view_eq(h, record.h);
        }
        return RegistrationCheck::NonceMismatch;
    }
    proof {
        Fe::lemma_eq_iff_view_eq(h, record.h);
    }
    let leaf = h_reg(pp.eid_hash, pt.id, &record.vk, record.h);
    let path_ok = match registration_state.path(pt.id) {
        Some(path) => verify_path(registration_state.root, leaf, path),
        None => false,
    };
    proof {
        Fe::lemma_eq_iff_view_eq(leaf, record.leaf);
    }
    if !path_ok || leaf != record.leaf {
        return RegistrationCheck::LeafInconsistent;
    }
    RegistrationCheck::Accepted
}

/// Validity verdict of a single ballot, before duplicate handling.
#[derive(Debug, Clone, Copy, PartialEq, Eq, Structural)]
pub enum BallotValidity {
    Valid,
    Invalid(InternalBallotStatus),
}

/// The plaintext a parseable field list decodes to.
pub open spec fn spec_parse(f: Seq<Fe>) -> BallotPlaintext {
    BallotPlaintext {
        eid_hash: f[0],
        id: f[1]@ as u64,
        vk: VerificationKey { x: f[2], y: f[3] },
        candidate: f[4]@ as u64,
        r: f[5],
        sigma: Signature { rx: f[6], ry: f[7], s: f[8] },
    }
}

/// i is the first index of c in s.
pub open spec fn is_first_index(s: Seq<u64>, c: u64, i: int) -> bool {
    &&& 0 <= i < s.len()
    &&& s[i] == c
    &&& forall|j: int| 0 <= j < i ==> s[j] != c
}

/// The position of the first occurrence of c in s.
pub open spec fn spec_position(s: Seq<u64>, c: u64) -> Option<usize> {
    if s.contains(c) {
        Some((choose|i: int| is_first_index(s, c, i)) as usize)
    } else {
        None
    }
}

/// The position of the first occurrence of `c` in `s`.
pub fn position_of(s: &Vec<u64>, c: u64) -> (r: Option<usize>)
    ensures
        r == spec_position(s@, c),
{
    let mut i: usize = 0;
    while i < s.len()
        invariant
            i <= s@.len(),
            forall|j: int| 0 <= j < i ==> s@[j] != c,
        decreases s@.len() - i,
    {
        if s[i] == c {
            proof {
                assert(is_first_index(s@, c, i as int));
                assert(s@.contains(c));
                let ch = choose|k: int| is_first_index(s@, c, k);
                assert(is_first_index(s@, c, ch));
                if ch < i {
                    assert(s@[ch] != c);
                }
                if ch > i {
                    assert(s@[i as int] != c);
                }
            }
            return Some(i);
        }
        i += 1;
    }
    proof {
        false_contains(s@, c);
    }
    None
}

proof fn false_contains(s: Seq<u64>, c: u64)
    requires
        forall|j: int| 0 <= j < s.len() ==> s[j] != c,
    ensures
        !s.contains(c),
{
}

/// Verdict and what was learned of a ballot: (validity, voter id,
/// candidate, candidate position).
pub type ValidityOutcome = (BallotValidity, Option<u64>, Option<u64>, Option<usize>);

/// The registration stage: with an authorized nonce for the claimed id,
/// the indexed registration check must pass; without one the id is not
/// registered.
pub open spec fn spec_registration_ok(
    pp: PublicParams,
    auth: AuthoritySecretState,
    reg: RegistrationState,
    pt: BallotPlaintext,
) -> bool {
    match auth.spec_r_ea(pt.id) {
        Some(r_ea) => spec_registration_check(pp, reg, pt, r_ea) == RegistrationCheck::Accepted,
        None => false,
    }
}

/// Stages (b)-(h) of one ballot given its opened plaintext fields.
pub open spec fn spec_validity(
    pp: PublicParams,
    auth: AuthoritySecretState,
    reg: RegistrationState,
    f: Seq<Fe>,
) -> ValidityOutcome {
    if !spec_parses(f) {
        (BallotValidity::Invalid(InternalBallotStatus::InvalidFormat), None, None, None)
    } else {
        let pt = spec_parse(f);
        let ids = (Some(pt.id), Some(pt.candidate));
        if pt.eid_hash != pp.eid_hash {
            (BallotValidity::Invalid(InternalBallotStatus::InvalidFormat), ids.0, ids.1, None)
        } else {
            match spec_position(pp.candidates@, pt.candidate) {
                None => (BallotValidity::Invalid(InternalBallotStatus::InvalidCandidate), ids.0, ids.1, None),
                Some(cp) => {
                    let m = spec_sig_msg_hash(pt.eid_hash@, pt.id as nat, pt.candidate as nat, pt.r@);
                    if !spec_verify(pt.vk.x@, pt.vk.y@, m, pt.sigma.rx@, pt.sigma.ry@, pt.sigma.s@) {
                        (
                            BallotValidity::Invalid(InternalBallotStatus::InvalidSignature),
                            ids.0,
                            ids.1,
                            Some(cp),
                        )
                    } else if !spec_registration_ok(pp, auth, reg, pt) {
                        (
                            BallotValidity::Invalid(InternalBallotStatus::InvalidRegistration),
                            ids.0,
                            ids.1,
                            Some(cp),
                        )
                    } else {
                        (BallotValidity::Valid, ids.0, ids.1, Some(cp))
                    }
                },
            }
        }
    }
}

proof fn lemma_parse_agrees(f: Seq<Fe>, pt: BallotPlaintext)
    requires
        spec_parses(f),
        pt.spec_fields() == vals(f),
        pt.eid_hash == f[0],
        pt.vk.x == f[2],
        pt.vk.y == f[3],
        pt.r == f[5],
        pt.sigma.rx == f[6],
        pt.sigma.ry == f[7],
        pt.sigma.s == f[8],
    ensures
        pt == spec_parse(f),
{
    assert(pt.spec_fields()[1] == vals(f)[1]);
    assert(pt.spec_fields()[4] == vals(f)[4]);
}

/// Stages (a)-(h) for board position `pos`: everything except duplicates.
/// Fails only when the stored opening does not open the commitment.
pub fn evaluate_ballot_validity(
    pp: &PublicParams,
    authority_secret: &AuthoritySecretState,
    registration_state: &RegistrationState,
    admitted: &AdmittedBoard,
    openings: &AdmittedOpenings,
    pos: usize,
) -> (r: Result<ValidityOutcome>)
    ensures
        r is Ok <==> spec_opening_ok(*admitted, *openings, pos as int),
        r matches Err(e) ==> e is Crypto,
        r matches Ok(o) ==> o == spec_validity(
            *pp,
            *authority_secret,
            *registration_state,
            openings.openings@[pos as int].plaintext_fields@,
        ),
{
    let (pt_fields, _r_com) = opening_checked(admitted, openings, pos)?;
    let pt = match BallotPlaintext::from_fields(&pt_fields) {
        Ok(p) => p,
        Err(_) => {
            return Ok((BallotValidity::Invalid(InternalBallotStatus::InvalidFormat), None, None, None));
        },
    };
    proof {
        lemma_parse_agrees(pt_fields@, pt);
    }
    let ids = (Some(pt.id), Some(pt.candidate));
    if pt.eid_hash != pp.eid_hash {
        return Ok((BallotValidity::Invalid(InternalBallotStatus::InvalidFormat), ids.0, ids.1, None));
    }
    let cand_pos = match position_of(&pp.candidates, pt.candidate) {
        Some(cp) => cp,
        None => {
            return Ok(
                (BallotValidity::Invalid(InternalBallotStatus::InvalidCandidate), ids.0, ids.1, None),
            );
        },
    };
    let m = sig_msg_hash(pt.eid_hash, pt.id, pt.candidate, pt.r);
    if !verify(&pt.vk, m, &pt.sigma) {
        return Ok(
            (
                BallotValidity::Invalid(InternalBallotStatus::InvalidSignature),
                ids.0,
                ids.1,
                Some(cand_pos),
            ),
        );
    }
    let reg = match authority_secret.r_ea(pt.id) {
        Ok(r_ea) => registration_check(pp, registration_state, &pt, r_ea),
        Err(_) => RegistrationCheck::NotRegistered,
    };
    if reg != RegistrationCheck::Accepted {
        return Ok(
            (
                BallotValidity::Invalid(InternalBallotStatus::InvalidRegistration),
                ids.0,
                ids.1,
                Some(cand_pos),
            ),
        );
    }
    Ok((BallotValidity::Valid, ids.0, ids.1, Some(cand_pos)))
}

/// The record a validity outcome emits at board position `pos`.
pub open spec fn spec_record_of(o: ValidityOutcome, pos: int) -> BallotRecord {
    let valid = o.0 == BallotValidity::Valid;
    BallotRecord {
        valid,
        id: if valid {
            match o.1 {
                Some(v) => v,
                None => 0,
            }
        } else {
            0
        },
        pos: pos as u64,
        cand_index: if valid {
            match o.3 {
                Some(c) => c as u64,
                None => 0,
            }
        } else {
            0
        },
    }
}

/// The outcome of every admitted ballot.
pub open spec fn spec_outcomes(
    pp: PublicParams,
    auth: AuthoritySecretState,
    reg: RegistrationState,
    openings: AdmittedOpenings,
) -> Seq<ValidityOutcome> {
    Seq::new(
        openings.openings@.len(),
        |j: int| spec_validity(pp, auth, reg, openings.openings@[j].plaintext_fields@),
    )
}

/// The records of every admitted ballot.
pub open spec fn spec_records(outcomes: Seq<ValidityOutcome>) -> Seq<BallotRecord> {
    Seq::new(outcomes.len(), |j: int| spec_record_of(outcomes[j], j))
}

/// The final internal status of a ballot given whether it is counted.
pub open spec fn spec_final_status(o: ValidityOutcome, counted: bool) -> InternalBallotStatus {
    match o.0 {
        BallotValidity::Valid => if counted {
            InternalBallotStatus::Counted
        } else {
            InternalBallotStatus::DuplicateValidBallot
        },
        BallotValidity::Invalid(s) => s,
    }
}

/// Number of the first n flags that are set.
pub open spec fn spec_num_counted(counted: Seq<bool>, n: nat) -> nat
    decreases n,
{
    if n == 0 {
        0
    } else {
        spec_num_counted(counted, (n - 1) as nat) + if counted[n - 1] {
            1nat
        } else {
            0nat
        }
    }
}

/// The first-valid-counts flags of the records.
pub open spec fn spec_counted_flags(records: Seq<BallotRecord>) -> Seq<bool> {
    Seq::new(records.len(), |j: int| spec_counted_naive(records, j))
}

/// Run FilterAndTally over the admitted board. Fails exactly when the board
/// and the openings store differ in length or some stored opening does not
/// open its commitment. Otherwise ballot j is counted exactly when it is
/// valid and no earlier ballot is a valid ballot of the same voter; the
/// tally counts the counted ballots per candidate. The per-ballot log is
/// internal and must never be published.
pub fn filter_and_tally(
    pp: &PublicParams,
    authority_secret: &AuthoritySecretState,
    registration_state: &RegistrationState,
    admitted: &AdmittedBoard,
    openings: &AdmittedOpenings,
) -> (r: Result<(TallyResult, Vec<InternalBallotEvaluation>)>)
    ensures
        r is Ok <==> admitted.coms@.len() == openings.openings@.len() && forall|j: int|
            0 <= j < admitted.coms@.len() ==> #[trigger] spec_opening_ok(*admitted, *openings, j),
        r matches Err(e) ==> e is Crypto,
        r matches Ok((tally, evals)) ==> {
            let outs = spec_outcomes(*pp, *authority_secret, *registration_state, *openings);
            let recs = spec_records(outs);
            let counted = spec_counted_flags(recs);
            &&& evals@.len() == outs.len()
            &&& forall|j: int|
                0 <= j < evals@.len() ==> {
                    &&& (#[trigger] evals@[j]).ballot_index == j
                    &&& evals@[j].status == spec_final_status(outs[j], counted[j])
                    &&& evals@[j].voter_id == outs[j].1
                    &&& evals@[j].candidate == outs[j].2
                }
            &&& tally.counts@.len() == pp.candidates@.len()
            &&& forall|c: int|
                0 <= c < tally.counts@.len() ==> #[trigger] tally.counts@[c] as nat == spec_tally_count(
                    recs,
                    counted,
                    c as nat,
                    recs.len(),
                )
            &&& tally.counted_ballots as nat == spec_num_counted(counted, recs.len())
        },
{
    if admitted.len() != openings.openings.len() {
        return Err(CrDrError::Crypto(msg("admitted board and openings store differ in length")));
    }
    let n = admitted.len();
    let ghost outs = spec_outcomes(*pp, *authority_secret, *registration_state, *openings);
    // Stage 1: per-ballot validity (no duplicate handling here).
    let mut statuses: Vec<ValidityOutcome> = Vec::new();
    let mut records: Vec<BallotRecord> = Vec::new();
    let mut pos: usize = 0;
    while pos < n
        invariant
            n == admitted.coms@.len(),
            n == openings.openings@.len(),
            outs == spec_outcomes(*pp, *authority_secret, *registration_state, *openings),
            pos <= n,
            statuses@.len() == pos,
            records@.len() == pos,
            forall|j: int| 0 <= j < pos ==> #[trigger] spec_opening_ok(*admitted, *openings, j),
            forall|j: int| 0 <= j < pos ==> #[trigger] statuses@[j] == outs[j],
            forall|j: int| 0 <= j < pos ==> #[trigger] records@[j] == spec_record_of(outs[j], j),
        decreases n - pos,
    {
        let outcome = match evaluate_ballot_validity(
            pp,
            authority_secret,
            registration_state,
            admitted,
            openings,
            pos,
        ) {
            Ok(o) => o,
            Err(e) => {
                proof {
                    assert(!spec_opening_ok(*admitted, *openings, pos as int));
                }
                return Err(e);
            },
        };
        let valid = outcome.0 == BallotValidity::Valid;
        let id = if valid {
            match outcome.1 {
                Some(v) => v,
                None => 0,
            }
        } else {
            0
        };
        let cand_index = if valid {
            match outcome.3 {
                Some(c) => c as u64,
                None => 0,
            }
        } else {
            0
        };
        records.push(BallotRecord { valid, id, pos: pos as u64, cand_index });
        statuses.push(outcome);
        pos += 1;
    }
    let ghost recs = spec_records(outs);
    assert(records@ =~= recs);
    // Stage 2: duplicates after validity (sorted-record strategy).
    let counted = match pp.duplicate_rule {
        DuplicateRule::FirstValidCounts => counted_flags_sorted(records.as_slice()),
    };
    let ghost flags = spec_counted_flags(recs);
    proof {
        assert(positions_are_indices(recs));
        assert forall|i: int| 0 <= i < n implies #[trigger] counted@[i] == flags[i] by {
            lemma_strategies_agree(recs, i);
        }
        assert(counted@ =~= flags);
    }
    // Stage 3: tally accumulation and the internal log.
    let num_cands = pp.candidates.len();
    let mut counts: Vec<u64> = Vec::new();
    let mut z: usize = 0;
    while z < num_cands
        invariant
            z <= num_cands,
            counts@.len() == z,
            forall|c: int| 0 <= c < z ==> #[trigger] counts@[c] == 0,
        decreases num_cands - z,
    {
        counts.push(0);
        z += 1;
    }
    let mut counted_ballots: u64 = 0;
    let mut evaluations: Vec<InternalBallotEvaluation> = Vec::new();
    let mut j: usize = 0;
    while j < n
        invariant
            n == outs.len(),
            n == recs.len(),
            recs == spec_records(outs),
            outs == spec_outcomes(*pp, *authority_secret, *registration_state, *openings),
            statuses@.len() == n,
            forall|k: int| 0 <= k < n ==> #[trigger] statuses@[k] == outs[k],
            counted@ == flags,
            flags == spec_counted_flags(recs),
            num_cands == pp.candidates@.len(),
            j <= n,
            counts@.len() == num_cands,
            forall|c: int|
                0 <= c < num_cands ==> #[trigger] counts@[c] as nat == spec_tally_count(
                    recs,
                    flags,
                    c as nat,
                    j as nat,
                ),
            forall|c: int| 0 <= c < num_cands ==> #[trigger] counts@[c] <= j,
            counted_ballots as nat == spec_num_counted(flags, j as nat),
            counted_ballots <= j,
            evaluations@.len() == j,
            forall|k: int|
                0 <= k < j ==> {
                    &&& (#[trigger] evaluations@[k]).ballot_index == k
                    &&& evaluations@[k].status == spec_final_status(outs[k], flags[k])
                    &&& evaluations@[k].voter_id == outs[k].1
                    &&& evaluations@[k].candidate == outs[k].2
                },
        decreases n - j,
    {
        let (validity, voter_id, candidate, cand_pos) = statuses[j];
        let status = match validity {
            BallotValidity::Valid => {
                if counted[j] {
                    let c = match cand_pos {
                        Some(c) => c,
                        None => 0,
                    };
                    proof {
                        lemma_valid_has_candidate(*pp, *authority_secret, *registration_state, openings.openings@[j as int].plaintext_fields@);
                        assert(recs[j as int].cand_index == c);
                    }
                    counts.set(c, counts[c] + 1);
                    counted_ballots += 1;
                    InternalBallotStatus::Counted
                } else {
                    InternalBallotStatus::DuplicateValidBallot
                }
            },
            BallotValidity::Invalid(s) => s,
        };
        evaluations.push(InternalBallotEvaluation { ballot_index: j, status, voter_id, candidate });
        proof {
            assert forall|c: int| 0 <= c < num_cands implies #[trigger] counts@[c] as nat
                == spec_tally_count(recs, flags, c as nat, (j + 1) as nat) by {
                if !(flags[j as int] && recs[j as int].cand_index == c) {
                }
            }
        }
        j += 1;
    }
    Ok((TallyResult { counts, counted_ballots }, evaluations))
}

/// An invalid verdict never carries the Counted or DuplicateValidBallot
/// status.
pub proof fn lemma_invalid_statuses(pp: PublicParams, auth: AuthoritySecretState, reg: RegistrationState, f: Seq<Fe>)
    ensures
        spec_validity(pp, auth, reg, f).0 != BallotValidity::Invalid(InternalBallotStatus::Counted),
        spec_validity(pp, auth, reg, f).0 != BallotValidity::Invalid(
            InternalBallotStatus::DuplicateValidBallot,
        ),
{
}

/// A valid ballot's candidate position is a position of the candidate list.
proof fn lemma_valid_has_candidate(
    pp: PublicParams,
    auth: AuthoritySecretState,
    reg: RegistrationState,
    f: Seq<Fe>,
)
    ensures
        spec_validity(pp, auth, reg, f).0 == BallotValidity::Valid ==> (spec_validity(
            pp,
            auth,
            reg,
            f,
        ).3 matches Some(cp) && cp < pp.candidates@.len()),
{
    if spec_parses(f) {
        let pt = spec_parse(f);
        if pp.candidates@.contains(pt.candidate) {
            let w = choose|i: int| 0 <= i < pp.candidates@.len() && pp.candidates@[i] == pt.candidate;
            lemma_first_index_exists(pp.candidates@, pt.candidate, w);
        }
    }
}

proof fn lemma_first_index_exists(s: Seq<u64>, c: u64, w: int)
    requires
        0 <= w < s.len(),
        s[w] == c,
    ensures
        exists|i: int| is_first_index(s, c, i),
    decreases w,
{
    if exists|j: int| 0 <= j < w && s[j] == c {
        let j = choose|j: int| 0 <= j < w && s[j] == c;
        lemma_first_index_exists(s, c, j);
    } else {
        assert(is_first_index(s, c, w));
    }
}

/// Judge-side mirror of the validity predicate for one claimed identity.
pub open spec fn spec_valid_for_id(pp: PublicParams, reg: RegistrationState, f: Seq<Fe>, id: u64, r_ea: nat) -> bool {
    &&& spec_parses(f)
    &&& spec_parse(f).id == id
    &&& spec_parse(f).eid_hash == pp.eid_hash
    &&& pp.candidates@.contains(spec_parse(f).candidate)
    &&& {
        let pt = spec_parse(f);
        spec_verify(
            pt.vk.x@,
            pt.vk.y@,
            spec_sig_msg_hash(pt.eid_hash@, pt.id as nat, pt.candidate as nat, pt.r@),
            pt.sigma.rx@,
            pt.sigma.ry@,
            pt.sigma.s@,
        )
    }
    &&& spec_registration_check(pp, reg, spec_parse(f), r_ea) == RegistrationCheck::Accepted
}

/// Is the opening at `pos` a valid ballot claiming voter `id`, under the
/// given authorized nonce for that id? Mirrors `evaluate_ballot_validity`
/// stage by stage. Fails when the opening does not open the admitted
/// commitment (an evidence inconsistency, never a property of the ballot).
pub fn ballot_is_valid_for_id(
    pp: &PublicParams,
    registration_state: &RegistrationState,
    admitted: &AdmittedBoard,
    openings: &AdmittedOpenings,
    pos: usize,
    id: u64,
    r_ea: Fe,
) -> (r: Result<bool>)
    ensures
        r is Ok <==> spec_opening_ok(*admitted, *openings, pos as int),
        r matches Err(e) ==> e is Crypto,
        r matches Ok(b) ==> b == spec_valid_for_id(
            *pp,
            *registration_state,
            openings.openings@[pos as int].plaintext_fields@,
            id,
            r_ea@,
        ),
{
    let (pt_fields, _r_com) = opening_checked(admitted, openings, pos)?;
    let pt = match BallotPlaintext::from_fields(&pt_fields) {
        Ok(p) => p,
        Err(_) => return Ok(false),
    };
    proof {
        lemma_parse_agrees(pt_fields@, pt);
    }
    if pt.id != id || pt.eid_hash != pp.eid_hash {
        return Ok(false);
    }
    if !crate::protocol::vote::candidates_contain(&pp.candidates, pt.candidate) {
        return Ok(false);
    }
    let m = sig_msg_hash(pt.eid_hash, pt.id, pt.candidate, pt.r);
    if !verify(&pt.vk, m, &pt.sigma) {
        return Ok(false);
    }
    Ok(registration_check(pp, registration_state, &pt, r_ea) == RegistrationCheck::Accepted)
}

/// The judge and the tally apply one validity predicate: for a ballot whose
/// claimed voter has an authorized nonce, the tally finds it valid exactly
/// when the judge's check for that voter and nonce does.
pub proof fn lemma_judge_agrees_with_tally(
    pp: PublicParams,
    auth: AuthoritySecretState,
    reg: RegistrationState,
    f: Seq<Fe>,
    r_ea: nat,
)
    requires
        spec_parses(f),
        auth.spec_r_ea(spec_parse(f).id) == Some(r_ea),
    ensures
        (spec_validity(pp, auth, reg, f).0 == BallotValidity::Valid) == spec_valid_for_id(
            pp,
            reg,
            f,
            spec_parse(f).id,
            r_ea,
        ),
{
    let pt = spec_parse(f);
    if pp.candidates@.contains(pt.candidate) {
        let w = choose|i: int| 0 <= i < pp.candidates@.len() && pp.candidates@[i] == pt.candidate;
        lemma_first_index_exists(pp.candidates@, pt.candidate, w);
    }
}

} // verus!
