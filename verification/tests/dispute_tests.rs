//! Dispute resolution: recorded-as-cast on both admission paths and the
//! private tallied-as-recorded judge.
#![allow(dead_code)]

use rand::SeedableRng;
use rand_chacha::ChaCha20Rng;

use cr_dr::protocol::admission::admitted_from_ballots;
use cr_dr::protocol::filter_and_tally::filter_and_tally;
use cr_dr::protocol::preprocessing::{finalize_registration, preprocess_voter, RegistrationState};
use cr_dr::protocol::setup::setup_election;
use cr_dr::types::{
    AuthoritySecretState, Ballot, DuplicateRule, ElectionConfig, InternalBallotEvaluation, PublicParams, TallyResult,
    VoterState,
};

use cr_dr::disputes::judge::Verdict;
use cr_dr::disputes::recorded_as_cast::{
    adjudicate_admission_receipt, adjudicate_recorded_as_cast, check_direct, verify_receipt, SubmissionReceipt,
};
use cr_dr::disputes::tallied_as_recorded::{
    judge_tallied_as_recorded, AuthorityEvidence, NonceSource, TalliedAsRecordedComplaint, TallyProofStatus,
};
use cr_dr::protocol::admission::{ea_admit_private, AdmittedOpenings, EaAdmissionState};
use cr_dr::protocol::bulletin_board::{AdmittedBoard, BulletinBoard};
use cr_dr::protocol::fake_compliance::{build_fake_ballot, fake_compliance};
use cr_dr::protocol::vote::cast_vote;
use cr_dr::threshold::trusted_dealer::share_all_nonces;
use cr_dr::types::{f_to_dec, ThresholdParams, F};
use cr_dr::zk::cast::CastProof;

const CANDIDATES: [u64; 3] = [0, 1, 2];

struct Env {
    pp: PublicParams,
    authority: AuthoritySecretState,
    reg: RegistrationState,
    voters: Vec<VoterState>,
    rng: ChaCha20Rng,
}

fn rng(seed: u64) -> ChaCha20Rng {
    ChaCha20Rng::seed_from_u64(seed)
}

fn config() -> ElectionConfig {
    ElectionConfig {
        eid: "test-election".into(),
        candidates: CANDIDATES.to_vec(),
        max_voters: 8,
        max_ballots: 16,
        merkle_depth: 4,
        duplicate_rule: DuplicateRule::FirstValidCounts,
        threshold_params: None,
    }
}

/// Standard small election: 6 registered voters (ids 0..6).
fn small_election(seed: u64) -> Env {
    let mut rng = rng(seed);
    let (pp, mut authority) = setup_election(config(), &mut rng).unwrap();
    let mut voters = Vec::new();
    let mut records = Vec::new();
    for id in 0..6u64 {
        let (vs, rec) = preprocess_voter(&pp, &mut authority, id, &mut rng).unwrap();
        voters.push(vs);
        records.push(rec);
    }
    let reg = finalize_registration(&pp, &records).unwrap();
    Env { pp, authority, reg, voters, rng }
}

/// FilterAndTally over a board of ballots (their public commitments and
/// the EA-side openings).
fn tally_ballots(
    env: &Env,
    ballots: &[Ballot],
) -> cr_dr::errors::Result<(TallyResult, Vec<InternalBallotEvaluation>)> {
    let (adm, opn) = admitted_from_ballots(ballots);
    filter_and_tally(&env.pp, &env.authority, &env.reg, &adm, &opn)
}

fn empty_admission_state() -> EaAdmissionState {
    EaAdmissionState { admitted: AdmittedBoard::new(), openings: AdmittedOpenings { openings: vec![] } }
}

fn dummy_proof() -> CastProof {
    CastProof { proof: String::new(), public: vec![] }
}

#[test]
fn recorded_as_cast_succeeds_when_bytes_present() {
    let mut env = small_election(90);
    let ballot = cast_vote(&env.pp, &env.reg, &env.voters[0], 0, &mut env.rng).unwrap();
    let mut bb = BulletinBoard::new();
    bb.append(ballot.public());
    assert!(check_direct(&bb, &ballot.bytes()));

    // Adjudication needs more than byte presence: the accompanying pi_cast
    // must verify (cleaning drops proofless entries).
    let proofs = vec![Some(dummy_proof())];
    let report = adjudicate_recorded_as_cast(&env.pp, &bb, &proofs, &[true], &ballot.bytes()).unwrap();
    assert_eq!(report.verdict, Verdict::VoterFaulty); // present + admitted => unfounded
}

#[test]
fn recorded_as_cast_entry_without_verifying_proof_is_not_present() {
    // The entry bytes are on BB_raw but the proof is missing or fails, so
    // cleaning drops the entry: adjudication must not report it recorded.
    let mut env = small_election(89);
    let ballot = cast_vote(&env.pp, &env.reg, &env.voters[0], 0, &mut env.rng).unwrap();
    let mut bb = BulletinBoard::new();
    bb.append(ballot.public());

    // proof missing entirely
    let report = adjudicate_recorded_as_cast(&env.pp, &bb, &[None], &[true], &ballot.bytes()).unwrap();
    assert_eq!(report.verdict, Verdict::Undetermined);
    assert!(report.detail.contains("no verifying pi_cast"));

    // proof present but failing verification (tampered)
    let report = adjudicate_recorded_as_cast(&env.pp, &bb, &[Some(dummy_proof())], &[false], &ballot.bytes()).unwrap();
    assert_eq!(report.verdict, Verdict::Undetermined);
}

#[test]
fn recorded_as_cast_fails_when_absent_without_receipt() {
    let mut env = small_election(91);
    let ballot = cast_vote(&env.pp, &env.reg, &env.voters[0], 0, &mut env.rng).unwrap();
    let bb = BulletinBoard::new(); // ballot never posted
    assert!(!check_direct(&bb, &ballot.bytes()));
    let report = adjudicate_recorded_as_cast(&env.pp, &bb, &[], &[], &ballot.bytes()).unwrap();
    assert_eq!(report.verdict, Verdict::Undetermined);
    assert!(report.detail.contains("entry absent"));
}

#[test]
fn recorded_as_cast_rejects_mismatched_proof_list() {
    let mut env = small_election(88);
    let ballot = cast_vote(&env.pp, &env.reg, &env.voters[0], 0, &mut env.rng).unwrap();
    let mut bb = BulletinBoard::new();
    bb.append(ballot.public());
    assert!(adjudicate_recorded_as_cast(&env.pp, &bb, &[], &[], &ballot.bytes()).is_err());
}

#[test]
fn receipt_identifies_missing_admitted_commitment() {
    // Path 2: the EA admitted the commitment (receipt) but never posted it.
    let mut env = small_election(92);
    let ballot = cast_vote(&env.pp, &env.reg, &env.voters[0], 0, &mut env.rng).unwrap();
    let mut state = empty_admission_state();
    let receipt = ea_admit_private(
        &env.pp,
        &env.authority,
        &mut state,
        ballot.com,
        ballot.secret.opening.clone(),
        123456,
        &mut env.rng,
    )
    .unwrap();
    assert!(verify_receipt(&env.pp, &receipt));

    // EA posts an empty admitted board despite the receipt.
    let posted = AdmittedBoard::new();
    let report = adjudicate_admission_receipt(&env.pp, &posted, &receipt);
    assert_eq!(report.verdict, Verdict::AuthorityFaulty);

    // Honest posting: complaint unfounded.
    let report2 = adjudicate_admission_receipt(&env.pp, &state.admitted, &receipt);
    assert_eq!(report2.verdict, Verdict::VoterFaulty);
}

#[test]
fn fake_nonce_ballot_receives_identical_receipt() {
    // Path-2 admission checks only that the opening opens com, so a
    // fake-nonce ballot gets the same kind of receipt as a real one.
    let mut env = small_election(99);
    let coerced = env.voters[0].clone();
    let t = fake_compliance(&env.pp, &coerced, 2, &mut env.rng).unwrap();
    let fake = build_fake_ballot(&env.pp, &t, &mut env.rng).unwrap();
    let real = cast_vote(&env.pp, &env.reg, &coerced, 0, &mut env.rng).unwrap();

    let mut state = empty_admission_state();
    let r1 = ea_admit_private(&env.pp, &env.authority, &mut state, fake.com, fake.secret.opening.clone(), 7, &mut env.rng).unwrap();
    let r2 = ea_admit_private(&env.pp, &env.authority, &mut state, real.com, real.secret.opening.clone(), 7, &mut env.rng).unwrap();
    assert!(verify_receipt(&env.pp, &r1) && verify_receipt(&env.pp, &r2));
    assert!(state.admitted.contains(&fake.com) && state.admitted.contains(&real.com));
    // Structurally identical receipts: the same fields, the same election,
    // the same timestamp semantics.
    let SubmissionReceipt { eid_hash: e1, com: c1, timestamp: t1, sig: _ } = r1;
    let SubmissionReceipt { eid_hash: e2, com: c2, timestamp: t2, sig: _ } = r2;
    assert_eq!((e1, t1), (e2, t2));
    assert_eq!((c1, c2), (fake.com, real.com));
}

#[test]
fn judge_detects_fake_nonce_privately() {
    let mut env = small_election(93);
    let coerced = env.voters[0].clone();
    // The coercer files a dispute over the fake-compliance ballot.
    let t = fake_compliance(&env.pp, &coerced, 2, &mut env.rng).unwrap();
    let fake = build_fake_ballot(&env.pp, &t, &mut env.rng).unwrap();
    let (adm, opn) = admitted_from_ballots(&[fake.clone()]);

    let opening = fake.secret.opening.clone();
    let complaint = TalliedAsRecordedComplaint { com: fake.com, opening };
    let r_ea = env.authority.r_ea(coerced.id).unwrap();
    let evidence = AuthorityEvidence { nonce_source: NonceSource::Direct(r_ea), openings: &opn, tally_proof: TallyProofStatus::Verified };
    let report = judge_tallied_as_recorded(&env.pp, &env.reg, &adm, &complaint, &evidence);
    // The judge privately identifies the fake nonce...
    assert_eq!(report.verdict, Verdict::VoterFaulty);
    assert!(report.detail.contains("nonce"));
    // ...the externally releasable verdict is coarsened to NoAuthorityFault...
    assert_eq!(report.external_verdict(), Verdict::NoAuthorityFault);
    // ...and the report never contains R_EA,i itself.
    assert!(!format!("{report:?}").contains(&f_to_dec(&r_ea)));
}

#[test]
fn judge_accepts_valid_first_ballot_with_verifying_proof() {
    let mut env = small_election(94);
    let voter = env.voters[0].clone();
    let real = cast_vote(&env.pp, &env.reg, &voter, 0, &mut env.rng).unwrap();
    let (adm, opn) = admitted_from_ballots(&[real.clone()]);

    let opening = real.secret.opening.clone();
    let complaint = TalliedAsRecordedComplaint { com: real.com, opening };
    let evidence = AuthorityEvidence {
        nonce_source: NonceSource::Direct(env.authority.r_ea(voter.id).unwrap()),
        openings: &opn,
        tally_proof: TallyProofStatus::Verified,
    };
    let report = judge_tallied_as_recorded(&env.pp, &env.reg, &adm, &complaint, &evidence);
    assert_eq!(report.verdict, Verdict::NoAuthorityFault); // counted under proof soundness
}

#[test]
fn judge_blames_authority_when_tally_proof_fails() {
    let mut env = small_election(95);
    let voter = env.voters[0].clone();
    let real = cast_vote(&env.pp, &env.reg, &voter, 0, &mut env.rng).unwrap();
    let (adm, opn) = admitted_from_ballots(&[real.clone()]);

    let opening = real.secret.opening.clone();
    let complaint = TalliedAsRecordedComplaint { com: real.com, opening };
    let evidence = AuthorityEvidence {
        nonce_source: NonceSource::Direct(env.authority.r_ea(voter.id).unwrap()),
        openings: &opn,
        tally_proof: TallyProofStatus::Invalid,
    };
    let report = judge_tallied_as_recorded(&env.pp, &env.reg, &adm, &complaint, &evidence);
    assert_eq!(report.verdict, Verdict::AuthorityFaulty);
}

#[test]
fn judge_does_not_assume_missing_tally_proof_verifies() {
    // A valid first ballot with no checkable tally proof stays Undetermined.
    let mut env = small_election(98);
    let voter = env.voters[0].clone();
    let real = cast_vote(&env.pp, &env.reg, &voter, 0, &mut env.rng).unwrap();
    let (adm, opn) = admitted_from_ballots(&[real.clone()]);

    let opening = real.secret.opening.clone();
    let complaint = TalliedAsRecordedComplaint { com: real.com, opening };
    let evidence = AuthorityEvidence {
        nonce_source: NonceSource::Direct(env.authority.r_ea(voter.id).unwrap()),
        openings: &opn,
        tally_proof: TallyProofStatus::Unavailable,
    };
    let report = judge_tallied_as_recorded(&env.pp, &env.reg, &adm, &complaint, &evidence);
    assert_eq!(report.verdict, Verdict::Undetermined);
    assert!(report.detail.contains("no tally proof"));
}

#[test]
fn judge_works_with_threshold_share_reconstruction() {
    let mut env = small_election(96);
    share_all_nonces(&mut env.authority, ThresholdParams { t: 3, k: 5 }, &mut env.rng).unwrap();
    let voter = env.voters[0].clone();
    let real = cast_vote(&env.pp, &env.reg, &voter, 1, &mut env.rng).unwrap();
    let (adm, opn) = admitted_from_ballots(&[real.clone()]);

    // Judge receives t = 3 shares (not the nonce itself, and not from the voter).
    let shares = env.authority.voter_secrets[&voter.id].r_ea_shares[0..3].to_vec();
    let opening = real.secret.opening.clone();
    let complaint = TalliedAsRecordedComplaint { com: real.com, opening };
    let evidence = AuthorityEvidence {
        nonce_source: NonceSource::ThresholdShares(shares),
        openings: &opn,
        tally_proof: TallyProofStatus::Verified,
    };
    let report = judge_tallied_as_recorded(&env.pp, &env.reg, &adm, &complaint, &evidence);
    assert_eq!(report.verdict, Verdict::NoAuthorityFault); // valid + counted
}

#[test]
fn judge_rejects_fabricated_prior_opening() {
    // The judge recomputes the duplicate predicate from the openings store;
    // a wrong opening for a prior slot is caught by commitment binding.
    let mut env = small_election(101);
    let voter = env.voters[0].clone();
    let b1 = cast_vote(&env.pp, &env.reg, &voter, 0, &mut env.rng).unwrap();
    let b2 = cast_vote(&env.pp, &env.reg, &voter, 2, &mut env.rng).unwrap();
    let (adm, mut opn) = admitted_from_ballots(&[b1, b2.clone()]);
    // the authority substitutes garbage for the opening of slot 0
    opn.openings[0].rho = opn.openings[0].rho.add(&F::from_u64(1));

    let complaint = TalliedAsRecordedComplaint { com: b2.com, opening: b2.secret.opening.clone() };
    let evidence = AuthorityEvidence {
        nonce_source: NonceSource::Direct(env.authority.r_ea(voter.id).unwrap()),
        openings: &opn,
        tally_proof: TallyProofStatus::Verified,
    };
    let report = judge_tallied_as_recorded(&env.pp, &env.reg, &adm, &complaint, &evidence);
    assert_eq!(report.verdict, Verdict::AuthorityFaulty);
    assert!(report.detail.contains("does not open"));
}

#[test]
fn judge_flags_duplicate_complaints_correctly() {
    let mut env = small_election(97);
    let voter = env.voters[0].clone();
    let b1 = cast_vote(&env.pp, &env.reg, &voter, 0, &mut env.rng).unwrap();
    let b2 = cast_vote(&env.pp, &env.reg, &voter, 2, &mut env.rng).unwrap();
    let (adm, opn) = admitted_from_ballots(&[b1.clone(), b2.clone()]);

    let opening = b2.secret.opening.clone();
    let complaint = TalliedAsRecordedComplaint { com: b2.com, opening };
    let evidence = AuthorityEvidence {
        nonce_source: NonceSource::Direct(env.authority.r_ea(voter.id).unwrap()),
        openings: &opn,
        tally_proof: TallyProofStatus::Verified,
    };
    let report = judge_tallied_as_recorded(&env.pp, &env.reg, &adm, &complaint, &evidence);
    assert_eq!(report.verdict, Verdict::VoterFaulty);
    assert!(report.detail.contains("earlier valid ballot"));
}

#[test]
fn judge_sends_unadmitted_commitments_to_recorded_as_cast() {
    let mut env = small_election(100);
    let voter = env.voters[0].clone();
    let real = cast_vote(&env.pp, &env.reg, &voter, 0, &mut env.rng).unwrap();
    let adm = AdmittedBoard::new();
    let opn = AdmittedOpenings { openings: vec![] };
    let complaint = TalliedAsRecordedComplaint { com: real.com, opening: real.secret.opening.clone() };
    let evidence = AuthorityEvidence {
        nonce_source: NonceSource::Direct(env.authority.r_ea(voter.id).unwrap()),
        openings: &opn,
        tally_proof: TallyProofStatus::Verified,
    };
    let report = judge_tallied_as_recorded(&env.pp, &env.reg, &adm, &complaint, &evidence);
    assert_eq!(report.verdict, Verdict::Undetermined);
}

#[test]
fn judge_is_undetermined_when_prior_openings_are_missing() {
    // Fewer prior openings than the board needs is non-cooperation, not a
    // provable authority fault.
    let mut env = small_election(103);
    let voter = env.voters[0].clone();
    let b1 = cast_vote(&env.pp, &env.reg, &voter, 0, &mut env.rng).unwrap();
    let b2 = cast_vote(&env.pp, &env.reg, &voter, 2, &mut env.rng).unwrap();
    let (adm, mut opn) = admitted_from_ballots(&[b1, b2.clone()]);
    opn.openings.clear();

    let complaint = TalliedAsRecordedComplaint { com: b2.com, opening: b2.secret.opening.clone() };
    let evidence = AuthorityEvidence {
        nonce_source: NonceSource::Direct(env.authority.r_ea(voter.id).unwrap()),
        openings: &opn,
        tally_proof: TallyProofStatus::Verified,
    };
    let report = judge_tallied_as_recorded(&env.pp, &env.reg, &adm, &complaint, &evidence);
    assert_eq!(report.verdict, Verdict::Undetermined);
    assert!(report.detail.contains("fewer prior openings"));
}
