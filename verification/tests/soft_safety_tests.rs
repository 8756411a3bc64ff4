//! The tally stays total over admitted commitments: malformed openings are
//! soft-invalid, and the relation stays satisfiable.
#![allow(dead_code)]

use rand::SeedableRng;
use rand_chacha::ChaCha20Rng;

use cr_dr::protocol::admission::admitted_from_ballots;
use cr_dr::protocol::filter_and_tally::filter_and_tally;
use cr_dr::protocol::preprocessing::{finalize_registration, preprocess_voter, RegistrationState};
use cr_dr::protocol::setup::setup_election;
use cr_dr::types::{
    AuthoritySecretState, Ballot, DuplicateRule, ElectionConfig, InternalBallotEvaluation, PublicParams, TallyResult,
    VoterState,
};

use cr_dr::crypto::hash::sig_msg_hash;
use cr_dr::crypto::signature::{sign, VerificationKey};
use cr_dr::field::l_limbs;
use cr_dr::protocol::admission::{ea_admit_private, AdmittedOpenings, EaAdmissionState};
use cr_dr::protocol::bulletin_board::AdmittedBoard;
use cr_dr::protocol::chaff::chaff_ballot;
use cr_dr::protocol::fake_compliance::{build_fake_ballot, fake_compliance};
use cr_dr::protocol::vote::{cast_vote, seal_ballot};
use cr_dr::types::{BallotPlaintext, InternalBallotStatus, F};
use cr_dr::zk::mock_backend::relation_check_native;
use cr_dr::zk::small_shape;
use cr_dr::zk::statement::build_tally_statement;
use cr_dr::zk::witness::build_tally_witness;

const CANDIDATES: [u64; 3] = [0, 1, 2];

struct Env {
    pp: PublicParams,
    authority: AuthoritySecretState,
    reg: RegistrationState,
    voters: Vec<VoterState>,
    rng: ChaCha20Rng,
}

fn rng(seed: u64) -> ChaCha20Rng {
    ChaCha20Rng::seed_from_u64(seed)
}

fn config() -> ElectionConfig {
    ElectionConfig {
        eid: "test-election".into(),
        candidates: CANDIDATES.to_vec(),
        max_voters: 8,
        max_ballots: 16,
        merkle_depth: 4,
        duplicate_rule: DuplicateRule::FirstValidCounts,
        threshold_params: None,
    }
}

/// Standard small election: 6 registered voters (ids 0..6).
fn small_election(seed: u64) -> Env {
    let mut rng = rng(seed);
    let (pp, mut authority) = setup_election(config(), &mut rng).unwrap();
    let mut voters = Vec::new();
    let mut records = Vec::new();
    for id in 0..6u64 {
        let (vs, rec) = preprocess_voter(&pp, &mut authority, id, &mut rng).unwrap();
        voters.push(vs);
        records.push(rec);
    }
    let reg = finalize_registration(&pp, &records).unwrap();
    Env { pp, authority, reg, voters, rng }
}

/// FilterAndTally over a board of ballots (their public commitments and
/// the EA-side openings).
fn tally_ballots(
    env: &Env,
    ballots: &[Ballot],
) -> cr_dr::errors::Result<(TallyResult, Vec<InternalBallotEvaluation>)> {
    let (adm, opn) = admitted_from_ballots(ballots);
    filter_and_tally(&env.pp, &env.authority, &env.reg, &adm, &opn)
}

fn empty_admission_state() -> EaAdmissionState {
    EaAdmissionState { admitted: AdmittedBoard::new(), openings: AdmittedOpenings { openings: vec![] } }
}

/// The BabyJubJub subgroup order l as a field element.
fn subgroup_order_as_field() -> F {
    F::from_limbs(l_limbs()).unwrap()
}

/// An honestly signed plaintext for `voter`, before poisoning.
fn signed_plaintext(env: &Env, voter: &VoterState, candidate: u64, rng: &mut ChaCha20Rng) -> BallotPlaintext {
    let msg = sig_msg_hash(env.pp.eid_hash, voter.id, candidate, voter.r);
    BallotPlaintext { eid_hash: env.pp.eid_hash, id: voter.id, vk: voter.vk, candidate, r: voter.r, sigma: sign(&voter.sk, msg, rng) }
}

/// Board = [honest vote for candidate 0, poisoned ballot, chaff]. Asserts:
/// admission accepts the poisoned entry, the native tally classifies it
/// with `expected_status` (no hard error), the honest vote still counts,
/// and the native relation accepts the witness (the proof stays possible).
fn assert_no_dos(mut env: Env, poisoned: BallotPlaintext, expected_status: InternalBallotStatus) {
    let honest = cast_vote(&env.pp, &env.reg, &env.voters[1], 0, &mut env.rng).unwrap();
    let bad: Ballot = seal_ballot(&env.pp, &poisoned, &mut env.rng).unwrap();
    let chaff = chaff_ballot(&env.pp, &mut env.rng).unwrap();

    // The poisoned entry is admissible: its opening opens its commitment.
    let mut state = empty_admission_state();
    ea_admit_private(&env.pp, &env.authority, &mut state, bad.com, bad.secret.opening.clone(), 7, &mut env.rng)
        .expect("malformed-but-openable submissions are admitted");

    let ballots = vec![honest, bad, chaff];
    let (admitted, openings) = admitted_from_ballots(&ballots);

    let (tally, evals) = filter_and_tally(&env.pp, &env.authority, &env.reg, &admitted, &openings)
        .expect("tally must be total over admitted commitments");
    assert_eq!(evals[1].status, expected_status, "poisoned ballot status");
    assert_eq!(tally.counts, vec![1, 0, 0], "only the honest vote counts");

    let statement = build_tally_statement(&env.pp, &admitted, &env.reg, &tally);
    let witness = build_tally_witness(&env.pp, &env.authority, &env.reg, &admitted, &openings)
        .expect("witness construction must be total");
    assert!(
        relation_check_native(&statement, &witness, &small_shape()),
        "the tally proof must remain satisfiable with the poisoned entry on board"
    );
}

#[test]
fn off_curve_vk_does_not_dos_tally() {
    let env = small_election(90);
    let voter = env.voters[0].clone();
    let mut rng = env.rng.clone();
    let mut pt = signed_plaintext(&env, &voter, 1, &mut rng);
    pt.vk = VerificationKey { x: F::from_u64(1), y: F::from_u64(2) }; // off-curve
    assert_no_dos(env, pt, InternalBallotStatus::InvalidSignature);
}

#[test]
fn off_curve_sig_r_does_not_dos_tally() {
    let env = small_election(91);
    let voter = env.voters[0].clone();
    let mut rng = env.rng.clone();
    let mut pt = signed_plaintext(&env, &voter, 1, &mut rng);
    pt.sigma.rx = F::from_u64(1); // (1, 2) is not on BabyJubJub
    pt.sigma.ry = F::from_u64(2);
    assert_no_dos(env, pt, InternalBallotStatus::InvalidSignature);
}

#[test]
fn oversized_sig_s_does_not_dos_tally() {
    let env = small_election(92);
    let voter = env.voters[0].clone();
    let mut rng = env.rng.clone();
    let mut pt = signed_plaintext(&env, &voter, 1, &mut rng);
    pt.sigma.s = F::zero().sub(&F::from_u64(1)); // p-1: far above l
    assert_no_dos(env, pt, InternalBallotStatus::InvalidSignature);
}

#[test]
fn malleated_non_canonical_sig_s_does_not_dos_tally() {
    // s + l satisfies the curve equation and stays below 2^251, so a voter
    // could malleate her own valid signature into a non-canonical one.
    // Circuit and native verifier must both reject it.
    let env = small_election(93);
    let voter = env.voters[0].clone();
    let mut rng = env.rng.clone();
    let mut pt = signed_plaintext(&env, &voter, 1, &mut rng);
    pt.sigma.s = pt.sigma.s.add(&subgroup_order_as_field());
    assert_no_dos(env, pt, InternalBallotStatus::InvalidSignature);
}

#[test]
fn invalid_candidate_does_not_dos_tally() {
    let env = small_election(94);
    let voter = env.voters[0].clone();
    let mut rng = env.rng.clone();
    let pt = signed_plaintext(&env, &voter, 99, &mut rng); // 99 not in C
    assert_no_dos(env, pt, InternalBallotStatus::InvalidCandidate);
}

#[test]
fn fake_and_chaff_are_admitted_but_privately_rejected() {
    // Fake-compliance and chaff ballots pass admission and are rejected
    // only inside the private tally relation.
    let mut env = small_election(95);
    let coerced = env.voters[0].clone();
    let t = fake_compliance(&env.pp, &coerced, 2, &mut env.rng).unwrap();
    let fake = build_fake_ballot(&env.pp, &t, &mut env.rng).unwrap();
    let chaff = chaff_ballot(&env.pp, &mut env.rng).unwrap();
    let honest = cast_vote(&env.pp, &env.reg, &env.voters[1], 1, &mut env.rng).unwrap();

    let mut state = empty_admission_state();
    for b in [&fake, &chaff, &honest] {
        ea_admit_private(&env.pp, &env.authority, &mut state, b.com, b.secret.opening.clone(), 9, &mut env.rng)
            .expect("fake/chaff/honest all pass admission");
    }

    let (tally, evals) = filter_and_tally(&env.pp, &env.authority, &env.reg, &state.admitted, &state.openings).unwrap();
    assert_eq!(tally.counts, vec![0, 1, 0], "only the honest ballot counts");
    assert_ne!(evals[0].status, InternalBallotStatus::Counted, "fake rejected privately");
    assert_ne!(evals[1].status, InternalBallotStatus::Counted, "chaff rejected privately");
    assert_eq!(evals[2].status, InternalBallotStatus::Counted);

    let statement = build_tally_statement(&env.pp, &state.admitted, &env.reg, &tally);
    let witness = build_tally_witness(&env.pp, &env.authority, &env.reg, &state.admitted, &state.openings).unwrap();
    assert!(relation_check_native(&statement, &witness, &small_shape()));
}
