//! FilterAndTally's validity classes.
#![allow(dead_code)]

use rand::SeedableRng;
use rand_chacha::ChaCha20Rng;

use cr_dr::protocol::admission::admitted_from_ballots;
use cr_dr::protocol::filter_and_tally::filter_and_tally;
use cr_dr::protocol::preprocessing::{finalize_registration, preprocess_voter, RegistrationState};
use cr_dr::protocol::setup::setup_election;
use cr_dr::types::{
    AuthoritySecretState, Ballot, DuplicateRule, ElectionConfig, InternalBallotEvaluation, PublicParams, TallyResult,
    VoterState,
};

use cr_dr::crypto::hash::sig_msg_hash;
use cr_dr::crypto::signature::sign;
use cr_dr::protocol::admission::AdmittedOpenings;
use cr_dr::protocol::bulletin_board::AdmittedBoard;
use cr_dr::protocol::vote::cast_vote;
use cr_dr::types::{BallotPlaintext, InternalBallotStatus, F};

const CANDIDATES: [u64; 3] = [0, 1, 2];

struct Env {
    pp: PublicParams,
    authority: AuthoritySecretState,
    reg: RegistrationState,
    voters: Vec<VoterState>,
    rng: ChaCha20Rng,
}

fn rng(seed: u64) -> ChaCha20Rng {
    ChaCha20Rng::seed_from_u64(seed)
}

fn config() -> ElectionConfig {
    ElectionConfig {
        eid: "test-election".into(),
        candidates: CANDIDATES.to_vec(),
        max_voters: 8,
        max_ballots: 16,
        merkle_depth: 4,
        duplicate_rule: DuplicateRule::FirstValidCounts,
        threshold_params: None,
    }
}

/// Standard small election: 6 registered voters (ids 0..6).
fn small_election(seed: u64) -> Env {
    let mut rng = rng(seed);
    let (pp, mut authority) = setup_election(config(), &mut rng).unwrap();
    let mut voters = Vec::new();
    let mut records = Vec::new();
    for id in 0..6u64 {
        let (vs, rec) = preprocess_voter(&pp, &mut authority, id, &mut rng).unwrap();
        voters.push(vs);
        records.push(rec);
    }
    let reg = finalize_registration(&pp, &records).unwrap();
    Env { pp, authority, reg, voters, rng }
}

/// FilterAndTally over a board of ballots (their public commitments and
/// the EA-side openings).
fn tally_ballots(
    env: &Env,
    ballots: &[Ballot],
) -> cr_dr::errors::Result<(TallyResult, Vec<InternalBallotEvaluation>)> {
    let (adm, opn) = admitted_from_ballots(ballots);
    filter_and_tally(&env.pp, &env.authority, &env.reg, &adm, &opn)
}

fn ballot_from_plaintext(pt: &BallotPlaintext, env: &Env, rng: &mut ChaCha20Rng) -> Ballot {
    cr_dr::protocol::vote::seal_ballot(&env.pp, pt, rng).unwrap()
}

fn signed_plaintext(env: &Env, voter: &VoterState, candidate: u64, r: F, rng: &mut ChaCha20Rng) -> BallotPlaintext {
    let msg = sig_msg_hash(env.pp.eid_hash, voter.id, candidate, r);
    BallotPlaintext { eid_hash: env.pp.eid_hash, id: voter.id, vk: voter.vk, candidate, r, sigma: sign(&voter.sk, msg, rng) }
}

#[test]
fn inconsistent_entry_is_a_hard_error_not_soft_invalid() {
    // An entry whose commitment the stored opening does not open cannot
    // exist on a verified board; tallying it is a hard error, never a
    // silent soft-invalid.
    let mut env = small_election(50);
    let ballot = cast_vote(&env.pp, &env.reg, &env.voters[0], 0, &mut env.rng).unwrap();
    let mut entry = ballot.public();
    entry.com = entry.com.add(&F::from_u64(1)); // com no longer matches the opening
    let admitted = AdmittedBoard { coms: vec![entry.com] };
    let openings = AdmittedOpenings { openings: vec![ballot.secret.opening.clone()] };
    assert!(filter_and_tally(&env.pp, &env.authority, &env.reg, &admitted, &openings).is_err());
}

#[test]
fn invalid_candidate_rejected() {
    let env = small_election(51);
    let voter = env.voters[0].clone();
    let mut rng = env.rng.clone();
    let pt = signed_plaintext(&env, &voter, 99, voter.r, &mut rng); // 99 not in C
    let ballot = ballot_from_plaintext(&pt, &env, &mut rng);
    let (_, evals) = tally_ballots(&env, &[ballot.clone()]).unwrap();
    assert_eq!(evals[0].status, InternalBallotStatus::InvalidCandidate);
}

#[test]
fn invalid_signature_rejected() {
    let env = small_election(52);
    let voter = env.voters[0].clone();
    let mut rng = env.rng.clone();
    let mut pt = signed_plaintext(&env, &voter, 1, voter.r, &mut rng);
    pt.sigma.s = pt.sigma.s.add(&F::from_u64(1)); // break the signature
    let ballot = ballot_from_plaintext(&pt, &env, &mut rng);
    let (_, evals) = tally_ballots(&env, &[ballot.clone()]).unwrap();
    assert_eq!(evals[0].status, InternalBallotStatus::InvalidSignature);
}

#[test]
fn signature_by_wrong_key_rejected() {
    let env = small_election(53);
    let voter0 = env.voters[0].clone();
    let voter1 = env.voters[1].clone();
    let mut rng = env.rng.clone();
    // voter1 signs, but the ballot claims voter0's identity/vk.
    let msg = sig_msg_hash(env.pp.eid_hash, voter0.id, 1, voter0.r);
    let pt = BallotPlaintext {
        eid_hash: env.pp.eid_hash,
        id: voter0.id,
        vk: voter0.vk,
        candidate: 1,
        r: voter0.r,
        sigma: sign(&voter1.sk, msg, &mut rng),
    };
    let ballot = ballot_from_plaintext(&pt, &env, &mut rng);
    let (_, evals) = tally_ballots(&env, &[ballot.clone()]).unwrap();
    assert_eq!(evals[0].status, InternalBallotStatus::InvalidSignature);
}

#[test]
fn wrong_nonce_rejected_as_invalid_registration() {
    let env = small_election(54);
    let voter = env.voters[0].clone();
    let mut rng = env.rng.clone();
    let wrong_r = F::random(&mut rng);
    let pt = signed_plaintext(&env, &voter, 1, wrong_r, &mut rng);
    let ballot = ballot_from_plaintext(&pt, &env, &mut rng);
    let (_, evals) = tally_ballots(&env, &[ballot.clone()]).unwrap();
    assert_eq!(evals[0].status, InternalBallotStatus::InvalidRegistration);
}

#[test]
fn wrong_eid_rejected_as_invalid_format() {
    let env = small_election(55);
    let voter = env.voters[0].clone();
    let mut rng = env.rng.clone();
    let mut pt = signed_plaintext(&env, &voter, 1, voter.r, &mut rng);
    pt.eid_hash = pt.eid_hash.add(&F::from_u64(1));
    let ballot = ballot_from_plaintext(&pt, &env, &mut rng);
    let (_, evals) = tally_ballots(&env, &[ballot.clone()]).unwrap();
    assert_eq!(evals[0].status, InternalBallotStatus::InvalidFormat);
}

#[test]
fn duplicate_valid_ballot_ignored() {
    let mut env = small_election(56);
    let voter = env.voters[0].clone();
    let b1 = cast_vote(&env.pp, &env.reg, &voter, 0, &mut env.rng).unwrap();
    let b2 = cast_vote(&env.pp, &env.reg, &voter, 2, &mut env.rng).unwrap();
    let (tally, evals) = tally_ballots(&env, &[b1.clone(), b2.clone()]).unwrap();
    assert_eq!(evals[0].status, InternalBallotStatus::Counted);
    assert_eq!(evals[1].status, InternalBallotStatus::DuplicateValidBallot);
    assert_eq!(tally.counts, vec![1, 0, 0]); // first valid counts
}

#[test]
fn empty_board_gives_zero_tally() {
    let env = small_election(57);
    let admitted = AdmittedBoard { coms: vec![] };
    let openings = AdmittedOpenings { openings: vec![] };
    let (tally, evals) = filter_and_tally(&env.pp, &env.authority, &env.reg, &admitted, &openings).unwrap();
    assert_eq!(tally.counts, vec![0, 0, 0]);
    assert!(evals.is_empty());
}
