//! Fake compliance toward a coercer.
#![allow(dead_code)]

use rand::SeedableRng;
use rand_chacha::ChaCha20Rng;

use cr_dr::protocol::admission::admitted_from_ballots;
use cr_dr::protocol::filter_and_tally::filter_and_tally;
use cr_dr::protocol::preprocessing::{finalize_registration, preprocess_voter, RegistrationState};
use cr_dr::protocol::setup::setup_election;
use cr_dr::types::{
    AuthoritySecretState, Ballot, DuplicateRule, ElectionConfig, InternalBallotEvaluation, PublicParams, TallyResult,
    VoterState,
};

use cr_dr::crypto::hash::sig_msg_hash;
use cr_dr::crypto::signature::verify;
use cr_dr::protocol::fake_compliance::{build_fake_ballot, fake_compliance};
use cr_dr::protocol::vote::cast_vote;
use cr_dr::types::InternalBallotStatus;

const CANDIDATES: [u64; 3] = [0, 1, 2];

struct Env {
    pp: PublicParams,
    authority: AuthoritySecretState,
    reg: RegistrationState,
    voters: Vec<VoterState>,
    rng: ChaCha20Rng,
}

fn rng(seed: u64) -> ChaCha20Rng {
    ChaCha20Rng::seed_from_u64(seed)
}

fn config() -> ElectionConfig {
    ElectionConfig {
        eid: "test-election".into(),
        candidates: CANDIDATES.to_vec(),
        max_voters: 8,
        max_ballots: 16,
        merkle_depth: 4,
        duplicate_rule: DuplicateRule::FirstValidCounts,
        threshold_params: None,
    }
}

/// Standard small election: 6 registered voters (ids 0..6).
fn small_election(seed: u64) -> Env {
    let mut rng = rng(seed);
    let (pp, mut authority) = setup_election(config(), &mut rng).unwrap();
    let mut voters = Vec::new();
    let mut records = Vec::new();
    for id in 0..6u64 {
        let (vs, rec) = preprocess_voter(&pp, &mut authority, id, &mut rng).unwrap();
        voters.push(vs);
        records.push(rec);
    }
    let reg = finalize_registration(&pp, &records).unwrap();
    Env { pp, authority, reg, voters, rng }
}

/// FilterAndTally over a board of ballots (their public commitments and
/// the EA-side openings).
fn tally_ballots(
    env: &Env,
    ballots: &[Ballot],
) -> cr_dr::errors::Result<(TallyResult, Vec<InternalBallotEvaluation>)> {
    let (adm, opn) = admitted_from_ballots(ballots);
    filter_and_tally(&env.pp, &env.authority, &env.reg, &adm, &opn)
}

#[test]
fn fake_ballot_signature_verifies_for_the_coercer() {
    // The coercer holds the transcript (sk, vk, R~, m*, sigma~) and can run
    // exactly the public signature check — it passes.
    let mut env = small_election(30);
    let t = fake_compliance(&env.pp, &env.voters[0], 2, &mut env.rng).unwrap();
    let msg = sig_msg_hash(env.pp.eid_hash, t.voter_id, t.requested_candidate, t.r_fake);
    assert!(verify(&t.vk, msg, &t.sigma_fake));
    // And the fake nonce is not the real one.
    assert_ne!(t.r_fake, env.voters[0].r);
}

#[test]
fn fake_ballot_is_rejected_by_filter_and_tally() {
    let mut env = small_election(31);
    let t = fake_compliance(&env.pp, &env.voters[0], 2, &mut env.rng).unwrap();
    let fake = build_fake_ballot(&env.pp, &t, &mut env.rng).unwrap();
    let (tally, evals) = tally_ballots(&env, &[fake.clone()]).unwrap();
    assert_eq!(tally.counts, vec![0, 0, 0]);
    // It fails exactly at the hidden nonce / registration relation.
    assert_eq!(evals[0].status, InternalBallotStatus::InvalidRegistration);
}

#[test]
fn fake_ballot_before_real_ballot_does_not_block_the_real_one() {
    // Duplicate handling only after validity.
    let mut env = small_election(32);
    let voter = env.voters[0].clone();
    let t = fake_compliance(&env.pp, &voter, 2, &mut env.rng).unwrap();
    let fake = build_fake_ballot(&env.pp, &t, &mut env.rng).unwrap();
    let real = cast_vote(&env.pp, &env.reg, &voter, 0, &mut env.rng).unwrap();

    let (tally, evals) = tally_ballots(&env, &[fake.clone(), real.clone()]).unwrap();
    assert_eq!(evals[0].status, InternalBallotStatus::InvalidRegistration);
    assert_eq!(evals[1].status, InternalBallotStatus::Counted);
    // The real vote (candidate 0) counts; the coerced choice (2) does not.
    assert_eq!(tally.counts, vec![1, 0, 0]);
}

#[test]
fn fake_and_real_ballots_have_identical_public_shape() {
    let mut env = small_election(33);
    let voter = env.voters[0].clone();
    let t = fake_compliance(&env.pp, &voter, 2, &mut env.rng).unwrap();
    let fake = build_fake_ballot(&env.pp, &t, &mut env.rng).unwrap();
    let real = cast_vote(&env.pp, &env.reg, &voter, 0, &mut env.rng).unwrap();
    assert_eq!(fake.ct_open.masked.len(), real.ct_open.masked.len());
    assert_eq!(fake.bytes().len(), real.bytes().len());
}
