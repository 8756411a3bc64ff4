//! Casting and counting real ballots.
#![allow(dead_code)]

use rand::SeedableRng;
use rand_chacha::ChaCha20Rng;

use cr_dr::protocol::admission::admitted_from_ballots;
use cr_dr::protocol::filter_and_tally::filter_and_tally;
use cr_dr::protocol::preprocessing::{finalize_registration, preprocess_voter, RegistrationState};
use cr_dr::protocol::setup::setup_election;
use cr_dr::types::{
    AuthoritySecretState, Ballot, DuplicateRule, ElectionConfig, InternalBallotEvaluation, PublicParams, TallyResult,
    VoterState,
};

use cr_dr::protocol::vote::cast_vote;
use cr_dr::types::InternalBallotStatus;

const CANDIDATES: [u64; 3] = [0, 1, 2];

struct Env {
    pp: PublicParams,
    authority: AuthoritySecretState,
    reg: RegistrationState,
    voters: Vec<VoterState>,
    rng: ChaCha20Rng,
}

fn rng(seed: u64) -> ChaCha20Rng {
    ChaCha20Rng::seed_from_u64(seed)
}

fn config() -> ElectionConfig {
    ElectionConfig {
        eid: "test-election".into(),
        candidates: CANDIDATES.to_vec(),
        max_voters: 8,
        max_ballots: 16,
        merkle_depth: 4,
        duplicate_rule: DuplicateRule::FirstValidCounts,
        threshold_params: None,
    }
}

/// Standard small election: 6 registered voters (ids 0..6).
fn small_election(seed: u64) -> Env {
    let mut rng = rng(seed);
    let (pp, mut authority) = setup_election(config(), &mut rng).unwrap();
    let mut voters = Vec::new();
    let mut records = Vec::new();
    for id in 0..6u64 {
        let (vs, rec) = preprocess_voter(&pp, &mut authority, id, &mut rng).unwrap();
        voters.push(vs);
        records.push(rec);
    }
    let reg = finalize_registration(&pp, &records).unwrap();
    Env { pp, authority, reg, voters, rng }
}

/// FilterAndTally over a board of ballots (their public commitments and
/// the EA-side openings).
fn tally_ballots(
    env: &Env,
    ballots: &[Ballot],
) -> cr_dr::errors::Result<(TallyResult, Vec<InternalBallotEvaluation>)> {
    let (adm, opn) = admitted_from_ballots(ballots);
    filter_and_tally(&env.pp, &env.authority, &env.reg, &adm, &opn)
}

#[test]
fn real_ballot_is_counted() {
    let mut env = small_election(20);
    let ballot = cast_vote(&env.pp, &env.reg, &env.voters[0], 1, &mut env.rng).unwrap();
    let (tally, evals) = tally_ballots(&env, &[ballot]).unwrap();
    assert_eq!(tally.counts, vec![0, 1, 0]);
    assert_eq!(tally.counted_ballots, 1);
    assert_eq!(evals[0].status, InternalBallotStatus::Counted);
}

#[test]
fn cast_vote_rejects_unknown_candidate() {
    let mut env = small_election(21);
    assert!(cast_vote(&env.pp, &env.reg, &env.voters[0], 99, &mut env.rng).is_err());
}

#[test]
fn cast_vote_rejects_unregistered_voter() {
    let mut env = small_election(22);
    let mut ghost = env.voters[0].clone();
    ghost.id = 42;
    assert!(cast_vote(&env.pp, &env.reg, &ghost, 0, &mut env.rng).is_err());
}

#[test]
fn several_voters_tally_correctly() {
    let mut env = small_election(23);
    let mut ballots = Vec::new();
    for (i, cand) in [0u64, 1, 1, 2, 0, 0].iter().enumerate() {
        let voter = env.voters[i].clone();
        ballots.push(cast_vote(&env.pp, &env.reg, &voter, *cand, &mut env.rng).unwrap());
    }
    let (tally, _) = tally_ballots(&env, &ballots).unwrap();
    assert_eq!(tally.counts, vec![3, 2, 1]);
    assert_eq!(tally.counted_ballots, 6);
}

#[test]
fn ballot_bytes_are_the_exact_public_ciphertext_encoding() {
    // The posted bytes are the public entry: com, then ct_open (C1 and the
    // ten masked fields), 32 bytes per field element.
    let mut env = small_election(24);
    let ballot = cast_vote(&env.pp, &env.reg, &env.voters[0], 1, &mut env.rng).unwrap();
    let mut expected = ballot.com.to_bytes_be();
    expected.extend(ballot.ct_open.to_bytes());
    assert_eq!(ballot.bytes(), expected);
    assert_eq!(ballot.bytes(), ballot.public().bytes());
    assert_eq!(ballot.bytes().len(), 32 * 13);
}
