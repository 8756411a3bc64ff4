//! Chaff ballots.
#![allow(dead_code)]

use rand::SeedableRng;
use rand_chacha::ChaCha20Rng;

use cr_dr::protocol::admission::admitted_from_ballots;
use cr_dr::protocol::filter_and_tally::filter_and_tally;
use cr_dr::protocol::preprocessing::{finalize_registration, preprocess_voter, RegistrationState};
use cr_dr::protocol::setup::setup_election;
use cr_dr::types::{
    AuthoritySecretState, Ballot, DuplicateRule, ElectionConfig, InternalBallotEvaluation, PublicParams, TallyResult,
    VoterState,
};

use cr_dr::protocol::chaff::chaff_ballot;
use cr_dr::protocol::fake_compliance::{build_fake_ballot, fake_compliance};
use cr_dr::types::InternalBallotStatus;

const CANDIDATES: [u64; 3] = [0, 1, 2];

struct Env {
    pp: PublicParams,
    authority: AuthoritySecretState,
    reg: RegistrationState,
    voters: Vec<VoterState>,
    rng: ChaCha20Rng,
}

fn rng(seed: u64) -> ChaCha20Rng {
    ChaCha20Rng::seed_from_u64(seed)
}

fn config() -> ElectionConfig {
    ElectionConfig {
        eid: "test-election".into(),
        candidates: CANDIDATES.to_vec(),
        max_voters: 8,
        max_ballots: 16,
        merkle_depth: 4,
        duplicate_rule: DuplicateRule::FirstValidCounts,
        threshold_params: None,
    }
}

/// Standard small election: 6 registered voters (ids 0..6).
fn small_election(seed: u64) -> Env {
    let mut rng = rng(seed);
    let (pp, mut authority) = setup_election(config(), &mut rng).unwrap();
    let mut voters = Vec::new();
    let mut records = Vec::new();
    for id in 0..6u64 {
        let (vs, rec) = preprocess_voter(&pp, &mut authority, id, &mut rng).unwrap();
        voters.push(vs);
        records.push(rec);
    }
    let reg = finalize_registration(&pp, &records).unwrap();
    Env { pp, authority, reg, voters, rng }
}

/// FilterAndTally over a board of ballots (their public commitments and
/// the EA-side openings).
fn tally_ballots(
    env: &Env,
    ballots: &[Ballot],
) -> cr_dr::errors::Result<(TallyResult, Vec<InternalBallotEvaluation>)> {
    let (adm, opn) = admitted_from_ballots(ballots);
    filter_and_tally(&env.pp, &env.authority, &env.reg, &adm, &opn)
}

#[test]
fn chaff_is_rejected_by_filter_and_tally() {
    let mut env = small_election(40);
    let mut ballots = Vec::new();
    for _ in 0..5 {
        ballots.push(chaff_ballot(&env.pp, &mut env.rng).unwrap());
    }
    let (tally, evals) = tally_ballots(&env, &ballots).unwrap();
    assert_eq!(tally.counts, vec![0, 0, 0]);
    assert_eq!(tally.counted_ballots, 0);
    for e in &evals {
        assert_eq!(e.status, InternalBallotStatus::InvalidRegistration);
    }
}

#[test]
fn chaff_has_the_same_public_shape_and_rejection_class_as_fake_ballots() {
    let mut env = small_election(41);
    let chaff = chaff_ballot(&env.pp, &mut env.rng).unwrap();
    let t = fake_compliance(&env.pp, &env.voters[0], 1, &mut env.rng).unwrap();
    let fake = build_fake_ballot(&env.pp, &t, &mut env.rng).unwrap();

    // Same public object shape.
    assert_eq!(chaff.ct_open.masked.len(), fake.ct_open.masked.len());
    assert_eq!(chaff.bytes().len(), fake.bytes().len());

    // Same internal rejection class (InvalidRegistration for both), so even
    // the tallier's internal log does not separate chaff from fake ballots.
    let (_, evals) = tally_ballots(&env, &[chaff, fake]).unwrap();
    assert_eq!(evals[0].status, InternalBallotStatus::InvalidRegistration);
    assert_eq!(evals[1].status, InternalBallotStatus::InvalidRegistration);
}

#[test]
fn chaff_carries_no_explicit_marker() {
    // The public entry of a chaff ballot has exactly the structure of a real
    // one: a commitment and a ciphertext of the same length, nothing more.
    let mut env = small_election(42);
    let chaff = chaff_ballot(&env.pp, &mut env.rng).unwrap();
    let real = cr_dr::protocol::vote::cast_vote(&env.pp, &env.reg, &env.voters[0], 0, &mut env.rng).unwrap();
    assert_eq!(chaff.public().bytes().len(), real.public().bytes().len());
    assert_eq!(chaff.ct_open.masked.len(), real.ct_open.masked.len());
    assert_eq!(chaff.secret.opening.plaintext_fields.len(), real.secret.opening.plaintext_fields.len());
}
