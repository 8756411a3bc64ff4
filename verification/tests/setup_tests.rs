//! Election setup.
#![allow(dead_code)]

use rand::SeedableRng;
use rand_chacha::ChaCha20Rng;

use cr_dr::protocol::admission::admitted_from_ballots;
use cr_dr::protocol::filter_and_tally::filter_and_tally;
use cr_dr::protocol::preprocessing::{finalize_registration, preprocess_voter, RegistrationState};
use cr_dr::protocol::setup::setup_election;
use cr_dr::types::{
    AuthoritySecretState, Ballot, DuplicateRule, ElectionConfig, InternalBallotEvaluation, PublicParams, TallyResult,
    VoterState,
};

use cr_dr::crypto::hash::eid_to_field;
use cr_dr::types::ThresholdParams;

const CANDIDATES: [u64; 3] = [0, 1, 2];

struct Env {
    pp: PublicParams,
    authority: AuthoritySecretState,
    reg: RegistrationState,
    voters: Vec<VoterState>,
    rng: ChaCha20Rng,
}

fn rng(seed: u64) -> ChaCha20Rng {
    ChaCha20Rng::seed_from_u64(seed)
}

fn config() -> ElectionConfig {
    ElectionConfig {
        eid: "test-election".into(),
        candidates: CANDIDATES.to_vec(),
        max_voters: 8,
        max_ballots: 16,
        merkle_depth: 4,
        duplicate_rule: DuplicateRule::FirstValidCounts,
        threshold_params: None,
    }
}

/// Standard small election: 6 registered voters (ids 0..6).
fn small_election(seed: u64) -> Env {
    let mut rng = rng(seed);
    let (pp, mut authority) = setup_election(config(), &mut rng).unwrap();
    let mut voters = Vec::new();
    let mut records = Vec::new();
    for id in 0..6u64 {
        let (vs, rec) = preprocess_voter(&pp, &mut authority, id, &mut rng).unwrap();
        voters.push(vs);
        records.push(rec);
    }
    let reg = finalize_registration(&pp, &records).unwrap();
    Env { pp, authority, reg, voters, rng }
}

/// FilterAndTally over a board of ballots (their public commitments and
/// the EA-side openings).
fn tally_ballots(
    env: &Env,
    ballots: &[Ballot],
) -> cr_dr::errors::Result<(TallyResult, Vec<InternalBallotEvaluation>)> {
    let (adm, opn) = admitted_from_ballots(ballots);
    filter_and_tally(&env.pp, &env.authority, &env.reg, &adm, &opn)
}

#[test]
fn setup_produces_consistent_public_params() {
    let mut rng = rng(1);
    let (pp, authority) = setup_election(config(), &mut rng).unwrap();
    assert_eq!(pp.eid_hash, eid_to_field(&pp.eid));
    assert_eq!(pp.candidates, CANDIDATES.to_vec());
    assert_eq!(pp.duplicate_rule.id(), 1);
    assert!(authority.voter_secrets.is_empty());
    assert_eq!(authority.threshold, cr_dr::types::ThresholdParams::single());
}

#[test]
fn setup_rejects_empty_candidates() {
    let mut rng = rng(2);
    let mut cfg = config();
    cfg.candidates.clear();
    assert!(setup_election(cfg, &mut rng).is_err());
}

#[test]
fn setup_rejects_duplicate_candidates() {
    let mut rng = rng(3);
    let mut cfg = config();
    cfg.candidates = vec![0, 1, 1];
    assert!(setup_election(cfg, &mut rng).is_err());
}

#[test]
fn setup_rejects_max_voters_beyond_tree_capacity() {
    let mut rng = rng(4);
    let mut cfg = config();
    cfg.max_voters = 17; // 2^4 = 16
    assert!(setup_election(cfg, &mut rng).is_err());
}

#[test]
fn setup_rejects_bad_threshold_params() {
    let mut rng = rng(5);
    let mut cfg = config();
    cfg.threshold_params = Some(ThresholdParams { t: 4, k: 3 });
    assert!(setup_election(cfg, &mut rng).is_err());
}
