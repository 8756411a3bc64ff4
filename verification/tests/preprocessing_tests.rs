//! Preprocessing: registration, threshold nonces, cut-and-choose.
#![allow(dead_code)]

use rand::SeedableRng;
use rand_chacha::ChaCha20Rng;

use cr_dr::protocol::admission::admitted_from_ballots;
use cr_dr::protocol::filter_and_tally::filter_and_tally;
use cr_dr::protocol::preprocessing::{finalize_registration, preprocess_voter, RegistrationState};
use cr_dr::protocol::setup::setup_election;
use cr_dr::types::{
    AuthoritySecretState, Ballot, DuplicateRule, ElectionConfig, InternalBallotEvaluation, PublicParams, TallyResult,
    VoterState,
};

use cr_dr::crypto::hash::{h_com, h_reg};
use cr_dr::crypto::merkle::verify_path;
use cr_dr::errors::CrDrError;
use cr_dr::protocol::preprocessing::{preprocess_voter_cut_and_choose, preprocess_voter_cut_and_choose_with_cheat};
use cr_dr::types::AuthorityVoterSecret;

const CANDIDATES: [u64; 3] = [0, 1, 2];

struct Env {
    pp: PublicParams,
    authority: AuthoritySecretState,
    reg: RegistrationState,
    voters: Vec<VoterState>,
    rng: ChaCha20Rng,
}

fn rng(seed: u64) -> ChaCha20Rng {
    ChaCha20Rng::seed_from_u64(seed)
}

fn config() -> ElectionConfig {
    ElectionConfig {
        eid: "test-election".into(),
        candidates: CANDIDATES.to_vec(),
        max_voters: 8,
        max_ballots: 16,
        merkle_depth: 4,
        duplicate_rule: DuplicateRule::FirstValidCounts,
        threshold_params: None,
    }
}

/// Standard small election: 6 registered voters (ids 0..6).
fn small_election(seed: u64) -> Env {
    let mut rng = rng(seed);
    let (pp, mut authority) = setup_election(config(), &mut rng).unwrap();
    let mut voters = Vec::new();
    let mut records = Vec::new();
    for id in 0..6u64 {
        let (vs, rec) = preprocess_voter(&pp, &mut authority, id, &mut rng).unwrap();
        voters.push(vs);
        records.push(rec);
    }
    let reg = finalize_registration(&pp, &records).unwrap();
    Env { pp, authority, reg, voters, rng }
}

/// FilterAndTally over a board of ballots (their public commitments and
/// the EA-side openings).
fn tally_ballots(
    env: &Env,
    ballots: &[Ballot],
) -> cr_dr::errors::Result<(TallyResult, Vec<InternalBallotEvaluation>)> {
    let (adm, opn) = admitted_from_ballots(ballots);
    filter_and_tally(&env.pp, &env.authority, &env.reg, &adm, &opn)
}

#[test]
fn voter_state_cannot_carry_r_ea() {
    // Structural: VoterState = (id, sk, vk, R_i) and nothing else; the
    // exhaustive destructuring below fails to compile if a field is added.
    let mut env = small_election(10);
    let (vs, _rec) = preprocess_voter(&env.pp, &mut env.authority, 7, &mut env.rng).unwrap();
    let VoterState { id, sk: _, vk: _, r } = vs.clone();
    assert_eq!(id, 7);
    // And the voter's R_i is independent of the authority-side nonce.
    let r_ea = env.authority.r_ea(7).unwrap();
    assert_ne!(r_ea, r);
}

#[test]
fn authority_state_cannot_recover_r_i() {
    // Structural: the authority's per-voter record holds only (id, vk,
    // R_EA-shares), and the voter's R_i is none of the stored values.
    let mut env = small_election(11);
    let (vs, _rec) = preprocess_voter(&env.pp, &mut env.authority, 7, &mut env.rng).unwrap();
    let AuthorityVoterSecret { id, vk, r_ea_shares } = env.authority.voter_secrets[&7].clone();
    assert_eq!(id, 7);
    assert_eq!(vk, vs.vk);
    for s in &r_ea_shares {
        assert_ne!(s.value, vs.r);
    }
    for sec in env.authority.voter_secrets.values() {
        for s in &sec.r_ea_shares {
            assert_ne!(s.value, vs.r);
        }
    }
}

#[test]
fn below_threshold_shares_cannot_reconstruct_r_ea() {
    // With threshold params (t=3, k=5), any t-1 shares interpolate to a
    // value unrelated to R_EA,i; only >= t (the authorized quorum) recover it.
    let mut rng = rng(19);
    let mut cfg = config();
    cfg.threshold_params = Some(cr_dr::types::ThresholdParams { t: 3, k: 5 });
    let (pp, mut authority) = setup_election(cfg, &mut rng).unwrap();
    let (_vs, _rec) = preprocess_voter(&pp, &mut authority, 0, &mut rng).unwrap();

    let shares = &authority.voter_secrets[&0].r_ea_shares;
    assert_eq!(shares.len(), 5);
    let authorized = authority.r_ea(0).unwrap();
    let below_threshold = cr_dr::crypto::shamir::reconstruct(&shares[0..2]).unwrap();
    assert_ne!(below_threshold, authorized);
    assert_eq!(cr_dr::crypto::shamir::reconstruct(&shares[1..4]).unwrap(), authorized);
}

#[test]
fn public_record_commitments_are_correct() {
    let mut env = small_election(11);
    let (vs, rec) = preprocess_voter(&env.pp, &mut env.authority, 7, &mut env.rng).unwrap();
    // The authorized quorum reconstruction yields the R_EA that h commits to.
    let r_ea = env.authority.r_ea(7).unwrap();
    let h = h_com(env.pp.eid_hash, 7, &vs.vk, vs.r, r_ea);
    assert_eq!(rec.h, h);
    assert_eq!(rec.leaf, h_reg(env.pp.eid_hash, 7, &vs.vk, h));
}

#[test]
fn registration_ids_must_be_dense_for_the_indexed_table() {
    // The table is indexed: id = leaf index, so ids must be exactly 0..N-1.
    let mut rng = rng(20);
    let (pp, mut authority) = setup_election(config(), &mut rng).unwrap();
    let (_v0, rec0) = preprocess_voter(&pp, &mut authority, 0, &mut rng).unwrap();
    let (_v2, rec2) = preprocess_voter(&pp, &mut authority, 2, &mut rng).unwrap();
    // Gap at id 1: finalization must reject.
    assert!(finalize_registration(&pp, &[rec0.clone(), rec2]).is_err());
    // Dense 0..1 works.
    let (_v1, rec1) = preprocess_voter(&pp, &mut authority, 1, &mut rng).unwrap();
    let reg = finalize_registration(&pp, &[rec0, rec1]).unwrap();
    assert_eq!(reg.num_voters(), 2);
    // Row i of the table is voter i (its leaf index).
    assert_eq!(reg.records[0].id, 0);
    assert_eq!(reg.records[1].id, 1);
}

#[test]
fn merkle_root_verifies_all_leaves() {
    let env = small_election(12);
    for rec in env.reg.records.iter() {
        let path = &env.reg.paths[rec.id as usize];
        assert!(verify_path(env.reg.root, rec.leaf, path));
    }
}

#[test]
fn duplicate_voter_id_rejected_in_preprocessing() {
    let mut env = small_election(13);
    assert_eq!(
        preprocess_voter(&env.pp, &mut env.authority, 0, &mut env.rng).unwrap_err(),
        CrDrError::DuplicateVoter(0)
    );
}

#[test]
fn duplicate_voter_id_rejected_in_finalization() {
    let mut rng = rng(14);
    let (pp, mut authority) = setup_election(config(), &mut rng).unwrap();
    let (_v1, rec1) = preprocess_voter(&pp, &mut authority, 0, &mut rng).unwrap();
    let mut rec2 = rec1.clone();
    rec2.id = 0;
    assert_eq!(finalize_registration(&pp, &[rec1, rec2]).unwrap_err(), CrDrError::DuplicateVoter(0));
}

#[test]
fn cut_and_choose_honest_registration_works() {
    let mut rng = rng(15);
    let (pp, mut authority) = setup_election(config(), &mut rng).unwrap();
    let (vs, rec, transcript) = preprocess_voter_cut_and_choose(&pp, &mut authority, 3, 8, &mut rng).unwrap();
    assert_eq!(transcript.q, 8);
    assert_eq!(transcript.opened.len(), 7);
    // Final pair is consistent with the published record (authorized
    // quorum reconstruction of the threshold-shared R_EA).
    let r_ea = authority.r_ea(3).unwrap();
    assert_eq!(rec.h, h_com(pp.eid_hash, 3, &vs.vk, vs.r, r_ea));
}

#[test]
fn cut_and_choose_detects_cheating_when_corrupted_pair_is_audited() {
    // With q = 4 and one corrupted pair, ~3/4 of runs must abort with
    // evidence; a run survives only if the corrupted pair is the final one.
    let mut detected = 0;
    let mut survived = 0;
    for seed in 0..200u64 {
        let mut rng = rng(1000 + seed);
        let (pp, mut authority) = setup_election(config(), &mut rng).unwrap();
        match preprocess_voter_cut_and_choose_with_cheat(&pp, &mut authority, 3, 4, 0, &mut rng) {
            Err(_) => detected += 1,
            Ok(_) => survived += 1,
        }
    }
    assert!(detected > 0 && survived > 0);
    let survival_rate = survived as f64 / 200.0;
    assert!((survival_rate - 0.25).abs() < 0.12, "survival {survival_rate} !~ 1/q = 0.25");
}

#[test]
fn cut_and_choose_rejects_fewer_than_two_pairs() {
    let mut rng = rng(17);
    let (pp, mut authority) = setup_election(config(), &mut rng).unwrap();
    let r = preprocess_voter_cut_and_choose(&pp, &mut authority, 3, 1, &mut rng);
    assert!(matches!(r, Err(CrDrError::InvalidConfig(_))));
    assert!(authority.voter_secrets.is_empty());
}

#[test]
fn preprocessing_rejects_ids_outside_the_table() {
    let mut rng = rng(18);
    let (pp, mut authority) = setup_election(config(), &mut rng).unwrap();
    let r = preprocess_voter(&pp, &mut authority, 8, &mut rng);
    assert!(matches!(r, Err(CrDrError::InvalidConfig(_))));
}
