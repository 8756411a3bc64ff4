//! Trusted-dealer sharing of the authority nonces.
#![allow(dead_code)]

use rand::SeedableRng;
use rand_chacha::ChaCha20Rng;

use cr_dr::errors::CrDrError;
use cr_dr::protocol::preprocessing::{finalize_registration, preprocess_voter, RegistrationState};
use cr_dr::protocol::setup::setup_election;
use cr_dr::threshold::trusted_dealer::{authority_share, reconstruct_nonce, share_all_nonces, share_nonce};
use cr_dr::types::{AuthoritySecretState, DuplicateRule, ElectionConfig, PublicParams, ThresholdParams, VoterState, F};

struct Env {
    pp: PublicParams,
    authority: AuthoritySecretState,
    reg: RegistrationState,
    voters: Vec<VoterState>,
    rng: ChaCha20Rng,
}

fn small_election(seed: u64) -> Env {
    let mut rng = ChaCha20Rng::seed_from_u64(seed);
    let config = ElectionConfig {
        eid: "test-election".into(),
        candidates: vec![0, 1, 2],
        max_voters: 8,
        max_ballots: 16,
        merkle_depth: 4,
        duplicate_rule: DuplicateRule::FirstValidCounts,
        threshold_params: None,
    };
    let (pp, mut authority) = setup_election(config, &mut rng).unwrap();
    let mut voters = Vec::new();
    let mut records = Vec::new();
    for id in 0..6u64 {
        let (vs, rec) = preprocess_voter(&pp, &mut authority, id, &mut rng).unwrap();
        voters.push(vs);
        records.push(rec);
    }
    let reg = finalize_registration(&pp, &records).unwrap();
    Env { pp, authority, reg, voters, rng }
}

#[test]
fn trusted_dealer_reconstructs_with_t_shares() {
    let mut rng = ChaCha20Rng::seed_from_u64(100);
    let secret = F::random(&mut rng);
    let shares = share_nonce(secret, 3, 5, &mut rng).unwrap();
    assert_eq!(reconstruct_nonce(&shares[0..3]).unwrap(), secret);
    assert_eq!(reconstruct_nonce(&[shares[4], shares[2], shares[0]]).unwrap(), secret);
}

#[test]
fn fewer_than_t_shares_cannot_reconstruct() {
    let mut rng = ChaCha20Rng::seed_from_u64(101);
    let secret = F::random(&mut rng);
    let shares = share_nonce(secret, 3, 5, &mut rng).unwrap();
    // Interpolating any 2 shares yields a value unrelated to the secret.
    assert_ne!(reconstruct_nonce(&shares[0..2]).unwrap(), secret);
    assert_ne!(reconstruct_nonce(&shares[3..5]).unwrap(), secret);
    let other = F::random(&mut rng);
    let shares2 = share_nonce(other, 3, 5, &mut rng).unwrap();
    assert_ne!(shares2[0].value, shares[0].value);
}

#[test]
fn share_all_nonces_covers_every_voter() {
    let mut env = small_election(102);
    share_all_nonces(&mut env.authority, ThresholdParams { t: 2, k: 3 }, &mut env.rng).unwrap();
    for id in 0..6u64 {
        let s1 = authority_share(&env.authority, id, 1).unwrap();
        let s2 = authority_share(&env.authority, id, 2).unwrap();
        let rec = reconstruct_nonce(&[s1, s2]).unwrap();
        assert_eq!(rec, env.authority.r_ea(id).unwrap());
    }
}

#[test]
fn reshare_keeps_every_nonce() {
    let mut env = small_election(107);
    let before: Vec<F> = (0..6u64).map(|id| env.authority.r_ea(id).unwrap()).collect();
    share_all_nonces(&mut env.authority, ThresholdParams { t: 3, k: 5 }, &mut env.rng).unwrap();
    assert_eq!(env.authority.threshold, ThresholdParams { t: 3, k: 5 });
    for id in 0..6u64 {
        let shares = &env.authority.voter_secrets[&id].r_ea_shares;
        assert_eq!(shares.len(), 5);
        assert_eq!(reconstruct_nonce(&shares[2..5]).unwrap(), before[id as usize]);
    }
}

#[test]
fn invalid_reshare_parameters_leave_the_state_unchanged() {
    let mut env = small_election(108);
    let before: Vec<F> = (0..6u64).map(|id| env.authority.r_ea(id).unwrap()).collect();
    let r = share_all_nonces(&mut env.authority, ThresholdParams { t: 4, k: 3 }, &mut env.rng);
    assert!(matches!(r, Err(CrDrError::Threshold(_))));
    let r = share_all_nonces(&mut env.authority, ThresholdParams { t: 0, k: 3 }, &mut env.rng);
    assert!(matches!(r, Err(CrDrError::Threshold(_))));
    assert_eq!(env.authority.threshold, ThresholdParams::single());
    for id in 0..6u64 {
        assert_eq!(env.authority.r_ea(id).unwrap(), before[id as usize]);
    }
}

#[test]
fn authority_share_errors() {
    let env = small_election(109);
    assert_eq!(authority_share(&env.authority, 42, 1).unwrap_err(), CrDrError::UnknownVoter(42));
    // Single-authority sharing stores one share, at index 1.
    assert_eq!(authority_share(&env.authority, 0, 1).unwrap().index, 1);
    assert!(matches!(authority_share(&env.authority, 0, 2), Err(CrDrError::Threshold(_))));
}
