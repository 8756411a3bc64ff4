//! Decentralized proving: the provider inputs are partitioned so that no
//! provider holds R_EA, and the in-circuit share combine reproduces the
//! single-prover witness.

use cr_dr::crypto::shamir::{reconstruct, Share};
use cr_dr::errors::CrDrError;
use cr_dr::protocol::admission::admitted_from_ballots;
use cr_dr::protocol::chaff::chaff_ballot;
use cr_dr::protocol::fake_compliance::{build_fake_ballot, fake_compliance};
use cr_dr::protocol::preprocessing::{finalize_registration, preprocess_voter};
use cr_dr::protocol::setup::setup_election;
use cr_dr::protocol::vote::cast_vote;
use cr_dr::types::{AuthoritySecretState, DuplicateRule, ElectionConfig, ThresholdParams, F};
use cr_dr::zk::chunked::{build_chunked_tally, ChunkedTally};
use cr_dr::zk::tier3::{chunk_shares, full_provider_values, ProviderSlot};
use rand::SeedableRng;
use rand_chacha::ChaCha20Rng;

/// Small depth-14 instance over `width`-slot chunks.
fn instance(seed: u64, voters: usize, width: usize) -> (ChunkedTally, AuthoritySecretState) {
    let mut rng = ChaCha20Rng::seed_from_u64(seed);
    let config = ElectionConfig {
        eid: "tier3-test".into(),
        candidates: vec![0, 1, 2],
        max_voters: 1 << 14,
        max_ballots: 1 << 24,
        merkle_depth: 14,
        duplicate_rule: DuplicateRule::FirstValidCounts,
        threshold_params: Some(ThresholdParams { t: 2, k: 3 }),
    };
    let (pp, mut authority) = setup_election(config, &mut rng).unwrap();
    let (mut voters_v, mut records) = (Vec::new(), Vec::new());
    for id in 0..voters as u64 {
        let (vs, rec) = preprocess_voter(&pp, &mut authority, id, &mut rng).unwrap();
        voters_v.push(vs);
        records.push(rec);
    }
    let reg = finalize_registration(&pp, &records).unwrap();
    let mut ballots = Vec::new();
    for v in voters_v.iter().take(2) {
        let t = fake_compliance(&pp, v, 2, &mut rng).unwrap();
        ballots.push(build_fake_ballot(&pp, &t, &mut rng).unwrap());
        ballots.push(cast_vote(&pp, &reg, v, 0, &mut rng).unwrap());
    }
    for (i, v) in voters_v.iter().enumerate().skip(2) {
        ballots.push(cast_vote(&pp, &reg, v, 1 + (i as u64 % 2), &mut rng).unwrap());
    }
    let board = voters.div_ceil(width).max(1) * width;
    while ballots.len() < board {
        ballots.push(chaff_ballot(&pp, &mut rng).unwrap());
    }
    let (admitted, openings) = admitted_from_ballots(&ballots);
    let ct = build_chunked_tally(&pp, &authority, &reg, &admitted, &openings, width, &mut rng).unwrap();
    (ct, authority)
}

#[test]
fn provider_partition_hides_r_ea() {
    // Each authority supplies only its own share array; neither array
    // holds R_EA, and only the in-circuit combine 2a - b yields it.
    let (ct, authority) = instance(1, 20, 8);
    let c = ct.chunk_size;
    for k in 0..ct.k_chunks {
        let (a, b) = chunk_shares(&ct, &authority, k).unwrap();
        assert_eq!(a.len(), c);
        assert_eq!(b.len(), c);
        for i in 0..c {
            let row = &ct.rows[k * c + i];
            assert_eq!(F::from_u64(2).mul(&a[i]).sub(&b[i]), row.r_ea);
            if !row.r_ea.is_zero() {
                assert_ne!(a[i], row.r_ea, "share a leaks R_EA");
                assert_ne!(b[i], row.r_ea, "share b leaks R_EA");
            }
        }
    }
}

#[test]
fn in_circuit_combine_matches_shamir_reconstruction() {
    // The in-circuit combine 2a - b equals Shamir reconstruction over the
    // same two shares, i.e. the true R_EA.
    let (ct, authority) = instance(2, 30, 8);
    let voter0 = authority.voter_secrets.get(&0).unwrap();
    let a = voter0.r_ea_shares[0];
    let b = voter0.r_ea_shares[1];
    let combined = F::from_u64(2).mul(&a.value).sub(&b.value);
    let shamir = reconstruct(&[Share { index: a.index, value: a.value }, Share { index: b.index, value: b.value }]).unwrap();
    assert_eq!(combined, shamir, "2*s1 - s2 must equal Shamir reconstruction at x=0");
    assert_eq!(a.index, 1);
    assert_eq!(b.index, 2);
    // Building the shares succeeds: every slot's 2a - b matched the
    // reconstructed r_ea.
    for k in 0..ct.k_chunks {
        chunk_shares(&ct, &authority, k).unwrap();
    }
}

#[test]
fn chunk_shares_reject_a_witness_with_a_different_r_ea() {
    let (mut ct, authority) = instance(3, 20, 8);
    let idx = ct.rows.iter().position(|r| !r.r_ea.is_zero()).unwrap();
    ct.rows[idx].r_ea = ct.rows[idx].r_ea.add(&F::from_u64(1));
    let k = idx / ct.chunk_size;
    assert!(matches!(chunk_shares(&ct, &authority, k), Err(CrDrError::ZkToolchain(_))));
}

#[test]
fn full_providers_hide_r_ea_records_and_tally() {
    // The full relation's provider inputs hold openings, the public
    // registration rows and statement values, and the two share arrays:
    // no R_EA, no tally and no record, sort, duplicate or product values
    // (the exhaustive destructuring fails to compile if a field is added).
    let mut rng = ChaCha20Rng::seed_from_u64(6000);
    let config = ElectionConfig {
        eid: "tier3-full-test".into(),
        candidates: vec![0, 1, 2],
        max_voters: 64,
        max_ballots: 128,
        merkle_depth: 6,
        duplicate_rule: DuplicateRule::FirstValidCounts,
        threshold_params: Some(ThresholdParams { t: 2, k: 3 }),
    };
    let (pp, mut authority) = setup_election(config, &mut rng).unwrap();
    let (mut vs, mut recs) = (Vec::new(), Vec::new());
    for id in 0..30u64 {
        let (v, r) = preprocess_voter(&pp, &mut authority, id, &mut rng).unwrap();
        vs.push(v);
        recs.push(r);
    }
    let reg = finalize_registration(&pp, &recs).unwrap();
    let mut ballots = Vec::new();
    for (i, v) in vs.iter().enumerate() {
        ballots.push(cast_vote(&pp, &reg, v, 1 + (i as u64 % 2), &mut rng).unwrap());
    }
    let (admitted, openings) = admitted_from_ballots(&ballots);
    let p = full_provider_values(&pp, &authority, &reg, &admitted, &openings, 128, 6).unwrap();
    assert_eq!(p.slots.len(), 128);
    assert_eq!(p.num_ballots, 30);
    assert_eq!(p.num_voters, 30);
    assert_eq!(p.mr, reg.root);
    for (j, slot) in p.slots.iter().enumerate() {
        let ProviderSlot { ct, pt, rho, reg_vkx, reg_vky: _, reg_h, path, share_a, share_b } = slot.clone();
        assert_eq!(path.len(), 6);
        if j < 30 {
            assert_eq!(ct, admitted.coms[j]);
            assert_eq!(pt.to_vec(), openings.openings[j].plaintext_fields);
            assert_eq!(rho, openings.openings[j].rho);
            let id = j as u64;
            assert_eq!(reg_vkx, reg.records[j].vk.x);
            assert_eq!(reg_h, reg.records[j].h);
            let r_ea = authority.r_ea(id).unwrap();
            assert_eq!(F::from_u64(2).mul(&share_a).sub(&share_b), r_ea);
            assert_ne!(share_a, r_ea);
        } else {
            assert!(ct.is_zero() && rho.is_zero() && share_a.is_zero() && share_b.is_zero());
        }
    }
    // More ballots than circuit slots is refused.
    assert!(matches!(
        full_provider_values(&pp, &authority, &reg, &admitted, &openings, 16, 6),
        Err(CrDrError::ZkToolchain(_))
    ));
}
