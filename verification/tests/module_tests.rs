//! Tests of the individual modules: duplicate handling, the sorting
//! network, Merkle membership, Poseidon vectors, Shamir sharing, the
//! signature scheme and the cast encryption.

use cr_dr::crypto::encryption::{cast_decrypt, cast_encrypt, ea_keygen, sample_rho_enc, CAST_CT_LEN};
use cr_dr::crypto::hash::poseidon;
use cr_dr::crypto::merkle::{verify_path, MerkleTree};
use cr_dr::crypto::shamir::{reconstruct, share};
use cr_dr::crypto::signature::{base8, keygen, sign, verify, Signature};
use cr_dr::protocol::duplicates::{counted_flags_naive, counted_flags_sorted, tally_from_counted, BallotRecord};
use cr_dr::types::{f_from_dec, F};
use cr_dr::zk::mock_backend::batcher_schedule;
use rand::{Rng, SeedableRng};
use rand_chacha::ChaCha20Rng;

fn rec(valid: bool, id: u64, pos: u64, cand: u64) -> BallotRecord {
    BallotRecord { valid, id, pos, cand_index: cand }
}

#[test]
fn strategies_agree_and_first_valid_wins() {
    // fake(id0) before real(id0); dup for id1; invalid rows never block.
    let records = vec![
        rec(false, 0, 0, 2), // fake-compliance: invalid, must not consume slot
        rec(true, 0, 1, 0),  // real vote of voter 0: counts
        rec(true, 1, 2, 1),  // voter 1 first valid: counts
        rec(true, 1, 3, 2),  // voter 1 duplicate: not counted
        rec(false, 0, 4, 0), // chaff
    ];
    let a = counted_flags_naive(&records);
    let b = counted_flags_sorted(&records);
    assert_eq!(a, b);
    assert_eq!(a, vec![false, true, true, false, false]);
    assert_eq!(tally_from_counted(&records, &a, 3), vec![1, 1, 0]);
}

#[test]
fn strategies_agree_on_random_inputs() {
    let mut rng = ChaCha20Rng::seed_from_u64(17);
    for _ in 0..200 {
        let n = rng.gen_range(0..40);
        let records: Vec<BallotRecord> = (0..n)
            .map(|pos| BallotRecord {
                valid: rng.gen_bool(0.6),
                id: rng.gen_range(0..6),
                pos: pos as u64,
                cand_index: rng.gen_range(0..3),
            })
            .collect();
        assert_eq!(counted_flags_naive(&records), counted_flags_sorted(&records));
    }
}

#[test]
fn batcher_network_sorts_everything() {
    let mut rng = ChaCha20Rng::seed_from_u64(3);
    for &n in &[1usize, 2, 3, 4, 7, 8, 15, 16, 33, 128] {
        let schedule = batcher_schedule(n);
        for _ in 0..50 {
            let mut v: Vec<u64> = (0..n).map(|_| rng.gen_range(0..40)).collect();
            for &(a, b) in &schedule {
                assert!(a < b && b < n);
                if v[a] > v[b] {
                    v.swap(a, b);
                }
            }
            assert!(v.windows(2).all(|w| w[0] <= w[1]), "n={n} not sorted: {v:?}");
        }
    }
}

#[test]
fn batcher_comparator_counts() {
    assert_eq!(batcher_schedule(16).len(), 63);
    assert_eq!(batcher_schedule(128).len(), 1471);
}

#[test]
fn membership_roundtrip() {
    let leaves: Vec<F> = (1..=5u64).map(F::from_u64).collect();
    let tree = MerkleTree::new(&leaves, 4).unwrap();
    for (i, leaf) in leaves.iter().enumerate() {
        let path = tree.path(i).unwrap();
        assert!(verify_path(tree.root(), *leaf, &path));
    }
    // wrong leaf fails
    let path = tree.path(0).unwrap();
    assert!(!verify_path(tree.root(), F::from_u64(99), &path));
    // wrong index fails
    let path1 = tree.path(1).unwrap();
    assert!(!verify_path(tree.root(), leaves[0], &path1));
}

#[test]
fn overflow_rejected() {
    let leaves: Vec<F> = (0..17u64).map(F::from_u64).collect();
    assert!(MerkleTree::new(&leaves, 4).is_err());
}

#[test]
fn matches_circomlib_vector_two_inputs() {
    // circomlibjs: poseidon([1, 2])
    let expected =
        f_from_dec("7853200120776062878684798364095072458815029376092732009249414926327459813530").unwrap();
    assert_eq!(poseidon(&[F::from_u64(1), F::from_u64(2)]), expected);
}

#[test]
fn matches_circomlib_vector_four_inputs() {
    // circomlibjs: poseidon([1, 2, 3, 4])
    let expected =
        f_from_dec("18821383157269793795438455681495246036402687001665670618754263018637548127333").unwrap();
    assert_eq!(
        poseidon(&[F::from_u64(1), F::from_u64(2), F::from_u64(3), F::from_u64(4)]),
        expected
    );
}

#[test]
fn reconstructs_with_t_shares() {
    let mut rng = ChaCha20Rng::seed_from_u64(7);
    let secret = F::random(&mut rng);
    let shares = share(secret, 3, 5, &mut rng).unwrap();
    assert_eq!(reconstruct(&shares[0..3]).unwrap(), secret);
    assert_eq!(reconstruct(&[shares[4], shares[1], shares[3]]).unwrap(), secret);
    assert_eq!(reconstruct(&shares).unwrap(), secret);
}

#[test]
fn fewer_than_t_shares_do_not_reconstruct() {
    let mut rng = ChaCha20Rng::seed_from_u64(8);
    let secret = F::random(&mut rng);
    let shares = share(secret, 3, 5, &mut rng).unwrap();
    let guess = reconstruct(&shares[0..2]).unwrap();
    assert_ne!(guess, secret);
}

#[test]
fn base8_is_valid_subgroup_point() {
    let p = base8();
    assert!(p.is_on_curve());
    assert!(p.is_in_correct_subgroup_assuming_on_curve());
}

#[test]
fn sign_verify_roundtrip() {
    let mut rng = ChaCha20Rng::seed_from_u64(1);
    let (sk, vk) = keygen(&mut rng);
    let msg = F::from_u64(42);
    let sig = sign(&sk, msg, &mut rng);
    assert!(verify(&vk, msg, &sig));
    assert!(!verify(&vk, F::from_u64(43), &sig));
    let bad = Signature { s: sig.s.add(&F::from_u64(1)), ..sig };
    assert!(!verify(&vk, msg, &bad));
}

#[test]
fn wrong_key_rejects() {
    let mut rng = ChaCha20Rng::seed_from_u64(2);
    let (sk, _vk) = keygen(&mut rng);
    let (_sk2, vk2) = keygen(&mut rng);
    let msg = F::from_u64(7);
    let sig = sign(&sk, msg, &mut rng);
    assert!(!verify(&vk2, msg, &sig));
}

#[test]
fn cast_hybrid_roundtrip() {
    let mut rng = ChaCha20Rng::seed_from_u64(5);
    let (sk, pk) = ea_keygen(&mut rng);
    let fields: Vec<F> = (0..CAST_CT_LEN).map(|i| F::from_u64((i * 17 + 3) as u64)).collect();
    let rho = sample_rho_enc(&mut rng);
    let ct = cast_encrypt(&pk, &fields, rho).unwrap();
    assert_eq!(cast_decrypt(&sk, &ct).unwrap(), fields);
}

#[test]
fn cast_hybrid_wrong_key_garbles() {
    let mut rng = ChaCha20Rng::seed_from_u64(6);
    let (_sk, pk) = ea_keygen(&mut rng);
    let (sk2, _pk2) = ea_keygen(&mut rng);
    let fields = vec![F::from_u64(5); CAST_CT_LEN];
    let rho = sample_rho_enc(&mut rng);
    let ct = cast_encrypt(&pk, &fields, rho).unwrap();
    assert_ne!(cast_decrypt(&sk2, &ct).unwrap(), fields);
}

#[test]
fn cast_rejects_zero_rho() {
    let mut rng = ChaCha20Rng::seed_from_u64(7);
    let (_sk, pk) = ea_keygen(&mut rng);
    let fields = vec![F::from_u64(5); CAST_CT_LEN];
    assert!(cast_encrypt(&pk, &fields, F::zero()).is_err());
}
