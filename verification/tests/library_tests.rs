//! Tests of the library's own functions on concrete values: field and
//! encoding formulas, the outside-crate wrappers (each would fail if the
//! wrapper handed its argument back), the channel, the chunked helpers and
//! the error variants.

use rand::SeedableRng;
use rand_chacha::ChaCha20Rng;

use cr_dr::crypto::hash::{ballot_hash, bb_commitment, candidate_set_commitment, eid_to_field, merkle_hash, poseidon, poseidon2};
use cr_dr::crypto::merkle::MerkleTree;
use cr_dr::crypto::signature::{base8, base8_circom_coords, decode_point, field_from_jub_scalar, from_circom_point, jub_scalar_from_field, to_circom_point};
use cr_dr::disputes::judge::{JudgeReport, Verdict};
use cr_dr::errors::CrDrError;
use cr_dr::field::{f_is_canonical_scalar, l_limbs, Fe, Sc};
use cr_dr::protocol::bulletin_board::{AnonymousChannel, BulletinBoard};
use cr_dr::protocol::duplicates::{multiset_equal, BallotRecord};
use cr_dr::types::{f_from_dec, f_to_dec, f_to_u64, BallotPlaintext, DuplicateRule, ElectionConfig, F};
use cr_dr::zk::bits::f_bits_le;
use cr_dr::zk::chunked::{product_chain_start, record_commit, sentinel_commitment};
use cr_dr::zk::mock_backend::Rec;
use cr_dr::zk::statement::admitted_chain;

#[test]
fn field_arithmetic_formulas() {
    let p_minus_1 = F::zero().sub(&F::from_u64(1));
    assert_eq!(
        f_to_dec(&p_minus_1),
        "21888242871839275222246405745257275088548364400416034343698204186575808495616"
    );
    assert_eq!(p_minus_1.add(&F::from_u64(2)), F::from_u64(1));
    assert_eq!(F::from_u64(6).mul(&F::from_u64(7)), F::from_u64(42));
    assert_eq!(F::from_u64(3).sub(&F::from_u64(5)), F::zero().sub(&F::from_u64(2)));
    let inv = F::from_u64(2).inverse().unwrap();
    assert_eq!(inv.mul(&F::from_u64(2)), F::from_u64(1));
    assert!(F::zero().inverse().is_none());
    assert_eq!(F::from_u64(42).to_u64(), Some(42));
    assert_eq!(f_to_u64(&p_minus_1), None);
}

#[test]
fn decimal_encoding_round_trips() {
    assert_eq!(f_to_dec(&F::from_u64(1234567)), "1234567");
    assert_eq!(f_from_dec("1234567").unwrap(), F::from_u64(1234567));
    // p reduces to 0
    assert_eq!(
        f_from_dec("21888242871839275222246405745257275088548364400416034343698204186575808495617").unwrap(),
        F::zero()
    );
    assert!(matches!(f_from_dec("12a4"), Err(CrDrError::Serialization(_))));
    let mut rng = ChaCha20Rng::seed_from_u64(5);
    let f = F::random(&mut rng);
    assert_eq!(f_from_dec(&f_to_dec(&f)).unwrap(), f);
}

#[test]
fn byte_encodings() {
    let f = F::from_u64(0x0102);
    let b = f.to_bytes_be();
    assert_eq!(b.len(), 32);
    assert_eq!(&b[30..], &[1, 2]);
    assert!(b[..30].iter().all(|x| *x == 0));
    assert_eq!(F::from_be_bytes_mod_order(&b), f);
    assert_eq!(F::from_le_bytes_mod_order(&[2, 1]), f);
}

#[test]
fn scalar_conversions() {
    let l = F::from_limbs(l_limbs()).unwrap();
    assert!(!f_is_canonical_scalar(&l));
    assert!(f_is_canonical_scalar(&l.sub(&F::from_u64(1))));
    // l + 5 reduces to 5 mod l
    let s = jub_scalar_from_field(&l.add(&F::from_u64(5)));
    assert_eq!(field_from_jub_scalar(&s), F::from_u64(5));
    assert_eq!(Sc::one().add(&Sc::one()).to_fe(), F::from_u64(2));
}

#[test]
fn poseidon_wrappers_agree() {
    let a = F::from_u64(1);
    let b = F::from_u64(2);
    assert_eq!(poseidon2(a, b), poseidon(&[a, b]));
    assert_ne!(poseidon2(a, b), poseidon2(b, a));
    assert_ne!(poseidon(&[a]), a);
    assert_eq!(merkle_hash(a, b), poseidon(&[a, b]));
    // chains: bb over single-field ciphertexts equals the admitted chain
    let coms = vec![F::from_u64(3), F::from_u64(4)];
    let chain = admitted_chain(&coms);
    assert_eq!(chain, poseidon2(poseidon2(F::zero(), coms[0]), coms[1]));
    assert_eq!(bb_commitment(&[vec![coms[0]], vec![coms[1]]]), chain);
    assert_eq!(ballot_hash(&coms), chain);
    assert_eq!(candidate_set_commitment(&[0, 1, 2]), poseidon(&[F::from_u64(0), F::from_u64(1), F::from_u64(2)]));
}

#[test]
fn eid_hash_is_sha256_based_and_input_dependent() {
    let a = eid_to_field("election-a");
    let b = eid_to_field("election-b");
    assert_ne!(a, b);
    assert_eq!(a, eid_to_field("election-a"));
    assert_ne!(a, F::zero());
}

#[test]
fn point_coordinates_convert_both_ways() {
    let (x, y) = base8_circom_coords();
    assert_eq!(
        f_to_dec(&x),
        "5299619240641551281634865583518297030282874472190772894086521144482721001553"
    );
    let pt = from_circom_point(x, y);
    assert_eq!(pt, base8());
    assert_eq!(to_circom_point(&pt), (x, y));
    assert!(decode_point(x, y).is_some());
    assert!(decode_point(F::from_u64(1), F::from_u64(2)).is_none());
    // doubling equals adding the point to itself
    assert_eq!(pt.double(), pt.add(&pt));
    assert_ne!(pt.double(), pt);
}

#[test]
fn bit_decomposition() {
    let bits = f_bits_le(&F::from_u64(6), 3).unwrap();
    assert_eq!(bits, vec![false, true, true]);
    assert!(f_bits_le(&F::from_u64(8), 3).is_none());
}

#[test]
fn plaintext_field_encoding_round_trips() {
    let mut rng = ChaCha20Rng::seed_from_u64(9);
    let pt = BallotPlaintext {
        eid_hash: F::random(&mut rng),
        id: 3,
        vk: cr_dr::crypto::signature::VerificationKey { x: F::from_u64(1), y: F::from_u64(2) },
        candidate: 2,
        r: F::random(&mut rng),
        sigma: cr_dr::crypto::signature::Signature { rx: F::from_u64(4), ry: F::from_u64(5), s: F::from_u64(6) },
    };
    let fields = pt.to_fields();
    assert_eq!(fields.len(), 9);
    assert_eq!(fields[1], F::from_u64(3));
    assert_eq!(BallotPlaintext::from_fields(&fields).unwrap(), pt);
    assert!(BallotPlaintext::from_fields(&fields[..8]).is_err());
}

#[test]
fn merkle_tree_errors() {
    let leaves: Vec<F> = (0..4u64).map(F::from_u64).collect();
    let tree = MerkleTree::new(&leaves, 2).unwrap();
    assert_eq!(tree.depth(), 2);
    assert!(matches!(tree.path(4), Err(CrDrError::Merkle(_))));
    assert_eq!(
        tree.root(),
        merkle_hash(merkle_hash(leaves[0], leaves[1]), merkle_hash(leaves[2], leaves[3]))
    );
}

#[test]
fn channel_flush_is_a_permutation_and_empties_the_channel() {
    let mut rng = ChaCha20Rng::seed_from_u64(11);
    let (_sk, pk) = cr_dr::crypto::encryption::ea_keygen(&mut rng);
    let mut ch = AnonymousChannel::new();
    let mut coms = Vec::new();
    for i in 0..6u64 {
        let fields = vec![F::from_u64(i); cr_dr::crypto::encryption::CAST_CT_LEN];
        let rho = cr_dr::crypto::encryption::sample_rho_enc(&mut rng);
        let ct = cr_dr::crypto::encryption::cast_encrypt(&pk, &fields, rho).unwrap();
        let entry = cr_dr::types::PublicBallot { com: F::from_u64(100 + i), ct_open: ct };
        coms.push(entry.com);
        ch.submit(entry);
    }
    let out = ch.flush_shuffled(&mut rng);
    assert_eq!(out.len(), 6);
    let mut got: Vec<u64> = out.iter().map(|s| s.entry.com.to_u64().unwrap()).collect();
    got.sort();
    assert_eq!(got, (100..106).collect::<Vec<u64>>());
    assert!(ch.flush_shuffled(&mut rng).is_empty());
}

#[test]
fn board_membership_is_exact_bytes() {
    let mut rng = ChaCha20Rng::seed_from_u64(12);
    let (_sk, pk) = cr_dr::crypto::encryption::ea_keygen(&mut rng);
    let fields = vec![F::from_u64(1); cr_dr::crypto::encryption::CAST_CT_LEN];
    let rho = cr_dr::crypto::encryption::sample_rho_enc(&mut rng);
    let ct = cr_dr::crypto::encryption::cast_encrypt(&pk, &fields, rho).unwrap();
    let entry = cr_dr::types::PublicBallot { com: F::from_u64(7), ct_open: ct };
    let mut bb = BulletinBoard::new();
    assert!(bb.is_empty());
    bb.append(entry.clone());
    assert_eq!(bb.len(), 1);
    let bytes = entry.bytes();
    assert!(bb.contains_exact_bytes(&bytes));
    let mut other = bytes.clone();
    other[31] ^= 1;
    assert!(!bb.contains_exact_bytes(&other));
    assert!(!bb.contains_exact_bytes(&bytes[..bytes.len() - 1]));
}

#[test]
fn multiset_equality_ignores_order_only() {
    let a = BallotRecord { valid: true, id: 1, pos: 0, cand_index: 2 };
    let b = BallotRecord { valid: false, id: 0, pos: 1, cand_index: 0 };
    assert!(multiset_equal(&[a, b], &[b, a]));
    assert!(!multiset_equal(&[a, b], &[a, a]));
    assert!(!multiset_equal(&[a], &[a, a]));
}

#[test]
fn record_keys_and_commitments() {
    let r = Rec { valid: true, id: 5, pos: 9, m: 2 };
    assert_eq!(r.key(), (5 << 8) | 9);
    assert_eq!(r.key_wide(), (5 << 16) | 9);
    let inv = Rec { valid: false, id: 0, pos: 3, m: 0 };
    assert_eq!(inv.key(), (1 << 16) | 3);
    assert_eq!(Rec::sentinel().id, 256);
    assert_eq!(
        record_commit(&r, F::from_u64(4)),
        poseidon(&[F::from_u64(1), F::from_u64(5), F::from_u64(9), F::from_u64(2), F::from_u64(4)])
    );
    assert_eq!(sentinel_commitment(), record_commit(&Rec::sentinel(), F::zero()));
    assert_eq!(product_chain_start(), poseidon2(F::from_u64(1), F::zero()));
}

#[test]
fn judge_report_release() {
    let r = JudgeReport::new(Verdict::VoterFaulty, "detail");
    assert_eq!(r.detail, "detail");
    assert_eq!(r.external_verdict(), Verdict::NoAuthorityFault);
    let r = JudgeReport::new(Verdict::AuthorityFaulty, "x");
    assert_eq!(r.external_verdict(), Verdict::AuthorityFaulty);
}

#[test]
fn setup_error_variants() {
    let mut rng = ChaCha20Rng::seed_from_u64(13);
    let cfg = ElectionConfig {
        eid: "e".into(),
        candidates: vec![],
        max_voters: 4,
        max_ballots: 4,
        merkle_depth: 2,
        duplicate_rule: DuplicateRule::FirstValidCounts,
        threshold_params: None,
    };
    assert!(matches!(cr_dr::protocol::setup::setup_election(cfg, &mut rng), Err(CrDrError::InvalidConfig(_))));
}

#[test]
fn degree_one_shares_combine_to_secret() {
    let mut rng = ChaCha20Rng::seed_from_u64(31);
    let secret = F::from_u64(123_456_789);
    let shares = cr_dr::crypto::shamir::share(secret, 2, 3, &mut rng).unwrap();
    assert_eq!(shares[0].index, 1);
    assert_eq!(shares[1].index, 2);
    let combined = F::from_u64(2).mul(&shares[0].value).sub(&shares[1].value);
    assert_eq!(combined, secret);
    assert_eq!(cr_dr::crypto::shamir::reconstruct(&shares[0..2]).unwrap(), secret);
}

#[test]
fn one_or_two_shares_reconstruct_low_degree_secrets() {
    let mut rng = ChaCha20Rng::seed_from_u64(32);
    let secret = F::from_u64(987_654_321);
    let shares = cr_dr::crypto::shamir::share(secret, 2, 4, &mut rng).unwrap();
    let pair = [shares[3], shares[1]];
    assert_eq!(cr_dr::crypto::shamir::reconstruct(&pair).unwrap(), secret);
    let constant = cr_dr::crypto::shamir::share(secret, 1, 3, &mut rng).unwrap();
    assert_eq!(cr_dr::crypto::shamir::reconstruct(&constant[2..3]).unwrap(), secret);
    let repeated = [shares[1], shares[1]];
    assert!(matches!(cr_dr::crypto::shamir::reconstruct(&repeated), Err(CrDrError::Threshold(_))));
}
