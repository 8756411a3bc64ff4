//! The cast format: the native cast relation, the binding of pi_cast's
//! public inputs to a board entry, cleaning, and public leakage.
#![allow(dead_code)]

use rand::SeedableRng;
use rand_chacha::ChaCha20Rng;

use cr_dr::protocol::admission::admitted_from_ballots;
use cr_dr::protocol::filter_and_tally::filter_and_tally;
use cr_dr::protocol::preprocessing::{finalize_registration, preprocess_voter, RegistrationState};
use cr_dr::protocol::setup::setup_election;
use cr_dr::types::{
    AuthoritySecretState, Ballot, DuplicateRule, ElectionConfig, InternalBallotEvaluation, PublicParams, TallyResult,
    VoterState,
};

use cr_dr::protocol::admission::{clean, ea_open_admitted};
use cr_dr::protocol::bulletin_board::BulletinBoard;
use cr_dr::protocol::chaff::chaff_ballot;
use cr_dr::protocol::fake_compliance::{build_fake_ballot, fake_compliance};
use cr_dr::protocol::vote::cast_vote;
use cr_dr::types::{f_to_bytes_be, f_to_dec, PublicBallot, F};
use cr_dr::zk::cast::{cast_binding_ok, cast_publics, cast_relation_check_native, CastProof};
use cr_dr::zk::statement::{build_tally_statement, statement_matches_public_data};

const CANDIDATES: [u64; 3] = [0, 1, 2];

struct Env {
    pp: PublicParams,
    authority: AuthoritySecretState,
    reg: RegistrationState,
    voters: Vec<VoterState>,
    rng: ChaCha20Rng,
}

fn rng(seed: u64) -> ChaCha20Rng {
    ChaCha20Rng::seed_from_u64(seed)
}

fn config() -> ElectionConfig {
    ElectionConfig {
        eid: "test-election".into(),
        candidates: CANDIDATES.to_vec(),
        max_voters: 8,
        max_ballots: 16,
        merkle_depth: 4,
        duplicate_rule: DuplicateRule::FirstValidCounts,
        threshold_params: None,
    }
}

/// Standard small election: 6 registered voters (ids 0..6).
fn small_election(seed: u64) -> Env {
    let mut rng = rng(seed);
    let (pp, mut authority) = setup_election(config(), &mut rng).unwrap();
    let mut voters = Vec::new();
    let mut records = Vec::new();
    for id in 0..6u64 {
        let (vs, rec) = preprocess_voter(&pp, &mut authority, id, &mut rng).unwrap();
        voters.push(vs);
        records.push(rec);
    }
    let reg = finalize_registration(&pp, &records).unwrap();
    Env { pp, authority, reg, voters, rng }
}

/// FilterAndTally over a board of ballots (their public commitments and
/// the EA-side openings).
fn tally_ballots(
    env: &Env,
    ballots: &[Ballot],
) -> cr_dr::errors::Result<(TallyResult, Vec<InternalBallotEvaluation>)> {
    let (adm, opn) = admitted_from_ballots(ballots);
    filter_and_tally(&env.pp, &env.authority, &env.reg, &adm, &opn)
}

/// A proof object carrying exactly the public inputs of `entry` (the
/// Groth16 part is produced and checked by the proving toolchain).
fn bound_proof(pp: &PublicParams, entry: &PublicBallot) -> CastProof {
    CastProof { proof: String::from("{}"), public: cast_publics(&pp.pk_ea, entry) }
}

fn hex(bytes: &[u8]) -> String {
    bytes.iter().map(|b| format!("{b:02x}")).collect()
}

#[test]
fn valid_cast_proof_accepted() {
    let mut env = small_election(400);
    let ballot = cast_vote(&env.pp, &env.reg, &env.voters[0], 1, &mut env.rng).unwrap();
    assert!(cast_relation_check_native(&env.pp.pk_ea, &ballot.public(), &ballot.secret));
    let proof = bound_proof(&env.pp, &ballot.public());
    assert!(cast_binding_ok(&env.pp.pk_ea, &ballot.public(), &proof));
}

#[test]
fn tampered_com_rejected_by_cast_verification() {
    let mut env = small_election(401);
    let ballot = cast_vote(&env.pp, &env.reg, &env.voters[0], 1, &mut env.rng).unwrap();
    let mut entry = ballot.public();
    entry.com = entry.com.add(&F::from_u64(1));
    // Native relation rejects...
    assert!(!cast_relation_check_native(&env.pp.pk_ea, &entry, &ballot.secret));
    // ...and a proof for the original entry does not bind the tampered one.
    let proof = bound_proof(&env.pp, &ballot.public());
    assert!(!cast_binding_ok(&env.pp.pk_ea, &entry, &proof));
}

#[test]
fn tampered_ct_open_rejected_by_cast_verification() {
    let mut env = small_election(402);
    let ballot = cast_vote(&env.pp, &env.reg, &env.voters[0], 2, &mut env.rng).unwrap();
    let mut entry = ballot.public();
    entry.ct_open.masked[4] = entry.ct_open.masked[4].add(&F::from_u64(1)); // tamper the encrypted candidate
    assert!(!cast_relation_check_native(&env.pp.pk_ea, &entry, &ballot.secret));
    let proof = bound_proof(&env.pp, &ballot.public());
    assert!(!cast_binding_ok(&env.pp.pk_ea, &entry, &proof));
}

#[test]
fn tampered_cast_proof_rejected() {
    let mut env = small_election(403);
    let ballot = cast_vote(&env.pp, &env.reg, &env.voters[0], 0, &mut env.rng).unwrap();
    let proof = bound_proof(&env.pp, &ballot.public());

    // Corrupt the bound public inputs: claims a different com.
    let mut bad2 = proof.clone();
    bad2.public[0] = String::from("12345");
    assert!(!cast_binding_ok(&env.pp.pk_ea, &ballot.public(), &bad2));

    // A proof from a different ballot must not transplant.
    let other = cast_vote(&env.pp, &env.reg, &env.voters[1], 1, &mut env.rng).unwrap();
    let other_proof = bound_proof(&env.pp, &other.public());
    assert!(!cast_binding_ok(&env.pp.pk_ea, &ballot.public(), &other_proof));
}

#[test]
fn fake_compliance_ballot_has_valid_cast_proof() {
    // pi_cast attests casting well-formedness only: a fake-compliance
    // ballot casts validly and fails only the hidden nonce relation.
    let mut env = small_election(404);
    let t = fake_compliance(&env.pp, &env.voters[0], 2, &mut env.rng).unwrap();
    let fake = build_fake_ballot(&env.pp, &t, &mut env.rng).unwrap();
    assert!(cast_relation_check_native(&env.pp.pk_ea, &fake.public(), &fake.secret));
    assert!(cast_binding_ok(&env.pp.pk_ea, &fake.public(), &bound_proof(&env.pp, &fake.public())));
}

#[test]
fn chaff_ballot_has_valid_cast_proof() {
    let mut env = small_election(405);
    let chaff = chaff_ballot(&env.pp, &mut env.rng).unwrap();
    assert!(cast_relation_check_native(&env.pp.pk_ea, &chaff.public(), &chaff.secret));
    assert!(cast_binding_ok(&env.pp.pk_ea, &chaff.public(), &bound_proof(&env.pp, &chaff.public())));
}

#[test]
fn public_ballot_bytes_leak_nothing() {
    // The public representation of a board (the entry bytes) contains none
    // of: the opening fields (incl. R and the signature), r_com, rho_enc,
    // R_i or R_EA,i.
    let mut env = small_election(406);
    let coerced = env.voters[0].clone();
    let t = fake_compliance(&env.pp, &coerced, 2, &mut env.rng).unwrap();
    let ballots: Vec<Ballot> = vec![
        build_fake_ballot(&env.pp, &t, &mut env.rng).unwrap(),
        cast_vote(&env.pp, &env.reg, &coerced, 0, &mut env.rng).unwrap(),
        chaff_ballot(&env.pp, &mut env.rng).unwrap(),
    ];
    let mut board = BulletinBoard::new();
    for b in &ballots {
        board.append(b.public());
    }
    let board_hex: String = board.list_public_ballots().iter().map(|b| hex(&b.bytes())).collect::<Vec<_>>().join("");

    let mut secrets: Vec<(String, F)> = Vec::new();
    for (i, b) in ballots.iter().enumerate() {
        for (j, f) in b.secret.opening.plaintext_fields.iter().enumerate() {
            secrets.push((format!("ballot {i} opening[{j}]"), *f));
        }
        secrets.push((format!("ballot {i} r_com"), b.secret.opening.rho));
        secrets.push((format!("ballot {i} rho_enc"), b.secret.rho_enc));
    }
    secrets.push(("voter R_i".into(), coerced.r));
    secrets.push(("R_EA,i".into(), env.authority.r_ea(coerced.id).unwrap()));

    for (label, val) in &secrets {
        if f_to_dec(val).len() <= 8 {
            continue; // short ids/candidates collide as substrings
        }
        assert!(!board_hex.contains(&hex(&f_to_bytes_be(val))), "board bytes leak {label}");
    }
}

#[test]
fn clean_admits_exactly_valid_cast_entries_and_tally_binds_admitted_board() {
    let mut env = small_election(410);

    // real + fake-compliance + chaff (all with binding proofs), plus one
    // entry with a tampered com (its proof cannot bind) and one with no
    // proof at all.
    let coerced = env.voters[0].clone();
    let t = fake_compliance(&env.pp, &coerced, 2, &mut env.rng).unwrap();
    let v1 = env.voters[1].clone();
    let good: Vec<Ballot> = vec![
        build_fake_ballot(&env.pp, &t, &mut env.rng).unwrap(),
        cast_vote(&env.pp, &env.reg, &coerced, 0, &mut env.rng).unwrap(),
        cast_vote(&env.pp, &env.reg, &v1, 1, &mut env.rng).unwrap(),
        chaff_ballot(&env.pp, &mut env.rng).unwrap(),
    ];
    let mut raw = BulletinBoard::new();
    let mut proofs = Vec::new();
    for b in &good {
        raw.append(b.public());
        proofs.push(Some(bound_proof(&env.pp, &b.public())));
    }
    let v2 = env.voters[2].clone();
    let bad = cast_vote(&env.pp, &env.reg, &v2, 2, &mut env.rng).unwrap();
    let bad_proof = bound_proof(&env.pp, &bad.public());
    let mut bad_entry = bad.public();
    bad_entry.com = bad_entry.com.add(&F::from_u64(1));
    raw.append(bad_entry.clone());
    proofs.push(Some(bad_proof));
    let v3 = env.voters[3].clone();
    let np = cast_vote(&env.pp, &env.reg, &v3, 1, &mut env.rng).unwrap();
    raw.append(np.public());
    proofs.push(None);

    // The verification outcome of each proof against its entry.
    let verdicts: Vec<bool> = raw
        .list_public_ballots()
        .iter()
        .zip(&proofs)
        .map(|(e, p)| p.as_ref().map_or(false, |p| cast_binding_ok(&env.pp.pk_ea, e, p)))
        .collect();

    // Public recomputation: BB_adm = Clean(BB_raw).
    let (admitted, indices) = clean(&raw, &proofs, &verdicts).unwrap();
    assert_eq!(admitted.len(), 4);
    assert_eq!(indices, vec![0, 1, 2, 3]);
    assert!(admitted.contains(&good[0].com), "fake-compliance entry must be admitted");
    assert!(admitted.contains(&good[3].com), "chaff entry must be admitted");
    assert!(!admitted.contains(&bad_entry.com));
    assert!(!admitted.contains(&np.com));

    // The EA decrypts the admitted openings and tallies; fake and chaff are
    // rejected only inside the private tally relation.
    let openings = ea_open_admitted(&env.authority, &raw, &indices).unwrap();
    let (tally, _) = filter_and_tally(&env.pp, &env.authority, &env.reg, &admitted, &openings).unwrap();
    assert_eq!(tally.counts, vec![1, 1, 0]);

    let statement = build_tally_statement(&env.pp, &admitted, &env.reg, &tally);
    assert!(statement_matches_public_data(&statement, &env.pp, &admitted, &env.reg));
    let (admitted2, _) = clean(&raw, &proofs, &verdicts).unwrap();
    assert_eq!(admitted, admitted2, "Clean is deterministic and publicly recomputable");
}
