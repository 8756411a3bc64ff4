//! The public statement, the witness and the native relation.
#![allow(dead_code)]

use rand::SeedableRng;
use rand_chacha::ChaCha20Rng;

use cr_dr::protocol::admission::admitted_from_ballots;
use cr_dr::protocol::filter_and_tally::filter_and_tally;
use cr_dr::protocol::preprocessing::{finalize_registration, preprocess_voter, RegistrationState};
use cr_dr::protocol::setup::setup_election;
use cr_dr::types::{
    AuthoritySecretState, Ballot, DuplicateRule, ElectionConfig, InternalBallotEvaluation, PublicParams, TallyResult,
    VoterState,
};

use rand::seq::SliceRandom;

use cr_dr::protocol::admission::AdmittedOpenings;
use cr_dr::protocol::bulletin_board::{AdmittedBoard, BulletinBoard};
use cr_dr::protocol::chaff::chaff_ballot;
use cr_dr::protocol::fake_compliance::{build_fake_ballot, fake_compliance};
use cr_dr::protocol::vote::cast_vote;
use cr_dr::types::{InternalBallotStatus, F};
use cr_dr::zk::circom_io::{public_inputs_match, statement_public_inputs};
use cr_dr::zk::mock_backend::relation_check_native;
use cr_dr::zk::small_shape;
use cr_dr::zk::statement::{build_tally_statement, statement_matches_public_data, TallyStatement};
use cr_dr::zk::witness::{build_tally_witness, TallyWitness};

const CANDIDATES: [u64; 3] = [0, 1, 2];

struct Env {
    pp: PublicParams,
    authority: AuthoritySecretState,
    reg: RegistrationState,
    voters: Vec<VoterState>,
    rng: ChaCha20Rng,
}

fn rng(seed: u64) -> ChaCha20Rng {
    ChaCha20Rng::seed_from_u64(seed)
}

fn config() -> ElectionConfig {
    ElectionConfig {
        eid: "test-election".into(),
        candidates: CANDIDATES.to_vec(),
        max_voters: 8,
        max_ballots: 16,
        merkle_depth: 4,
        duplicate_rule: DuplicateRule::FirstValidCounts,
        threshold_params: None,
    }
}

/// Standard small election: 6 registered voters (ids 0..6).
fn small_election(seed: u64) -> Env {
    let mut rng = rng(seed);
    let (pp, mut authority) = setup_election(config(), &mut rng).unwrap();
    let mut voters = Vec::new();
    let mut records = Vec::new();
    for id in 0..6u64 {
        let (vs, rec) = preprocess_voter(&pp, &mut authority, id, &mut rng).unwrap();
        voters.push(vs);
        records.push(rec);
    }
    let reg = finalize_registration(&pp, &records).unwrap();
    Env { pp, authority, reg, voters, rng }
}

/// FilterAndTally over a board of ballots (their public commitments and
/// the EA-side openings).
fn tally_ballots(
    env: &Env,
    ballots: &[Ballot],
) -> cr_dr::errors::Result<(TallyResult, Vec<InternalBallotEvaluation>)> {
    let (adm, opn) = admitted_from_ballots(ballots);
    filter_and_tally(&env.pp, &env.authority, &env.reg, &adm, &opn)
}

struct Instance {
    env: Env,
    bb: BulletinBoard,
    admitted: AdmittedBoard,
    openings: AdmittedOpenings,
    ballots: Vec<Ballot>,
    tally: TallyResult,
    statement: TallyStatement,
    witness: TallyWitness,
}

fn build_instance(seed: u64) -> Instance {
    let mut env = small_election(seed);
    let mut ballots = Vec::new();
    // coerced voter 0: fake for candidate 2, real for candidate 0
    let coerced = env.voters[0].clone();
    let t = fake_compliance(&env.pp, &coerced, 2, &mut env.rng).unwrap();
    ballots.push(build_fake_ballot(&env.pp, &t, &mut env.rng).unwrap());
    ballots.push(cast_vote(&env.pp, &env.reg, &coerced, 0, &mut env.rng).unwrap());
    for (i, cand) in [1u64, 1, 2].iter().enumerate() {
        let voter = env.voters[i + 1].clone();
        ballots.push(cast_vote(&env.pp, &env.reg, &voter, *cand, &mut env.rng).unwrap());
    }
    ballots.push(chaff_ballot(&env.pp, &mut env.rng).unwrap());
    ballots.shuffle(&mut env.rng);
    let mut bb = BulletinBoard::new();
    for b in &ballots {
        bb.append(b.public());
    }
    let (admitted, openings) = admitted_from_ballots(&ballots);
    let (tally, _) = filter_and_tally(&env.pp, &env.authority, &env.reg, &admitted, &openings).unwrap();
    let statement = build_tally_statement(&env.pp, &admitted, &env.reg, &tally);
    let witness = build_tally_witness(&env.pp, &env.authority, &env.reg, &admitted, &openings).unwrap();
    Instance { env, bb, admitted, openings, ballots, tally, statement, witness }
}

#[test]
fn native_relation_accepts_valid_witness() {
    let inst = build_instance(70);
    assert_eq!(inst.tally.counts, vec![1, 2, 1]);
    assert!(relation_check_native(&inst.statement, &inst.witness, &small_shape()));
}

#[test]
fn native_relation_rejects_wrong_tally() {
    let inst = build_instance(71);
    let mut bad = inst.statement.clone();
    bad.tally_counts[2] += 1;
    assert!(!relation_check_native(&bad, &inst.witness, &small_shape()));
    let mut bad2 = inst.statement.clone();
    bad2.tally_counts.swap(0, 1);
    assert!(!relation_check_native(&bad2, &inst.witness, &small_shape()));
}

#[test]
fn native_relation_rejects_tampered_public_inputs() {
    let inst = build_instance(72);
    let f1 = F::from_u64(1);

    let mut bad = inst.statement.clone();
    bad.bb_commitment = bad.bb_commitment.add(&f1);
    assert!(!relation_check_native(&bad, &inst.witness, &small_shape()));

    let mut bad = inst.statement.clone();
    bad.mr = bad.mr.add(&f1);
    assert!(!relation_check_native(&bad, &inst.witness, &small_shape()));

    let mut bad = inst.statement.clone();
    bad.eid_hash = bad.eid_hash.add(&f1);
    assert!(!relation_check_native(&bad, &inst.witness, &small_shape()));

    let mut bad = inst.statement.clone();
    bad.duplicate_rule_id = 2;
    assert!(!relation_check_native(&bad, &inst.witness, &small_shape()));

    let mut bad = inst.statement.clone();
    bad.num_ballots += 1;
    assert!(!relation_check_native(&bad, &inst.witness, &small_shape()));
}

#[test]
fn witness_flags_match_native_evaluation() {
    let inst = build_instance(73);
    let (_, evals) =
        filter_and_tally(&inst.env.pp, &inst.env.authority, &inst.env.reg, &inst.admitted, &inst.openings).unwrap();
    let counted: u64 = inst.witness.rows.iter().filter(|r| r.expect_counted).count() as u64;
    assert_eq!(counted, inst.tally.counted_ballots);
    for (row, eval) in inst.witness.rows.iter().zip(&evals) {
        assert_eq!(row.expect_counted, matches!(eval.status, InternalBallotStatus::Counted));
        assert_eq!(
            row.expect_valid,
            matches!(eval.status, InternalBallotStatus::Counted | InternalBallotStatus::DuplicateValidBallot)
        );
    }
}

#[test]
fn statement_contains_no_identities_or_validity_labels() {
    // The statement's fields are exactly the public values below (the
    // exhaustive destructuring fails to compile if a field is added), and
    // the public tally result holds only counts.
    let inst = build_instance(74);
    let TallyStatement {
        eid_hash: _,
        pk_ea_commitment: _,
        mr: _,
        candidate_set_commitment: _,
        tally_counts,
        bb_commitment: _,
        num_ballots,
        num_voters,
        duplicate_rule_id,
    } = inst.statement.clone();
    assert_eq!(tally_counts, inst.tally.counts);
    assert_eq!(num_ballots, 6);
    assert_eq!(num_voters, 6);
    assert_eq!(duplicate_rule_id, 1);
    let TallyResult { counts, counted_ballots } = inst.tally.clone();
    assert_eq!(counts.len(), 3);
    assert_eq!(counted_ballots, 4);
}

#[test]
fn statement_binding_rejects_tampered_unconstrained_fields() {
    // num_voters and pk_ea_commitment carry no in-circuit constraints; the
    // native statement check against public data must catch tampering.
    let inst = build_instance(76);
    assert!(statement_matches_public_data(&inst.statement, &inst.env.pp, &inst.admitted, &inst.env.reg));

    let mut bad = inst.statement.clone();
    bad.num_voters += 1;
    assert!(!statement_matches_public_data(&bad, &inst.env.pp, &inst.admitted, &inst.env.reg));

    let mut bad = inst.statement.clone();
    bad.pk_ea_commitment = bad.pk_ea_commitment.add(&F::from_u64(1));
    assert!(!statement_matches_public_data(&bad, &inst.env.pp, &inst.admitted, &inst.env.reg));

    let mut bad = inst.statement.clone();
    bad.num_ballots += 1;
    assert!(!statement_matches_public_data(&bad, &inst.env.pp, &inst.admitted, &inst.env.reg));
}

#[test]
fn proof_public_inputs_are_bound_to_the_statement() {
    let inst = build_instance(77);
    let public = statement_public_inputs(&inst.statement);
    assert!(public_inputs_match(&public, &inst.statement));
    assert_eq!(public.len(), 8 + 3);
    assert_eq!(public[4], "6");
    assert_eq!(public[6], "1");

    // A proof carrying a different statement's public inputs must not match.
    let mut other = inst.statement.clone();
    other.num_voters += 1;
    let other_public = statement_public_inputs(&other);
    assert!(!public_inputs_match(&other_public, &inst.statement));
    assert!(!public_inputs_match(&public[..10].to_vec(), &inst.statement));
}

#[test]
fn serialized_public_board_contains_no_openings() {
    // The public board exposes only (com, ct_open): each entry's bytes are
    // 13 field elements and none of them is an opening value.
    let inst = build_instance(78);
    for (entry, ballot) in inst.bb.list_public_ballots().iter().zip(&inst.ballots) {
        let bytes = entry.bytes();
        assert_eq!(bytes.len(), 32 * 13);
        for f in ballot.secret.opening.plaintext_fields.iter().chain([&ballot.secret.opening.rho]) {
            let fb = f.to_bytes_be();
            if f.to_u64().is_some() {
                continue; // small values collide with chance byte runs
            }
            assert!(!bytes.windows(32).any(|w| w == fb.as_slice()), "board leaks an opening value");
        }
    }
}

#[test]
fn relation_rejects_witness_ballot_swap() {
    // Swapping two ballots in the witness breaks the BB chain binding.
    let inst = build_instance(75);
    let mut bad = inst.witness.clone();
    if bad.rows.len() >= 2 && bad.rows[0].ct != bad.rows[1].ct {
        bad.rows.swap(0, 1);
        assert!(!relation_check_native(&inst.statement, &bad, &small_shape()));
    }
}

#[test]
fn prover_cannot_withhold_the_path_of_an_in_range_ballot() {
    // The Merkle path of an active ballot with an in-range identity is a
    // hard constraint: zeroing it makes the witness unsatisfiable instead of
    // producing a proof of a smaller tally.
    let inst = build_instance(75);
    let idx = inst.witness.rows.iter().position(|r| r.expect_valid).expect("instance has a valid ballot");

    let mut w = inst.witness.clone();
    for e in &mut w.rows[idx].merkle_path {
        *e = F::from_u64(0);
    }
    let mut bad_statement = inst.statement.clone();
    bad_statement.tally_counts = inst.statement.tally_counts.clone();
    assert!(!relation_check_native(&bad_statement, &w, &small_shape()));

    // Substitute a different (but real) row: root check fails too.
    let mut w2 = inst.witness.clone();
    let other = (0..inst.env.reg.num_voters())
        .find(|i| inst.env.reg.records[*i].vk.x != w2.rows[idx].reg_vkx)
        .expect("another registered row exists");
    let rec = inst.env.reg.records[other];
    w2.rows[idx].reg_vkx = rec.vk.x;
    w2.rows[idx].reg_vky = rec.vk.y;
    w2.rows[idx].reg_h = rec.h;
    assert!(!relation_check_native(&inst.statement, &w2, &small_shape()));
}

#[test]
fn num_voters_is_constrained_by_the_relation() {
    // Shrinking num_voters below a counted voter's id must break the relation.
    let inst = build_instance(76);
    let mut bad = inst.statement.clone();
    bad.num_voters = 0; // every id now out of range => all ballots invalid
    assert!(!relation_check_native(&bad, &inst.witness, &small_shape()));
}
