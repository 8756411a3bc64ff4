//! What goes wrong when the design invariants are broken, against the
//! library's behaviour.
#![allow(dead_code)]

use rand::SeedableRng;
use rand_chacha::ChaCha20Rng;

use cr_dr::protocol::admission::admitted_from_ballots;
use cr_dr::protocol::filter_and_tally::filter_and_tally;
use cr_dr::protocol::preprocessing::{finalize_registration, preprocess_voter, RegistrationState};
use cr_dr::protocol::setup::setup_election;
use cr_dr::types::{
    AuthoritySecretState, Ballot, DuplicateRule, ElectionConfig, InternalBallotEvaluation, PublicParams, TallyResult,
    VoterState,
};

use std::collections::HashSet;

use cr_dr::crypto::hash::h_com;
use cr_dr::disputes::judge::Verdict;
use cr_dr::disputes::tallied_as_recorded::{
    judge_tallied_as_recorded, AuthorityEvidence, NonceSource, TalliedAsRecordedComplaint, TallyProofStatus,
};
use cr_dr::protocol::fake_compliance::{build_fake_ballot, fake_compliance};
use cr_dr::protocol::vote::cast_vote;
use cr_dr::types::{BallotPlaintext, InternalBallotStatus};

const CANDIDATES: [u64; 3] = [0, 1, 2];

struct Env {
    pp: PublicParams,
    authority: AuthoritySecretState,
    reg: RegistrationState,
    voters: Vec<VoterState>,
    rng: ChaCha20Rng,
}

fn rng(seed: u64) -> ChaCha20Rng {
    ChaCha20Rng::seed_from_u64(seed)
}

fn config() -> ElectionConfig {
    ElectionConfig {
        eid: "test-election".into(),
        candidates: CANDIDATES.to_vec(),
        max_voters: 8,
        max_ballots: 16,
        merkle_depth: 4,
        duplicate_rule: DuplicateRule::FirstValidCounts,
        threshold_params: None,
    }
}

/// Standard small election: 6 registered voters (ids 0..6).
fn small_election(seed: u64) -> Env {
    let mut rng = rng(seed);
    let (pp, mut authority) = setup_election(config(), &mut rng).unwrap();
    let mut voters = Vec::new();
    let mut records = Vec::new();
    for id in 0..6u64 {
        let (vs, rec) = preprocess_voter(&pp, &mut authority, id, &mut rng).unwrap();
        voters.push(vs);
        records.push(rec);
    }
    let reg = finalize_registration(&pp, &records).unwrap();
    Env { pp, authority, reg, voters, rng }
}

/// FilterAndTally over a board of ballots (their public commitments and
/// the EA-side openings).
fn tally_ballots(
    env: &Env,
    ballots: &[Ballot],
) -> cr_dr::errors::Result<(TallyResult, Vec<InternalBallotEvaluation>)> {
    let (adm, opn) = admitted_from_ballots(ballots);
    filter_and_tally(&env.pp, &env.authority, &env.reg, &adm, &opn)
}

/// A deliberately broken tally: the voter's slot is consumed before the
/// validity check.
fn broken_tally_duplicates_before_validity(env: &Env, ballots: &[Ballot]) -> Vec<u64> {
    let mut counts = vec![0u64; env.pp.candidates.len()];
    let mut seen: HashSet<u64> = HashSet::new();
    for ballot in ballots {
        let Ok(pt) = BallotPlaintext::from_fields(&ballot.secret.opening.plaintext_fields) else {
            continue;
        };
        // Wrong: slot consumed before any validity check.
        if !seen.insert(pt.id) {
            continue;
        }
        let (_, evals) = tally_ballots(env, &[ballot.clone()]).unwrap();
        if evals[0].status == InternalBallotStatus::Counted {
            let pos = env.pp.candidates.iter().position(|c| *c == pt.candidate).unwrap();
            counts[pos] += 1;
        }
    }
    counts
}

#[test]
fn duplicate_handling_before_validity_lets_fake_block_real() {
    let mut env = small_election(110);
    let voter = env.voters[0].clone();
    let t = fake_compliance(&env.pp, &voter, 2, &mut env.rng).unwrap();
    let fake = build_fake_ballot(&env.pp, &t, &mut env.rng).unwrap();
    let real = cast_vote(&env.pp, &env.reg, &voter, 0, &mut env.rng).unwrap();
    let board = vec![fake, real];

    // Broken order: the fake ballot consumes the slot; the real vote is lost.
    let broken = broken_tally_duplicates_before_validity(&env, &board);
    assert_eq!(broken, vec![0, 0, 0]);

    // Correct order: the real vote counts.
    let (tally, _) = tally_ballots(&env, &board).unwrap();
    assert_eq!(tally.counts, vec![1, 0, 0]);
}

#[test]
fn publishing_accepted_identities_leaks_forced_abstention() {
    // If the set of counted voter ids were public, a coercer could check
    // whether the coerced voter's id was counted.
    let mut env = small_election(111);
    let coerced = env.voters[0].clone();
    let t = fake_compliance(&env.pp, &coerced, 2, &mut env.rng).unwrap();
    let v1 = env.voters[1].clone();
    let board = vec![
        build_fake_ballot(&env.pp, &t, &mut env.rng).unwrap(),
        cast_vote(&env.pp, &env.reg, &coerced, 0, &mut env.rng).unwrap(),
        cast_vote(&env.pp, &env.reg, &v1, 1, &mut env.rng).unwrap(),
    ];
    let (tally, internal) = tally_ballots(&env, &board).unwrap();

    let counted_ids: HashSet<u64> = internal
        .iter()
        .filter(|e| e.status == InternalBallotStatus::Counted)
        .filter_map(|e| e.voter_id)
        .collect();
    assert!(counted_ids.contains(&coerced.id)); // coercer would detect evasion

    // The public output exposes no identities: only counts and a size.
    let TallyResult { counts, counted_ballots } = tally;
    assert_eq!(counts, vec![1, 1, 0]);
    assert_eq!(counted_ballots, 2);
}

#[test]
fn giving_r_ea_to_the_coercer_breaks_fake_compliance() {
    // If the coercer learns R_EA,i, the fake nonce is detectable.
    let mut env = small_election(112);
    let coerced = env.voters[0].clone();
    let t = fake_compliance(&env.pp, &coerced, 2, &mut env.rng).unwrap();
    let r_ea = env.authority.r_ea(coerced.id).unwrap(); // leaked!
    let record = *env.reg.record(coerced.id).unwrap();

    let h_fake = h_com(env.pp.eid_hash, coerced.id, &t.vk, t.r_fake, r_ea);
    assert_ne!(h_fake, record.h, "coercer detects the fake nonce given R_EA");

    let h_real = h_com(env.pp.eid_hash, coerced.id, &coerced.vk, coerced.r, r_ea);
    assert_eq!(h_real, record.h);
}

#[test]
fn public_detailed_verdicts_leak_evasion_status() {
    // Detailed verdicts differ between a fake-compliance ballot and a real
    // one, so they must stay judge-private.
    let mut env = small_election(113);
    let coerced = env.voters[0].clone();

    let t = fake_compliance(&env.pp, &coerced, 2, &mut env.rng).unwrap();
    let fake = build_fake_ballot(&env.pp, &t, &mut env.rng).unwrap();
    let real = cast_vote(&env.pp, &env.reg, &coerced, 0, &mut env.rng).unwrap();
    let (adm, opn) = admitted_from_ballots(&[fake.clone(), real.clone()]);
    let r_ea = env.authority.r_ea(coerced.id).unwrap();

    let judge = |ballot: &Ballot| {
        let opening = ballot.secret.opening.clone();
        let complaint = TalliedAsRecordedComplaint { com: ballot.com, opening };
        let evidence = AuthorityEvidence {
            nonce_source: NonceSource::Direct(r_ea),
            openings: &opn,
            tally_proof: TallyProofStatus::Verified,
        };
        judge_tallied_as_recorded(&env.pp, &env.reg, &adm, &complaint, &evidence)
    };

    let fake_report = judge(&fake);
    let real_report = judge(&real);

    assert_eq!(fake_report.verdict, Verdict::VoterFaulty);
    assert_ne!(fake_report.verdict, real_report.verdict);
    // The released verdicts coincide.
    assert_eq!(fake_report.external_verdict(), real_report.external_verdict());
}
