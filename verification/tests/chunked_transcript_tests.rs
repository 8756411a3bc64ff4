//! Public chunked-transcript verification: `verify_chunked_public_transcript`
//! consumes only the statement, the admitted board, the public transcript,
//! the proofs' public inputs and the Groth16 verdicts, and must reject every
//! malicious transcript mutation. The verdicts are all true here except
//! where a test says otherwise, so the tests isolate the public checks.

use cr_dr::protocol::admission::admitted_from_ballots;
use cr_dr::protocol::bulletin_board::AdmittedBoard;
use cr_dr::protocol::chaff::chaff_ballot;
use cr_dr::protocol::filter_and_tally::filter_and_tally;
use cr_dr::protocol::preprocessing::{finalize_registration, preprocess_voter};
use cr_dr::protocol::setup::setup_election;
use cr_dr::protocol::vote::cast_vote;
use cr_dr::types::{DuplicateRule, ElectionConfig, F};
use cr_dr::zk::chunked::{
    build_chunked_tally, chunked_relation_check_native, transcript_sorted_run_publics, transcript_tally_sum_publics,
    transcript_validity_publics, verify_chunked_public_transcript, ChunkProof, ChunkedProofs, ChunkedTally,
    ChunkedTranscript, ChunkedVerdicts, CHUNK_SIZE,
};
use rand::SeedableRng;
use rand_chacha::ChaCha20Rng;

struct Fixture {
    ct: ChunkedTally,
    admitted: AdmittedBoard,
}

/// K=2 chunked board (256 slots): voter 0 votes twice (both valid), with
/// her ballots in different chunks (slot 0 and slot 200, no shuffle), 9
/// more honest voters, chaff fill.
fn build(seed: u64) -> Fixture {
    let mut rng = ChaCha20Rng::seed_from_u64(seed);
    let config = ElectionConfig {
        eid: "chunked-transcript-test".into(),
        candidates: vec![0, 1, 2],
        max_voters: 64,
        max_ballots: 1 << 16,
        merkle_depth: 6,
        duplicate_rule: DuplicateRule::FirstValidCounts,
        threshold_params: Some(cr_dr::types::ThresholdParams { t: 2, k: 3 }),
    };
    let (pp, mut authority) = setup_election(config, &mut rng).unwrap();
    let mut voters = Vec::new();
    let mut records = Vec::new();
    for id in 0..10u64 {
        let (vs, rec) = preprocess_voter(&pp, &mut authority, id, &mut rng).unwrap();
        voters.push(vs);
        records.push(rec);
    }
    let reg = finalize_registration(&pp, &records).unwrap();

    // slot 0: voter 0's first valid ballot (candidate 0), chunk 0
    let mut ballots = vec![cast_vote(&pp, &reg, &voters[0], 0, &mut rng).unwrap()];
    // slots 1..10: voters 1..10, candidate 1
    for v in voters.iter().skip(1) {
        ballots.push(cast_vote(&pp, &reg, v, 1, &mut rng).unwrap());
    }
    while ballots.len() < 200 {
        ballots.push(chaff_ballot(&pp, &mut rng).unwrap());
    }
    // slot 200: voter 0's second valid ballot (candidate 2), chunk 1
    ballots.push(cast_vote(&pp, &reg, &voters[0], 2, &mut rng).unwrap());
    while ballots.len() < 256 {
        ballots.push(chaff_ballot(&pp, &mut rng).unwrap());
    }

    let (admitted, openings) = admitted_from_ballots(&ballots);
    let (tally, _) = filter_and_tally(&pp, &authority, &reg, &admitted, &openings).unwrap();
    // duplicate rule: voter 0's first valid ballot counts, her second does not
    assert_eq!(tally.counts, vec![1, 9, 0], "cross-chunk duplicate counted exactly once");
    let ct = build_chunked_tally(&pp, &authority, &reg, &admitted, &openings, CHUNK_SIZE, &mut rng).unwrap();
    assert_eq!(ct.k_chunks, 2);
    Fixture { ct, admitted }
}

fn proof_with(public: Vec<String>) -> ChunkProof {
    ChunkProof { proof: String::new(), public }
}

/// Honest proof objects: empty proofs carrying the expected publics.
fn honest_proofs(ct: &ChunkedTally) -> ChunkedProofs {
    let tr = ct.transcript();
    ChunkedProofs {
        validity: (0..ct.k_chunks).map(|k| proof_with(transcript_validity_publics(&ct.statement, &tr, k))).collect(),
        sorted_run: (0..ct.k_chunks).map(|k| proof_with(transcript_sorted_run_publics(&tr, k))).collect(),
        tally_sum: proof_with(transcript_tally_sum_publics(&ct.statement, &tr)),
    }
}

fn all_verified(k: usize) -> ChunkedVerdicts {
    ChunkedVerdicts { validity: vec![true; k], sorted_run: vec![true; k], tally_sum: true }
}

fn verify(f: &Fixture, tr: &ChunkedTranscript, proofs: &ChunkedProofs) -> bool {
    verify_chunked_public_transcript(&f.ct.statement, &f.admitted, tr, proofs, &all_verified(f.ct.k_chunks))
}

#[test]
fn honest_transcript_verifies_and_cross_chunk_duplicate_counts_once() {
    let f = build(200);
    assert!(chunked_relation_check_native(&f.ct));
    let tr = f.ct.transcript();
    assert!(verify(&f, &tr, &honest_proofs(&f.ct)));
    assert_eq!(f.ct.statement.tally_counts, vec![1, 9, 0]);
}

#[test]
fn swapped_chunk_proofs_rejected() {
    let f = build(201);
    let tr = f.ct.transcript();
    let mut proofs = honest_proofs(&f.ct);
    proofs.validity.swap(0, 1); // proof k=1 presented as k=0
    assert!(!verify(&f, &tr, &proofs));
    let mut proofs = honest_proofs(&f.ct);
    proofs.sorted_run.swap(0, 1);
    assert!(!verify(&f, &tr, &proofs));
}

#[test]
fn broken_board_chain_rejected() {
    let f = build(202);
    let mut tr = f.ct.transcript();
    tr.bb[1] = tr.bb[1].add(&F::from_u64(1));
    assert!(!verify(&f, &tr, &honest_proofs(&f.ct)));
}

#[test]
fn dropped_admitted_commitment_rejected() {
    let f = build(203);
    let tr = f.ct.transcript();
    let mut admitted = f.admitted.clone();
    admitted.coms.remove(37);
    assert!(!verify_chunked_public_transcript(
        &f.ct.statement,
        &admitted,
        &tr,
        &honest_proofs(&f.ct),
        &all_verified(f.ct.k_chunks)
    ));
}

#[test]
fn broken_boundary_chain_rejected() {
    let f = build(204);
    // boundary_cm[0] must be the public sentinel
    let mut tr = f.ct.transcript();
    tr.boundary_cm[0] = tr.boundary_cm[0].add(&F::from_u64(1));
    assert!(!verify(&f, &tr, &honest_proofs(&f.ct)));
    // an interior boundary commitment cannot be replaced
    let mut tr = f.ct.transcript();
    tr.boundary_cm[1] = tr.boundary_cm[1].add(&F::from_u64(1));
    assert!(!verify(&f, &tr, &honest_proofs(&f.ct)));
}

#[test]
fn forged_challenge_rejected() {
    let f = build(205);
    let mut tr = f.ct.transcript();
    tr.gamma = tr.gamma.add(&F::from_u64(1));
    assert!(!verify(&f, &tr, &honest_proofs(&f.ct)));
    let mut tr = f.ct.transcript();
    tr.delta = tr.delta.add(&F::from_u64(1));
    assert!(!verify(&f, &tr, &honest_proofs(&f.ct)));
}

#[test]
fn changed_record_commitment_rejected() {
    let f = build(206);
    let mut tr = f.ct.transcript();
    tr.rc[1] = tr.rc[1].add(&F::from_u64(1)); // breaks the Fiat-Shamir derivation
    assert!(!verify(&f, &tr, &honest_proofs(&f.ct)));
}

#[test]
fn changed_sorted_run_commitment_rejected() {
    let f = build(207);
    let mut tr = f.ct.transcript();
    tr.sc[0] = tr.sc[0].add(&F::from_u64(1));
    assert!(!verify(&f, &tr, &honest_proofs(&f.ct)));
}

#[test]
fn shifted_partial_tally_rejected() {
    let f = build(208);
    let mut tr = f.ct.transcript();
    tr.tc[0] = tr.tc[0].add(&F::from_u64(1));
    assert!(!verify(&f, &tr, &honest_proofs(&f.ct)));
}

#[test]
fn tampered_product_chain_rejected() {
    let f = build(209);
    // product chains must start at the public commitment to 1
    let mut tr = f.ct.transcript();
    tr.acc_p_cm[0] = tr.acc_p_cm[0].add(&F::from_u64(1));
    assert!(!verify(&f, &tr, &honest_proofs(&f.ct)));
    // an interior accumulator commitment cannot be replaced
    let mut tr = f.ct.transcript();
    tr.acc_q_cm[1] = tr.acc_q_cm[1].add(&F::from_u64(1));
    assert!(!verify(&f, &tr, &honest_proofs(&f.ct)));
    // the final accumulator commitments are bound by the tally-sum publics
    let mut tr = f.ct.transcript();
    let last = tr.acc_p_cm.len() - 1;
    tr.acc_p_cm[last] = tr.acc_p_cm[last].add(&F::from_u64(1));
    assert!(!verify(&f, &tr, &honest_proofs(&f.ct)));
}

#[test]
fn carried_publics_must_match_transcript_exactly() {
    let f = build(210);
    let tr = f.ct.transcript();
    // extra public input appended to a proof
    let mut proofs = honest_proofs(&f.ct);
    proofs.validity[0].public.push("1".into());
    assert!(!verify(&f, &tr, &proofs));
    // tally-sum proof claiming a different final tally
    let mut proofs = honest_proofs(&f.ct);
    let last = proofs.tally_sum.public.len() - 1;
    proofs.tally_sum.public[last] = "999".into();
    assert!(!verify(&f, &tr, &proofs));
}

#[test]
fn failed_groth16_verification_rejects() {
    let f = build(211);
    let tr = f.ct.transcript();
    let proofs = honest_proofs(&f.ct);
    // any single proof failing Groth16 verification fails the aggregate
    let mut verdicts = all_verified(f.ct.k_chunks);
    verdicts.validity[1] = false;
    assert!(!verify_chunked_public_transcript(&f.ct.statement, &f.admitted, &tr, &proofs, &verdicts));
    let mut verdicts = all_verified(f.ct.k_chunks);
    verdicts.tally_sum = false;
    assert!(!verify_chunked_public_transcript(&f.ct.statement, &f.admitted, &tr, &proofs, &verdicts));
}

#[test]
fn public_transcript_field_audit() {
    // The public transcript exposes exactly these fields (the exhaustive
    // destructuring fails to compile if one is added): board-chain
    // snapshots, hiding commitments and the Fiat-Shamir challenges.
    let f = build(212);
    let ChunkedTranscript { chunk_size, bb, rc, sc, boundary_cm, tc, acc_p_cm, acc_q_cm, gamma: _, delta: _ } =
        f.ct.transcript();
    assert_eq!(chunk_size, CHUNK_SIZE);
    assert_eq!(bb.len(), 3);
    assert_eq!((rc.len(), sc.len(), tc.len()), (2, 2, 2));
    assert_eq!((boundary_cm.len(), acc_p_cm.len(), acc_q_cm.len()), (3, 3, 3));
}
