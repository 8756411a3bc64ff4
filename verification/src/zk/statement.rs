//! Public ZK statement of the FilterAndTally relation. It holds public data
//! only: never which ballots were valid, who voted, rejection reasons,
//! plaintexts, R_i or R_EA,i.

use vstd::prelude::*;

use crate::crypto::hash::{
    candidate_set_commitment, candidate_vals, pk_ea_commitment, poseidon2, poseidon_spec, spec_chain,
    vals,
};
use crate::field::Fe;
use crate::protocol::bulletin_board::AdmittedBoard;
use crate::protocol::preprocessing::RegistrationState;
use crate::types::{PublicParams, TallyResult};

verus! {

/// The public statement.
#[derive(Debug, Clone, PartialEq, Eq)]
pub struct TallyStatement {
    pub eid_hash: Fe,
    pub pk_ea_commitment: Fe,
    /// Merkle root over the registration leaves.
    pub mr: Fe,
    pub candidate_set_commitment: Fe,
    pub tally_counts: Vec<u64>,
    /// Poseidon chain over the admitted commitments.
    pub bb_commitment: Fe,
    pub num_ballots: u64,
    pub num_voters: u64,
    pub duplicate_rule_id: u64,
}

/// The Poseidon chain from 0 over the admitted commitments.
pub fn admitted_chain(coms: &[Fe]) -> (out: Fe)
    ensures
        out@ == spec_chain(0, vals(coms@)),
{
    let mut acc = Fe::zero();
    let mut j: usize = 0;
    while j < coms.len()
        invariant
            j <= coms@.len(),
            acc@ == spec_chain(0, vals(coms@.subrange(0, j as int))),
        decreases coms@.len() - j,
    {
        let ghost prev = vals(coms@.subrange(0, j as int));
        acc = poseidon2(acc, coms[j]);
        assert(vals(coms@.subrange(0, j + 1)).drop_last() =~= prev);
        j += 1;
    }
    assert(coms@.subrange(0, coms@.len() as int) =~= coms@);
    acc
}

/// The statement determined by the public data and the tally counts.
pub open spec fn spec_statement_of(
    pp: PublicParams,
    admitted: AdmittedBoard,
    reg: RegistrationState,
    counts: Seq<u64>,
    st: TallyStatement,
) -> bool {
    &&& st.eid_hash == pp.eid_hash
    &&& st.pk_ea_commitment@ == poseidon_spec(seq![pp.pk_ea.x@, pp.pk_ea.y@])
    &&& st.mr == reg.root
    &&& st.candidate_set_commitment@ == poseidon_spec(candidate_vals(pp.candidates@))
    &&& st.tally_counts@ == counts
    &&& st.bb_commitment@ == spec_chain(0, vals(admitted.coms@))
    &&& st.num_ballots == admitted.coms@.len()
    &&& st.num_voters == reg.records@.len()
    &&& st.duplicate_rule_id == 1
}

/// Build the public statement from public data only.
pub fn build_tally_statement(
    pp: &PublicParams,
    admitted: &AdmittedBoard,
    registration_state: &RegistrationState,
    tally: &TallyResult,
) -> (r: TallyStatement)
    requires
        1 <= pp.candidates@.len() <= 12,
    ensures
        spec_statement_of(*pp, *admitted, *registration_state, tally.counts@, r),
{
    TallyStatement {
        eid_hash: pp.eid_hash,
        pk_ea_commitment: pk_ea_commitment(&pp.pk_ea),
        mr: registration_state.root,
        candidate_set_commitment: candidate_set_commitment(pp.candidates.as_slice()),
        tally_counts: tally.counts.clone(),
        bb_commitment: admitted_chain(admitted.coms.as_slice()),
        num_ballots: admitted.coms.len() as u64,
        num_voters: registration_state.records.len() as u64,
        duplicate_rule_id: pp.duplicate_rule.id(),
    }
}

/// Whether two count lists are equal.
pub fn counts_equal(a: &Vec<u64>, b: &Vec<u64>) -> (r: bool)
    ensures
        r == (a@ == b@),
{
    if a.len() != b.len() {
        return false;
    }
    let mut i: usize = 0;
    while i < a.len()
        invariant
            a@.len() == b@.len(),
            i <= a@.len(),
            forall|k: int| 0 <= k < i ==> a@[k] == b@[k],
        decreases a@.len() - i,
    {
        if a[i] != b[i] {
            return false;
        }
        i += 1;
    }
    assert(a@ =~= b@);
    true
}

/// Check that a claimed statement is the statement determined by the public
/// election data (everything except the tally counts, which the proof
/// attests to), and that it has one count per candidate. Verifiers run this
/// alongside the proof check.
pub fn statement_matches_public_data(
    statement: &TallyStatement,
    pp: &PublicParams,
    admitted: &AdmittedBoard,
    registration_state: &RegistrationState,
) -> (r: bool)
    requires
        1 <= pp.candidates@.len() <= 12,
    ensures
        r == (spec_statement_of(*pp, *admitted, *registration_state, statement.tally_counts@, *statement)
            && statement.tally_counts@.len() == pp.candidates@.len()),
{
    let expected = build_tally_statement(
        pp,
        admitted,
        registration_state,
        &TallyResult { counts: statement.tally_counts.clone(), counted_ballots: 0 },
    );
    proof {
        Fe::lemma_eq_iff_view_eq(statement.pk_ea_commitment, expected.pk_ea_commitment);
        Fe::lemma_eq_iff_view_eq(statement.candidate_set_commitment, expected.candidate_set_commitment);
        Fe::lemma_eq_iff_view_eq(statement.bb_commitment, expected.bb_commitment);
    }
    statement.eid_hash == expected.eid_hash && statement.pk_ea_commitment == expected.pk_ea_commitment
        && statement.mr == expected.mr && statement.candidate_set_commitment
        == expected.candidate_set_commitment && counts_equal(&statement.tally_counts, &expected.tally_counts)
        && statement.bb_commitment == expected.bb_commitment && statement.num_ballots
        == expected.num_ballots && statement.num_voters == expected.num_voters
        && statement.duplicate_rule_id == expected.duplicate_rule_id && statement.tally_counts.len()
        == pp.candidates.len()
}

} // verus!
