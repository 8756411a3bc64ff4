//! The public inputs a tally proof carries, in the circuit's declaration
//! order, and the check that a proof's public inputs are exactly those of
//! a statement.

use vstd::prelude::*;

use crate::field::Fe;
use crate::types::{f_to_dec, spec_decimal};
use crate::zk::statement::TallyStatement;

verus! {

/// The circuit's public inputs for `st` as decimal strings: eid_hash, mr,
/// candidate-set commitment, board commitment, ballot count, voter count,
/// duplicate-rule id, pk_EA commitment, then the tally counts.
pub open spec fn spec_statement_publics(st: TallyStatement) -> Seq<Seq<char>> {
    seq![
        spec_decimal(st.eid_hash@),
        spec_decimal(st.mr@),
        spec_decimal(st.candidate_set_commitment@),
        spec_decimal(st.bb_commitment@),
        spec_decimal(st.num_ballots as nat),
        spec_decimal(st.num_voters as nat),
        spec_decimal(st.duplicate_rule_id as nat),
        spec_decimal(st.pk_ea_commitment@),
    ] + Seq::new(st.tally_counts@.len(), |i: int| spec_decimal(st.tally_counts@[i] as nat))
}

/// The public inputs a proof of `statement` must carry (see
/// `spec_statement_publics`).
pub fn statement_public_inputs(statement: &TallyStatement) -> (r: Vec<String>)
    ensures
        r@.len() == spec_statement_publics(*statement).len(),
        forall|i: int| 0 <= i < r@.len() ==> #[trigger] r@[i]@ == spec_statement_publics(*statement)[i],
{
    let ghost target = spec_statement_publics(*statement);
    let mut v: Vec<String> = Vec::new();
    v.push(f_to_dec(&statement.eid_hash));
    v.push(f_to_dec(&statement.mr));
    v.push(f_to_dec(&statement.candidate_set_commitment));
    v.push(f_to_dec(&statement.bb_commitment));
    v.push(f_to_dec(&Fe::from_u64(statement.num_ballots)));
    v.push(f_to_dec(&Fe::from_u64(statement.num_voters)));
    v.push(f_to_dec(&Fe::from_u64(statement.duplicate_rule_id)));
    v.push(f_to_dec(&statement.pk_ea_commitment));
    let mut j: usize = 0;
    while j < statement.tally_counts.len()
        invariant
            target == spec_statement_publics(*statement),
            j <= statement.tally_counts@.len(),
            v@.len() == 8 + j,
            forall|m: int| 0 <= m < v@.len() ==> #[trigger] v@[m]@ == target[m],
        decreases statement.tally_counts@.len() - j,
    {
        v.push(f_to_dec(&Fe::from_u64(statement.tally_counts[j])));
        j += 1;
    }
    v
}

/// Whether a proof's public inputs are exactly those of `statement`. A
/// proof that verifies against other public inputs proves another
/// statement.
pub fn public_inputs_match(public: &Vec<String>, statement: &TallyStatement) -> (r: bool)
    ensures
        r == (public@.len() == spec_statement_publics(*statement).len() && forall|i: int|
            0 <= i < public@.len() ==> #[trigger] public@[i]@ == spec_statement_publics(*statement)[i]),
{
    let expected = statement_public_inputs(statement);
    if public.len() != expected.len() {
        return false;
    }
    let mut i: usize = 0;
    while i < public.len()
        invariant
            public@.len() == expected@.len(),
            expected@.len() == spec_statement_publics(*statement).len(),
            forall|m: int| 0 <= m < expected@.len() ==> #[trigger] expected@[m]@ == spec_statement_publics(*statement)[m],
            i <= public@.len(),
            forall|m: int| 0 <= m < i ==> #[trigger] public@[m]@ == spec_statement_publics(*statement)[m],
        decreases public@.len() - i,
    {
        assert(expected@[i as int]@ == spec_statement_publics(*statement)[i as int]);
        if public[i] != expected[i] {
            return false;
        }
        i += 1;
    }
    true
}

} // verus!
