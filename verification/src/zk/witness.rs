//! Private witness of the FilterAndTally relation, built by the tallier.
//!
//! Every admitted commitment is hard-opened in the circuit with the opening
//! from the EA store. The registration side is indexed: the ballot's
//! claimed id determines the Merkle leaf index, so the row carries the
//! public table row (reg_vk, reg_h) and the sibling path at index id, or
//! zeros when the id is out of range (the circuit gates the row check off).

use vstd::prelude::*;

use crate::crypto::hash::{ct_commit, spec_ct_commit, vals};
use crate::crypto::signature::{base8_circom_coords, spec_base8_x, spec_base8_y};
use crate::errors::{msg, CrDrError, Result};
use crate::field::{w64, Fe};
use crate::protocol::admission::AdmittedOpenings;
use crate::protocol::bulletin_board::AdmittedBoard;
use crate::protocol::filter_and_tally::{
    filter_and_tally, opening_checked, spec_counted_flags, spec_opening_ok, spec_outcomes,
    spec_records, BallotValidity,
};
use crate::protocol::preprocessing::RegistrationState;
use crate::types::{
    f_to_u64, AuthoritySecretState, InternalBallotStatus, PublicParams, PLAINTEXT_FIELD_LEN,
};
use crate::zk::CircuitShape;

verus! {

/// One per-ballot witness row (the circuit's private inputs for a slot).
#[derive(Debug, Clone)]
pub struct BallotWitnessRow {
    /// The admitted commitment (bound via the board chain).
    pub ct: Fe,
    pub pt_fields: [Fe; 9],
    pub rho: Fe,
    pub r_ea: Fe,
    /// Indexed registration row Reg[id]: vk coordinates and h (zeros when
    /// the claimed id is out of range).
    pub reg_vkx: Fe,
    pub reg_vky: Fe,
    pub reg_h: Fe,
    /// Sibling hashes for leaf index id (direction bits = bits of id).
    pub merkle_path: Vec<Fe>,
    /// Expected flags (recomputed, not trusted, by the relation).
    pub expect_valid: bool,
    pub expect_counted: bool,
}

impl BallotWitnessRow {
    /// A copy with the same content.
    pub fn duplicate(&self) -> (r: BallotWitnessRow)
        ensures
            r.same_as(*self),
    {
        BallotWitnessRow {
            ct: self.ct,
            pt_fields: self.pt_fields,
            rho: self.rho,
            r_ea: self.r_ea,
            reg_vkx: self.reg_vkx,
            reg_vky: self.reg_vky,
            reg_h: self.reg_h,
            merkle_path: self.merkle_path.clone(),
            expect_valid: self.expect_valid,
            expect_counted: self.expect_counted,
        }
    }

    /// Content equality.
    pub open spec fn same_as(self, other: BallotWitnessRow) -> bool {
        &&& self.ct == other.ct
        &&& self.pt_fields@ == other.pt_fields@
        &&& self.rho == other.rho
        &&& self.r_ea == other.r_ea
        &&& self.reg_vkx == other.reg_vkx
        &&& self.reg_vky == other.reg_vky
        &&& self.reg_h == other.reg_h
        &&& self.merkle_path@ == other.merkle_path@
        &&& self.expect_valid == other.expect_valid
        &&& self.expect_counted == other.expect_counted
    }
}

/// The tally witness: the rows and the candidate values.
#[derive(Debug, Clone)]
pub struct TallyWitness {
    pub rows: Vec<BallotWitnessRow>,
    /// Candidate values (opening of the candidate-set commitment).
    pub candidates: Vec<u64>,
}

/// The dummy plaintext values: zero metadata with Base8 as every point.
pub open spec fn spec_dummy_pt() -> Seq<nat> {
    seq![0, 0, spec_base8_x(), spec_base8_y(), 0, 0, spec_base8_x(), spec_base8_y(), 0]
}

/// Fixed dummy plaintext: all-zero metadata with Base8 as every point
/// coordinate pair. Always safe for the circuit's hard constraints.
pub fn dummy_pt_fields() -> (r: [Fe; 9])
    ensures
        vals(r@) == spec_dummy_pt(),
{
    let (b8x, b8y) = base8_circom_coords();
    let r = [Fe::zero(), Fe::zero(), b8x, b8y, Fe::zero(), Fe::zero(), b8x, b8y, Fe::zero()];
    assert(vals(r@) =~= spec_dummy_pt());
    r
}

/// The padding row of a depth-`depth` circuit, as a value.
pub open spec fn spec_is_padding_row(row: BallotWitnessRow, depth: nat) -> bool {
    &&& vals(row.pt_fields@) == spec_dummy_pt()
    &&& row.rho@ == 0
    &&& row.ct@ == spec_ct_commit(spec_dummy_pt(), 0)
    &&& row.r_ea@ == 0
    &&& row.reg_vkx@ == 0
    &&& row.reg_vky@ == 0
    &&& row.reg_h@ == 0
    &&& row.merkle_path@.len() == depth
    &&& forall|d: int| 0 <= d < depth ==> (#[trigger] row.merkle_path@[d])@ == 0
    &&& !row.expect_valid
    &&& !row.expect_counted
}

/// A self-consistent padding row for circuit slots beyond the posted
/// ballots: its ct opens, and the row is inactive.
pub fn padding_row(depth: usize) -> (r: BallotWitnessRow)
    ensures
        spec_is_padding_row(r, depth as nat),
{
    let pt = dummy_pt_fields();
    let ct = ct_commit(&pt, Fe::zero());
    BallotWitnessRow {
        ct,
        pt_fields: pt,
        rho: Fe::zero(),
        r_ea: Fe::zero(),
        reg_vkx: Fe::zero(),
        reg_vky: Fe::zero(),
        reg_h: Fe::zero(),
        merkle_path: zeros(depth),
        expect_valid: false,
        expect_counted: false,
    }
}

/// `n` zero field elements.
pub fn zeros(n: usize) -> (r: Vec<Fe>)
    ensures
        r@.len() == n,
        forall|d: int| 0 <= d < n ==> (#[trigger] r@[d])@ == 0,
{
    let mut v: Vec<Fe> = Vec::new();
    let mut i: usize = 0;
    while i < n
        invariant
            i <= n,
            v@.len() == i,
            forall|d: int| 0 <= d < i ==> (#[trigger] v@[d])@ == 0,
        decreases n - i,
    {
        v.push(Fe::zero());
        i += 1;
    }
    v
}

/// Row j of the witness padded to the circuit's ballot count: the witness
/// row, or the padding row.
pub open spec fn spec_padded_row_ok(witness: TallyWitness, depth: nat, j: int, row: BallotWitnessRow) -> bool {
    if j < witness.rows@.len() {
        row.same_as(witness.rows@[j])
    } else {
        spec_is_padding_row(row, depth)
    }
}

/// Pad witness rows out to the circuit's compile-time ballot count. Fails
/// when there are more rows than circuit slots.
pub fn padded_rows(witness: &TallyWitness, shape: &CircuitShape) -> (r: Result<Vec<BallotWitnessRow>>)
    ensures
        r is Ok <==> witness.rows@.len() <= shape.num_ballots,
        r matches Err(e) ==> e is ZkToolchain,
        r matches Ok(rows) ==> rows@.len() == shape.num_ballots && forall|j: int|
            0 <= j < rows@.len() ==> spec_padded_row_ok(
                *witness,
                shape.merkle_depth as nat,
                j,
                #[trigger] rows@[j],
            ),
{
    if witness.rows.len() > shape.num_ballots {
        return Err(CrDrError::ZkToolchain(msg("ballots exceed circuit capacity")));
    }
    let mut rows: Vec<BallotWitnessRow> = Vec::new();
    let mut j: usize = 0;
    while j < shape.num_ballots
        invariant
            witness.rows@.len() <= shape.num_ballots,
            j <= shape.num_ballots,
            rows@.len() == j,
            forall|m: int|
                0 <= m < j ==> spec_padded_row_ok(*witness, shape.merkle_depth as nat, m, #[trigger] rows@[m]),
        decreases shape.num_ballots - j,
    {
        if j < witness.rows.len() {
            rows.push(witness.rows[j].duplicate());
        } else {
            rows.push(padding_row(shape.merkle_depth));
        }
        j += 1;
    }
    Ok(rows)
}

/// The id-determined registration witness: (r_ea, vkx, vky, h, path).
pub struct RegSide {
    pub r_ea: Fe,
    pub vkx: Fe,
    pub vky: Fe,
    pub h: Fe,
    pub path: Vec<Fe>,
}

/// What `registration_side` yields, in values: the true row Reg[id], its
/// sibling path and the authorized nonce for an in-range id; zeros
/// otherwise.
pub open spec fn spec_registration_side(
    auth: AuthoritySecretState,
    reg: RegistrationState,
    id_field: nat,
    num_voters: u64,
    depth: nat,
    side: RegSide,
) -> bool {
    let zero_path = side.path@.len() == depth && forall|d: int|
        0 <= d < depth ==> (#[trigger] side.path@[d])@ == 0;
    if id_field >= w64() || id_field >= num_voters || id_field >= reg.records@.len() {
        &&& side.r_ea@ == 0
        &&& side.vkx@ == 0
        &&& side.vky@ == 0
        &&& side.h@ == 0
        &&& zero_path
    } else {
        let id = id_field as u64;
        let rec = reg.records@[id as int];
        &&& side.vkx == rec.vk.x
        &&& side.vky == rec.vk.y
        &&& side.h == rec.h
        &&& (if id < reg.paths@.len() {
            side.path@ == reg.paths@[id as int].elements@
        } else {
            zero_path
        })
        &&& side.r_ea@ == match auth.spec_r_ea(id) {
            Some(v) => v,
            None => 0,
        }
    }
}

/// The id-determined registration witness (see `spec_registration_side`).
pub fn registration_side(
    authority_secret: &AuthoritySecretState,
    registration_state: &RegistrationState,
    pt_fields: &[Fe; 9],
    num_voters: u64,
    depth: usize,
) -> (r: RegSide)
    ensures
        spec_registration_side(
            *authority_secret,
            *registration_state,
            pt_fields@[1]@,
            num_voters,
            depth as nat,
            r,
        ),
{
    let id = match f_to_u64(&pt_fields[1]) {
        Some(v) => v,
        None => {
            return RegSide { r_ea: Fe::zero(), vkx: Fe::zero(), vky: Fe::zero(), h: Fe::zero(), path: zeros(depth) };
        },
    };
    if id >= num_voters {
        return RegSide { r_ea: Fe::zero(), vkx: Fe::zero(), vky: Fe::zero(), h: Fe::zero(), path: zeros(depth) };
    }
    let record = match registration_state.record(id) {
        Some(rec) => rec,
        None => {
            return RegSide { r_ea: Fe::zero(), vkx: Fe::zero(), vky: Fe::zero(), h: Fe::zero(), path: zeros(depth) };
        },
    };
    let path = match registration_state.path(id) {
        Some(p) => p.elements.clone(),
        None => zeros(depth),
    };
    let r_ea = match authority_secret.r_ea(id) {
        Ok(v) => v,
        Err(_) => Fe::zero(),
    };
    RegSide { r_ea, vkx: record.vk.x, vky: record.vk.y, h: record.h, path }
}

/// What row j of the tally witness holds.
pub open spec fn spec_witness_row(
    pp: PublicParams,
    auth: AuthoritySecretState,
    reg: RegistrationState,
    admitted: AdmittedBoard,
    openings: AdmittedOpenings,
    j: int,
    row: BallotWitnessRow,
) -> bool {
    let outs = spec_outcomes(pp, auth, reg, openings);
    let counted = spec_counted_flags(spec_records(outs));
    let o = openings.openings@[j];
    &&& row.ct == admitted.coms@[j]
    &&& row.pt_fields@ == o.plaintext_fields@
    &&& row.rho == o.rho
    &&& spec_registration_side(
        auth,
        reg,
        o.plaintext_fields@[1]@,
        reg.records@.len() as u64,
        pp.merkle_depth as nat,
        RegSide { r_ea: row.r_ea, vkx: row.reg_vkx, vky: row.reg_vky, h: row.reg_h, path: row.merkle_path },
    )
    &&& row.expect_valid == (outs[j].0 == BallotValidity::Valid)
    &&& row.expect_counted == (outs[j].0 == BallotValidity::Valid && counted[j])
}

/// Build the witness for the admitted ballots, mirroring FilterAndTally.
/// Fails exactly when FilterAndTally does.
pub fn build_tally_witness(
    pp: &PublicParams,
    authority_secret: &AuthoritySecretState,
    registration_state: &RegistrationState,
    admitted: &AdmittedBoard,
    openings: &AdmittedOpenings,
) -> (r: Result<TallyWitness>)
    requires
        registration_state.records@.len() <= u64::MAX,
    ensures
        r is Ok <==> admitted.coms@.len() == openings.openings@.len() && forall|j: int|
            0 <= j < admitted.coms@.len() ==> #[trigger] spec_opening_ok(*admitted, *openings, j),
        r matches Err(e) ==> e is Crypto,
        r matches Ok(w) ==> {
            &&& w.candidates@ == pp.candidates@
            &&& w.rows@.len() == admitted.coms@.len()
            &&& forall|j: int|
                0 <= j < w.rows@.len() ==> spec_witness_row(
                    *pp,
                    *authority_secret,
                    *registration_state,
                    *admitted,
                    *openings,
                    j,
                    #[trigger] w.rows@[j],
                )
        },
{
    let depth = pp.merkle_depth;
    let num_voters = registration_state.num_voters() as u64;
    let (_tally, evals) = match filter_and_tally(
        pp,
        authority_secret,
        registration_state,
        admitted,
        openings,
    ) {
        Ok(x) => x,
        Err(e) => return Err(e),
    };
    let ghost outs = spec_outcomes(*pp, *authority_secret, *registration_state, *openings);
    let ghost counted = spec_counted_flags(spec_records(outs));
    let mut rows: Vec<BallotWitnessRow> = Vec::new();
    let mut j: usize = 0;
    while j < evals.len()
        invariant
            evals@.len() == outs.len(),
            outs.len() == openings.openings@.len(),
            admitted.coms@.len() == openings.openings@.len(),
            outs == spec_outcomes(*pp, *authority_secret, *registration_state, *openings),
            counted == spec_counted_flags(spec_records(outs)),
            forall|k: int| 0 <= k < admitted.coms@.len() ==> #[trigger] spec_opening_ok(*admitted, *openings, k),
            forall|k: int|
                0 <= k < evals@.len() ==> (#[trigger] evals@[k]).status == crate::protocol::filter_and_tally::spec_final_status(
                    outs[k],
                    counted[k],
                ),
            num_voters == registration_state.records@.len(),
            depth == pp.merkle_depth,
            j <= evals@.len(),
            rows@.len() == j,
            forall|k: int|
                0 <= k < j ==> spec_witness_row(
                    *pp,
                    *authority_secret,
                    *registration_state,
                    *admitted,
                    *openings,
                    k,
                    #[trigger] rows@[k],
                ),
        decreases evals@.len() - j,
    {
        assert(spec_opening_ok(*admitted, *openings, j as int));
        let (pt_fields, rho) = match opening_checked(admitted, openings, j) {
            Ok(x) => x,
            Err(e) => return Err(e),
        };
        let reg = registration_side(authority_secret, registration_state, &pt_fields, num_voters, depth);
        let status = evals[j].status;
        let expect_valid = match status {
            InternalBallotStatus::Counted => true,
            InternalBallotStatus::DuplicateValidBallot => true,
            _ => false,
        };
        let expect_counted = match status {
            InternalBallotStatus::Counted => true,
            _ => false,
        };
        proof {
            lemma_status_flags(outs[j as int], counted[j as int]);
            crate::protocol::filter_and_tally::lemma_invalid_statuses(
                *pp,
                *authority_secret,
                *registration_state,
                openings.openings@[j as int].plaintext_fields@,
            );
        }
        rows.push(
            BallotWitnessRow {
                ct: admitted.coms[j],
                pt_fields,
                rho,
                r_ea: reg.r_ea,
                reg_vkx: reg.vkx,
                reg_vky: reg.vky,
                reg_h: reg.h,
                merkle_path: reg.path,
                expect_valid,
                expect_counted,
            },
        );
        j += 1;
    }
    Ok(TallyWitness { rows, candidates: pp.candidates.clone() })
}

/// The final status is Counted or DuplicateValidBallot exactly for valid
/// ballots, and Counted exactly for counted valid ballots.
proof fn lemma_status_flags(o: crate::protocol::filter_and_tally::ValidityOutcome, counted: bool)
    ensures
        ({
            let s = crate::protocol::filter_and_tally::spec_final_status(o, counted);
            &&& (s == InternalBallotStatus::Counted || s == InternalBallotStatus::DuplicateValidBallot)
                <==> (o.0 == BallotValidity::Valid || o.0 == BallotValidity::Invalid(
                InternalBallotStatus::Counted,
            ) || o.0 == BallotValidity::Invalid(InternalBallotStatus::DuplicateValidBallot))
            &&& (s == InternalBallotStatus::Counted) <==> ((o.0 == BallotValidity::Valid && counted)
                || o.0 == BallotValidity::Invalid(InternalBallotStatus::Counted))
        }),
{
}

} // verus!
