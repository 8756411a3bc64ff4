//! pi_cast, the public cast proof of the CAST-ZK ballot format
//! B_j = (com_j, ct_open_j, pi_cast_j): com_j and ct_open_j open to the same
//! (opening_j, r_com_j) under pk_EA. It is verified publicly before
//! tallying; this module holds its native relation and the binding checks
//! that tie a proof's public inputs to a board entry.

use vstd::prelude::*;

use crate::crypto::encryption::{
    cast_encrypt, spec_cast_encrypt, CastSecret, EaPublicKey, CAST_CT_LEN,
};
use crate::crypto::hash::{ct_commit, spec_ct_commit, vals};
use crate::crypto::signature::{decode_point, spec_decodes, spec_from_circom};
use crate::field::{l, Fe};
use crate::types::{f_to_dec, spec_decimal, PublicBallot, PLAINTEXT_FIELD_LEN};

verus! {

/// Name of the compiled pi_cast circuit.
pub const CAST_CIRCUIT: &'static str = "filter_and_tally_cast";

/// A pi_cast proof as attached to a board entry: the Groth16 proof (JSON
/// text) and its public inputs as decimal strings.
#[derive(Debug, Clone, PartialEq, Eq)]
pub struct CastProof {
    pub proof: String,
    pub public: Vec<String>,
}

/// The cast relation: the secret's opening opens the commitment, and the
/// entry's ciphertext is the encryption of (opening || r_com) under pk with
/// the secret's randomness.
pub open spec fn spec_cast_relation(pkx: nat, pky: nat, entry: PublicBallot, secret: CastSecret) -> bool {
    let pf = secret.opening.plaintext_fields@;
    &&& pf.len() == PLAINTEXT_FIELD_LEN
    &&& spec_ct_commit(vals(pf), secret.opening.rho@) == entry.com@
    &&& spec_decodes(pkx, pky)
    &&& 0 < secret.rho_enc@ < l()
    &&& entry.ct_open.masked@.len() == CAST_CT_LEN
    &&& entry.ct_open.spec_fields() == spec_cast_encrypt(
        pkx,
        pky,
        vals(pf).push(secret.opening.rho@),
        secret.rho_enc@,
    )
}

/// Field lists with the same values are the same field lists.
pub proof fn lemma_vals_injective(a: Seq<Fe>, b: Seq<Fe>)
    requires
        vals(a) == vals(b),
    ensures
        a == b,
{
    assert(a.len() == vals(a).len());
    assert(b.len() == vals(b).len());
    assert forall|i: int| 0 <= i < a.len() implies a[i] == b[i] by {
        assert(vals(a)[i] == a[i]@);
        assert(vals(b)[i] == b[i]@);
        Fe::lemma_eq_iff_view_eq(a[i], b[i]);
    }
    assert(a =~= b);
}

/// Native mirror of the cast circuit: true iff the secret opens both the
/// commitment and the encryption of the public entry under pk_EA.
pub fn cast_relation_check_native(pk: &EaPublicKey, entry: &PublicBallot, secret: &CastSecret) -> (r: bool)
    ensures
        r == spec_cast_relation(pk.x@, pk.y@, *entry, *secret),
{
    let pf = &secret.opening.plaintext_fields;
    if pf.len() != PLAINTEXT_FIELD_LEN {
        return false;
    }
    let com = ct_commit(pf.as_slice(), secret.opening.rho);
    if com != entry.com {
        proof {
            Fe::lemma_eq_iff_view_eq(com, entry.com);
        }
        return false;
    }
    let mut fields: Vec<Fe> = Vec::new();
    let mut i: usize = 0;
    while i < pf.len()
        invariant
            i <= pf@.len(),
            fields@ == pf@.subrange(0, i as int),
        decreases pf@.len() - i,
    {
        fields.push(pf[i]);
        i += 1;
    }
    fields.push(secret.opening.rho);
    proof {
        assert(vals(fields@) =~= vals(pf@).push(secret.opening.rho@));
    }
    match cast_encrypt(pk, fields.as_slice(), secret.rho_enc) {
        Ok(ct) => {
            let same = ct.same_content(&entry.ct_open);
            proof {
                if entry.ct_open.masked@.len() == CAST_CT_LEN && entry.ct_open.spec_fields()
                    == ct.spec_fields() {
                    let a = entry.ct_open.spec_fields();
                    let b = ct.spec_fields();
                    assert(a[0] == b[0] && a[1] == b[1]);
                    Fe::lemma_eq_iff_view_eq(entry.ct_open.c1x, ct.c1x);
                    Fe::lemma_eq_iff_view_eq(entry.ct_open.c1y, ct.c1y);
                    assert(vals(entry.ct_open.masked@) =~= a.subrange(2, a.len() as int));
                    assert(vals(ct.masked@) =~= b.subrange(2, b.len() as int));
                    lemma_vals_injective(entry.ct_open.masked@, ct.masked@);
                }
            }
            same
        },
        Err(_) => false,
    }
}

/// The public inputs a pi_cast proof for `entry` must carry, in declaration
/// order: com, pk_x, pk_y, c1x, c1y, masked[..].
pub open spec fn spec_cast_public_values(pkx: nat, pky: nat, entry: PublicBallot) -> Seq<nat> {
    seq![entry.com@, pkx, pky] + entry.ct_open.spec_fields()
}

/// The exact public.json a pi_cast proof for `entry` must carry, as
/// decimal strings.
pub fn cast_publics(pk: &EaPublicKey, entry: &PublicBallot) -> (r: Vec<String>)
    ensures
        r@.len() == spec_cast_public_values(pk.x@, pk.y@, *entry).len(),
        forall|i: int|
            0 <= i < r@.len() ==> #[trigger] r@[i]@ == spec_decimal(
                spec_cast_public_values(pk.x@, pk.y@, *entry)[i],
            ),
{
    let ghost vs = spec_cast_public_values(pk.x@, pk.y@, *entry);
    let mut v: Vec<String> = Vec::new();
    v.push(f_to_dec(&entry.com));
    v.push(f_to_dec(&pk.x));
    v.push(f_to_dec(&pk.y));
    v.push(f_to_dec(&entry.ct_open.c1x));
    v.push(f_to_dec(&entry.ct_open.c1y));
    let mut i: usize = 0;
    while i < entry.ct_open.masked.len()
        invariant
            vs == spec_cast_public_values(pk.x@, pk.y@, *entry),
            vs.len() == 5 + entry.ct_open.masked@.len(),
            i <= entry.ct_open.masked@.len(),
            v@.len() == 5 + i,
            forall|k: int| 0 <= k < v@.len() ==> #[trigger] v@[k]@ == spec_decimal(vs[k]),
        decreases entry.ct_open.masked@.len() - i,
    {
        v.push(f_to_dec(&entry.ct_open.masked[i]));
        i += 1;
    }
    v
}

/// The statement-binding part of the public pi_cast check: the proof's
/// public inputs are exactly (com, pk_EA, ct_open) of the entry, C1 is a
/// non-identity subgroup point, and ct_open carries ten masked fields. The
/// Groth16 verification itself runs in the proving toolchain.
pub open spec fn spec_cast_binding_ok(pkx: nat, pky: nat, entry: PublicBallot, public: Seq<String>) -> bool {
    let vs = spec_cast_public_values(pkx, pky, entry);
    &&& public.len() == vs.len()
    &&& forall|i: int| 0 <= i < public.len() ==> #[trigger] public[i]@ == spec_decimal(vs[i])
    &&& spec_decodes(entry.ct_open.c1x@, entry.ct_open.c1y@)
    &&& spec_from_circom(entry.ct_open.c1x@, entry.ct_open.c1y@) != (0nat, 1nat)
    &&& entry.ct_open.masked@.len() == CAST_CT_LEN
}

/// Check the binding of a pi_cast proof to its board entry (see
/// `spec_cast_binding_ok`).
pub fn cast_binding_ok(pk: &EaPublicKey, entry: &PublicBallot, cast: &CastProof) -> (r: bool)
    ensures
        r == spec_cast_binding_ok(pk.x@, pk.y@, *entry, cast.public@),
{
    let expected = cast_publics(pk, entry);
    if cast.public.len() != expected.len() {
        return false;
    }
    let mut i: usize = 0;
    while i < expected.len()
        invariant
            cast.public@.len() == expected@.len(),
            expected@.len() == spec_cast_public_values(pk.x@, pk.y@, *entry).len(),
            forall|k: int|
                0 <= k < expected@.len() ==> #[trigger] expected@[k]@ == spec_decimal(
                    spec_cast_public_values(pk.x@, pk.y@, *entry)[k],
                ),
            i <= expected@.len(),
            forall|k: int| 0 <= k < i ==> cast.public@[k]@ == expected@[k]@,
        decreases expected@.len() - i,
    {
        assert(expected@[i as int]@ == spec_decimal(
            spec_cast_public_values(pk.x@, pk.y@, *entry)[i as int],
        ));
        if cast.public[i] != expected[i] {
            return false;
        }
        i += 1;
    }
    assert forall|k: int| 0 <= k < cast.public@.len() implies #[trigger] cast.public@[k]@
        == spec_decimal(spec_cast_public_values(pk.x@, pk.y@, *entry)[k]) by {
        assert(expected@[k]@ == spec_decimal(spec_cast_public_values(pk.x@, pk.y@, *entry)[k]));
    }
    let c1_ok = match decode_point(entry.ct_open.c1x, entry.ct_open.c1y) {
        Some(p) => !p.is_identity(),
        None => false,
    };
    c1_ok && entry.ct_open.masked.len() == CAST_CT_LEN
}

} // verus!
