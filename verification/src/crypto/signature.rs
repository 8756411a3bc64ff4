//! Schnorr signatures over BabyJubJub with a Poseidon challenge:
//! `S * B8 == R + c * A`, `c = Poseidon(R.x, R.y, A.x, A.y, msg)`.
//!
//! Points are stored in circomlib coordinates
//! (`168700 x^2 + y^2 = 1 + 168696 x^2 y^2`) and mapped to the isomorphic
//! `a = 1` form of ark-ed-on-bn254 (`x_ark = sqrt(168700) * x_circom`) for
//! arithmetic, which arkworks performs.

use ark_ec::{AffineRepr, CurveGroup, Group};
use ark_ff::PrimeField;
use vstd::prelude::*;

use crate::crypto::hash::{poseidon5, poseidon_spec};
use crate::field::{f_is_canonical_scalar, l, p, Fe, Sc};

verus! {

/// sqrt(168700) mod p, the circomlib -> arkworks x-scaling.
pub open spec fn spec_scale() -> nat {
    7214280148105020021932206872019688659210616427216992810330019057549499971851nat
}

/// The inverse of `spec_scale()` mod p.
pub open spec fn spec_scale_inv() -> nat {
    2957874849018779266517920829765869116077630550401372566248359756137677864698nat
}

/// The twisted-Edwards coefficient d = 168696/168700 mod p of the a = 1 form.
pub open spec fn spec_coeff_d() -> nat {
    9706598848417545097372247223557719406784115219466060233080913168975159366771nat
}

/// circomlib Base8, x coordinate.
pub open spec fn spec_base8_x() -> nat {
    5299619240641551281634865583518297030282874472190772894086521144482721001553nat
}

/// circomlib Base8, y coordinate.
pub open spec fn spec_base8_y() -> nat {
    16950150798460657717958625567821834550301663161624707787222815936182638968203nat
}

/// Whether (x, y) satisfies the a = 1 curve equation x^2 + y^2 = 1 + d x^2 y^2.
#[verifier::opaque]
pub open spec fn spec_on_curve(x: nat, y: nat) -> bool {
    (y * y + x * x) % p() == (1 + spec_coeff_d() * ((x * x) * (y * y))) % p()
}

/// Whether the (arkworks-form) point lies in the prime-order subgroup, as
/// arkworks decides it (multiplying by the group order gives the identity).
pub uninterp spec fn jub_in_subgroup_spec(x: nat, y: nat) -> bool;

/// The affine result of multiplying the (arkworks-form) point by a scalar.
pub uninterp spec fn jub_mul_spec(x: nat, y: nat, k: nat) -> (nat, nat);

/// The affine sum of two (arkworks-form) points.
pub uninterp spec fn jub_add_spec(x1: nat, y1: nat, x2: nat, y2: nat) -> (nat, nat);

/// The affine double of an (arkworks-form) point.
pub uninterp spec fn jub_double_spec(x: nat, y: nat) -> (nat, nat);

/// A BabyJubJub point in arkworks coordinates (a = 1 form).
#[derive(Clone, Copy, Debug, PartialEq, Eq, Structural)]
pub struct JubAffine {
    pub x: Fe,
    pub y: Fe,
}

impl View for JubAffine {
    type V = (nat, nat);

    open spec fn view(&self) -> (nat, nat) {
        (self.x@, self.y@)
    }
}

impl JubAffine {
    /// The identity (0, 1).
    pub fn identity() -> (r: JubAffine)
        ensures
            r@ == (0nat, 1nat),
            spec_on_curve(r.x@, r.y@),
    {
        proof {
            assert((1nat * 1nat + 0nat * 0nat) % p() == (1 + spec_coeff_d() * ((0nat * 0nat) * (1nat * 1nat))) % p())
                by (nonlinear_arith);
            reveal(spec_on_curve);
        }
        JubAffine { x: Fe::zero(), y: Fe::one() }
    }

    /// True iff the point is the identity (0, 1).
    pub fn is_identity(&self) -> (r: bool)
        ensures
            r == (self@ == (0nat, 1nat)),
    {
        let one = Fe::one();
        proof {
            Fe::lemma_eq_iff_view_eq(self.y, one);
        }
        self.x.is_zero() && self.y == one
    }

    /// True iff the point satisfies the curve equation.
    pub fn is_on_curve(&self) -> (r: bool)
        ensures
            r == spec_on_curve(self.x@, self.y@),
    {
        jub_is_on_curve_raw(self)
    }

    /// True iff the point is in the prime-order subgroup (assuming it is on
    /// the curve).
    pub fn is_in_correct_subgroup_assuming_on_curve(&self) -> (r: bool)
        ensures
            r == jub_in_subgroup_spec(self.x@, self.y@),
    {
        jub_in_subgroup_raw(self)
    }

    /// Scalar multiple of a curve point.
    pub fn mul(&self, k: &Sc) -> (r: JubAffine)
        requires
            spec_on_curve(self.x@, self.y@),
        ensures
            r@ == jub_mul_spec(self.x@, self.y@, k@),
            spec_on_curve(r.x@, r.y@),
            forall|b: nat|
                b < l() ==> #[trigger] jub_mul_spec(r.x@, r.y@, b) == jub_mul_spec(
                    jub_mul_spec(self.x@, self.y@, b).0,
                    jub_mul_spec(self.x@, self.y@, b).1,
                    k@,
                ),
    {
        jub_mul_raw(self, k)
    }

    /// Group sum of two curve points.
    pub fn add(&self, other: &JubAffine) -> (r: JubAffine)
        requires
            spec_on_curve(self.x@, self.y@),
            spec_on_curve(other.x@, other.y@),
        ensures
            r@ == jub_add_spec(self.x@, self.y@, other.x@, other.y@),
            spec_on_curve(r.x@, r.y@),
    {
        jub_add_raw(self, other)
    }

    /// Group double of a curve point.
    pub fn double(&self) -> (r: JubAffine)
        requires
            spec_on_curve(self.x@, self.y@),
        ensures
            r@ == jub_double_spec(self.x@, self.y@),
            spec_on_curve(r.x@, r.y@),
    {
        jub_double_raw(self)
    }
}

/// `Affine::is_on_curve` of ark-ed-on-bn254: y^2 + a x^2 == 1 + d x^2 y^2
/// with a = 1 and d = 168696/168700, all mod p.
#[verifier::external_body]
fn jub_is_on_curve_raw(pt: &JubAffine) -> (r: bool)
    ensures
        r == spec_on_curve(pt.x@, pt.y@),
{
    let x = ark_ed_on_bn254::Fq::from_bigint(ark_ff::BigInt(pt.x.to_limbs())).unwrap();
    let y = ark_ed_on_bn254::Fq::from_bigint(ark_ff::BigInt(pt.y.to_limbs())).unwrap();
    ark_ed_on_bn254::EdwardsAffine::new_unchecked(x, y).is_on_curve()
}

/// `Affine::is_in_correct_subgroup_assuming_on_curve`, named.
#[verifier::external_body]
fn jub_in_subgroup_raw(pt: &JubAffine) -> (r: bool)
    ensures
        r == jub_in_subgroup_spec(pt.x@, pt.y@),
{
    let x = ark_ed_on_bn254::Fq::from_bigint(ark_ff::BigInt(pt.x.to_limbs())).unwrap();
    let y = ark_ed_on_bn254::Fq::from_bigint(ark_ff::BigInt(pt.y.to_limbs())).unwrap();
    ark_ed_on_bn254::EdwardsAffine::new_unchecked(x, y).is_in_correct_subgroup_assuming_on_curve()
}

/// `(EdwardsAffine::into_group(pt) * k).into_affine()` of
/// ark-ed-on-bn254: the group law's scalar multiple, named. For a point on
/// the curve the complete twisted-Edwards formulas never leave the curve
/// and never meet a zero Z, so making the result affine cannot fail; off
/// the curve that is not so, hence the precondition. arkworks multiplies
/// by double-and-add over the bits of the canonical integer k, so the
/// result is the integer multiple k P in the (abelian) curve group; hence
/// multiplying it by any canonical scalar b gives b k P = k (b P), which
/// the last clause states.
#[verifier::external_body]
fn jub_mul_raw(pt: &JubAffine, k: &Sc) -> (r: JubAffine)
    requires
        spec_on_curve(pt.x@, pt.y@),
    ensures
        r@ == jub_mul_spec(pt.x@, pt.y@, k@),
        spec_on_curve(r.x@, r.y@),
        forall|b: nat|
            b < l() ==> #[trigger] jub_mul_spec(r.x@, r.y@, b) == jub_mul_spec(
                jub_mul_spec(pt.x@, pt.y@, b).0,
                jub_mul_spec(pt.x@, pt.y@, b).1,
                k@,
            ),
{
    let x = ark_ed_on_bn254::Fq::from_bigint(ark_ff::BigInt(pt.x.to_limbs())).unwrap();
    let y = ark_ed_on_bn254::Fq::from_bigint(ark_ff::BigInt(pt.y.to_limbs())).unwrap();
    let s = ark_ed_on_bn254::Fr::from_bigint(ark_ff::BigInt(k.to_limbs())).unwrap();
    let a = (ark_ed_on_bn254::EdwardsAffine::new_unchecked(x, y).into_group() * s).into_affine();
    JubAffine {
        x: Fe::from_limbs(a.x.into_bigint().0).unwrap(),
        y: Fe::from_limbs(a.y.into_bigint().0).unwrap(),
    }
}

/// `(into_group(a) + into_group(b)).into_affine()` of ark-ed-on-bn254:
/// the group law's sum, named. As for the multiple, the sum of two curve
/// points is a curve point and making it affine cannot fail.
#[verifier::external_body]
fn jub_add_raw(a: &JubAffine, b: &JubAffine) -> (r: JubAffine)
    requires
        spec_on_curve(a.x@, a.y@),
        spec_on_curve(b.x@, b.y@),
    ensures
        r@ == jub_add_spec(a.x@, a.y@, b.x@, b.y@),
        spec_on_curve(r.x@, r.y@),
{
    let ax = ark_ed_on_bn254::Fq::from_bigint(ark_ff::BigInt(a.x.to_limbs())).unwrap();
    let ay = ark_ed_on_bn254::Fq::from_bigint(ark_ff::BigInt(a.y.to_limbs())).unwrap();
    let bx = ark_ed_on_bn254::Fq::from_bigint(ark_ff::BigInt(b.x.to_limbs())).unwrap();
    let by = ark_ed_on_bn254::Fq::from_bigint(ark_ff::BigInt(b.y.to_limbs())).unwrap();
    let s = (ark_ed_on_bn254::EdwardsAffine::new_unchecked(ax, ay).into_group()
        + ark_ed_on_bn254::EdwardsAffine::new_unchecked(bx, by).into_group()).into_affine();
    JubAffine {
        x: Fe::from_limbs(s.x.into_bigint().0).unwrap(),
        y: Fe::from_limbs(s.y.into_bigint().0).unwrap(),
    }
}



/// `into_group(a).double().into_affine()` of ark-ed-on-bn254: the group
/// law's double, named; a curve point's double is a curve point.
#[verifier::external_body]
fn jub_double_raw(a: &JubAffine) -> (r: JubAffine)
    requires
        spec_on_curve(a.x@, a.y@),
    ensures
        r@ == jub_double_spec(a.x@, a.y@),
        spec_on_curve(r.x@, r.y@),
{
    let ax = ark_ed_on_bn254::Fq::from_bigint(ark_ff::BigInt(a.x.to_limbs())).unwrap();
    let ay = ark_ed_on_bn254::Fq::from_bigint(ark_ff::BigInt(a.y.to_limbs())).unwrap();
    let d = ark_ed_on_bn254::EdwardsAffine::new_unchecked(ax, ay).into_group().double().into_affine();
    JubAffine {
        x: Fe::from_limbs(d.x.into_bigint().0).unwrap(),
        y: Fe::from_limbs(d.y.into_bigint().0).unwrap(),
    }
}

/// Mapping a point with a canonical x coordinate to circomlib coordinates
/// and back gives the point again.
pub proof fn lemma_circom_roundtrip(pt: (nat, nat))
    requires
        pt.0 < p(),
    ensures
        spec_from_circom(spec_to_circom(pt).0, spec_to_circom(pt).1) == pt,
{
    assert((spec_scale_inv() * spec_scale()) % p() == 1) by (nonlinear_arith);
    let a = pt.0 as int;
    let si = spec_scale_inv() as int;
    let s = spec_scale() as int;
    let m = p() as int;
    vstd::arithmetic::div_mod::lemma_mul_mod_noop_left(a * si, s, m);
    vstd::arithmetic::mul::lemma_mul_is_associative(a, si, s);
    vstd::arithmetic::div_mod::lemma_mul_mod_noop_right(a, si * s, m);
    vstd::arithmetic::div_mod::lemma_small_mod(pt.0, p());
    assert(((a * si) % m * s) % m == a);
}

/// The arkworks-form image of circomlib coordinates: (s * x, y).
pub open spec fn spec_from_circom(x: nat, y: nat) -> (nat, nat) {
    ((x * spec_scale()) % p(), y)
}

/// The circomlib coordinates of an arkworks-form point: (x / s, y).
pub open spec fn spec_to_circom(pt: (nat, nat)) -> (nat, nat) {
    ((pt.0 * spec_scale_inv()) % p(), pt.1)
}

/// Base8 in arkworks form.
pub open spec fn spec_base8() -> (nat, nat) {
    spec_from_circom(spec_base8_x(), spec_base8_y())
}

/// Base8 lies on the curve.
pub proof fn lemma_base8_on_curve()
    ensures
        spec_on_curve(spec_base8().0, spec_base8().1),
{
    assert((spec_base8().1 * spec_base8().1 + spec_base8().0 * spec_base8().0) % p() == (1 + spec_coeff_d() * (
    (spec_base8().0 * spec_base8().0) * (spec_base8().1 * spec_base8().1))) % p()) by (nonlinear_arith);
    reveal(spec_on_curve);
}

/// The circomlib -> arkworks scaling factor.
pub fn scale() -> (r: Fe)
    ensures
        r@ == spec_scale(),
{
    let o = Fe::from_limbs([0xefc605021164390bu64, 0x49072758c2a2322eu64, 0xd1411ffb5591babfu64,
        0x0ff3234afb38a3f8u64]);
    match o {
        Some(f) => f,
        None => Fe::zero(),
    }
}

/// The arkworks -> circomlib scaling factor.
pub fn scale_inv() -> (r: Fe)
    ensures
        r@ == spec_scale_inv(),
{
    let o = Fe::from_limbs([0x8aff443852ae3efau64, 0x24a06a69334601a9u64, 0x8ce1cf7a816eacb5u64,
        0x068a190bd4563c1fu64]);
    match o {
        Some(f) => f,
        None => Fe::zero(),
    }
}

/// arkworks point -> circomlib (x, y) coordinates.
pub fn to_circom_point(pt: &JubAffine) -> (r: (Fe, Fe))
    ensures
        (r.0@, r.1@) == spec_to_circom(pt@),
{
    (pt.x.mul(&scale_inv()), pt.y)
}

/// circomlib (x, y) coordinates -> arkworks point (unchecked).
pub fn from_circom_point(x: Fe, y: Fe) -> (r: JubAffine)
    ensures
        r@ == spec_from_circom(x@, y@),
{
    JubAffine { x: x.mul(&scale()), y }
}

/// circomlib Base8 coordinates as field elements.
pub fn base8_circom_coords() -> (r: (Fe, Fe))
    ensures
        r.0@ == spec_base8_x(),
        r.1@ == spec_base8_y(),
{
    let ox = Fe::from_limbs([0x2893f3f6bb957051u64, 0x2ab8d8010534e0b6u64, 0x4eacb2e09d6277c1u64,
        0x0bb77a6ad63e739bu64]);
    let oy = Fe::from_limbs([0x4b3c257a872d7d8bu64, 0xfce0051fb9e13377u64, 0x25572e1cd16bf9edu64,
        0x25797203f7a0b249u64]);
    match (ox, oy) {
        (Some(x), Some(y)) => (x, y),
        _ => (Fe::zero(), Fe::zero()),
    }
}

/// circomlib Base8 (the prime-order subgroup generator), in arkworks form.
pub fn base8() -> (r: JubAffine)
    ensures
        r@ == spec_base8(),
        spec_on_curve(r.x@, r.y@),
{
    let (x, y) = base8_circom_coords();
    proof {
        lemma_base8_on_curve();
    }
    from_circom_point(x, y)
}

/// Whether circomlib coordinates decode to an on-curve subgroup point.
pub open spec fn spec_decodes(x: nat, y: nat) -> bool {
    let pt = spec_from_circom(x, y);
    spec_on_curve(pt.0, pt.1) && jub_in_subgroup_spec(pt.0, pt.1)
}

/// Decode an on-curve, in-subgroup point from circomlib-form (x, y);
/// `None` if the coordinates are not a valid subgroup point.
pub fn decode_point(x: Fe, y: Fe) -> (r: Option<JubAffine>)
    ensures
        match r {
            Some(pt) => spec_decodes(x@, y@) && pt@ == spec_from_circom(x@, y@),
            None => !spec_decodes(x@, y@),
        },
{
    let pt = from_circom_point(x, y);
    if pt.is_on_curve() && pt.is_in_correct_subgroup_assuming_on_curve() {
        Some(pt)
    } else {
        None
    }
}

/// A BabyJubJub signing key (a scalar mod l).
#[derive(Clone, Copy, Debug, PartialEq, Eq, Structural)]
pub struct SecretKey(pub Sc);

/// Verification key: a BabyJubJub point in circomlib coordinates.
#[derive(Clone, Copy, Debug, PartialEq, Eq, Structural)]
pub struct VerificationKey {
    pub x: Fe,
    pub y: Fe,
}

/// Signature (R.x, R.y, S); S is a scalar mod l embedded in the base field.
#[derive(Clone, Copy, Debug, PartialEq, Eq, Structural)]
pub struct Signature {
    pub rx: Fe,
    pub ry: Fe,
    pub s: Fe,
}

/// The verification key of a signing key: Base8 * sk, in circomlib form.
pub open spec fn spec_vk_of(sk: nat) -> (nat, nat) {
    spec_to_circom(jub_mul_spec(spec_base8().0, spec_base8().1, sk))
}

/// Draw a nonzero scalar by rejection sampling. After 2^64 - 1 draws that
/// were all zero (which does not happen) it gives up and returns 1.
pub fn sample_nonzero_scalar(rng: &mut rand_chacha::ChaCha20Rng) -> (r: Sc)
    ensures
        0 < r@ < l(),
{
    let mut tries: u64 = 0;
    while tries < u64::MAX
        decreases u64::MAX - tries,
    {
        let s = Sc::random(rng);
        if !s.is_zero() {
            return s;
        }
        tries += 1;
    }
    Sc::one()
}

/// Generate a signing key pair: a nonzero scalar and its public point.
pub fn keygen(rng: &mut rand_chacha::ChaCha20Rng) -> (r: (SecretKey, VerificationKey))
    ensures
        r.0.0@ != 0,
        (r.1.x@, r.1.y@) == spec_vk_of(r.0.0@),
{
    let sk = sample_nonzero_scalar(rng);
    let a = base8().mul(&sk);
    let (x, y) = to_circom_point(&a);
    (SecretKey(sk), VerificationKey { x, y })
}

/// The Schnorr challenge Poseidon(R.x, R.y, A.x, A.y, msg).
pub open spec fn spec_challenge(rx: nat, ry: nat, vkx: nat, vky: nat, msg: nat) -> nat {
    poseidon_spec(seq![rx, ry, vkx, vky, msg])
}

/// Poseidon challenge c = Poseidon(R.x, R.y, A.x, A.y, msg) — arity 5.
pub fn challenge(rx: Fe, ry: Fe, vk: &VerificationKey, msg: Fe) -> (r: Fe)
    ensures
        r@ == spec_challenge(rx@, ry@, vk.x@, vk.y@, msg@),
{
    poseidon5(rx, ry, vk.x, vk.y, msg)
}

/// A signature under `sk` on `msg` with nonce `k`: R = Base8 * k and
/// S = k + c * sk mod l, c the challenge reduced mod l.
pub open spec fn spec_is_signature_with_nonce(sk: nat, msg: nat, sig: Signature, k: nat) -> bool {
    let vk = spec_vk_of(sk);
    let rr = spec_to_circom(jub_mul_spec(spec_base8().0, spec_base8().1, k));
    let c = spec_challenge(rr.0, rr.1, vk.0, vk.1, msg) % l();
    &&& 0 < k < l()
    &&& sig.rx@ == rr.0
    &&& sig.ry@ == rr.1
    &&& sig.s@ == (k + (c * sk) % l()) % l()
}

/// Interpret a base-field element as a BabyJubJub scalar: its integer
/// reduced mod l, as the circuit's group order reduces the challenge.
pub fn jub_scalar_from_field(f: &Fe) -> (r: Sc)
    ensures
        r@ == f@ % l(),
{
    Sc::from_fe_mod_order(f)
}

/// Embed a BabyJubJub scalar into the base field (injective since l < p).
pub fn field_from_jub_scalar(s: &Sc) -> (r: Fe)
    ensures
        r@ == s@,
{
    s.to_fe()
}

/// Sign `msg` with a fresh nonzero nonce.
pub fn sign(sk: &SecretKey, msg: Fe, rng: &mut rand_chacha::ChaCha20Rng) -> (r: Signature)
    ensures
        exists|k: nat| spec_is_signature_with_nonce(sk.0@, msg@, r, k),
{
    let base = base8();
    let a = base.mul(&sk.0);
    let (ax, ay) = to_circom_point(&a);
    let vk = VerificationKey { x: ax, y: ay };
    let k = sample_nonzero_scalar(rng);
    let rp = base.mul(&k);
    let (rx, ry) = to_circom_point(&rp);
    let c = jub_scalar_from_field(&challenge(rx, ry, &vk, msg));
    let s = k.add(&c.mul(&sk.0));
    let sig = Signature { rx, ry, s: field_from_jub_scalar(&s) };
    assert(spec_is_signature_with_nonce(sk.0@, msg@, sig, k@));
    sig
}

/// The Schnorr verification predicate: A and R decode to subgroup points,
/// A is not the identity, S < l, and S * B8 == R + (c mod l) * A.
pub open spec fn spec_verify(vkx: nat, vky: nat, msg: nat, rx: nat, ry: nat, s: nat) -> bool {
    let a = spec_from_circom(vkx, vky);
    let rr = spec_from_circom(rx, ry);
    let b = spec_base8();
    let c = spec_challenge(rx, ry, vkx, vky, msg) % l();
    let ca = jub_mul_spec(a.0, a.1, c);
    &&& spec_decodes(vkx, vky)
    &&& a != (0nat, 1nat)
    &&& spec_decodes(rx, ry)
    &&& s < l()
    &&& jub_mul_spec(b.0, b.1, s) == jub_add_spec(rr.0, rr.1, ca.0, ca.1)
}

/// Verify S * B8 == R + c * A. Returns false (never panics) on malformed
/// inputs: off-curve points, non-canonical S, identity keys.
pub fn verify(vk: &VerificationKey, msg: Fe, sig: &Signature) -> (r: bool)
    ensures
        r == spec_verify(vk.x@, vk.y@, msg@, sig.rx@, sig.ry@, sig.s@),
{
    let a = match decode_point(vk.x, vk.y) {
        Some(pt) => pt,
        None => return false,
    };
    if a.is_identity() {
        return false;
    }
    let rp = match decode_point(sig.rx, sig.ry) {
        Some(pt) => pt,
        None => return false,
    };
    if !f_is_canonical_scalar(&sig.s) {
        return false;
    }
    let s = jub_scalar_from_field(&sig.s);
    proof {
        vstd::arithmetic::div_mod::lemma_small_mod(sig.s@, l());
    }
    let c = jub_scalar_from_field(&challenge(sig.rx, sig.ry, vk, msg));
    let lhs = base8().mul(&s);
    let rhs = rp.add(&a.mul(&c));
    proof {
        Fe::lemma_eq_iff_view_eq(lhs.x, rhs.x);
        Fe::lemma_eq_iff_view_eq(lhs.y, rhs.y);
    }
    lhs.x == rhs.x && lhs.y == rhs.y
}

} // verus!
