//! Prime-field elements of the BN254 scalar field (`Fe`) and of the
//! BabyJubJub scalar field (`Sc`), held as four canonical little-endian
//! 64-bit limbs. Arithmetic is delegated to arkworks; every operation's
//! contract is stated over the integer value of the limbs.

use ark_ff::{BigInteger, Field, PrimeField, UniformRand};
use vstd::prelude::*;

verus! {

/// 2^64.
pub open spec fn w64() -> nat {
    0x1_0000_0000_0000_0000nat
}

/// Integer value of four little-endian 64-bit limbs.
pub open spec fn limbs_value(l0: u64, l1: u64, l2: u64, l3: u64) -> nat {
    l0 as nat + l1 as nat * 0x1_0000_0000_0000_0000nat + l2 as nat
        * 0x1_0000_0000_0000_0000_0000_0000_0000_0000nat + l3 as nat
        * 0x1_0000_0000_0000_0000_0000_0000_0000_0000_0000_0000_0000_0000nat
}

/// The BN254 scalar-field modulus p (the field circom and Groth16 work over).
pub open spec fn p() -> nat {
    21888242871839275222246405745257275088548364400416034343698204186575808495617nat
}

/// The order l of the BabyJubJub prime-order subgroup (the scalar field).
pub open spec fn l() -> nat {
    2736030358979909402780800718157159386076813972158567259200215660948447373041nat
}

/// Little-endian integer value of a byte string.
pub open spec fn le_bytes_value(s: Seq<u8>) -> nat
    decreases s.len(),
{
    if s.len() == 0 {
        0
    } else {
        s[0] as nat + 256 * le_bytes_value(s.drop_first())
    }
}

/// Big-endian integer value of a byte string.
pub open spec fn be_bytes_value(s: Seq<u8>) -> nat
    decreases s.len(),
{
    if s.len() == 0 {
        0
    } else {
        be_bytes_value(s.drop_last()) * 256 + s.last() as nat
    }
}

/// Two limb vectors with the same value are the same limbs.
pub proof fn lemma_limbs_injective(
    a0: u64,
    a1: u64,
    a2: u64,
    a3: u64,
    b0: u64,
    b1: u64,
    b2: u64,
    b3: u64,
)
    requires
        limbs_value(a0, a1, a2, a3) == limbs_value(b0, b1, b2, b3),
    ensures
        a0 == b0 && a1 == b1 && a2 == b2 && a3 == b3,
{
    lemma_limbs_order(a0, a1, a2, a3, b0, b1, b2, b3);
    lemma_limbs_order(b0, b1, b2, b3, a0, a1, a2, a3);
}

/// An element of the BN254 scalar field, as canonical limbs (value < p).
#[derive(Clone, Copy, Debug, PartialEq, Eq, Structural)]
pub struct Fe {
    l0: u64,
    l1: u64,
    l2: u64,
    l3: u64,
}

impl View for Fe {
    type V = nat;

    closed spec fn view(&self) -> nat {
        limbs_value(self.l0, self.l1, self.l2, self.l3)
    }
}

impl Fe {
    #[verifier::type_invariant]
    spec fn canonical(self) -> bool {
        self@ < p()
    }

    /// Field elements are equal exactly when their values are.
    pub proof fn lemma_eq_iff_view_eq(a: Fe, b: Fe)
        ensures
            a == b <==> a@ == b@,
    {
        if a@ == b@ {
            lemma_limbs_injective(a.l0, a.l1, a.l2, a.l3, b.l0, b.l1, b.l2, b.l3);
        }
    }

    /// The limbs, least significant first.
    pub fn to_limbs(&self) -> (r: [u64; 4])
        ensures
            limbs_value(r[0], r[1], r[2], r[3]) == self@,
    {
        [self.l0, self.l1, self.l2, self.l3]
    }

    /// Builds an element from limbs; `None` when their value is not below p.
    pub fn from_limbs(limbs: [u64; 4]) -> (r: Option<Fe>)
        ensures
            match r {
                Some(f) => f@ == limbs_value(limbs[0], limbs[1], limbs[2], limbs[3]) && f@ < p(),
                None => limbs_value(limbs[0], limbs[1], limbs[2], limbs[3]) >= p(),
            },
    {
        let lt = limbs_less_than(limbs, [0x43e1f593f0000001u64, 0x2833e84879b97091u64,
            0xb85045b68181585du64, 0x30644e72e131a029u64]);
        if lt {
            Some(Fe { l0: limbs[0], l1: limbs[1], l2: limbs[2], l3: limbs[3] })
        } else {
            None
        }
    }

    /// The element 0.
    pub fn zero() -> (r: Fe)
        ensures
            r@ == 0,
    {
        Fe { l0: 0, l1: 0, l2: 0, l3: 0 }
    }

    /// The element 1.
    pub fn one() -> (r: Fe)
        ensures
            r@ == 1,
    {
        Fe { l0: 1, l1: 0, l2: 0, l3: 0 }
    }

    /// Embeds a machine integer (every u64 is below p).
    pub fn from_u64(v: u64) -> (r: Fe)
        ensures
            r@ == v as nat,
    {
        Fe { l0: v, l1: 0, l2: 0, l3: 0 }
    }

    /// True iff the element is 0.
    pub fn is_zero(&self) -> (r: bool)
        ensures
            r == (self@ == 0),
    {
        self.l0 == 0 && self.l1 == 0 && self.l2 == 0 && self.l3 == 0
    }

    /// Interprets the element as a u64 when its integer value fits.
    pub fn to_u64(&self) -> (r: Option<u64>)
        ensures
            match r {
                Some(v) => self@ < w64() && v as nat == self@,
                None => self@ >= w64(),
            },
    {
        if self.l1 == 0 && self.l2 == 0 && self.l3 == 0 {
            Some(self.l0)
        } else {
            None
        }
    }

    /// Modular sum.
    pub fn add(&self, other: &Fe) -> (r: Fe)
        ensures
            r@ == (self@ + other@) % p(),
    {
        fe_add_raw(self, other)
    }

    /// Modular difference.
    pub fn sub(&self, other: &Fe) -> (r: Fe)
        ensures
            r@ == (self@ + p() - other@) % (p() as int),
    {
        fe_sub_raw(self, other)
    }

    /// Modular product.
    pub fn mul(&self, other: &Fe) -> (r: Fe)
        ensures
            r@ == (self@ * other@) % p(),
    {
        fe_mul_raw(self, other)
    }

    /// Multiplicative inverse; `None` exactly for 0.
    pub fn inverse(&self) -> (r: Option<Fe>)
        ensures
            match r {
                Some(i) => self@ != 0 && (self@ * i@) % p() == 1 && i@ == fe_inverse_spec(self@),
                None => self@ == 0,
            },
    {
        fe_inverse_raw(self)
    }
}

/// The modular inverse that arkworks returns, named.
pub uninterp spec fn fe_inverse_spec(a: nat) -> nat;

/// Lexicographic comparison of limb vectors, most significant limb first.
fn limbs_less_than(a: [u64; 4], b: [u64; 4]) -> (r: bool)
    ensures
        r == (limbs_value(a[0], a[1], a[2], a[3]) < limbs_value(b[0], b[1], b[2], b[3])),
{
    proof {
        lemma_limbs_order(a[0], a[1], a[2], a[3], b[0], b[1], b[2], b[3]);
    }
    if a[3] != b[3] {
        a[3] < b[3]
    } else if a[2] != b[2] {
        a[2] < b[2]
    } else if a[1] != b[1] {
        a[1] < b[1]
    } else {
        a[0] < b[0]
    }
}

/// The order of limb vectors is the lexicographic order from the top limb.
proof fn lemma_limbs_order(a0: u64, a1: u64, a2: u64, a3: u64, b0: u64, b1: u64, b2: u64, b3: u64)
    ensures
        a3 != b3 ==> (limbs_value(a0, a1, a2, a3) < limbs_value(b0, b1, b2, b3) <==> a3 < b3),
        a3 == b3 && a2 != b2 ==> (limbs_value(a0, a1, a2, a3) < limbs_value(b0, b1, b2, b3)
            <==> a2 < b2),
        a3 == b3 && a2 == b2 && a1 != b1 ==> (limbs_value(a0, a1, a2, a3) < limbs_value(
            b0,
            b1,
            b2,
            b3,
        ) <==> a1 < b1),
        a3 == b3 && a2 == b2 && a1 == b1 ==> (limbs_value(a0, a1, a2, a3) < limbs_value(
            b0,
            b1,
            b2,
            b3,
        ) <==> a0 < b0),
{
}

#[verifier::external_body]
fn fe_add_raw(a: &Fe, b: &Fe) -> (r: Fe)
    ensures
        r@ == (a@ + b@) % p(),
{
    let x = ark_bn254::Fr::from_bigint(ark_ff::BigInt([a.l0, a.l1, a.l2, a.l3])).unwrap();
    let y = ark_bn254::Fr::from_bigint(ark_ff::BigInt([b.l0, b.l1, b.l2, b.l3])).unwrap();
    let z = (x + y).into_bigint().0;
    Fe { l0: z[0], l1: z[1], l2: z[2], l3: z[3] }
}

#[verifier::external_body]
fn fe_sub_raw(a: &Fe, b: &Fe) -> (r: Fe)
    ensures
        r@ == (a@ + p() - b@) % (p() as int),
{
    let x = ark_bn254::Fr::from_bigint(ark_ff::BigInt([a.l0, a.l1, a.l2, a.l3])).unwrap();
    let y = ark_bn254::Fr::from_bigint(ark_ff::BigInt([b.l0, b.l1, b.l2, b.l3])).unwrap();
    let z = (x - y).into_bigint().0;
    Fe { l0: z[0], l1: z[1], l2: z[2], l3: z[3] }
}

#[verifier::external_body]
fn fe_mul_raw(a: &Fe, b: &Fe) -> (r: Fe)
    ensures
        r@ == (a@ * b@) % p(),
{
    let x = ark_bn254::Fr::from_bigint(ark_ff::BigInt([a.l0, a.l1, a.l2, a.l3])).unwrap();
    let y = ark_bn254::Fr::from_bigint(ark_ff::BigInt([b.l0, b.l1, b.l2, b.l3])).unwrap();
    let z = (x * y).into_bigint().0;
    Fe { l0: z[0], l1: z[1], l2: z[2], l3: z[3] }
}

/// `ark_ff::Field::inverse` on the BN254 scalar field: the inverse of a
/// nonzero element (named; its product with the element is 1 mod p),
/// `None` for zero.
#[verifier::external_body]
fn fe_inverse_raw(a: &Fe) -> (r: Option<Fe>)
    ensures
        match r {
            Some(i) => a@ != 0 && (a@ * i@) % p() == 1 && i@ == fe_inverse_spec(a@),
            None => a@ == 0,
        },
{
    let x = ark_bn254::Fr::from_bigint(ark_ff::BigInt([a.l0, a.l1, a.l2, a.l3])).unwrap();
    x.inverse().map(|i| {
        let z = i.into_bigint().0;
        Fe { l0: z[0], l1: z[1], l2: z[2], l3: z[3] }
    })
}


impl Fe {
    /// A uniformly random field element (`ark_ff::UniformRand`).
    pub fn random(rng: &mut rand_chacha::ChaCha20Rng) -> (r: Fe)
        ensures
            r@ < p(),
    {
        let r = fe_rand_raw(rng);
        proof {
            use_type_invariant(&r);
        }
        r
    }

    /// Every element is below the modulus (a no-op that exposes the fact).
    pub fn bound(&self)
        ensures
            self@ < p(),
    {
        proof {
            use_type_invariant(self);
        }
    }

    /// Reads little-endian bytes as an integer and reduces it mod p.
    pub fn from_le_bytes_mod_order(bytes: &[u8]) -> (r: Fe)
        ensures
            r@ == le_bytes_value(bytes@) % p(),
    {
        fe_from_le_bytes_mod_order_raw(bytes)
    }

    /// Reads big-endian bytes as an integer and reduces it mod p.
    pub fn from_be_bytes_mod_order(bytes: &[u8]) -> (r: Fe)
        ensures
            r@ == be_bytes_value(bytes@) % p(),
    {
        fe_from_be_bytes_mod_order_raw(bytes)
    }

    /// The canonical integer as 32 big-endian bytes.
    pub fn to_bytes_be(&self) -> (r: Vec<u8>)
        ensures
            r@.len() == 32,
            be_bytes_value(r@) == self@,
    {
        fe_to_bytes_be_raw(self)
    }
}

/// `ark_ff::UniformRand::rand` on the BN254 scalar field. Nothing is stated
/// of the sample beyond its being a field element.
#[verifier::external_body]
fn fe_rand_raw(rng: &mut rand_chacha::ChaCha20Rng) -> (r: Fe) {
    let z = ark_bn254::Fr::rand(rng).into_bigint().0;
    Fe { l0: z[0], l1: z[1], l2: z[2], l3: z[3] }
}

/// `PrimeField::from_le_bytes_mod_order`: the little-endian integer of the
/// bytes, reduced modulo p.
#[verifier::external_body]
fn fe_from_le_bytes_mod_order_raw(bytes: &[u8]) -> (r: Fe)
    ensures
        r@ == le_bytes_value(bytes@) % p(),
{
    let z = ark_bn254::Fr::from_le_bytes_mod_order(bytes).into_bigint().0;
    Fe { l0: z[0], l1: z[1], l2: z[2], l3: z[3] }
}

/// `PrimeField::from_be_bytes_mod_order`: the big-endian integer of the
/// bytes, reduced modulo p.
#[verifier::external_body]
fn fe_from_be_bytes_mod_order_raw(bytes: &[u8]) -> (r: Fe)
    ensures
        r@ == be_bytes_value(bytes@) % p(),
{
    let z = ark_bn254::Fr::from_be_bytes_mod_order(bytes).into_bigint().0;
    Fe { l0: z[0], l1: z[1], l2: z[2], l3: z[3] }
}

/// `BigInteger::to_bytes_be` of the canonical integer: 32 big-endian bytes
/// (four 64-bit limbs) whose value is the element's value.
#[verifier::external_body]
fn fe_to_bytes_be_raw(a: &Fe) -> (r: Vec<u8>)
    ensures
        r@.len() == 32,
        be_bytes_value(r@) == a@,
{
    ark_ff::BigInt::<4>([a.l0, a.l1, a.l2, a.l3]).to_bytes_be()
}

/// An element of the BabyJubJub scalar field (value < l).
#[derive(Clone, Copy, Debug, PartialEq, Eq, Structural)]
pub struct Sc {
    l0: u64,
    l1: u64,
    l2: u64,
    l3: u64,
}

impl View for Sc {
    type V = nat;

    closed spec fn view(&self) -> nat {
        limbs_value(self.l0, self.l1, self.l2, self.l3)
    }
}

impl Sc {
    #[verifier::type_invariant]
    spec fn canonical(self) -> bool {
        self@ < l()
    }

    /// Scalars are equal exactly when their values are.
    pub proof fn lemma_eq_iff_view_eq(a: Sc, b: Sc)
        ensures
            a == b <==> a@ == b@,
    {
        if a@ == b@ {
            lemma_limbs_injective(a.l0, a.l1, a.l2, a.l3, b.l0, b.l1, b.l2, b.l3);
        }
    }

    /// The limbs, least significant first.
    pub fn to_limbs(&self) -> (r: [u64; 4])
        ensures
            limbs_value(r[0], r[1], r[2], r[3]) == self@,
    {
        [self.l0, self.l1, self.l2, self.l3]
    }

    /// Builds a scalar from limbs; `None` when their value is not below l.
    pub fn from_limbs(limbs: [u64; 4]) -> (r: Option<Sc>)
        ensures
            match r {
                Some(f) => f@ == limbs_value(limbs[0], limbs[1], limbs[2], limbs[3]),
                None => limbs_value(limbs[0], limbs[1], limbs[2], limbs[3]) >= l(),
            },
    {
        if limbs_less_than(limbs, l_limbs()) {
            Some(Sc { l0: limbs[0], l1: limbs[1], l2: limbs[2], l3: limbs[3] })
        } else {
            None
        }
    }

    /// The scalar 1.
    pub fn one() -> (r: Sc)
        ensures
            r@ == 1,
    {
        Sc { l0: 1, l1: 0, l2: 0, l3: 0 }
    }

    /// True iff the scalar is 0.
    pub fn is_zero(&self) -> (r: bool)
        ensures
            r == (self@ == 0),
    {
        self.l0 == 0 && self.l1 == 0 && self.l2 == 0 && self.l3 == 0
    }

    /// Modular sum mod l.
    pub fn add(&self, other: &Sc) -> (r: Sc)
        ensures
            r@ == (self@ + other@) % l(),
    {
        sc_add_raw(self, other)
    }

    /// Modular product mod l.
    pub fn mul(&self, other: &Sc) -> (r: Sc)
        ensures
            r@ == (self@ * other@) % l(),
    {
        sc_mul_raw(self, other)
    }

    /// A uniformly random scalar (`ark_ff::UniformRand`).
    pub fn random(rng: &mut rand_chacha::ChaCha20Rng) -> (r: Sc)
        ensures
            r@ < l(),
    {
        let r = sc_rand_raw(rng);
        proof {
            use_type_invariant(&r);
        }
        r
    }

    /// Every scalar is below l (a no-op that exposes the fact).
    pub fn bound(&self)
        ensures
            self@ < l(),
    {
        proof {
            use_type_invariant(self);
        }
    }

    /// Interprets a base-field element's integer as a scalar, reduced mod l.
    pub fn from_fe_mod_order(f: &Fe) -> (r: Sc)
        ensures
            r@ == f@ % l(),
    {
        sc_from_le_bytes_mod_order_raw(f)
    }

    /// Embeds the scalar into the base field (its integer value; l < p).
    pub fn to_fe(&self) -> (r: Fe)
        ensures
            r@ == self@,
    {
        proof {
            use_type_invariant(self);
        }
        let o = Fe::from_limbs([self.l0, self.l1, self.l2, self.l3]);
        match o {
            Some(f) => f,
            None => Fe::zero(),
        }
    }
}

/// The limbs of l.
pub fn l_limbs() -> (r: [u64; 4])
    ensures
        limbs_value(r[0], r[1], r[2], r[3]) == l(),
{
    [0x677297dc392126f1u64, 0xab3eedb83920ee0au64, 0x370a08b6d0302b0bu64, 0x060c89ce5c263405u64]
}

/// True iff the integer value of `f` is a canonical scalar (< l).
pub fn f_is_canonical_scalar(f: &Fe) -> (r: bool)
    ensures
        r == (f@ < l()),
{
    limbs_less_than(f.to_limbs(), l_limbs())
}

#[verifier::external_body]
fn sc_add_raw(a: &Sc, b: &Sc) -> (r: Sc)
    ensures
        r@ == (a@ + b@) % l(),
{
    let x = ark_ed_on_bn254::Fr::from_bigint(ark_ff::BigInt([a.l0, a.l1, a.l2, a.l3])).unwrap();
    let y = ark_ed_on_bn254::Fr::from_bigint(ark_ff::BigInt([b.l0, b.l1, b.l2, b.l3])).unwrap();
    let z = (x + y).into_bigint().0;
    Sc { l0: z[0], l1: z[1], l2: z[2], l3: z[3] }
}

#[verifier::external_body]
fn sc_mul_raw(a: &Sc, b: &Sc) -> (r: Sc)
    ensures
        r@ == (a@ * b@) % l(),
{
    let x = ark_ed_on_bn254::Fr::from_bigint(ark_ff::BigInt([a.l0, a.l1, a.l2, a.l3])).unwrap();
    let y = ark_ed_on_bn254::Fr::from_bigint(ark_ff::BigInt([b.l0, b.l1, b.l2, b.l3])).unwrap();
    let z = (x * y).into_bigint().0;
    Sc { l0: z[0], l1: z[1], l2: z[2], l3: z[3] }
}

/// `ark_ff::UniformRand::rand` on the BabyJubJub scalar field. Nothing is
/// stated of the sample beyond its being a scalar.
#[verifier::external_body]
fn sc_rand_raw(rng: &mut rand_chacha::ChaCha20Rng) -> (r: Sc) {
    let z = ark_ed_on_bn254::Fr::rand(rng).into_bigint().0;
    Sc { l0: z[0], l1: z[1], l2: z[2], l3: z[3] }
}

/// `PrimeField::from_le_bytes_mod_order` on the BabyJubJub scalar field,
/// applied to the little-endian bytes of a base-field element: its
/// integer value reduced modulo l.
#[verifier::external_body]
fn sc_from_le_bytes_mod_order_raw(f: &Fe) -> (r: Sc)
    ensures
        r@ == f@ % l(),
{
    let bytes = ark_ff::BigInt::<4>(f.to_limbs()).to_bytes_le();
    let z = ark_ed_on_bn254::Fr::from_le_bytes_mod_order(&bytes).into_bigint().0;
    Sc { l0: z[0], l1: z[1], l2: z[2], l3: z[3] }
}

} // verus!
