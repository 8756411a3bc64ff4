//! Ballot encryption in the CAST-ZK format.
//!
//! A public board entry is (com, ct_open, pi_cast): `com` commits to the
//! opening, `ct_open` encrypts the same opening (plus r_com) to the EA with
//! a BabyJubJub-ElGamal + Poseidon-pad hybrid:
//!
//! ```text
//! C1 = rho_enc * Base8,  ss = rho_enc * pk_EA,
//! masked_i = m_i + Poseidon(ss.x, ss.y, i),   m = opening || r_com.
//! ```

use vstd::prelude::*;

use crate::crypto::hash::{poseidon3, poseidon_spec, vals};
use crate::crypto::signature::{
    base8, decode_point, jub_mul_spec, lemma_circom_roundtrip, sample_nonzero_scalar, spec_base8,
    spec_decodes, spec_from_circom, spec_to_circom, to_circom_point,
};
use crate::errors::{msg, CrDrError, Result};
use crate::field::{f_is_canonical_scalar, be_bytes_value, l, p, Fe, Sc};
use crate::types::PLAINTEXT_FIELD_LEN;

verus! {

/// Number of encrypted fields in ct_open: the 9 opening fields + r_com.
pub const CAST_CT_LEN: usize = 10;

/// EA encryption secret key (a BabyJubJub scalar).
#[derive(Clone, Copy, Debug, PartialEq, Eq, Structural)]
pub struct EaSecretKey(pub Sc);

/// EA encryption public key (a BabyJubJub point, circomlib coordinates).
#[derive(Clone, Copy, Debug, PartialEq, Eq, Structural)]
pub struct EaPublicKey {
    pub x: Fe,
    pub y: Fe,
}

/// Whether the EA public key is a valid subgroup point.
pub open spec fn spec_decodes_pk(pk: EaPublicKey) -> bool {
    spec_decodes(pk.x@, pk.y@)
}

/// Generate the EA key pair: a nonzero scalar and Base8 times it.
pub fn ea_keygen(rng: &mut rand_chacha::ChaCha20Rng) -> (r: (EaSecretKey, EaPublicKey))
    ensures
        0 < r.0.0@ < l(),
        (r.1.x@, r.1.y@) == spec_to_circom(jub_mul_spec(spec_base8().0, spec_base8().1, r.0.0@)),
        spec_from_circom(r.1.x@, r.1.y@) == jub_mul_spec(spec_base8().0, spec_base8().1, r.0.0@),
{
    let sk = sample_nonzero_scalar(rng);
    let pk = base8().mul(&sk);
    let (x, y) = to_circom_point(&pk);
    pk.x.bound();
    proof {
        lemma_circom_roundtrip(pk@);
    }
    (EaSecretKey(sk), EaPublicKey { x, y })
}

/// The public encrypted opening ct_open = (C1, masked[10]).
#[derive(Clone, Debug, PartialEq, Eq)]
pub struct CastCiphertext {
    pub c1x: Fe,
    pub c1y: Fe,
    pub masked: Vec<Fe>,
}

/// `bytes` is the concatenation of the 32-byte big-endian encodings of
/// the values `fs`.
pub open spec fn spec_encodes(bytes: Seq<u8>, fs: Seq<nat>) -> bool {
    &&& bytes.len() == 32 * fs.len()
    &&& forall|k: int|
        0 <= k < fs.len() ==> be_bytes_value(#[trigger] bytes.subrange(32 * k, 32 * k + 32))
            == fs[k]
}

/// Append the 32-byte big-endian encoding of `f` to `out`.
pub fn push_fe_bytes(out: &mut Vec<u8>, f: &Fe, Ghost(fs): Ghost<Seq<nat>>)
    requires
        spec_encodes(old(out)@, fs),
    ensures
        spec_encodes(final(out)@, fs.push(f@)),
{
    let b = f.to_bytes_be();
    let ghost start = out@;
    let mut i: usize = 0;
    while i < 32
        invariant
            b@.len() == 32,
            i <= 32,
            out@ == start + b@.subrange(0, i as int),
        decreases 32 - i,
    {
        out.push(b[i]);
        i += 1;
        assert(b@.subrange(0, i as int) =~= b@.subrange(0, i - 1).push(b@[i - 1]));
    }
    proof {
        assert(b@.subrange(0, 32) =~= b@);
        let n = fs.len() as int;
        assert forall|k: int| 0 <= k < n + 1 implies be_bytes_value(
            #[trigger] out@.subrange(32 * k, 32 * k + 32),
        ) == fs.push(f@)[k] by {
            if k < n {
                assert(out@.subrange(32 * k, 32 * k + 32) =~= start.subrange(32 * k, 32 * k + 32));
            } else {
                assert(out@.subrange(32 * k, 32 * k + 32) =~= b@);
            }
        }
    }
}

impl CastCiphertext {
    /// Same C1 and the same masked fields.
    pub open spec fn same_as(self, other: CastCiphertext) -> bool {
        self.c1x == other.c1x && self.c1y == other.c1y && self.masked@ == other.masked@
    }

    /// Content equality.
    pub fn same_content(&self, other: &CastCiphertext) -> (r: bool)
        ensures
            r == self.same_as(*other),
    {
        if self.c1x != other.c1x || self.c1y != other.c1y || self.masked.len() != other.masked.len() {
            return false;
        }
        let mut i: usize = 0;
        while i < self.masked.len()
            invariant
                self.masked@.len() == other.masked@.len(),
                i <= self.masked@.len(),
                forall|k: int| 0 <= k < i ==> self.masked@[k] == other.masked@[k],
            decreases self.masked@.len() - i,
        {
            if self.masked[i] != other.masked[i] {
                return false;
            }
            i += 1;
        }
        assert(self.masked@ =~= other.masked@);
        true
    }

    /// A copy with the same content.
    pub fn duplicate(&self) -> (r: CastCiphertext)
        ensures
            r.same_as(*self),
    {
        CastCiphertext { c1x: self.c1x, c1y: self.c1y, masked: self.masked.clone() }
    }

    /// All public fields in order: C1.x, C1.y, masked[..].
    pub open spec fn spec_fields(&self) -> Seq<nat> {
        seq![self.c1x@, self.c1y@] + vals(self.masked@)
    }

    /// Exact public byte encoding (32-byte big-endian per field, concatenated).
    pub fn to_bytes(&self) -> (r: Vec<u8>)
        ensures
            spec_encodes(r@, self.spec_fields()),
    {
        let mut out: Vec<u8> = Vec::new();
        push_fe_bytes(&mut out, &self.c1x, Ghost(Seq::<nat>::empty()));
        let ghost s1 = seq![self.c1x@];
        push_fe_bytes(&mut out, &self.c1y, Ghost(s1));
        assert(seq![self.c1x@].push(self.c1y@) =~= seq![self.c1x@, self.c1y@]);
        let mut i: usize = 0;
        while i < self.masked.len()
            invariant
                i <= self.masked@.len(),
                spec_encodes(out@, seq![self.c1x@, self.c1y@] + vals(self.masked@.subrange(0, i as int))),
            decreases self.masked@.len() - i,
        {
            let ghost before = seq![self.c1x@, self.c1y@] + vals(self.masked@.subrange(0, i as int));
            push_fe_bytes(&mut out, &self.masked[i], Ghost(before));
            assert(before.push(self.masked@[i as int]@) =~= seq![self.c1x@, self.c1y@] + vals(
                self.masked@.subrange(0, i + 1),
            ));
            i += 1;
        }
        assert(self.masked@.subrange(0, self.masked@.len() as int) =~= self.masked@);
        out
    }
}

/// Opening of a ballot commitment: the 9 plaintext fields + r_com (named
/// `rho` as in the tally circuit).
#[derive(Clone, Debug, PartialEq, Eq)]
pub struct EncOpening {
    pub plaintext_fields: Vec<Fe>,
    pub rho: Fe,
}

impl EncOpening {
    /// A copy with the same content.
    pub fn duplicate(&self) -> (r: EncOpening)
        ensures
            r.plaintext_fields@ == self.plaintext_fields@,
            r.rho == self.rho,
    {
        EncOpening { plaintext_fields: self.plaintext_fields.clone(), rho: self.rho }
    }
}

/// The voter-private cast secret: the opening and the ElGamal randomness.
#[derive(Clone, Debug, PartialEq, Eq)]
pub struct CastSecret {
    pub opening: EncOpening,
    /// Ephemeral randomness: a canonical nonzero scalar, as a field element.
    pub rho_enc: Fe,
}

/// The one-time pad of field i: Poseidon(ss.x, ss.y, i).
pub open spec fn spec_pad(ssx: nat, ssy: nat, i: nat) -> nat {
    poseidon_spec(seq![ssx, ssy, i])
}

fn pad(ssx: Fe, ssy: Fe, i: usize) -> (r: Fe)
    ensures
        r@ == spec_pad(ssx@, ssy@, i as nat),
{
    poseidon3(ssx, ssy, Fe::from_u64(i as u64))
}

/// Sample nonzero ElGamal randomness (a canonical scalar, as a field element).
pub fn sample_rho_enc(rng: &mut rand_chacha::ChaCha20Rng) -> (r: Fe)
    ensures
        0 < r@ < l(),
{
    let s = sample_nonzero_scalar(rng);
    s.to_fe()
}

fn rho_to_scalar(rho_enc: Fe) -> (r: Result<Sc>)
    ensures
        match r {
            Ok(s) => 0 < rho_enc@ < l() && s@ == rho_enc@,
            Err(_) => !(0 < rho_enc@ < l()),
        },
{
    if !f_is_canonical_scalar(&rho_enc) || rho_enc.is_zero() {
        return Err(CrDrError::Crypto(msg("rho_enc must be a nonzero canonical scalar")));
    }
    proof {
        vstd::arithmetic::div_mod::lemma_small_mod(rho_enc@, l());
    }
    Ok(Sc::from_fe_mod_order(&rho_enc))
}

/// The shared secret point of the hybrid scheme, circomlib coordinates.
pub open spec fn spec_shared(pkx: nat, pky: nat, rho: nat) -> (nat, nat) {
    let pk = spec_from_circom(pkx, pky);
    spec_to_circom(jub_mul_spec(pk.0, pk.1, rho))
}

/// The hybrid ciphertext of `m` under pk with randomness `rho`.
pub open spec fn spec_cast_encrypt(pkx: nat, pky: nat, m: Seq<nat>, rho: nat) -> Seq<nat> {
    let c1 = spec_to_circom(jub_mul_spec(spec_base8().0, spec_base8().1, rho));
    let ss = spec_shared(pkx, pky, rho);
    seq![c1.0, c1.1] + Seq::new(m.len(), |i: int| (m[i] + spec_pad(ss.0, ss.1, i as nat)) % p())
}

/// Unmasking a masked canonical value gives it back:
/// ((m + d) mod q + q - d mod q) mod q == m for m, d < q.
proof fn lemma_unmask(m: nat, d: nat, q: nat)
    requires
        m < q,
        d < q,
    ensures
        (((m + d) % q + q - d % q) % (q as int)) as nat == m,
{
    vstd::arithmetic::div_mod::lemma_small_mod(d, q);
    vstd::arithmetic::div_mod::lemma_small_mod(m, q);
    if m + d < q {
        vstd::arithmetic::div_mod::lemma_small_mod(m + d, q);
        vstd::arithmetic::div_mod::lemma_mod_add_multiples_vanish(m as int, q as int);
    } else {
        vstd::arithmetic::div_mod::lemma_small_mod((m + d - q) as nat, q);
        vstd::arithmetic::div_mod::lemma_mod_add_multiples_vanish((m + d - q) as int, q as int);
    }
}

/// Hybrid-encrypt the 10 cast fields (opening || r_com) under pk_EA with
/// the given randomness. Deterministic given rho_enc. Fails exactly when
/// pk_EA is not a subgroup point or rho_enc is not a nonzero canonical
/// scalar. The holder of the secret key behind pk_EA (a nonzero scalar sk
/// with pk_EA = sk * Base8) recovers exactly the encrypted fields.
pub fn cast_encrypt(pk: &EaPublicKey, fields: &[Fe], rho_enc: Fe) -> (r: Result<CastCiphertext>)
    requires
        fields@.len() == CAST_CT_LEN,
    ensures
        r is Ok <==> (spec_decodes(pk.x@, pk.y@) && 0 < rho_enc@ < l()),
        r matches Ok(ct) ==> ct.spec_fields() == spec_cast_encrypt(
            pk.x@,
            pk.y@,
            vals(fields@),
            rho_enc@,
        ) && ct.masked@.len() == CAST_CT_LEN,
        r matches Ok(ct) ==> forall|sk: nat|
            0 < sk < l() && spec_from_circom(pk.x@, pk.y@) == jub_mul_spec(spec_base8().0, spec_base8().1, sk)
                ==> #[trigger] spec_cast_decrypt(sk, ct) == vals(fields@),
{
    let pk_point = match decode_point(pk.x, pk.y) {
        Some(pt) => pt,
        None => return Err(CrDrError::Crypto(msg("invalid EA public key"))),
    };
    let r = rho_to_scalar(rho_enc)?;
    let c1 = base8().mul(&r);
    let ss = pk_point.mul(&r);
    let (c1x, c1y) = to_circom_point(&c1);
    let (ssx, ssy) = to_circom_point(&ss);
    c1.x.bound();
    let mut masked: Vec<Fe> = Vec::new();
    let mut i: usize = 0;
    while i < fields.len()
        invariant
            i <= fields@.len(),
            masked@.len() == i,
            forall|k: int| 0 <= k < i ==> #[trigger] masked@[k]@ == (fields@[k]@ + spec_pad(
                ssx@,
                ssy@,
                k as nat,
            )) % p(),
            forall|k: int| 0 <= k < i ==> (#[trigger] fields@[k])@ < p(),
            forall|k: nat| k < i ==> #[trigger] spec_pad(ssx@, ssy@, k) < p(),
        decreases fields@.len() - i,
    {
        let pd = pad(ssx, ssy, i);
        pd.bound();
        fields[i].bound();
        assert(spec_pad(ssx@, ssy@, i as nat) < p());
        masked.push(fields[i].add(&pd));
        i += 1;
    }
    let ct = CastCiphertext { c1x, c1y, masked };
    assert(ct.spec_fields() =~= spec_cast_encrypt(pk.x@, pk.y@, vals(fields@), rho_enc@));
    proof {
        lemma_circom_roundtrip(c1@);
        assert forall|sk: nat|
            0 < sk < l() && spec_from_circom(pk.x@, pk.y@) == jub_mul_spec(spec_base8().0, spec_base8().1, sk)
            implies #[trigger] spec_cast_decrypt(sk, ct) == vals(fields@) by {
            assert(spec_from_circom(ct.c1x@, ct.c1y@) == c1@);
            assert(jub_mul_spec(c1.x@, c1.y@, sk) == ss@);
            assert forall|k: int| 0 <= k < CAST_CT_LEN implies #[trigger] spec_cast_decrypt(sk, ct)[k]
                == vals(fields@)[k] by {
                assert(spec_pad(ssx@, ssy@, k as nat) < p());
                assert(fields@[k]@ < p());
                lemma_unmask(fields@[k]@, spec_pad(ssx@, ssy@, k as nat), p());
            }
            assert(spec_cast_decrypt(sk, ct) =~= vals(fields@));
        }
    }
    Ok(ct)
}

/// The plaintext the EA recovers from a ciphertext with its key.
pub open spec fn spec_cast_decrypt(sk: nat, ct: CastCiphertext) -> Seq<nat> {
    let c1 = spec_from_circom(ct.c1x@, ct.c1y@);
    let ss = spec_to_circom(jub_mul_spec(c1.0, c1.1, sk));
    Seq::new(
        CAST_CT_LEN as nat,
        |i: int| ((ct.masked@[i]@ + p() - spec_pad(ss.0, ss.1, i as nat) % p()) % (p() as int)) as nat,
    )
}

/// Whether the EA can decrypt the ciphertext: ten masked fields and a C1
/// that is a non-identity subgroup point.
pub open spec fn spec_decryptable(ct: CastCiphertext) -> bool {
    &&& ct.masked@.len() == CAST_CT_LEN
    &&& spec_decodes(ct.c1x@, ct.c1y@)
    &&& spec_from_circom(ct.c1x@, ct.c1y@) != (0nat, 1nat)
}

/// EA-side decryption of ct_open. Fails on a malformed C1 (impossible for
/// entries whose pi_cast verified) or a wrong field count.
pub fn cast_decrypt(sk: &EaSecretKey, ct: &CastCiphertext) -> (r: Result<Vec<Fe>>)
    ensures
        r is Ok <==> spec_decryptable(*ct),
        r matches Ok(m) ==> vals(m@) == spec_cast_decrypt(sk.0@, *ct),
{
    if ct.masked.len() != CAST_CT_LEN {
        return Err(CrDrError::Crypto(msg("ct_open must carry 10 masked fields")));
    }
    let c1 = match decode_point(ct.c1x, ct.c1y) {
        Some(pt) => pt,
        None => return Err(CrDrError::Crypto(msg("invalid C1"))),
    };
    if c1.is_identity() {
        return Err(CrDrError::Crypto(msg("identity C1")));
    }
    let ss = c1.mul(&sk.0);
    let (ssx, ssy) = to_circom_point(&ss);
    let mut out: Vec<Fe> = Vec::new();
    let mut i: usize = 0;
    while i < CAST_CT_LEN
        invariant
            ct.masked@.len() == CAST_CT_LEN,
            i <= CAST_CT_LEN,
            out@.len() == i,
            forall|k: int| 0 <= k < i ==> #[trigger] out@[k]@ == (ct.masked@[k]@ + p() - spec_pad(
                ssx@,
                ssy@,
                k as nat,
            ) % p()) % (p() as int),
        decreases CAST_CT_LEN - i,
    {
        let pd = pad(ssx, ssy, i);
        pd.bound();
        proof {
            vstd::arithmetic::div_mod::lemma_small_mod(pd@, p());
        }
        out.push(ct.masked[i].sub(&pd));
        i += 1;
    }
    assert(vals(out@) =~= spec_cast_decrypt(sk.0@, *ct));
    Ok(out)
}

} // verus!
