//! Core types of the election protocol.
//!
//! All values that enter the circuit are BN254 scalar field elements
//! (`F`); native protocol logic uses the same encoding, so the native
//! FilterAndTally, the native relation checker and the circuit agree.

use std::collections::HashMap;
use num_bigint::BigUint;
use vstd::prelude::*;
use vstd::string::StringSliceAdditionalSpecFns;

use crate::crypto::encryption::{CastCiphertext, CastSecret, EaPublicKey, EaSecretKey, spec_encodes};
use crate::crypto::shamir::{reconstruct, spec_reconstruct, Share};
use crate::crypto::signature::{SecretKey, Signature, VerificationKey};
use crate::errors::{msg, CrDrError, Result};
use crate::field::{le_bytes_value, p, w64, Fe};
use crate::crypto::hash::vals;

verus! {

broadcast use vstd::std_specs::hash::group_hash_axioms;

/// BN254 scalar field element (the field circom/Groth16 operate over).
pub type F = Fe;

/// Election identifier.
pub type ElectionId = String;

/// Voter identity (= registration row index).
pub type VoterId = u64;

/// Candidate value.
pub type Candidate = u64;

/// Nonces are field elements (voter nonce R_i, authority nonce R_EA,i).
pub type Nonce = Fe;

/// Number of field elements in a ballot plaintext:
/// [eid_hash, id, vk.x, vk.y, candidate, R, sig.rx, sig.ry, sig.s].
pub const PLAINTEXT_FIELD_LEN: usize = 9;

/// Field elements of a verification key.
pub const VK_FIELD_LEN: usize = 2;

/// Field elements of a signature.
pub const SIG_FIELD_LEN: usize = 3;

/// The character of a decimal digit.
pub open spec fn digit_char(d: nat) -> char {
    if d == 0 {
        '0'
    } else if d == 1 {
        '1'
    } else if d == 2 {
        '2'
    } else if d == 3 {
        '3'
    } else if d == 4 {
        '4'
    } else if d == 5 {
        '5'
    } else if d == 6 {
        '6'
    } else if d == 7 {
        '7'
    } else if d == 8 {
        '8'
    } else {
        '9'
    }
}

/// The decimal representation of n (no leading zeros; "0" for zero).
pub open spec fn spec_decimal(n: nat) -> Seq<char>
    decreases n,
{
    if n < 10 {
        seq![digit_char(n)]
    } else {
        spec_decimal(n / 10).push(digit_char(n % 10))
    }
}

/// Whether the byte is an ASCII decimal digit.
pub open spec fn is_digit_byte(b: u8) -> bool {
    48 <= b <= 57
}

/// A nonempty string of ASCII decimal digits.
pub open spec fn all_digits(s: Seq<u8>) -> bool {
    s.len() > 0 && forall|i: int| 0 <= i < s.len() ==> is_digit_byte(#[trigger] s[i])
}

/// The value of a string of ASCII decimal digits.
pub open spec fn decimal_value(s: Seq<u8>) -> nat
    decreases s.len(),
{
    if s.len() == 0 {
        0
    } else {
        decimal_value(s.drop_last()) * 10 + (s.last() - 48) as nat
    }
}

/// What `BigUint::parse_bytes(s, 10)` returns, as an integer.
pub uninterp spec fn biguint_parse_dec_spec(s: Seq<u8>) -> Option<nat>;

/// The decimal representation of n is a nonempty string of ASCII digits
/// that reads back as n: what `f_to_dec` writes, `f_from_dec` parses to
/// the same element.
pub proof fn lemma_decimal_roundtrip(n: nat)
    ensures
        vstd::utf8::is_ascii_chars(spec_decimal(n)),
        all_digits(vstd::utf8::encode_utf8(spec_decimal(n))),
        decimal_value(vstd::utf8::encode_utf8(spec_decimal(n))) == n,
    decreases n,
{
    let cs = spec_decimal(n);
    if n >= 10 {
        lemma_decimal_roundtrip(n / 10);
    }
    assert(vstd::utf8::is_ascii_chars(cs)) by {
        if n >= 10 {
            assert forall|i: int| 0 <= i < cs.len() implies '\0' <= #[trigger] cs[i] <= '\u{7f}' by {
                if i < cs.len() - 1 {
                    assert(cs[i] == spec_decimal(n / 10)[i]);
                }
            }
        }
    }
    vstd::utf8::is_ascii_chars_encode_utf8(cs);
    let bs = vstd::utf8::encode_utf8(cs);
    assert(forall|i: int| 0 <= i < cs.len() ==> #[trigger] cs[i] as u8 == bs[i]);
    assert(bs.last() as int - 48 == (n % 10) as int);
    if n >= 10 {
        let prev = spec_decimal(n / 10);
        vstd::utf8::is_ascii_chars_encode_utf8(prev);
        let pbs = vstd::utf8::encode_utf8(prev);
        assert(bs.drop_last() =~= pbs) by {
            assert forall|i: int| 0 <= i < pbs.len() implies bs.drop_last()[i] == pbs[i] by {
                assert(cs[i] == prev[i]);
                assert(cs[i] as u8 == bs[i]);
                assert(prev[i] as u8 == pbs[i]);
            }
        }
        assert forall|i: int| 0 <= i < bs.len() implies is_digit_byte(#[trigger] bs[i]) by {
            if i < bs.len() - 1 {
                assert(bs[i] == pbs[i]);
            }
        }
        assert(decimal_value(bs) == decimal_value(pbs) * 10 + (bs.last() - 48) as nat);
        vstd::arithmetic::div_mod::lemma_fundamental_div_mod(n as int, 10);
    } else {
        assert(bs.drop_last().len() == 0);
        assert(decimal_value(bs) == decimal_value(bs.drop_last()) * 10 + (bs.last() - 48) as nat);
    }
}

/// `num_bigint::BigUint::from_bytes_be(bytes).to_str_radix(10)`: the
/// decimal representation of the big-endian integer.
#[verifier::external_body]
fn biguint_be_to_decimal(bytes: &[u8]) -> (r: String)
    ensures
        r@ == spec_decimal(crate::field::be_bytes_value(bytes@)),
{
    BigUint::from_bytes_be(bytes).to_str_radix(10)
}

/// `num_bigint::BigUint::parse_bytes(s, 10)`, the parsed integer returned
/// as little-endian bytes. Named; the short fact stated beside the name is
/// that a nonempty string of ASCII digits parses to its decimal value
/// (`from_str_radix` maps each digit byte to its digit and folds them in
/// base 10). What it returns for other strings (a leading `+`, `_`
/// separators) is left to the name.
#[verifier::external_body]
fn biguint_parse_decimal(s: &[u8]) -> (r: Option<Vec<u8>>)
    ensures
        r is None <==> biguint_parse_dec_spec(s@) is None,
        r matches Some(b) ==> biguint_parse_dec_spec(s@) == Some(le_bytes_value(b@)),
        r is Some || !all_digits(s@),
        r matches Some(b) ==> (all_digits(s@) ==> le_bytes_value(b@) == decimal_value(s@)),

{
    BigUint::parse_bytes(s, 10).map(|n| n.to_bytes_le())
}

/// Field element -> decimal string (circom input encoding).
pub fn f_to_dec(f: &Fe) -> (r: String)
    ensures
        r@ == spec_decimal(f@),
{
    let b = f.to_bytes_be();
    biguint_be_to_decimal(b.as_slice())
}

/// Decimal string -> field element (reduced mod p). Fails when the string
/// does not parse as a decimal integer.
pub fn f_from_dec(s: &str) -> (r: Result<Fe>)
    ensures
        match r {
            Ok(f) => exists|n: nat| biguint_parse_dec_spec(s.spec_bytes()) == Some(n) && f@ == n % p(),
            Err(_) => biguint_parse_dec_spec(s.spec_bytes()) is None,
        },
        all_digits(s.spec_bytes()) ==> (r matches Ok(f) && f@ == decimal_value(s.spec_bytes()) % p()),
{
    match biguint_parse_decimal(s.as_bytes()) {
        Some(le) => Ok(Fe::from_le_bytes_mod_order(le.as_slice())),
        None => Err(CrDrError::Serialization(msg("bad decimal field element"))),
    }
}

/// Field element -> fixed 32-byte big-endian encoding.
pub fn f_to_bytes_be(f: &Fe) -> (r: Vec<u8>)
    ensures
        r@.len() == 32,
        crate::field::be_bytes_value(r@) == f@,
{
    f.to_bytes_be()
}

/// Try to interpret a field element as a u64 integer.
pub fn f_to_u64(f: &Fe) -> (r: Option<u64>)
    ensures
        match r {
            Some(v) => f@ < w64() && v as nat == f@,
            None => f@ >= w64(),
        },
{
    f.to_u64()
}

/// Duplicate-ballot handling policy. Only first-valid-ballot-counts exists;
/// its id is bound into the public statement.
#[derive(Debug, Clone, Copy, PartialEq, Eq, Structural)]
pub enum DuplicateRule {
    FirstValidCounts,
}

impl DuplicateRule {
    /// The rule's public id.
    pub fn id(&self) -> (r: u64)
        ensures
            r == 1,
    {
        match self {
            DuplicateRule::FirstValidCounts => 1,
        }
    }
}

/// Threshold parameters: any t of k shares reconstruct.
#[derive(Debug, Clone, Copy, PartialEq, Eq, Structural)]
pub struct ThresholdParams {
    /// Reconstruction threshold.
    pub t: usize,
    /// Total number of authorities.
    pub k: usize,
}

impl ThresholdParams {
    /// The single-authority case t = k = 1.
    pub fn single() -> (r: Self)
        ensures
            r.t == 1 && r.k == 1,
    {
        ThresholdParams { t: 1, k: 1 }
    }
}

/// Public election parameters.
#[derive(Debug, Clone)]
pub struct PublicParams {
    pub eid: ElectionId,
    /// Hash of the election id (enters the circuit).
    pub eid_hash: Fe,
    pub candidates: Vec<Candidate>,
    /// EA encryption public key.
    pub pk_ea: EaPublicKey,
    /// EA receipt-signing verification key.
    pub ea_receipt_vk: VerificationKey,
    pub duplicate_rule: DuplicateRule,
    pub max_ballots: usize,
    pub max_voters: usize,
    pub merkle_depth: usize,
    pub threshold_params: Option<ThresholdParams>,
}

/// Everything the voter holds after preprocessing (never R_EA,i).
#[derive(Debug, Clone)]
pub struct VoterState {
    pub id: VoterId,
    pub sk: SecretKey,
    pub vk: VerificationKey,
    pub r: Nonce,
}

/// Public registration record posted for each voter.
#[derive(Debug, Clone, Copy, PartialEq, Eq, Structural)]
pub struct PublicRegistrationRecord {
    pub id: VoterId,
    pub vk: VerificationKey,
    /// h_i = H_com(eid_hash, i, vk_i, R_i, R_EA,i)
    pub h: Fe,
    /// leaf_i = H_reg(eid_hash, i, vk_i, h_i)
    pub leaf: Fe,
}

/// Authority-side per-voter record: only Shamir shares of R_EA,i.
#[derive(Debug, Clone)]
pub struct AuthorityVoterSecret {
    pub id: VoterId,
    pub vk: VerificationKey,
    /// Shares of R_EA,i; shares[j] belongs to authority j+1.
    pub r_ea_shares: Vec<Share>,
}

/// The single logical election authority, implemented by k threshold
/// authorities (their joint, authorized interface).
#[derive(Debug)]
pub struct AuthoritySecretState {
    /// EA decryption key.
    pub sk_ea: EaSecretKey,
    /// EA receipt-signing key.
    pub receipt_sk: SecretKey,
    /// Threshold parameters the nonce shares were generated under.
    pub threshold: ThresholdParams,
    pub voter_secrets: HashMap<VoterId, AuthorityVoterSecret>,
}

impl AuthoritySecretState {
    /// What the authorized reconstruction of R_EA,id yields.
    pub open spec fn spec_r_ea(&self, id: u64) -> Option<nat> {
        if self.voter_secrets@.contains_key(id) && self.voter_secrets@[id].r_ea_shares@.len()
            >= self.threshold.t {
            spec_reconstruct(self.voter_secrets@[id].r_ea_shares@)
        } else {
            None
        }
    }

    /// AUTHORIZED reconstruction of R_EA,i by the logical EA (a >= t
    /// quorum opening the nonce). Fails for unknown voters, too few stored
    /// shares, or shares that do not reconstruct.
    pub fn r_ea(&self, id: VoterId) -> (r: Result<Fe>)
        ensures
            match r {
                Ok(v) => self.spec_r_ea(id) == Some(v@),
                Err(_) => self.spec_r_ea(id) is None,
            },
            r matches Err(e) ==> if self.voter_secrets@.contains_key(id) {
                e is Threshold
            } else {
                e == CrDrError::UnknownVoter(id)
            },
    {
        let secret = match self.voter_secrets.get(&id) {
            Some(s) => s,
            None => return Err(CrDrError::UnknownVoter(id)),
        };
        if secret.r_ea_shares.len() < self.threshold.t {
            return Err(CrDrError::Threshold(msg("too few shares stored for this voter")));
        }
        reconstruct(secret.r_ea_shares.as_slice())
    }
}

/// Decoded ballot plaintext.
#[derive(Debug, Clone, Copy, PartialEq, Eq, Structural)]
pub struct BallotPlaintext {
    pub eid_hash: Fe,
    pub id: VoterId,
    pub vk: VerificationKey,
    pub candidate: Candidate,
    pub r: Nonce,
    pub sigma: Signature,
}

impl BallotPlaintext {
    /// The canonical field encoding.
    pub open spec fn spec_fields(&self) -> Seq<nat> {
        seq![
            self.eid_hash@,
            self.id as nat,
            self.vk.x@,
            self.vk.y@,
            self.candidate as nat,
            self.r@,
            self.sigma.rx@,
            self.sigma.ry@,
            self.sigma.s@,
        ]
    }

    /// Canonical field encoding used by hashing, encryption and the circuit.
    pub fn to_fields(&self) -> (r: Vec<Fe>)
        ensures
            r@.len() == PLAINTEXT_FIELD_LEN,
            vals(r@) == self.spec_fields(),
    {
        let v = vec![
            self.eid_hash,
            Fe::from_u64(self.id),
            self.vk.x,
            self.vk.y,
            Fe::from_u64(self.candidate),
            self.r,
            self.sigma.rx,
            self.sigma.ry,
            self.sigma.s,
        ];
        assert(vals(v@) =~= self.spec_fields());
        v
    }

    /// Parse a field encoding: exactly nine fields whose id and candidate
    /// fields are u64-range integers.
    pub fn from_fields(fields: &[Fe]) -> (r: Result<Self>)
        ensures
            r is Ok <==> spec_parses(fields@),
            r matches Ok(pt) ==> pt.spec_fields() == vals(fields@) && pt.eid_hash == fields@[0]
                && pt.vk.x == fields@[2] && pt.vk.y == fields@[3] && pt.r == fields@[5]
                && pt.sigma.rx == fields@[6] && pt.sigma.ry == fields@[7] && pt.sigma.s
                == fields@[8],
    {
        if fields.len() != PLAINTEXT_FIELD_LEN {
            return Err(CrDrError::Serialization(msg("plaintext must have 9 fields")));
        }
        let id = match f_to_u64(&fields[1]) {
            Some(v) => v,
            None => return Err(CrDrError::Serialization(msg("voter id out of u64 range"))),
        };
        let candidate = match f_to_u64(&fields[4]) {
            Some(v) => v,
            None => return Err(CrDrError::Serialization(msg("candidate out of u64 range"))),
        };
        let pt = BallotPlaintext {
            eid_hash: fields[0],
            id,
            vk: VerificationKey { x: fields[2], y: fields[3] },
            candidate,
            r: fields[5],
            sigma: Signature { rx: fields[6], ry: fields[7], s: fields[8] },
        };
        assert(pt.spec_fields() =~= vals(fields@));
        Ok(pt)
    }
}

/// Whether a field list parses as a plaintext.
pub open spec fn spec_parses(fields: Seq<Fe>) -> bool {
    &&& fields.len() == PLAINTEXT_FIELD_LEN
    &&& fields[1]@ < w64()
    &&& fields[4]@ < w64()
}

/// A ballot in the CAST-ZK format as produced by the voter: the public
/// entry (com, ct_open) plus the voter-private cast secret.
#[derive(Debug, Clone, PartialEq, Eq)]
pub struct Ballot {
    pub com: Fe,
    pub ct_open: CastCiphertext,
    pub secret: CastSecret,
}

/// The public part of a ballot: exactly what is posted on the board.
#[derive(Debug, Clone, PartialEq, Eq)]
pub struct PublicBallot {
    pub com: Fe,
    pub ct_open: CastCiphertext,
}

impl PublicBallot {
    /// All public fields in order: com, C1.x, C1.y, masked[..].
    pub open spec fn spec_fields(&self) -> Seq<nat> {
        seq![self.com@] + self.ct_open.spec_fields()
    }

    /// Exact public byte encoding: com then ct_open, 32 bytes per field.
    pub fn bytes(&self) -> (r: Vec<u8>)
        ensures
            spec_encodes(r@, self.spec_fields()),
    {
        let mut out: Vec<u8> = Vec::new();
        crate::crypto::encryption::push_fe_bytes(&mut out, &self.com, Ghost(Seq::<nat>::empty()));
        let rest = self.ct_open.to_bytes();
        let ghost first = out@;
        let mut i: usize = 0;
        while i < rest.len()
            invariant
                i <= rest@.len(),
                first.len() == 32,
                out@ == first + rest@.subrange(0, i as int),
            decreases rest@.len() - i,
        {
            out.push(rest[i]);
            i += 1;
            assert(rest@.subrange(0, i as int) =~= rest@.subrange(0, i - 1).push(rest@[i - 1]));
        }
        proof {
            assert(rest@.subrange(0, rest@.len() as int) =~= rest@);
            let fs = self.spec_fields();
            assert forall|k: int| 0 <= k < fs.len() implies crate::field::be_bytes_value(
                #[trigger] out@.subrange(32 * k, 32 * k + 32),
            ) == fs[k] by {
                if k == 0 {
                    assert(out@.subrange(0, 32) =~= first.subrange(0, 32));
                } else {
                    assert(out@.subrange(32 * k, 32 * k + 32) =~= rest@.subrange(
                        32 * (k - 1),
                        32 * (k - 1) + 32,
                    ));
                }
            }
        }
        out
    }
}

impl Ballot {
    /// The public part of the ballot.
    pub fn public(&self) -> (r: PublicBallot)
        ensures
            r.com == self.com,
            r.ct_open.same_as(self.ct_open),
    {
        PublicBallot { com: self.com, ct_open: self.ct_open.duplicate() }
    }

    /// Exact public byte encoding (that of the public part).
    pub fn bytes(&self) -> (r: Vec<u8>)
        ensures
            spec_encodes(r@, seq![self.com@] + self.ct_open.spec_fields()),
    {
        self.public().bytes()
    }
}

/// EA-private store of ballot payloads, aligned with board order.
#[derive(Debug, Clone)]
pub struct AuthorityBallotPayloads {
    pub payloads: Vec<Vec<u8>>,
}

/// Public tally output.
#[derive(Debug, Clone, PartialEq, Eq)]
pub struct TallyResult {
    /// counts[i] = number of counted ballots for candidates[i].
    pub counts: Vec<u64>,
    pub counted_ballots: u64,
}

/// Internal per-ballot status (never part of public output).
#[derive(Debug, Clone, Copy, PartialEq, Eq, Structural)]
pub enum InternalBallotStatus {
    Counted,
    InvalidDecryption,
    InvalidFormat,
    InvalidCandidate,
    InvalidSignature,
    InvalidRegistration,
    DuplicateValidBallot,
}

/// Internal per-ballot evaluation (never part of public output).
#[derive(Debug, Clone, Copy, PartialEq, Eq, Structural)]
pub struct InternalBallotEvaluation {
    pub ballot_index: usize,
    pub status: InternalBallotStatus,
    pub voter_id: Option<VoterId>,
    pub candidate: Option<Candidate>,
}

/// Election configuration for setup.
#[derive(Debug, Clone)]
pub struct ElectionConfig {
    pub eid: ElectionId,
    pub candidates: Vec<Candidate>,
    pub max_voters: usize,
    pub max_ballots: usize,
    pub merkle_depth: usize,
    pub duplicate_rule: DuplicateRule,
    pub threshold_params: Option<ThresholdParams>,
}

} // verus!
