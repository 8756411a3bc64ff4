//! Election setup: public parameters and the authority secret state (EA
//! decryption key, EA receipt-signing key).

use std::collections::HashMap;
use vstd::arithmetic::power2::pow2;
use vstd::prelude::*;

use crate::crypto::encryption::{ea_keygen, EaPublicKey};
use crate::crypto::hash::{eid_to_field, spec_eid_to_field};
use crate::crypto::signature::{keygen, spec_vk_of};
use crate::errors::{msg, CrDrError, Result};
use crate::types::{AuthoritySecretState, ElectionConfig, PublicParams, ThresholdParams};

verus! {

broadcast use vstd::std_specs::hash::group_hash_axioms;

/// No candidate occurs twice.
pub open spec fn distinct_u64(s: Seq<u64>) -> bool {
    forall|i: int, j: int| 0 <= i < j < s.len() ==> s[i] != s[j]
}

/// Whether the threshold parameters, when given, satisfy 1 <= t <= k.
pub open spec fn threshold_ok(tp: Option<ThresholdParams>) -> bool {
    match tp {
        Some(tp) => 1 <= tp.t <= tp.k,
        None => true,
    }
}

/// Whether `setup_election` accepts the configuration.
pub open spec fn config_ok(config: ElectionConfig) -> bool {
    &&& config.candidates@.len() > 0
    &&& distinct_u64(config.candidates@)
    &&& 1 <= config.max_voters <= pow2(config.merkle_depth as nat)
    &&& config.max_ballots > 0
    &&& threshold_ok(config.threshold_params)
}

/// Whether the sequence has two equal entries, checked pairwise.
fn has_duplicate(s: &Vec<u64>) -> (r: bool)
    ensures
        r == !distinct_u64(s@),
{
    let mut i: usize = 0;
    while i < s.len()
        invariant
            i <= s@.len(),
            forall|a: int, b: int| 0 <= a < b < s@.len() && a < i ==> s@[a] != s@[b],
        decreases s@.len() - i,
    {
        let mut j: usize = i + 1;
        while j < s.len()
            invariant
                i < s@.len(),
                i + 1 <= j <= s@.len(),
                forall|a: int, b: int| 0 <= a < b < s@.len() && a < i ==> s@[a] != s@[b],
                forall|b: int| i < b < j ==> s@[i as int] != s@[b],
            decreases s@.len() - j,
        {
            if s[i] == s[j] {
                return true;
            }
            j += 1;
        }
        i += 1;
    }
    false
}

/// Set up an election: validate the configuration, generate the EA key
/// pair and the EA receipt-signing key. Fails with `InvalidConfig` exactly
/// when the configuration is not acceptable (see `config_ok`).
pub fn setup_election(config: ElectionConfig, rng: &mut rand_chacha::ChaCha20Rng) -> (r: Result<
    (PublicParams, AuthoritySecretState),
>)
    requires
        config.merkle_depth < usize::BITS,
    ensures
        r is Ok <==> config_ok(config),
        r matches Err(e) ==> e is InvalidConfig,
        r matches Ok((pp, auth)) ==> {
            &&& pp.eid@ == config.eid@
            &&& pp.eid_hash@ == spec_eid_to_field(vstd::utf8::encode_utf8(config.eid@))
            &&& pp.candidates@ == config.candidates@
            &&& pp.duplicate_rule == config.duplicate_rule
            &&& pp.max_ballots == config.max_ballots
            &&& pp.max_voters == config.max_voters
            &&& pp.merkle_depth == config.merkle_depth
            &&& pp.threshold_params == config.threshold_params
            &&& 0 < auth.sk_ea.0@ < crate::field::l()
            &&& crate::crypto::signature::spec_from_circom(pp.pk_ea.x@, pp.pk_ea.y@)
                == crate::crypto::signature::jub_mul_spec(
                crate::crypto::signature::spec_base8().0,
                crate::crypto::signature::spec_base8().1,
                auth.sk_ea.0@,
            )
            &&& (pp.pk_ea.x@, pp.pk_ea.y@) == crate::crypto::signature::spec_to_circom(
                crate::crypto::signature::jub_mul_spec(
                    crate::crypto::signature::spec_base8().0,
                    crate::crypto::signature::spec_base8().1,
                    auth.sk_ea.0@,
                ),
            )
            &&& auth.receipt_sk.0@ != 0
            &&& (pp.ea_receipt_vk.x@, pp.ea_receipt_vk.y@) == spec_vk_of(auth.receipt_sk.0@)
            &&& auth.voter_secrets@ == Map::<u64, crate::types::AuthorityVoterSecret>::empty()
            &&& auth.threshold == match config.threshold_params {
                Some(tp) => tp,
                None => ThresholdParams { t: 1, k: 1 },
            }
        },
{
    if config.candidates.len() == 0 {
        return Err(CrDrError::InvalidConfig(msg("empty candidate set")));
    }
    if has_duplicate(&config.candidates) {
        return Err(CrDrError::InvalidConfig(msg("duplicate candidates")));
    }
    let cap: usize = 1usize << config.merkle_depth;
    proof {
        vstd::bits::lemma_usize_pow2_no_overflow(config.merkle_depth as nat);
        vstd::bits::lemma_usize_shl_is_mul(1, config.merkle_depth);
    }
    if config.max_voters == 0 || config.max_voters > cap {
        return Err(CrDrError::InvalidConfig(msg("max_voters must be in 1..=2^merkle_depth")));
    }
    if config.max_ballots == 0 {
        return Err(CrDrError::InvalidConfig(msg("max_ballots must be positive")));
    }
    let threshold = match config.threshold_params {
        Some(tp) => {
            if tp.t == 0 || tp.t > tp.k {
                return Err(CrDrError::InvalidConfig(msg("threshold params invalid")));
            }
            tp
        },
        None => ThresholdParams::single(),
    };
    let (sk_ea, pk_ea) = ea_keygen(rng);
    let (receipt_sk, ea_receipt_vk) = keygen(rng);
    let eid_hash = eid_to_field(config.eid.as_str());
    let pp = PublicParams {
        eid_hash,
        eid: config.eid,
        candidates: config.candidates,
        pk_ea,
        ea_receipt_vk,
        duplicate_rule: config.duplicate_rule,
        max_ballots: config.max_ballots,
        max_voters: config.max_voters,
        merkle_depth: config.merkle_depth,
        threshold_params: config.threshold_params,
    };
    let authority = AuthoritySecretState {
        sk_ea,
        receipt_sk,
        threshold,
        voter_secrets: HashMap::new(),
    };
    Ok((pp, authority))
}

} // verus!
