//! Trusted-dealer Shamir sharing of the authority nonces R_EA,i.
//!
//! Every R_EA,i is shared t-of-k when it is generated and the plain nonce
//! is never stored. Any t shares reconstruct it; this module holds the
//! share-level helpers and an authorized re-share: a quorum reconstructs
//! each nonce and splits it again under new parameters.

use vstd::prelude::*;

use crate::crypto::shamir::{reconstruct, share, spec_reconstruct, spec_shares_of, Share};
use crate::errors::{msg, CrDrError, Result};
use crate::field::Fe;
use crate::types::{AuthoritySecretState, AuthorityVoterSecret, ThresholdParams, VoterId};

verus! {

broadcast use vstd::std_specs::hash::group_hash_axioms;

/// Share one authority nonce t-of-k (see `share`).
pub fn share_nonce(r_ea: Fe, t: usize, k: usize, rng: &mut rand_chacha::ChaCha20Rng) -> (r: Result<Vec<Share>>)
    requires
        k < u64::MAX,
    ensures
        r is Ok <==> (1 <= t <= k),
        r matches Err(e) ==> e is Threshold,
        r matches Ok(shares) ==> exists|coeffs: Seq<nat>|
            coeffs.len() == t && coeffs[0] == r_ea@ && spec_shares_of(coeffs, shares@, k as nat),
        r matches Ok(shares) ==> spec_reconstruct(shares@) == Some(r_ea@),
{
    share(r_ea, t, k, rng)
}

/// Reconstruct an authority nonce from a subset of its shares (the
/// Lagrange interpolation at 0; see `reconstruct`).
pub fn reconstruct_nonce(shares_subset: &[Share]) -> (r: Result<Fe>)
    ensures
        match r {
            Ok(v) => spec_reconstruct(shares_subset@) == Some(v@),
            Err(_) => spec_reconstruct(shares_subset@) is None,
        },
{
    reconstruct(shares_subset)
}

/// Whether `new` is `old` with every registered nonce re-shared under
/// `params`: same voters, same keys, and for each voter k shares of a
/// fresh polynomial of degree t-1 whose constant term is the nonce that
/// `old` reconstructs.
pub open spec fn spec_reshared(old: AuthoritySecretState, new: AuthoritySecretState, params: ThresholdParams) -> bool {
    &&& new.sk_ea == old.sk_ea
    &&& new.receipt_sk == old.receipt_sk
    &&& new.threshold == params
    &&& new.voter_secrets@.dom() == old.voter_secrets@.dom()
    &&& forall|id: u64|
        #[trigger] old.voter_secrets@.contains_key(id) ==> {
            &&& new.voter_secrets@[id].id == old.voter_secrets@[id].id
            &&& new.voter_secrets@[id].vk == old.voter_secrets@[id].vk
            &&& exists|coeffs: Seq<nat>|
                coeffs.len() == params.t && Some(coeffs[0]) == old.spec_r_ea(id) && spec_shares_of(
                    coeffs,
                    new.voter_secrets@[id].r_ea_shares@,
                    params.k as nat,
                )
            &&& new.spec_r_ea(id) == old.spec_r_ea(id)
        }
}

/// Authorized re-share of every registered R_EA,i under new threshold
/// parameters. Fails, leaving the state unchanged, on invalid parameters
/// (t = 0 or t > k) or when some stored nonce does not reconstruct.
pub fn share_all_nonces(
    authority_secret: &mut AuthoritySecretState,
    params: ThresholdParams,
    rng: &mut rand_chacha::ChaCha20Rng,
) -> (r: Result<()>)
    requires
        params.k < u64::MAX,
    ensures
        r is Ok <==> (1 <= params.t <= params.k && forall|id: u64|
            #[trigger] old(authority_secret).voter_secrets@.contains_key(id) ==> old(authority_secret).spec_r_ea(id) is Some),
        r matches Err(e) ==> e is Threshold,
        r is Ok ==> spec_reshared(*old(authority_secret), *final(authority_secret), params),
        r is Err ==> *final(authority_secret) == *old(authority_secret),
{
    if params.t == 0 || params.t > params.k {
        return Err(CrDrError::Threshold(msg("invalid threshold")));
    }
    let ghost old_state = *authority_secret;
    let ids = voter_ids(authority_secret);
    let n = ids.len();
    let mut reshared: Vec<Vec<Share>> = Vec::new();
    let ghost mut polys: Seq<Seq<nat>> = Seq::empty();
    let mut j: usize = 0;
    while j < n
        invariant
            *authority_secret == old_state,
            n == ids@.len(),
            1 <= params.t <= params.k < u64::MAX,
            ids@.to_set() == old_state.voter_secrets@.dom(),
            ids@.no_duplicates(),
            j <= n,
            reshared@.len() == j,
            polys.len() == j,
            forall|m: int|
                0 <= m < j ==> (#[trigger] polys[m]).len() == params.t && Some(polys[m][0]) == old_state.spec_r_ea(ids@[m])
                    && spec_shares_of(polys[m], reshared@[m]@, params.k as nat) && spec_reconstruct(reshared@[m]@)
                    == Some(polys[m][0]),
        decreases n - j,
    {
        let id = ids[j];
        assert(ids@.contains(id));
        let r_ea = match authority_secret.r_ea(id) {
            Ok(v) => v,
            Err(e) => return Err(e),
        };
        let shares = match share(r_ea, params.t, params.k, rng) {
            Ok(s) => s,
            Err(e) => return Err(e),
        };
        let ghost poly = choose|coeffs: Seq<nat>|
            coeffs.len() == params.t && coeffs[0] == r_ea@ && spec_shares_of(coeffs, shares@, params.k as nat);
        reshared.push(shares);
        proof {
            polys = polys.push(poly);
        }
        j += 1;
    }
    let ghost target = reshared@;
    proof {
        assert forall|id: u64| #[trigger] old_state.voter_secrets@.contains_key(id) implies old_state.spec_r_ea(id) is Some by {
            assert(ids@.to_set().contains(id));
            let m = choose|m: int| 0 <= m < ids@.len() && ids@[m] == id;
            assert(polys[m].len() == params.t);
        }
    }
    while reshared.len() > 0
        invariant
            reshared@.len() <= n,
            n == ids@.len(),
            forall|m: int| 0 <= m < reshared@.len() ==> #[trigger] reshared@[m] == target[m],
            ids@.to_set() == old_state.voter_secrets@.dom(),
            ids@.no_duplicates(),
            authority_secret.sk_ea == old_state.sk_ea,
            authority_secret.receipt_sk == old_state.receipt_sk,
            authority_secret.voter_secrets@.dom() == old_state.voter_secrets@.dom(),
            forall|id: u64|
                #[trigger] old_state.voter_secrets@.contains_key(id) ==> authority_secret.voter_secrets@[id].id
                    == old_state.voter_secrets@[id].id && authority_secret.voter_secrets@[id].vk
                    == old_state.voter_secrets@[id].vk,
            forall|m: int|
                reshared@.len() <= m < n ==> (#[trigger] authority_secret.voter_secrets@[ids@[m]]).r_ea_shares@
                    == target[m]@,
        decreases reshared@.len(),
    {
        let shares = reshared.pop().unwrap();
        let m = reshared.len();
        let id = ids[m];
        assert(ids@.to_set().contains(id));
        let (vid, vk) = match authority_secret.voter_secrets.get(&id) {
            Some(s) => (s.id, s.vk),
            None => {
                proof {
                    assert(false);
                }
                return Err(CrDrError::UnknownVoter(id));
            },
        };
        let ghost before = authority_secret.voter_secrets@;
        authority_secret.voter_secrets.insert(id, AuthorityVoterSecret { id: vid, vk, r_ea_shares: shares });
        proof {
            assert forall|q: int| reshared@.len() <= q < n implies (#[trigger] authority_secret.voter_secrets@[ids@[q]]).r_ea_shares@
                == target[q]@ by {
                if q != m {
                    assert(ids@[q] != ids@[m as int]);
                }
            }
        }
    }
    authority_secret.threshold = params;
    proof {
        assert forall|id: u64| #[trigger] old_state.voter_secrets@.contains_key(id) implies exists|coeffs: Seq<nat>|
            coeffs.len() == params.t && Some(coeffs[0]) == old_state.spec_r_ea(id) && spec_shares_of(
                coeffs,
                authority_secret.voter_secrets@[id].r_ea_shares@,
                params.k as nat,
            ) by {
            assert(ids@.to_set().contains(id));
            let m = choose|m: int| 0 <= m < ids@.len() && ids@[m] == id;
            assert(authority_secret.voter_secrets@[ids@[m]].r_ea_shares@ == target[m]@);
            assert(polys[m].len() == params.t);
        }
        assert forall|id: u64| #[trigger] old_state.voter_secrets@.contains_key(id) implies authority_secret.spec_r_ea(id)
            == old_state.spec_r_ea(id) by {
            assert(ids@.to_set().contains(id));
            let m = choose|m: int| 0 <= m < ids@.len() && ids@[m] == id;
            assert(authority_secret.voter_secrets@[ids@[m]].r_ea_shares@ == target[m]@);
            assert(polys[m].len() == params.t);
            assert(target[m]@.len() == params.k);
            assert(authority_secret.voter_secrets@.contains_key(id));
        }
    }
    Ok(())
}

/// The registered voter ids, each once.
fn voter_ids(authority_secret: &AuthoritySecretState) -> (r: Vec<VoterId>)
    ensures
        r@.to_set() == authority_secret.voter_secrets@.dom(),
        r@.no_duplicates(),
{
    let ghost keys = vstd::std_specs::iter::IteratorSpec::remaining(&vstd::std_specs::hash::spec_keys_iter(&authority_secret.voter_secrets));
    let mut ids: Vec<VoterId> = Vec::new();
    for id in it: authority_secret.voter_secrets.keys()
        invariant
            it.seq() == keys,
            ids@ == keys.unref().take(it.index() as int),
    {
        proof {
            assert(keys.unref().take(it.index() + 1) =~= keys.unref().take(it.index() as int).push(*keys[it.index()]));
        }
        ids.push(*id);
    }
    assert(ids@ =~= keys.unref());
    ids
}

/// The share of authority `authority_index` (1-based) for voter `id`: the
/// first stored share with that index. Fails for an unknown voter or when
/// no stored share has that index.
pub fn authority_share(authority_secret: &AuthoritySecretState, id: VoterId, authority_index: u64) -> (r: Result<Share>)
    ensures
        !authority_secret.voter_secrets@.contains_key(id) ==> r == Err::<Share, CrDrError>(CrDrError::UnknownVoter(id)),
        authority_secret.voter_secrets@.contains_key(id) ==> {
            let shares = authority_secret.voter_secrets@[id].r_ea_shares@;
            &&& (exists|j: int| 0 <= j < shares.len() && (#[trigger] shares[j]).index == authority_index) <==> r is Ok
            &&& r matches Err(e) ==> e is Threshold
            &&& r matches Ok(s) ==> exists|j: int|
                0 <= j < shares.len() && shares[j] == s && s.index == authority_index && forall|i: int|
                    0 <= i < j ==> (#[trigger] shares[i]).index != authority_index
        },
{
    let secret = match authority_secret.voter_secrets.get(&id) {
        Some(s) => s,
        None => return Err(CrDrError::UnknownVoter(id)),
    };
    let mut j: usize = 0;
    while j < secret.r_ea_shares.len()
        invariant
            authority_secret.voter_secrets@.contains_key(id),
            *secret == authority_secret.voter_secrets@[id],
            j <= secret.r_ea_shares@.len(),
            forall|i: int| 0 <= i < j ==> (#[trigger] secret.r_ea_shares@[i]).index != authority_index,
        decreases secret.r_ea_shares@.len() - j,
    {
        if secret.r_ea_shares[j].index == authority_index {
            let s = secret.r_ea_shares[j];
            assert(authority_secret.voter_secrets@[id].r_ea_shares@[j as int] == s);
            return Ok(s);
        }
        j += 1;
    }
    Err(CrDrError::Threshold(msg("no share for this authority")))
}

} // verus!
