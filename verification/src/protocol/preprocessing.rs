//! Threshold-private voter preprocessing (registration), plain and
//! cut-and-choose, and registration finalization (the indexed Merkle tree
//! over registration leaves).
//!
//! Preprocessing is the idealized functionality F_prep between the voter and
//! the k threshold authorities: the voter samples and keeps (sk_i, vk_i,
//! R_i); the authority side samples R_EA,i, Shamir-shares it t-of-k and keeps
//! only the shares; F_prep computes the public commitment
//! h_i = H_com(eid, i, vk_i, R_i, R_EA,i) and the public row
//! (i, vk_i, h_i, leaf_i).
//!
//! Registration is an indexed table: voter id i is the Merkle leaf index,
//! so the registered ids must be exactly 0..N-1.

use vstd::arithmetic::power2::pow2;
use vstd::prelude::*;

use crate::crypto::hash::{h_com, h_reg, spec_h_com, spec_h_reg, vals};
use crate::crypto::merkle::{
    spec_padded, spec_path_elements, spec_path_indices, spec_root, MerklePath, MerkleTree,
};
use crate::crypto::shamir::{share, spec_shares_of, Share};
use crate::crypto::signature::{keygen, spec_vk_of, SecretKey, VerificationKey};
use crate::errors::{msg, CrDrError, Result};
use crate::field::{p, Fe};
use crate::rng::sample_below;
use crate::types::{
    AuthoritySecretState, AuthorityVoterSecret, Nonce, PublicParams, PublicRegistrationRecord,
    ThresholdParams, VoterId, VoterState,
};

verus! {

broadcast use vstd::std_specs::hash::group_hash_axioms;

/// Voter-side registration secrets, sampled by the voter alone.
#[derive(Debug, Clone, Copy, PartialEq, Eq, Structural)]
pub struct VoterRegistrationSecrets {
    pub sk: SecretKey,
    pub vk: VerificationKey,
    pub r: Nonce,
}

/// Voter-side sampling of (sk_i, vk_i, R_i).
pub fn voter_registration_secrets(rng: &mut rand_chacha::ChaCha20Rng) -> (r: VoterRegistrationSecrets)
    ensures
        r.sk.0@ != 0,
        (r.vk.x@, r.vk.y@) == spec_vk_of(r.sk.0@),
{
    let (sk, vk) = keygen(rng);
    VoterRegistrationSecrets { sk, vk, r: Fe::random(rng) }
}

/// The threshold parameters in effect for nonce sharing.
pub open spec fn spec_nonce_threshold(pp: PublicParams) -> ThresholdParams {
    match pp.threshold_params {
        Some(tp) => tp,
        None => ThresholdParams { t: 1, k: 1 },
    }
}

fn nonce_threshold(pp: &PublicParams) -> (r: ThresholdParams)
    ensures
        r == spec_nonce_threshold(*pp),
{
    match pp.threshold_params {
        Some(tp) => tp,
        None => ThresholdParams::single(),
    }
}

/// `shares` are a t-of-k Shamir sharing of `secret`, and they read back
/// as it.
pub open spec fn shares_secret(shares: Seq<Share>, t: nat, k: nat, secret: nat) -> bool {
    &&& exists|coeffs: Seq<nat>|
        coeffs.len() == t && coeffs[0] == secret && #[trigger] spec_shares_of(coeffs, shares, k)
    &&& crate::crypto::shamir::spec_reconstruct(shares) == Some(secret)
}

/// What `preprocess_voter` does on success: the voter keeps (sk, vk, R); the
/// authority stores only shares of a fresh R_EA; the public row commits to
/// both nonces.
pub open spec fn spec_registered(
    pp: PublicParams,
    old_auth: Map<u64, AuthorityVoterSecret>,
    new_auth: Map<u64, AuthorityVoterSecret>,
    id: u64,
    vs: VoterState,
    rec: PublicRegistrationRecord,
    h_honest: bool,
) -> bool {
    let tp = spec_nonce_threshold(pp);
    &&& vs.id == id
    &&& rec.id == id
    &&& rec.vk == vs.vk
    &&& vs.sk.0@ != 0
    &&& (vs.vk.x@, vs.vk.y@) == spec_vk_of(vs.sk.0@)
    &&& rec.leaf@ == spec_h_reg(pp.eid_hash@, id as nat, vs.vk.x@, vs.vk.y@, rec.h@)
    &&& new_auth.dom() == old_auth.dom().insert(id)
    &&& forall|other: u64| other != id && old_auth.contains_key(other) ==> #[trigger] new_auth[other]
        == old_auth[other]
    &&& new_auth[id].id == id
    &&& new_auth[id].vk == vs.vk
    &&& exists|r_ea: nat|
        #![trigger shares_secret(new_auth[id].r_ea_shares@, tp.t as nat, tp.k as nat, r_ea)]
        r_ea < p() && shares_secret(new_auth[id].r_ea_shares@, tp.t as nat, tp.k as nat, r_ea) && (
        h_honest ==> rec.h@ == spec_h_com(pp.eid_hash@, id as nat, vs.vk.x@, vs.vk.y@, vs.r@, r_ea))
}

/// Register one voter (the functionality F_prep). Refuses an id that is
/// already registered, a full table, an id outside 0..max_voters, and
/// invalid threshold parameters.
pub fn preprocess_voter(
    pp: &PublicParams,
    authority_secret: &mut AuthoritySecretState,
    voter_id: VoterId,
    rng: &mut rand_chacha::ChaCha20Rng,
) -> (r: Result<(VoterState, PublicRegistrationRecord)>)
    requires
        spec_nonce_threshold(*pp).k < u64::MAX,
    ensures
        old(authority_secret).voter_secrets@.contains_key(voter_id) ==> r == Err::<
            (VoterState, PublicRegistrationRecord),
            CrDrError,
        >(CrDrError::DuplicateVoter(voter_id)),
        !old(authority_secret).voter_secrets@.contains_key(voter_id) && (old(
            authority_secret,
        ).voter_secrets@.len() >= pp.max_voters || voter_id >= pp.max_voters) ==> (r matches Err(e)
            && e is InvalidConfig),
        r is Ok <==> (!old(authority_secret).voter_secrets@.contains_key(voter_id) && old(
            authority_secret,
        ).voter_secrets@.len() < pp.max_voters && voter_id < pp.max_voters && 1
            <= spec_nonce_threshold(*pp).t <= spec_nonce_threshold(*pp).k),
        r is Err ==> final(authority_secret).voter_secrets@ == old(authority_secret).voter_secrets@,
        final(authority_secret).sk_ea == old(authority_secret).sk_ea,
        final(authority_secret).receipt_sk == old(authority_secret).receipt_sk,
        final(authority_secret).threshold == old(authority_secret).threshold,
        r matches Ok((vs, rec)) ==> spec_registered(
            *pp,
            old(authority_secret).voter_secrets@,
            final(authority_secret).voter_secrets@,
            voter_id,
            vs,
            rec,
            true,
        ),
{
    if authority_secret.voter_secrets.contains_key(&voter_id) {
        return Err(CrDrError::DuplicateVoter(voter_id));
    }
    if authority_secret.voter_secrets.len() >= pp.max_voters {
        return Err(CrDrError::InvalidConfig(msg("max_voters exceeded")));
    }
    if voter_id >= pp.max_voters as u64 {
        return Err(CrDrError::InvalidConfig(msg("voter id out of the indexed range")));
    }
    let voter = voter_registration_secrets(rng);
    let tp = nonce_threshold(pp);
    let r_ea = Fe::random(rng);
    let r_ea_shares = share(r_ea, tp.t, tp.k, rng)?;
    let h = h_com(pp.eid_hash, voter_id, &voter.vk, voter.r, r_ea);
    let leaf = h_reg(pp.eid_hash, voter_id, &voter.vk, h);
    let ghost shares_v = r_ea_shares@;
    authority_secret.voter_secrets.insert(
        voter_id,
        AuthorityVoterSecret { id: voter_id, vk: voter.vk, r_ea_shares },
    );
    let vs = VoterState { id: voter_id, sk: voter.sk, vk: voter.vk, r: voter.r };
    let rec = PublicRegistrationRecord { id: voter_id, vk: voter.vk, h, leaf };
    proof {
        assert(authority_secret.voter_secrets@[voter_id].r_ea_shares@ == shares_v);
        assert(shares_secret(shares_v, tp.t as nat, tp.k as nat, r_ea@));
        assert(authority_secret.voter_secrets@.dom() =~= old(authority_secret).voter_secrets@.dom().insert(voter_id));
    }
    Ok((vs, rec))
}

/// Finalized public registration state: the indexed table Reg[0..N-1]
/// (record i has id i and sits at Merkle leaf index i) and its Merkle
/// tree's root and paths.
#[derive(Debug, Clone)]
pub struct RegistrationState {
    /// Records in id order; `records[i].id == i`.
    pub records: Vec<PublicRegistrationRecord>,
    pub root: Fe,
    /// `paths[i]` authenticates leaf i.
    pub paths: Vec<MerklePath>,
    pub merkle_depth: usize,
}

/// The leaves of a registration table, in table order.
pub open spec fn reg_leaves(recs: Seq<PublicRegistrationRecord>) -> Seq<nat> {
    Seq::new(recs.len(), |i: int| recs[i].leaf@)
}

impl RegistrationState {
    /// Row `id` of the table, if there is one.
    pub open spec fn spec_record(&self, id: u64) -> Option<PublicRegistrationRecord> {
        if id < self.records@.len() {
            Some(self.records@[id as int])
        } else {
            None
        }
    }

    /// Row `id` of the table, if there is one.
    pub fn record(&self, id: VoterId) -> (r: Option<&PublicRegistrationRecord>)
        ensures
            r matches Some(x) ==> self.spec_record(id) == Some(*x),
            r is None <==> self.spec_record(id) is None,
    {
        if id < self.records.len() as u64 {
            Some(&self.records[id as usize])
        } else {
            None
        }
    }

    /// The authentication path of row `id`, if there is one.
    pub fn path(&self, id: VoterId) -> (r: Option<&MerklePath>)
        ensures
            r matches Some(x) ==> id < self.paths@.len() && *x == self.paths@[id as int],
            r is None <==> id >= self.paths@.len(),
    {
        if id < self.paths.len() as u64 {
            Some(&self.paths[id as usize])
        } else {
            None
        }
    }

    /// Number of registered voters N (rows 0..N-1).
    pub fn num_voters(&self) -> (r: usize)
        ensures
            r == self.records@.len(),
    {
        self.records.len()
    }

    /// The state as `finalize_registration` builds it: an indexed table, the
    /// root of the tree over its leaves and each row's path.
    pub open spec fn wf(&self) -> bool {
        let base = spec_padded(reg_leaves(self.records@), pow2(self.merkle_depth as nat));
        &&& self.records@.len() <= pow2(self.merkle_depth as nat)
        &&& forall|i: int| 0 <= i < self.records@.len() ==> #[trigger] self.records@[i].id == i
        &&& self.root@ == spec_root(base, self.merkle_depth as nat)
        &&& self.paths@.len() == self.records@.len()
        &&& forall|i: int|
            0 <= i < self.paths@.len() ==> vals(#[trigger] self.paths@[i].elements@)
                == spec_path_elements(base, self.merkle_depth as nat, i as nat)
                && self.paths@[i].indices@ == spec_path_indices(self.merkle_depth as nat, i as nat)
    }
}

/// Some two records carry the same id.
pub open spec fn has_dup_id(recs: Seq<PublicRegistrationRecord>, upto: int) -> bool {
    exists|i: int, j: int| #![trigger recs[i], recs[j]] 0 <= j < i < upto && recs[j].id == recs[i].id
}

/// Record i repeats an earlier id.
pub open spec fn repeats_earlier(recs: Seq<PublicRegistrationRecord>, i: int) -> bool {
    exists|j: int| 0 <= j < i && recs[j].id == recs[i].id
}

/// The ids are exactly 0..N-1 (given that they are distinct).
pub open spec fn dense_ids(recs: Seq<PublicRegistrationRecord>) -> bool {
    forall|k: int| 0 <= k < recs.len() ==> #[trigger] id_present(recs, k)
}

/// Some record carries id k.
pub open spec fn id_present(recs: Seq<PublicRegistrationRecord>, k: int) -> bool {
    exists|i: int| 0 <= i < recs.len() && #[trigger] recs[i].id == k
}

/// Build the indexed registration table and its Merkle tree. Refuses a
/// repeated id (naming the first record, in input order, that repeats an
/// earlier id), ids that are not exactly 0..N-1, and more rows than the
/// tree has leaves.
pub fn finalize_registration(pp: &PublicParams, records: &[PublicRegistrationRecord]) -> (r: Result<
    RegistrationState,
>)
    requires
        pp.merkle_depth < usize::BITS,
    ensures
        has_dup_id(records@, records@.len() as int) ==> (r matches Err(CrDrError::DuplicateVoter(x))
            && exists|i: int|
            0 <= i < records@.len() && repeats_earlier(records@, i) && records@[i].id == x && !has_dup_id(
                records@,
                i,
            )),
        !has_dup_id(records@, records@.len() as int) && !dense_ids(records@) ==> (r matches Err(e)
            && e is InvalidConfig),
        !has_dup_id(records@, records@.len() as int) && dense_ids(records@) && records@.len()
            > pow2(pp.merkle_depth as nat) ==> (r matches Err(e) && e is Merkle),
        r is Ok <==> !has_dup_id(records@, records@.len() as int) && dense_ids(records@)
            && records@.len() <= pow2(pp.merkle_depth as nat),
        r matches Ok(st) ==> {
            &&& st.wf()
            &&& st.merkle_depth == pp.merkle_depth
            &&& st.records@.len() == records@.len()
            &&& forall|k: int| 0 <= k < st.records@.len() ==> records@.contains(#[trigger] st.records@[k])
        },
{
    let n = records.len();
    // Repeated ids, in input order.
    let mut i: usize = 0;
    while i < n
        invariant
            n == records@.len(),
            i <= n,
            !has_dup_id(records@, i as int),
        decreases n - i,
    {
        let mut j: usize = 0;
        while j < i
            invariant
                n == records@.len(),
                i < n,
                j <= i,
                !has_dup_id(records@, i as int),
                forall|m: int| 0 <= m < j ==> records@[m].id != records@[i as int].id,
            decreases i - j,
        {
            if records[j].id == records[i].id {
                proof {
                    assert(repeats_earlier(records@, i as int));
                    assert(has_dup_id(records@, n as int)) by {
                        assert(0 <= j < i < n && records@[j as int].id == records@[i as int].id);
                    }
                }
                return Err(CrDrError::DuplicateVoter(records[i].id));
            }
            j += 1;
        }
        proof {
            assert forall|a: int, b: int| #![trigger records@[a], records@[b]]
                0 <= b < a < i + 1 implies records@[b].id != records@[a].id by {
                if a < i {
                    assert(!has_dup_id(records@, i as int));
                }
            }
        }
        i += 1;
    }
    // Density: row k must exist for every k < N.
    let mut table: Vec<PublicRegistrationRecord> = Vec::new();
    let mut k: usize = 0;
    while k < n
        invariant
            n == records@.len(),
            !has_dup_id(records@, n as int),
            k <= n,
            table@.len() == k,
            forall|m: int| 0 <= m < k ==> #[trigger] table@[m].id == m && records@.contains(table@[m]),
            forall|m: int| 0 <= m < k ==> #[trigger] id_present(records@, m),
        decreases n - k,
    {
        let mut x: usize = 0;
        let mut found: Option<usize> = None;
        while x < n
            invariant
                n == records@.len(),
                x <= n,
                match found {
                    Some(f) => f < n && records@[f as int].id == k,
                    None => forall|y: int| 0 <= y < x ==> records@[y].id != k,
                },
            decreases n - x,
        {
            if found.is_none() && records[x].id == k as u64 {
                found = Some(x);
            }
            x += 1;
        }
        match found {
            Some(f) => {
                table.push(records[f]);
                proof {
                    assert(records@[f as int] == table@[k as int]);
                    assert(records@.contains(table@[k as int]));
                    assert(id_present(records@, k as int));
                }
            },
            None => {
                proof {
                    assert(!dense_ids(records@)) by {
                        if dense_ids(records@) {
                            assert(id_present(records@, k as int));
                        }
                    }
                }
                return Err(CrDrError::InvalidConfig(msg("registration ids must be dense 0..N-1")));
            },
        }
        k += 1;
    }
    assert(dense_ids(records@));
    let mut leaves: Vec<Fe> = Vec::new();
    let mut m: usize = 0;
    while m < n
        invariant
            n == table@.len(),
            m <= n,
            leaves@.len() == m,
            forall|z: int| 0 <= z < m ==> #[trigger] leaves@[z] == table@[z].leaf,
        decreases n - m,
    {
        leaves.push(table[m].leaf);
        m += 1;
    }
    assert(vals(leaves@) =~= reg_leaves(table@));
    let tree = match MerkleTree::new(leaves.as_slice(), pp.merkle_depth) {
        Ok(t) => t,
        Err(e) => return Err(e),
    };
    let mut paths: Vec<MerklePath> = Vec::new();
    let mut z: usize = 0;
    while z < n
        invariant
            n == table@.len(),
            n <= pow2(pp.merkle_depth as nat),
            tree.spec_depth() == pp.merkle_depth,
            tree.spec_base() == spec_padded(reg_leaves(table@), pow2(pp.merkle_depth as nat)),
            z <= n,
            paths@.len() == z,
            forall|w: int|
                0 <= w < z ==> vals(#[trigger] paths@[w].elements@) == spec_path_elements(
                    tree.spec_base(),
                    pp.merkle_depth as nat,
                    w as nat,
                ) && paths@[w].indices@ == spec_path_indices(pp.merkle_depth as nat, w as nat),
        decreases n - z,
    {
        let pth = match tree.path(z) {
            Ok(pth) => pth,
            Err(e) => return Err(e),
        };
        let ghost pv = pth;
        let ghost before = paths@;
        paths.push(pth);
        proof {
            assert forall|w: int| 0 <= w < z + 1 implies vals(#[trigger] paths@[w].elements@)
                == spec_path_elements(tree.spec_base(), pp.merkle_depth as nat, w as nat)
                && paths@[w].indices@ == spec_path_indices(pp.merkle_depth as nat, w as nat) by {
                if w < z {
                    assert(paths@[w] == before[w]);
                } else {
                    assert(paths@[w] == pv);
                }
            }
        }
        z += 1;
    }
    let root = tree.root();
    let st = RegistrationState { records: table, root, paths, merkle_depth: pp.merkle_depth };
    assert(st.records@.len() <= pow2(st.merkle_depth as nat));
    assert(forall|i: int| 0 <= i < st.records@.len() ==> #[trigger] st.records@[i].id == i);
    assert(st.root@ == spec_root(spec_padded(reg_leaves(st.records@), pow2(st.merkle_depth as nat)), st.merkle_depth as nat));
    assert(st.wf());
    assert forall|k: int| 0 <= k < st.records@.len() implies records@.contains(#[trigger] st.records@[k]) by {
        assert(table@[k].id == k);
    }
    Ok(st)
}

/// Transcript of a cut-and-choose registration (voter view and audit).
#[derive(Debug, Clone)]
pub struct CutAndChooseTranscript {
    pub q: usize,
    /// Index of the unopened (final) pair.
    pub final_index: usize,
    /// Commitments h^k for all q pairs.
    pub commitments: Vec<Fe>,
    /// Opened authority nonces of the audited pairs (index, R_EA^k).
    pub opened: Vec<(usize, Nonce)>,
}

/// What a successful cut-and-choose registration shows: q commitments, the
/// final pair unopened, every audited pair's opening matching its
/// commitment, and the public row committing to the final pair.
pub open spec fn spec_audited(
    pp: PublicParams,
    id: u64,
    vs: VoterState,
    rec: PublicRegistrationRecord,
    tr: CutAndChooseTranscript,
    q: usize,
) -> bool {
    &&& tr.q == q
    &&& tr.final_index < q
    &&& tr.commitments@.len() == q
    &&& rec.h == tr.commitments@[tr.final_index as int]
    &&& tr.opened@.len() == q - 1
    &&& forall|m: int|
        0 <= m < tr.opened@.len() ==> {
            let (k, r_ea) = #[trigger] tr.opened@[m];
            &&& k < q
            &&& k != tr.final_index
            &&& k == if m < tr.final_index { m } else { m + 1 }
            &&& tr.commitments@[k as int]@ == spec_h_com(
                pp.eid_hash@,
                id as nat,
                vs.vk.x@,
                vs.vk.y@,
                vs.r@,
                r_ea@,
            )
        }
}

/// The authority corrupts one of the q pairs.
pub open spec fn corrupts(corrupt_index: Option<usize>, q: usize) -> bool {
    corrupt_index matches Some(c) && c < q
}

/// Honest cut-and-choose registration: the authority commits to q
/// candidate nonces, the voter audits all but a random one, which becomes
/// the voting pair.
pub fn preprocess_voter_cut_and_choose(
    pp: &PublicParams,
    authority_secret: &mut AuthoritySecretState,
    voter_id: VoterId,
    q: usize,
    rng: &mut rand_chacha::ChaCha20Rng,
) -> (r: Result<(VoterState, PublicRegistrationRecord, CutAndChooseTranscript)>)
    requires
        spec_nonce_threshold(*pp).k < u64::MAX,
    ensures
        q < 2 ==> (r matches Err(e) && e is InvalidConfig),
        q >= 2 && old(authority_secret).voter_secrets@.contains_key(voter_id) ==> r == Err::<
            (VoterState, PublicRegistrationRecord, CutAndChooseTranscript),
            CrDrError,
        >(CrDrError::DuplicateVoter(voter_id)),
        q >= 2 && !old(authority_secret).voter_secrets@.contains_key(voter_id) && voter_id
            >= pp.max_voters ==> (r matches Err(e) && e is InvalidConfig),
        r is Ok <==> (q >= 2 && !old(authority_secret).voter_secrets@.contains_key(voter_id)
            && voter_id < pp.max_voters && 1 <= spec_nonce_threshold(*pp).t
            <= spec_nonce_threshold(*pp).k),
        r is Err ==> final(authority_secret).voter_secrets@ == old(authority_secret).voter_secrets@,
        r matches Ok((vs, rec, tr)) ==> spec_audited(*pp, voter_id, vs, rec, tr, q)
            && spec_registered(
            *pp,
            old(authority_secret).voter_secrets@,
            final(authority_secret).voter_secrets@,
            voter_id,
            vs,
            rec,
            true,
        ),
{
    preprocess_voter_cut_and_choose_impl(pp, authority_secret, voter_id, q, None, rng)
}

/// Cut-and-choose registration where the authority corrupts the commitment
/// of pair `corrupt_index` (used to measure audit soundness): the audit
/// catches the corruption unless that pair is the unopened one.
pub fn preprocess_voter_cut_and_choose_with_cheat(
    pp: &PublicParams,
    authority_secret: &mut AuthoritySecretState,
    voter_id: VoterId,
    q: usize,
    corrupt_index: usize,
    rng: &mut rand_chacha::ChaCha20Rng,
) -> (r: Result<(VoterState, PublicRegistrationRecord, CutAndChooseTranscript)>)
    requires
        spec_nonce_threshold(*pp).k < u64::MAX,
    ensures
        q < 2 ==> (r matches Err(e) && e is InvalidConfig),
        q >= 2 && old(authority_secret).voter_secrets@.contains_key(voter_id) ==> r == Err::<
            (VoterState, PublicRegistrationRecord, CutAndChooseTranscript),
            CrDrError,
        >(CrDrError::DuplicateVoter(voter_id)),
        q >= 2 && !old(authority_secret).voter_secrets@.contains_key(voter_id) && voter_id
            >= pp.max_voters ==> (r matches Err(e) && e is InvalidConfig),
        r matches Err(CrDrError::CutAndChooseAudit(_)) ==> corrupt_index < q,
        r is Err ==> final(authority_secret).voter_secrets@ == old(authority_secret).voter_secrets@,
        r matches Ok((vs, rec, tr)) ==> spec_audited(*pp, voter_id, vs, rec, tr, q) && (corrupt_index
            < q ==> corrupt_index == tr.final_index) && spec_registered(
            *pp,
            old(authority_secret).voter_secrets@,
            final(authority_secret).voter_secrets@,
            voter_id,
            vs,
            rec,
            corrupt_index >= q,
        ),
{
    preprocess_voter_cut_and_choose_impl(pp, authority_secret, voter_id, q, Some(corrupt_index), rng)
}

fn preprocess_voter_cut_and_choose_impl(
    pp: &PublicParams,
    authority_secret: &mut AuthoritySecretState,
    voter_id: VoterId,
    q: usize,
    corrupt_index: Option<usize>,
    rng: &mut rand_chacha::ChaCha20Rng,
) -> (r: Result<(VoterState, PublicRegistrationRecord, CutAndChooseTranscript)>)
    requires
        spec_nonce_threshold(*pp).k < u64::MAX,
    ensures
        q < 2 ==> (r matches Err(e) && e is InvalidConfig),
        q >= 2 && old(authority_secret).voter_secrets@.contains_key(voter_id) ==> r == Err::<
            (VoterState, PublicRegistrationRecord, CutAndChooseTranscript),
            CrDrError,
        >(CrDrError::DuplicateVoter(voter_id)),
        q >= 2 && !old(authority_secret).voter_secrets@.contains_key(voter_id) && voter_id
            >= pp.max_voters ==> (r matches Err(e) && e is InvalidConfig),
        r matches Err(CrDrError::CutAndChooseAudit(_)) ==> corrupts(corrupt_index, q),
        !corrupts(corrupt_index, q) ==> (r is Ok <==> (q >= 2
            && !old(authority_secret).voter_secrets@.contains_key(voter_id) && voter_id
            < pp.max_voters && 1 <= spec_nonce_threshold(*pp).t <= spec_nonce_threshold(*pp).k)),
        r is Err ==> final(authority_secret).voter_secrets@ == old(authority_secret).voter_secrets@,
        r matches Ok((vs, rec, tr)) ==> spec_audited(*pp, voter_id, vs, rec, tr, q) && (corrupts(corrupt_index, q)
            ==> corrupt_index == Some(tr.final_index)) && spec_registered(
            *pp,
            old(authority_secret).voter_secrets@,
            final(authority_secret).voter_secrets@,
            voter_id,
            vs,
            rec,
            !corrupts(corrupt_index, q),
        ),
{
    if q < 2 {
        return Err(CrDrError::InvalidConfig(msg("cut-and-choose requires q >= 2")));
    }
    if authority_secret.voter_secrets.contains_key(&voter_id) {
        return Err(CrDrError::DuplicateVoter(voter_id));
    }
    if voter_id >= pp.max_voters as u64 {
        return Err(CrDrError::InvalidConfig(msg("voter id out of the indexed range")));
    }
    let voter = voter_registration_secrets(rng);
    // The authority side generates q candidate nonces; F_prep commits to each.
    let mut r_ea_candidates: Vec<Fe> = Vec::new();
    let mut commitments: Vec<Fe> = Vec::new();
    let mut k: usize = 0;
    while k < q
        invariant
            q >= 2,
            !old(authority_secret).voter_secrets@.contains_key(voter_id),
            voter_id < pp.max_voters,
            authority_secret.voter_secrets@ == old(authority_secret).voter_secrets@,
            k <= q,
            r_ea_candidates@.len() == k,
            commitments@.len() == k,
            forall|m: int|
                0 <= m < k ==> {
                    let honest = spec_h_com(
                        pp.eid_hash@,
                        voter_id as nat,
                        voter.vk.x@,
                        voter.vk.y@,
                        voter.r@,
                        r_ea_candidates@[m]@,
                    );
                    if corrupt_index == Some(m as usize) {
                        #[trigger] commitments@[m]@ == (honest + 1) % p()
                    } else {
                        commitments@[m]@ == honest
                    }
                },
        decreases q - k,
    {
        let r_ea = Fe::random(rng);
        let mut h = h_com(pp.eid_hash, voter_id, &voter.vk, voter.r, r_ea);
        if corrupt_index == Some(k) {
            h = h.add(&Fe::one());
        }
        r_ea_candidates.push(r_ea);
        commitments.push(h);
        k += 1;
    }
    // The voter picks the final (unopened) pair and audits the rest.
    let final_index = sample_below(rng, q as u64) as usize;
    let mut opened: Vec<(usize, Fe)> = Vec::new();
    let mut k: usize = 0;
    while k < q
        invariant
            q >= 2,
            !old(authority_secret).voter_secrets@.contains_key(voter_id),
            voter_id < pp.max_voters,
            authority_secret.voter_secrets@ == old(authority_secret).voter_secrets@,
            final_index < q,
            k <= q,
            r_ea_candidates@.len() == q,
            commitments@.len() == q,
            forall|m: int|
                0 <= m < q ==> {
                    let honest = spec_h_com(
                        pp.eid_hash@,
                        voter_id as nat,
                        voter.vk.x@,
                        voter.vk.y@,
                        voter.r@,
                        r_ea_candidates@[m]@,
                    );
                    if corrupt_index == Some(m as usize) {
                        #[trigger] commitments@[m]@ == (honest + 1) % p()
                    } else {
                        commitments@[m]@ == honest
                    }
                },
            corrupts(corrupt_index, k) ==> corrupt_index == Some(final_index),
            opened@.len() == if k <= final_index { k as int } else { k - 1 },
            forall|m: int|
                0 <= m < opened@.len() ==> {
                    let (kk, r_ea) = #[trigger] opened@[m];
                    &&& kk < q
                    &&& kk != final_index
                    &&& kk == if m < final_index { m } else { m + 1 }
                    &&& r_ea == r_ea_candidates@[kk as int]
                    &&& commitments@[kk as int]@ == spec_h_com(
                        pp.eid_hash@,
                        voter_id as nat,
                        voter.vk.x@,
                        voter.vk.y@,
                        voter.r@,
                        r_ea@,
                    )
                },
        decreases q - k,
    {
        if k != final_index {
            let recomputed = h_com(pp.eid_hash, voter_id, &voter.vk, voter.r, r_ea_candidates[k]);
            if recomputed != commitments[k] {
                proof {
                    Fe::lemma_eq_iff_view_eq(recomputed, commitments[k as int]);
                }
                return Err(CrDrError::CutAndChooseAudit(msg("an audited pair does not match its commitment")));
            }
            proof {
                Fe::lemma_eq_iff_view_eq(recomputed, commitments[k as int]);
                let honest = recomputed@;
                if corrupt_index == Some(k) {
                    assert(commitments@[k as int]@ == (honest + 1) % p());
                    assert(honest < p());
                    assert(false);
                }
            }
            opened.push((k, r_ea_candidates[k]));
        }
        k += 1;
    }
    let h = commitments[final_index];
    let leaf = h_reg(pp.eid_hash, voter_id, &voter.vk, h);
    let tp = nonce_threshold(pp);
    let final_r_ea = r_ea_candidates[final_index];
    final_r_ea.bound();
    let r_ea_shares = match share(final_r_ea, tp.t, tp.k, rng) {
        Ok(sh) => sh,
        Err(e) => return Err(e),
    };
    let ghost shares_v = r_ea_shares@;
    authority_secret.voter_secrets.insert(
        voter_id,
        AuthorityVoterSecret { id: voter_id, vk: voter.vk, r_ea_shares },
    );
    let vs = VoterState { id: voter_id, sk: voter.sk, vk: voter.vk, r: voter.r };
    let rec = PublicRegistrationRecord { id: voter_id, vk: voter.vk, h, leaf };
    let tr = CutAndChooseTranscript { q, final_index, commitments, opened };
    proof {
        assert(authority_secret.voter_secrets@[voter_id].r_ea_shares@ == shares_v);
        assert(shares_secret(shares_v, tp.t as nat, tp.k as nat, final_r_ea@));
        assert(authority_secret.voter_secrets@.dom() =~= old(authority_secret).voter_secrets@.dom().insert(voter_id));
        assert(tr.opened@.len() == q - 1);
        assert(spec_audited(*pp, voter_id, vs, rec, tr, q));
        if !corrupts(corrupt_index, q) {
            assert(corrupt_index != Some(final_index));
            assert(tr.commitments@[final_index as int]@ == spec_h_com(
                pp.eid_hash@,
                voter_id as nat,
                vs.vk.x@,
                vs.vk.y@,
                vs.r@,
                final_r_ea@,
            ));
        }
        assert(final_r_ea@ < p());
        assert(forall|other: u64| other != voter_id && old(authority_secret).voter_secrets@.contains_key(other)
            ==> #[trigger] authority_secret.voter_secrets@[other] == old(authority_secret).voter_secrets@[other]);
        assert(corrupts(corrupt_index, q) ==> corrupt_index == Some(tr.final_index));
        assert(spec_registered(
            *pp,
            old(authority_secret).voter_secrets@,
            authority_secret.voter_secrets@,
            voter_id,
            vs,
            rec,
            !corrupts(corrupt_index, q),
        ));
    }
    Ok((vs, rec, tr))
}

} // verus!
