//! Boards and the (modeled) anonymous channel.
//!
//! `BulletinBoard` (BB_raw) holds the raw public submissions (com, ct_open)
//! of the public cast-ZK admission path. `AdmittedBoard` (BB_adm) is the
//! admitted commitment list that the tally processes, whichever admission
//! path produced it. The anonymous channel drops sender identity and
//! preserves exact entries, so recorded-as-cast checking on BB_raw is exact
//! byte matching.

use vstd::prelude::*;

use crate::crypto::encryption::spec_encodes;
use crate::field::{be_bytes_value, Fe};
use crate::rng::sample_below;
use crate::types::PublicBallot;
use crate::zk::cast::CastProof;

verus! {

broadcast use vstd::seq_lib::group_to_multiset_ensures;

/// Two byte strings of one length with the same big-endian value are equal.
pub proof fn lemma_be_bytes_injective(a: Seq<u8>, b: Seq<u8>)
    requires
        a.len() == b.len(),
        be_bytes_value(a) == be_bytes_value(b),
    ensures
        a == b,
    decreases a.len(),
{
    if a.len() > 0 {
        let va = be_bytes_value(a.drop_last());
        let vb = be_bytes_value(b.drop_last());
        assert(va * 256 + a.last() == vb * 256 + b.last());
        vstd::arithmetic::div_mod::lemma_fundamental_div_mod_converse(
            be_bytes_value(a) as int,
            256,
            va as int,
            a.last() as int,
        );
        vstd::arithmetic::div_mod::lemma_fundamental_div_mod_converse(
            be_bytes_value(b) as int,
            256,
            vb as int,
            b.last() as int,
        );
        lemma_be_bytes_injective(a.drop_last(), b.drop_last());
        assert(a =~= a.drop_last().push(a.last()));
        assert(b =~= b.drop_last().push(b.last()));
    } else {
        assert(a =~= b);
    }
}

/// An encoding determines its bytes: two encodings of one field list are
/// the same byte string.
pub proof fn lemma_encoding_unique(a: Seq<u8>, b: Seq<u8>, fs: Seq<nat>)
    requires
        spec_encodes(a, fs),
        spec_encodes(b, fs),
    ensures
        a == b,
{
    assert forall|i: int| 0 <= i < a.len() implies a[i] == b[i] by {
        let k = i / 32;
        assert(0 <= k < fs.len());
        let ca = a.subrange(32 * k, 32 * k + 32);
        let cb = b.subrange(32 * k, 32 * k + 32);
        lemma_be_bytes_injective(ca, cb);
        assert(ca[i - 32 * k] == a[i]);
        assert(cb[i - 32 * k] == b[i]);
    }
    assert(a =~= b);
}

/// An encoding determines its field list: one byte string encodes at most
/// one list of field values.
pub proof fn lemma_bytes_determine_fields(bytes: Seq<u8>, f1: Seq<nat>, f2: Seq<nat>)
    requires
        spec_encodes(bytes, f1),
        spec_encodes(bytes, f2),
    ensures
        f1 == f2,
{
    assert(f1.len() == f2.len());
    assert forall|k: int| 0 <= k < f1.len() implies f1[k] == f2[k] by {
        assert(be_bytes_value(bytes.subrange(32 * k, 32 * k + 32)) == f1[k]);
        assert(be_bytes_value(bytes.subrange(32 * k, 32 * k + 32)) == f2[k]);
    }
    assert(f1 =~= f2);
}

/// Equal public-ballot bytes mean equal public ballots: the same
/// commitment and the same encrypted opening.
pub proof fn lemma_bytes_determine_ballot(bytes: Seq<u8>, a: PublicBallot, b: PublicBallot)
    requires
        spec_encodes(bytes, seq![a.com@] + a.ct_open.spec_fields()),
        spec_encodes(bytes, seq![b.com@] + b.ct_open.spec_fields()),
    ensures
        a.com == b.com,
        a.ct_open.same_as(b.ct_open),
{
    let fa = seq![a.com@] + a.ct_open.spec_fields();
    let fb = seq![b.com@] + b.ct_open.spec_fields();
    lemma_bytes_determine_fields(bytes, fa, fb);
    assert(fa[0] == a.com@ && fb[0] == b.com@);
    Fe::lemma_eq_iff_view_eq(a.com, b.com);
    assert(fa[1] == a.ct_open.c1x@ && fb[1] == b.ct_open.c1x@);
    assert(fa[2] == a.ct_open.c1y@ && fb[2] == b.ct_open.c1y@);
    Fe::lemma_eq_iff_view_eq(a.ct_open.c1x, b.ct_open.c1x);
    Fe::lemma_eq_iff_view_eq(a.ct_open.c1y, b.ct_open.c1y);
    assert(a.ct_open.masked@.len() == b.ct_open.masked@.len());
    assert forall|k: int| 0 <= k < a.ct_open.masked@.len() implies a.ct_open.masked@[k] == b.ct_open.masked@[k] by {
        assert(fa[3 + k] == a.ct_open.masked@[k]@);
        assert(fb[3 + k] == b.ct_open.masked@[k]@);
        Fe::lemma_eq_iff_view_eq(a.ct_open.masked@[k], b.ct_open.masked@[k]);
    }
    assert(a.ct_open.masked@ =~= b.ct_open.masked@);
}

/// BB_raw: the ordered raw public submissions.
#[derive(Debug)]
pub struct BulletinBoard {
    entries: Vec<PublicBallot>,
}

impl View for BulletinBoard {
    type V = Seq<PublicBallot>;

    closed spec fn view(&self) -> Seq<PublicBallot> {
        self.entries@
    }
}

impl BulletinBoard {
    /// An empty board.
    pub fn new() -> (r: Self)
        ensures
            r@ == Seq::<PublicBallot>::empty(),
    {
        BulletinBoard { entries: Vec::new() }
    }

    /// Post a ballot at the end of the board.
    pub fn append(&mut self, ballot: PublicBallot)
        ensures
            final(self)@ == old(self)@.push(ballot),
    {
        self.entries.push(ballot);
    }

    /// Public, ordered list of posted ballots.
    pub fn list_public_ballots(&self) -> (r: &[PublicBallot])
        ensures
            r@ == self@,
    {
        self.entries.as_slice()
    }

    /// Exact-byte membership test over the public ballot bytes.
    pub fn contains_exact_bytes(&self, ballot_bytes: &[u8]) -> (r: bool)
        ensures
            r == exists|i: int|
                0 <= i < self@.len() && spec_encodes(ballot_bytes@, #[trigger] self@[i].spec_fields()),
    {
        let mut i: usize = 0;
        while i < self.entries.len()
            invariant
                i <= self.entries@.len(),
                forall|k: int|
                    0 <= k < i ==> !spec_encodes(ballot_bytes@, #[trigger] self.entries@[k].spec_fields()),
            decreases self.entries@.len() - i,
        {
            let b = self.entries[i].bytes();
            if slices_equal(b.as_slice(), ballot_bytes) {
                assert(spec_encodes(ballot_bytes@, self@[i as int].spec_fields()));
                return true;
            }
            proof {
                if spec_encodes(ballot_bytes@, self.entries@[i as int].spec_fields()) {
                    lemma_encoding_unique(b@, ballot_bytes@, self.entries@[i as int].spec_fields());
                }
            }
            i += 1;
        }
        false
    }

    /// Number of posted ballots.
    pub fn len(&self) -> (r: usize)
        ensures
            r == self@.len(),
    {
        self.entries.len()
    }

    /// Whether nothing is posted.
    pub fn is_empty(&self) -> (r: bool)
        ensures
            r == (self@.len() == 0),
    {
        self.entries.len() == 0
    }
}

/// Byte-string equality.
pub fn slices_equal(a: &[u8], b: &[u8]) -> (r: bool)
    ensures
        r == (a@ == b@),
{
    if a.len() != b.len() {
        return false;
    }
    let mut i: usize = 0;
    while i < a.len()
        invariant
            a@.len() == b@.len(),
            i <= a@.len(),
            forall|k: int| 0 <= k < i ==> a@[k] == b@[k],
        decreases a@.len() - i,
    {
        if a[i] != b[i] {
            return false;
        }
        i += 1;
    }
    assert(a@ =~= b@);
    true
}

/// BB_adm: the admitted commitment list the tally proof processes.
#[derive(Debug, Clone, PartialEq, Eq)]
pub struct AdmittedBoard {
    pub coms: Vec<Fe>,
}

impl AdmittedBoard {
    /// An empty admitted board.
    pub fn new() -> (r: Self)
        ensures
            r.coms@.len() == 0,
    {
        AdmittedBoard { coms: Vec::new() }
    }

    /// Number of admitted commitments.
    pub fn len(&self) -> (r: usize)
        ensures
            r == self.coms@.len(),
    {
        self.coms.len()
    }

    /// Whether nothing is admitted.
    pub fn is_empty(&self) -> (r: bool)
        ensures
            r == (self.coms@.len() == 0),
    {
        self.coms.len() == 0
    }

    /// Membership of a commitment.
    pub fn contains(&self, com: &Fe) -> (r: bool)
        ensures
            r == self.coms@.contains(*com),
    {
        let mut i: usize = 0;
        while i < self.coms.len()
            invariant
                i <= self.coms@.len(),
                forall|k: int| 0 <= k < i ==> self.coms@[k] != *com,
            decreases self.coms@.len() - i,
        {
            if self.coms[i] == *com {
                return true;
            }
            i += 1;
        }
        false
    }
}

/// A raw submission of the public path: the entry and its cast proof, if
/// any (entries without a valid proof are never admitted).
#[derive(Debug, Clone)]
pub struct RawSubmission {
    pub entry: PublicBallot,
    pub pi_cast: Option<CastProof>,
}

/// Modeled anonymous submission channel: collects raw submissions and
/// releases them in a random order with sender identities dropped.
#[derive(Debug)]
pub struct AnonymousChannel {
    pending: Vec<RawSubmission>,
}

impl View for AnonymousChannel {
    type V = Seq<RawSubmission>;

    closed spec fn view(&self) -> Seq<RawSubmission> {
        self.pending@
    }
}

impl AnonymousChannel {
    /// An empty channel.
    pub fn new() -> (r: Self)
        ensures
            r@ == Seq::<RawSubmission>::empty(),
    {
        AnonymousChannel { pending: Vec::new() }
    }

    /// Submit an entry without a cast proof.
    pub fn submit(&mut self, ballot: PublicBallot)
        ensures
            final(self)@ == old(self)@.push(RawSubmission { entry: ballot, pi_cast: None }),
    {
        self.pending.push(RawSubmission { entry: ballot, pi_cast: None });
    }

    /// Submit an entry with its cast proof.
    pub fn submit_with_proof(&mut self, ballot: PublicBallot, pi_cast: CastProof)
        ensures
            final(self)@ == old(self)@.push(RawSubmission { entry: ballot, pi_cast: Some(pi_cast) }),
    {
        self.pending.push(RawSubmission { entry: ballot, pi_cast: Some(pi_cast) });
    }

    /// Release all pending submissions in a fresh random order: the result
    /// holds exactly the pending submissions, and the channel is emptied.
    pub fn flush_shuffled(&mut self, rng: &mut rand_chacha::ChaCha20Rng) -> (r: Vec<RawSubmission>)
        ensures
            final(self)@ == Seq::<RawSubmission>::empty(),
            r@.to_multiset() == old(self)@.to_multiset(),
            r@.len() == old(self)@.len(),
    {
        let ghost orig = self.pending@;
        let mut rest: Vec<RawSubmission> = Vec::new();
        std::mem::swap(&mut rest, &mut self.pending);
        let mut out: Vec<RawSubmission> = Vec::new();
        proof {
            assert(out@.to_multiset().add(rest@.to_multiset()) =~= orig.to_multiset());
        }
        while rest.len() > 0
            invariant
                out@.to_multiset().add(rest@.to_multiset()) == orig.to_multiset(),
                out@.len() + rest@.len() == orig.len(),
                self.pending@ == Seq::<RawSubmission>::empty(),
            decreases rest@.len(),
        {
            let n = rest.len();
            let j = sample_below(rng, n as u64) as usize;
            let ghost before = rest@;
            let item = rest.remove(j);
            proof {
                vstd::seq_lib::to_multiset_remove(before, j as int);
                vstd::seq_lib::to_multiset_build(out@, item);
            }
            out.push(item);
            proof {
                assert(out@.to_multiset().add(rest@.to_multiset()) =~= orig.to_multiset());
            }
        }
        proof {
            assert(rest@.to_multiset() =~= vstd::multiset::Multiset::empty());
            assert(out@.to_multiset().add(rest@.to_multiset()) =~= out@.to_multiset());
        }
        out
    }
}

} // verus!
