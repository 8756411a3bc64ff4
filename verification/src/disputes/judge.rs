//! Private judge verdicts. Detailed verdicts are judge-private: a public
//! detailed verdict could reveal whether a voter evaded coercion. Reports
//! never contain authority nonces.

use vstd::prelude::*;

use crate::errors::msg;

verus! {

/// Final dispute verdict.
///
/// * `AuthorityFaulty`: the evidence establishes an authority fault;
/// * `VoterFaulty`: the complaint is unsupported (judge-internal; includes
///   the fake-nonce case, which must not be distinguishable externally);
/// * `BoardFaulty`: a board operated by a party distinct from the EA failed
///   to post admitted material;
/// * `NoAuthorityFault`: the complaint was processed and no authority fault
///   exists;
/// * `Undetermined`: the evidence decides nothing.
#[derive(Debug, Clone, Copy, PartialEq, Eq, Structural)]
pub enum Verdict {
    AuthorityFaulty,
    VoterFaulty,
    BoardFaulty,
    NoAuthorityFault,
    Undetermined,
}

/// Judge-private report with a detail string for the judge only.
#[derive(Debug, Clone)]
pub struct JudgeReport {
    pub verdict: Verdict,
    pub detail: String,
}

/// The verdict as it may be released outside the judge: `VoterFaulty` is
/// coarsened to `NoAuthorityFault`, every other verdict is released as is.
pub open spec fn spec_external(v: Verdict) -> Verdict {
    match v {
        Verdict::VoterFaulty => Verdict::NoAuthorityFault,
        v => v,
    }
}

impl JudgeReport {
    /// A report with the given verdict and detail.
    pub fn new(verdict: Verdict, detail: &str) -> (r: Self)
        ensures
            r.verdict == verdict,
            r.detail@ == detail@,
    {
        JudgeReport { verdict, detail: msg(detail) }
    }

    /// The verdict as it may be released outside the judge. An externally
    /// visible voter-fault verdict would let a coercer tell a fake-nonce
    /// complaint from any other unsupported complaint.
    pub fn external_verdict(&self) -> (r: Verdict)
        ensures
            r == spec_external(self.verdict),
    {
        match self.verdict {
            Verdict::VoterFaulty => Verdict::NoAuthorityFault,
            v => v,
        }
    }
}

/// No released verdict is `VoterFaulty`, and the coarsening changes nothing
/// but `VoterFaulty`: a fake-nonce complaint and any other unsupported
/// complaint look alike from outside.
pub proof fn lemma_external_hides_voter_fault(v: Verdict)
    ensures
        spec_external(v) != Verdict::VoterFaulty,
        v != Verdict::VoterFaulty ==> spec_external(v) == v,
        v == Verdict::VoterFaulty ==> spec_external(v) == spec_external(Verdict::NoAuthorityFault),
{
}

} // verus!
