//! Parallel speculative bisection scheduler.
//!
//! Given an ordered sequence of revisions that transitions from "good" to
//! "bad" at some unknown point, the library decides which candidates to test
//! next with up to `jobs` concurrent workers (the allocator), folds each
//! worker's verdict back into the shared state (the transition function
//! `step`), and gates when resolved results may be reported.  Launching,
//! polling and cancelling the worker processes themselves is left to the
//! surrounding program.

use vstd::prelude::*;

pub mod allocator;
pub mod report;
pub mod state;

verus! {

/// The outcome of testing one candidate revision.
#[derive(Clone, Copy, PartialEq, Eq, Structural, Debug)]
pub enum Status {
    /// Not yet tested.
    Unknown,
    /// The test passed at this revision.
    Good,
    /// The test failed at this revision.
    Bad,
    /// The test could not produce a verdict (e.g. a build failure);
    /// excluded from bounds computation.
    Skip,
}

/// One candidate revision: its identifier plus its current resolution.
/// Its position in the surrounding sequence encodes ancestry order.
#[derive(Debug)]
pub struct CommitState {
    /// Opaque revision identifier.
    pub hash: String,
    /// Current resolution of this candidate.
    pub status: Status,
}

impl CommitState {
    /// An explicit copy; the identifier and the resolution are preserved.
    pub fn duplicate(&self) -> (r: CommitState)
        ensures
            r.hash == self.hash,
            r.status == self.status,
    {
        CommitState { hash: self.hash.clone(), status: self.status }
    }
}

/// The resolutions of a sequence of candidates, position by position.
pub open spec fn statuses(cs: Seq<CommitState>) -> Seq<Status> {
    Seq::new(cs.len(), |i: int| cs[i].status)
}

} // verus!
