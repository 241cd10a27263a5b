//! The mutable record of a bisection run: each candidate's resolution plus
//! the set of currently assigned workers, and the valid search interval
//! `[lo, hi]` computed from the resolutions.

use crate::{statuses, CommitState, Status};
use vstd::prelude::*;

verus! {

/// The workers currently evaluating candidates: parallel vectors of the
/// candidate index each worker is testing and of the time each worker was
/// started (elapsed run time, in whole units of the caller's choosing).
#[derive(Debug)]
pub struct Runners {
    /// Candidate index under evaluation, one entry per live worker.
    pub commits: Vec<usize>,
    /// Start timestamp of the corresponding worker.
    pub start_times: Vec<u64>,
}

/// The full state of a bisection run: one record per candidate, the live
/// assignments, and the configured capacity.
#[derive(Debug)]
pub struct BisectionState {
    /// One record per candidate, covering the whole sequence at all times.
    pub commits: Vec<CommitState>,
    /// The currently assigned workers.
    pub runners: Runners,
    /// Configured worker capacity: `runners` never exceeds it.
    pub jobs: usize,
    /// Whether reporting waits until both a `Good` and a `Bad` resolution
    /// exist (the opposite of "reckless" mode).
    pub check_bounds: bool,
}

/// Whether candidate index `c` is currently assigned to a worker.
pub open spec fn assigned(r: Runners, c: usize) -> bool {
    r.commits@.contains(c)
}

/// The highest index resolved `Good` among the first `k` records, or 0 if
/// none of them is `Good`.
pub open spec fn max_good_upto(ss: Seq<Status>, k: int) -> int
    decreases k,
{
    if k <= 0 {
        0
    } else if ss[k - 1] == Status::Good {
        k - 1
    } else {
        max_good_upto(ss, k - 1)
    }
}

/// The lower bound of the valid interval: the highest index resolved
/// `Good`, defaulting to 0.
pub open spec fn lo_spec(ss: Seq<Status>) -> int {
    max_good_upto(ss, ss.len() as int)
}

/// The lowest index resolved `Bad` at position `k` or later, or the last
/// index if none is `Bad`.
pub open spec fn min_bad_from(ss: Seq<Status>, k: int) -> int
    decreases ss.len() - k,
{
    if k >= ss.len() {
        ss.len() - 1
    } else if ss[k] == Status::Bad {
        k
    } else {
        min_bad_from(ss, k + 1)
    }
}

/// The upper bound of the valid interval: the lowest index resolved `Bad`,
/// defaulting to the last index.
pub open spec fn hi_spec(ss: Seq<Status>) -> int {
    min_bad_from(ss, 0)
}

impl BisectionState {
    /// The resolutions, position by position.
    pub open spec fn view_statuses(self) -> Seq<Status> {
        statuses(self.commits@)
    }

    /// Well-formedness: the runner vectors pair up, stay within capacity,
    /// and every assignment points at a distinct, still-unknown candidate.
    /// The sequence length is bounded so that index arithmetic stays in
    /// range on every machine.
    pub open spec fn wf(self) -> bool {
        &&& self.runners.commits@.len() == self.runners.start_times@.len()
        &&& self.runners.commits@.len() <= self.jobs
        &&& 1 <= self.commits@.len() <= 0xFFFF_FFFF
        &&& forall|j: int|
            0 <= j < self.runners.commits@.len() ==> (#[trigger] self.runners.commits@[j])
                < self.commits@.len()
        &&& forall|j: int|
            0 <= j < self.runners.commits@.len() ==> self.view_statuses()[(
            #[trigger] self.runners.commits@[j]) as int] == Status::Unknown
        &&& forall|j1: int, j2: int|
            0 <= j1 < j2 < self.runners.commits@.len() ==> self.runners.commits@[j1]
                != self.runners.commits@[j2]
    }
}

/// Both interval bounds are indices into the sequence, the lower one is 0
/// or a `Good` record, the upper one is the last index or a `Bad` record,
/// and no `Good` lies above the lower bound, no `Bad` below the upper one.
pub proof fn lemma_bounds_shape(ss: Seq<Status>)
    requires
        ss.len() >= 1,
    ensures
        0 <= lo_spec(ss) < ss.len(),
        0 <= hi_spec(ss) < ss.len(),
        lo_spec(ss) == 0 || ss[lo_spec(ss)] == Status::Good,
        hi_spec(ss) == ss.len() - 1 || ss[hi_spec(ss)] == Status::Bad,
        forall|i: int| lo_spec(ss) < i < ss.len() ==> ss[i] != Status::Good,
        forall|i: int| 0 <= i < hi_spec(ss) ==> ss[i] != Status::Bad,
{
    lemma_max_good_shape(ss, ss.len() as int);
    lemma_min_bad_shape(ss, 0);
}

proof fn lemma_max_good_shape(ss: Seq<Status>, k: int)
    requires
        k <= ss.len(),
    ensures
        0 <= max_good_upto(ss, k),
        k >= 1 ==> max_good_upto(ss, k) < k,
        k <= 0 ==> max_good_upto(ss, k) == 0,
        max_good_upto(ss, k) == 0 || ss[max_good_upto(ss, k)] == Status::Good,
        forall|i: int| max_good_upto(ss, k) < i < k ==> ss[i] != Status::Good,
    decreases k,
{
    if k > 0 {
        lemma_max_good_shape(ss, k - 1);
    }
}

proof fn lemma_min_bad_shape(ss: Seq<Status>, k: int)
    requires
        0 <= k,
    ensures
        k <= ss.len() - 1 ==> k <= min_bad_from(ss, k),
        min_bad_from(ss, k) <= ss.len() - 1,
        min_bad_from(ss, k) == ss.len() - 1 || ss[min_bad_from(ss, k)] == Status::Bad,
        forall|i: int| k <= i < min_bad_from(ss, k) ==> ss[i] != Status::Bad,
    decreases ss.len() - k,
{
    if k < ss.len() && ss[k] != Status::Bad {
        lemma_min_bad_shape(ss, k + 1);
    }
}

/// Recording a `Good` verdict at a position that was not `Good` moves the
/// lower bound to the maximum of its old value and that position; any
/// other verdict at a non-`Good` position leaves the lower bound alone.
pub proof fn lemma_lo_update(ss: Seq<Status>, p: int, v: Status)
    requires
        0 <= p < ss.len(),
        ss[p] != Status::Good,
    ensures
        v == Status::Good ==> lo_spec(ss.update(p, v)) == vstd::math::max(lo_spec(ss), p),
        v != Status::Good ==> lo_spec(ss.update(p, v)) == lo_spec(ss),
{
    lemma_max_good_update(ss, p, v, ss.len() as int);
}

proof fn lemma_max_good_update(ss: Seq<Status>, p: int, v: Status, k: int)
    requires
        0 <= p < ss.len(),
        ss[p] != Status::Good,
        k <= ss.len(),
    ensures
        v == Status::Good && p < k ==> max_good_upto(ss.update(p, v), k) == vstd::math::max(
            max_good_upto(ss, k),
            p,
        ),
        !(v == Status::Good && p < k) ==> max_good_upto(ss.update(p, v), k) == max_good_upto(
            ss,
            k,
        ),
    decreases k,
{
    lemma_max_good_shape(ss, k);
    if k > 0 {
        lemma_max_good_update(ss, p, v, k - 1);
    }
}

/// Recording a `Bad` verdict at a position that was not `Bad` moves the
/// upper bound to the minimum of its old value and that position; any
/// other verdict at a non-`Bad` position leaves the upper bound alone.
pub proof fn lemma_hi_update(ss: Seq<Status>, p: int, v: Status)
    requires
        0 <= p < ss.len(),
        ss[p] != Status::Bad,
    ensures
        v == Status::Bad ==> hi_spec(ss.update(p, v)) == vstd::math::min(hi_spec(ss), p),
        v != Status::Bad ==> hi_spec(ss.update(p, v)) == hi_spec(ss),
{
    lemma_min_bad_update(ss, p, v, 0);
}

proof fn lemma_min_bad_update(ss: Seq<Status>, p: int, v: Status, k: int)
    requires
        0 <= p < ss.len(),
        ss[p] != Status::Bad,
        0 <= k,
    ensures
        v == Status::Bad && k <= p ==> min_bad_from(ss.update(p, v), k) == vstd::math::min(
            min_bad_from(ss, k),
            p,
        ),
        !(v == Status::Bad && k <= p) ==> min_bad_from(ss.update(p, v), k) == min_bad_from(
            ss,
            k,
        ),
    decreases ss.len() - k,
{
    lemma_min_bad_shape(ss, k);
    if k < ss.len() {
        lemma_min_bad_update(ss, p, v, k + 1);
    }
}

/// Before any verdict exists, the valid interval spans the whole sequence.
pub proof fn lemma_all_unknown_bounds(ss: Seq<Status>)
    requires
        ss.len() >= 1,
        forall|i: int| 0 <= i < ss.len() ==> ss[i] == Status::Unknown,
    ensures
        lo_spec(ss) == 0,
        hi_spec(ss) == ss.len() - 1,
{
    lemma_no_good_prefix(ss, ss.len() as int);
    lemma_no_bad_suffix(ss, 0);
}

proof fn lemma_no_good_prefix(ss: Seq<Status>, k: int)
    requires
        forall|i: int| 0 <= i < k ==> ss[i] != Status::Good,
    ensures
        max_good_upto(ss, k) == 0,
    decreases k,
{
    if k > 0 {
        lemma_no_good_prefix(ss, k - 1);
    }
}

proof fn lemma_no_bad_suffix(ss: Seq<Status>, k: int)
    requires
        0 <= k,
        forall|i: int| k <= i < ss.len() ==> ss[i] != Status::Bad,
    ensures
        min_bad_from(ss, k) == ss.len() - 1,
    decreases ss.len() - k,
{
    if k < ss.len() {
        lemma_no_bad_suffix(ss, k + 1);
    }
}

/// Compute the valid interval `[lo, hi]` of a non-empty record sequence.
pub fn compute_bounds(commits: &Vec<CommitState>) -> (r: (usize, usize))
    requires
        commits@.len() >= 1,
    ensures
        r.0 == lo_spec(statuses(commits@)),
        r.1 == hi_spec(statuses(commits@)),
{
    let ghost ss = statuses(commits@);
    let n = commits.len();
    let mut lo: usize = 0;
    let mut i: usize = 0;
    while i < n
        invariant
            0 <= i <= n,
            n == commits@.len(),
            ss == statuses(commits@),
            lo == max_good_upto(ss, i as int),
        decreases n - i,
    {
        if commits[i].status == Status::Good {
            lo = i;
        }
        i = i + 1;
    }
    let mut hi: usize = n - 1;
    let mut j: usize = n;
    while j > 0
        invariant
            0 <= j <= n,
            n == commits@.len(),
            ss == statuses(commits@),
            hi == min_bad_from(ss, j as int),
        decreases j,
    {
        j = j - 1;
        if commits[j].status == Status::Bad {
            hi = j;
        }
    }
    (lo, hi)
}

/// Whether candidate index `c` is currently assigned to a worker.
pub fn is_assigned(r: &Runners, c: usize) -> (b: bool)
    ensures
        b == assigned(*r, c),
{
    let mut j: usize = 0;
    while j < r.commits.len()
        invariant
            0 <= j <= r.commits@.len(),
            forall|j2: int| 0 <= j2 < j ==> r.commits@[j2] != c,
        decreases r.commits@.len() - j,
    {
        if r.commits[j] == c {
            assert(assigned(*r, c));
            return true;
        }
        j = j + 1;
    }
    false
}

} // verus!
