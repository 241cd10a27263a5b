//! Classifying worker exit codes and gating when resolved results may be
//! reported to the external bisection log.

use crate::{statuses, CommitState, Status};
use vstd::prelude::*;

verus! {

broadcast use vstd::seq_lib::lemma_seq_contains_after_push;

/// The resolution a worker exit code stands for: 0 is `Good`, 124 (the
/// timeout convention) is `Skip`, anything else is `Bad`.
pub open spec fn classify_spec(code: i32) -> Status {
    if code == 0 {
        Status::Good
    } else if code == 124 {
        Status::Skip
    } else {
        Status::Bad
    }
}

/// Map a worker's exit code (or negated signal number, folded into the
/// same space by the caller) to a resolution.
pub fn classify_exit(code: i32) -> (s: Status)
    ensures
        s == classify_spec(code),
{
    if code == 0 {
        Status::Good
    } else if code == 124 {
        Status::Skip
    } else {
        Status::Bad
    }
}

/// Whether some record carries the given resolution.
pub open spec fn has_status(ss: Seq<Status>, st: Status) -> bool {
    exists|i: int| 0 <= i < ss.len() && ss[i] == st
}

/// Whether the bisection bounds are validated: reckless mode trusts them
/// outright, and otherwise at least one `Good` and one `Bad` resolution
/// must exist (an empty sequence has nothing to validate).
pub open spec fn bounds_validated_spec(cs: Seq<CommitState>, reckless_mode: bool) -> bool {
    ||| reckless_mode
    ||| cs.len() == 0
    ||| (has_status(statuses(cs), Status::Good) && has_status(statuses(cs), Status::Bad))
}

/// Whether results may be trusted and reported yet.
pub fn bounds_validated(commits: &Vec<CommitState>, reckless_mode: bool) -> (b: bool)
    ensures
        b == bounds_validated_spec(commits@, reckless_mode),
{
    if reckless_mode || commits.len() == 0 {
        return true;
    }
    let ghost ss = statuses(commits@);
    let mut saw_good = false;
    let mut saw_bad = false;
    let mut i: usize = 0;
    while i < commits.len()
        invariant
            0 <= i <= commits@.len(),
            ss == statuses(commits@),
            saw_good == exists|p: int| 0 <= p < i && ss[p] == Status::Good,
            saw_bad == exists|p: int| 0 <= p < i && ss[p] == Status::Bad,
        decreases commits@.len() - i,
    {
        if commits[i].status == Status::Good {
            saw_good = true;
        }
        if commits[i].status == Status::Bad {
            saw_bad = true;
        }
        proof {
            if saw_good && !(exists|p: int| 0 <= p < i + 1 && ss[p] == Status::Good) {
                assert(ss[i as int] != Status::Good);
            }
        }
        i = i + 1;
    }
    saw_good && saw_bad
}

/// The indices whose records are resolved (not `Unknown`), in index
/// order: what a full flush reports.
pub fn commits_to_report(commits: &Vec<CommitState>) -> (r: Vec<usize>)
    ensures
        forall|p1: int, p2: int| 0 <= p1 < p2 < r@.len() ==> r@[p1] < r@[p2],
        forall|p: int|
            0 <= p < r@.len() ==> (#[trigger] r@[p]) < commits@.len() && statuses(commits@)[r@[p]
                as int] != Status::Unknown,
        forall|c: usize|
            c < commits@.len() && statuses(commits@)[c as int] != Status::Unknown
                ==> r@.contains(c),
{
    let mut r: Vec<usize> = Vec::new();
    let mut i: usize = 0;
    while i < commits.len()
        invariant
            0 <= i <= commits@.len(),
            forall|p1: int, p2: int| 0 <= p1 < p2 < r@.len() ==> r@[p1] < r@[p2],
            forall|p: int|
                0 <= p < r@.len() ==> (#[trigger] r@[p]) < i && statuses(commits@)[r@[p] as int]
                    != Status::Unknown,
            forall|c: usize|
                c < i && statuses(commits@)[c as int] != Status::Unknown ==> r@.contains(c),
        decreases commits@.len() - i,
    {
        if commits[i].status != Status::Unknown {
            r.push(i);
        }
        proof {
            if statuses(commits@)[i as int] == Status::Unknown {
                assert(forall|c: usize|
                    c < i + 1 && statuses(commits@)[c as int] != Status::Unknown ==> r@.contains(
                        c,
                    ));
            }
        }
        i = i + 1;
    }
    r
}

/// What the orchestrator must report after one completed result.
#[derive(Clone, Copy, PartialEq, Eq, Structural, Debug)]
pub enum ReportPlan {
    /// Bounds are not validated yet: report nothing.
    Withhold,
    /// Bounds became validated with this result: flush every resolved
    /// record, in index order.
    Flush,
    /// Bounds were already validated: report just this result.
    Single,
}

/// Decide what to report once a result has been recorded: nothing while
/// the bounds are unvalidated, a one-time flush of everything resolved at
/// the moment they become validated, and each result by itself from then
/// on (immediately, in reckless mode).
pub fn report_plan(
    old_commits: &Vec<CommitState>,
    new_commits: &Vec<CommitState>,
    reckless_mode: bool,
) -> (plan: ReportPlan)
    ensures
        plan == ReportPlan::Withhold <==> !bounds_validated_spec(new_commits@, reckless_mode),
        plan == ReportPlan::Single <==> (bounds_validated_spec(new_commits@, reckless_mode)
            && bounds_validated_spec(old_commits@, reckless_mode)),
        plan == ReportPlan::Flush <==> (bounds_validated_spec(new_commits@, reckless_mode)
            && !bounds_validated_spec(old_commits@, reckless_mode)),
{
    if !bounds_validated(new_commits, reckless_mode) {
        ReportPlan::Withhold
    } else if bounds_validated(old_commits, reckless_mode) {
        ReportPlan::Single
    } else {
        ReportPlan::Flush
    }
}

} // verus!

