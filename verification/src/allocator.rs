//! The allocator: given the current state and free worker capacity, decide
//! which candidate indices to test next.  The default strategy generalizes
//! binary search's single midpoint to `capacity` simultaneous probes that
//! partition the valid interval as evenly as possible.

use crate::state::{
    assigned, hi_spec, is_assigned, lo_spec, lemma_all_unknown_bounds, BisectionState, Runners,
};
use crate::{CommitState, Status};
use vstd::arithmetic::div_mod::{
    lemma_div_by_multiple, lemma_div_is_ordered, lemma_fundamental_div_mod,
    lemma_fundamental_div_mod_converse, lemma_mod_bound,
};
use vstd::math::{max, min};
use vstd::prelude::*;

verus! {

broadcast use vstd::seq_lib::lemma_seq_contains_after_push;

/// Whether index `c` may be proposed for testing: strictly inside the
/// valid interval, not yet resolved, and not already assigned.
pub open spec fn proposable(s: BisectionState, c: usize) -> bool {
    &&& lo_spec(s.view_statuses()) < c < hi_spec(s.view_statuses())
    &&& s.view_statuses()[c as int] == Status::Unknown
    &&& !assigned(s.runners, c)
}

/// The proposable indices among the first `k` positions, in increasing
/// order.
pub open spec fn cand_seq(s: BisectionState, k: int) -> Seq<usize>
    decreases k,
{
    if k <= 0 {
        Seq::empty()
    } else if proposable(s, (k - 1) as usize) {
        cand_seq(s, k - 1).push((k - 1) as usize)
    } else {
        cand_seq(s, k - 1)
    }
}

/// All proposable indices of the state, in increasing order.
pub open spec fn candidates(s: BisectionState) -> Seq<usize> {
    cand_seq(s, s.commits@.len() as int)
}

/// The position, within a candidate list of length `len`, of the `j`-th of
/// `k` probes that split the list into `k + 1` equal segments.
pub open spec fn sel_pos(j: int, k: int, len: int) -> int {
    ((j + 1) * len) / (k + 1)
}

/// What the k-way strategy proposes: `min(capacity, candidates)` probes at
/// the even-partition positions of the candidate list.
pub open spec fn proposal_spec(s: BisectionState, capacity: int) -> Seq<usize> {
    let cands = candidates(s);
    let k = min(capacity, cands.len() as int);
    Seq::new(k as nat, |j: int| cands[sel_pos(j, k, cands.len() as int)])
}

proof fn lemma_cand_seq_props(s: BisectionState, k: int)
    requires
        k <= usize::MAX,
    ensures
        cand_seq(s, k).len() <= vstd::math::max(k, 0),
        forall|j: int|
            0 <= j < cand_seq(s, k).len() ==> proposable(s, #[trigger] cand_seq(s, k)[j])
                && cand_seq(s, k)[j] < k,
        forall|j1: int, j2: int|
            0 <= j1 < j2 < cand_seq(s, k).len() ==> cand_seq(s, k)[j1] < cand_seq(s, k)[j2],
        forall|c: usize| 0 <= c < k && proposable(s, c) ==> cand_seq(s, k).contains(c),
    decreases k,
{
    if k > 0 {
        lemma_cand_seq_props(s, k - 1);
        let prev = cand_seq(s, k - 1);
        assert forall|j1: int, j2: int| 0 <= j1 < j2 < cand_seq(s, k).len() implies cand_seq(
            s,
            k,
        )[j1] < cand_seq(s, k)[j2] by {
            if proposable(s, (k - 1) as usize) {
                assert(cand_seq(s, k) == prev.push((k - 1) as usize));
                if j2 < prev.len() {
                    assert(prev[j1] < prev[j2]);
                } else {
                    assert(cand_seq(s, k)[j2] == (k - 1) as usize);
                    assert(prev[j1] < k - 1);
                }
            } else {
                assert(cand_seq(s, k) == prev);
                assert(prev[j1] < prev[j2]);
            }
        }
        assert forall|c: usize| 0 <= c < k && proposable(s, c) implies cand_seq(s, k).contains(
            c,
        ) by {
            if c < k - 1 {
                let j = choose|j: int|
                    0 <= j < cand_seq(s, k - 1).len() && #[trigger] cand_seq(s, k - 1)[j] == c;
                assert(cand_seq(s, k)[j] == c);
            } else {
                assert(cand_seq(s, k)[cand_seq(s, k).len() - 1] == c);
            }
        }
    }
}

/// If `x < b * d`, the quotient `x / d` is below `b`.
proof fn lemma_div_below(x: int, b: int, d: int)
    requires
        0 <= x,
        0 < d,
        x < b * d,
    ensures
        x / d < b,
{
    lemma_fundamental_div_mod(x, d);
    assert(x / d < b) by (nonlinear_arith)
        requires
            x == d * (x / d) + x % d,
            0 <= x % d,
            x < b * d,
            0 < d,
    ;
}

/// Within one probe set, the partition positions strictly increase, and
/// each lies inside the candidate list.
proof fn lemma_sel_pos_shape(j: int, k: int, len: int)
    requires
        0 <= j < k <= len,
    ensures
        0 <= sel_pos(j, k, len) < len,
        j + 1 < k ==> sel_pos(j, k, len) < sel_pos(j + 1, k, len),
{
    let d = k + 1;
    assert(0 <= (j + 1) * len) by (nonlinear_arith)
        requires
            0 <= j,
            0 <= len,
    ;
    lemma_div_is_ordered(0, (j + 1) * len, d);
    assert((j + 1) * len < len * d) by (nonlinear_arith)
        requires
            j + 1 < d,
            0 < len,
    ;
    lemma_div_below((j + 1) * len, len, d);
    if j + 1 < k {
        if len == k {
            // With exactly as many candidates as probes, position `j` of
            // probe `j` is exact: (j+1)*k == j*(k+1) + (k-j).
            assert((j + 1) * len == j * d + (len - j)) by (nonlinear_arith)
                requires
                    d == k + 1,
                    len == k,
            ;
            lemma_fundamental_div_mod_converse((j + 1) * len, d, j, len - j);
            assert((j + 2) * len == (j + 1) * d + (len - (j + 1))) by (nonlinear_arith)
                requires
                    d == k + 1,
                    len == k,
            ;
            lemma_fundamental_div_mod_converse((j + 2) * len, d, j + 1, len - (j + 1));
        } else {
            // Otherwise the list is longer than one probe per segment, so
            // consecutive positions differ by at least len/d >= 1.
            let q = sel_pos(j, k, len);
            lemma_fundamental_div_mod((j + 1) * len, d);
            assert((j + 2) * len >= d * (q + 1)) by (nonlinear_arith)
                requires
                    (j + 1) * len == d * q + ((j + 1) * len) % d,
                    0 <= ((j + 1) * len) % d,
                    len >= d,
            ;
            lemma_div_by_multiple(q + 1, d);
            assert((d * (q + 1)) / d == q + 1) by {
                assert(d * (q + 1) == (q + 1) * d) by (nonlinear_arith);
            }
            lemma_div_is_ordered(d * (q + 1), (j + 2) * len, d);
        }
    }
}

proof fn lemma_sel_pos_increasing(j1: int, j2: int, k: int, len: int)
    requires
        0 <= j1 < j2 < k <= len,
    ensures
        sel_pos(j1, k, len) < sel_pos(j2, k, len),
    decreases j2 - j1,
{
    lemma_sel_pos_shape(j1, k, len);
    lemma_sel_pos_shape(j2, k, len);
    if j1 + 1 < j2 {
        lemma_sel_pos_increasing(j1 + 1, j2, k, len);
    }
}

/// What every proposal of the k-way strategy satisfies: no more probes
/// than the capacity, every probe a distinct proposable index, probes in
/// increasing order, and as many probes as capacity and candidates allow.
pub proof fn lemma_proposal_props(s: BisectionState, capacity: int)
    requires
        capacity >= 0,
        s.commits@.len() <= usize::MAX,
    ensures
        proposal_spec(s, capacity).len() == min(capacity, candidates(s).len() as int),
        proposal_spec(s, capacity).len() <= capacity,
        forall|j: int|
            0 <= j < proposal_spec(s, capacity).len() ==> proposable(
                s,
                #[trigger] proposal_spec(s, capacity)[j],
            ),
        forall|j1: int, j2: int|
            0 <= j1 < j2 < proposal_spec(s, capacity).len() ==> proposal_spec(s, capacity)[j1]
                < proposal_spec(s, capacity)[j2],
{
    let cands = candidates(s);
    let len = cands.len() as int;
    let k = min(capacity, len);
    lemma_cand_seq_props(s, s.commits@.len() as int);
    assert forall|j: int| 0 <= j < k implies proposable(
        s,
        #[trigger] proposal_spec(s, capacity)[j],
    ) by {
        lemma_sel_pos_shape(j, k, len);
    }
    assert forall|j1: int, j2: int| 0 <= j1 < j2 < k implies proposal_spec(s, capacity)[j1]
        < proposal_spec(s, capacity)[j2] by {
        lemma_sel_pos_increasing(j1, j2, k, len);
        lemma_sel_pos_shape(j1, k, len);
        lemma_sel_pos_shape(j2, k, len);
    }
}

/// Law: the `k` probe positions cut a candidate list of length `len`
/// into `k + 1` segments, each at most `ceil(len / (k + 1))` long (the
/// first and last measured to the ends of the list).  A round in which
/// every probe resolves therefore shrinks the unresolved stretch by a
/// factor of `k + 1`, which bounds the number of rounds logarithmically.
pub proof fn lemma_kway_segments_bounded(k: int, len: int)
    requires
        1 <= k <= len,
    ensures
        sel_pos(0, k, len) <= (len + k) / (k + 1),
        forall|j: int|
            0 <= j && j + 1 < k ==> sel_pos(j + 1, k, len) - #[trigger] sel_pos(j, k, len) <= (len
                + k) / (k + 1),
        (len - 1) - sel_pos(k - 1, k, len) <= (len + k) / (k + 1),
{
    let d = k + 1;
    let c = (len + k) / d;
    lemma_fundamental_div_mod(len + k, d);
    lemma_mod_bound(len + k, d);
    assert(d * c >= len);
    lemma_div_is_ordered(len, len + k, d);
    assert(sel_pos(0, k, len) == len / d);
    assert forall|j: int| 0 <= j && j + 1 < k implies sel_pos(j + 1, k, len) - #[trigger] sel_pos(
        j,
        k,
        len,
    ) <= c by {
        let q1 = sel_pos(j, k, len);
        let q2 = sel_pos(j + 1, k, len);
        lemma_fundamental_div_mod((j + 1) * len, d);
        lemma_mod_bound((j + 1) * len, d);
        lemma_fundamental_div_mod((j + 2) * len, d);
        lemma_mod_bound((j + 2) * len, d);
        assert((j + 2) * len - (j + 1) * len == len) by (nonlinear_arith);
        assert(d * (q2 - q1) <= len + d - 1) by (nonlinear_arith)
            requires
                (j + 1) * len == d * q1 + ((j + 1) * len) % d,
                (j + 2) * len == d * q2 + ((j + 2) * len) % d,
                (j + 2) * len - (j + 1) * len == len,
                0 <= ((j + 1) * len) % d < d,
                0 <= ((j + 2) * len) % d,
        ;
        assert(q2 - q1 <= c) by (nonlinear_arith)
            requires
                d * (q2 - q1) <= len + d - 1,
                d * c >= len,
                0 < d,
        ;
    }
    let ql = sel_pos(k - 1, k, len);
    lemma_fundamental_div_mod(k * len, d);
    assert(k * len == d * ql + (k * len) % d);
    lemma_mod_bound(k * len, d);
    assert(len - 1 - ql <= c) by (nonlinear_arith)
        requires
            k * len == d * ql + (k * len) % d,
            0 <= (k * len) % d < d,
            d == k + 1,
            d * c >= len,
            0 < d,
            1 <= k <= len,
    ;
}

/// Compute the k-way proposal: up to `capacity` unresolved, unassigned
/// indices that split the valid interval as evenly as possible.
pub fn basic_propose(state: &BisectionState, capacity: usize) -> (r: Vec<usize>)
    requires
        state.wf(),
    ensures
        r@ == proposal_spec(*state, capacity as int),
{
    let ghost s = *state;
    let n = state.commits.len();
    let (lo, hi) = crate::state::compute_bounds(&state.commits);
    let mut cands: Vec<usize> = Vec::new();
    let mut i: usize = 0;
    while i < n
        invariant
            0 <= i <= n,
            s == *state,
            state.wf(),
            n == state.commits@.len(),
            lo == lo_spec(s.view_statuses()),
            hi == hi_spec(s.view_statuses()),
            cands@ == cand_seq(s, i as int),
        decreases n - i,
    {
        if lo < i && i < hi && state.commits[i].status == Status::Unknown && !is_assigned(
            &state.runners,
            i,
        ) {
            cands.push(i);
        }
        i = i + 1;
    }
    let len = cands.len();
    let k = if capacity < len {
        capacity
    } else {
        len
    };
    proof {
        lemma_cand_seq_props(s, n as int);
        assert(len <= 0xFFFF_FFFF);
        assert(k as int == min(capacity as int, candidates(s).len() as int));
    }
    let mut out: Vec<usize> = Vec::new();
    let mut j: usize = 0;
    while j < k
        invariant
            0 <= j <= k,
            k <= len,
            len == cands@.len() <= 0xFFFF_FFFF,
            cands@ == candidates(s),
            k as int == min(capacity as int, len as int),
            out@ =~= proposal_spec(s, capacity as int).subrange(0, j as int),
        decreases k - j,
    {
        proof {
            lemma_sel_pos_shape(j as int, k as int, len as int);
            assert((j as int + 1) * (len as int) <= 0xFFFF_FFFFu64 * 0xFFFF_FFFFu64)
                by (nonlinear_arith)
                requires
                    0 <= j as int + 1 <= 0xFFFF_FFFFu64,
                    0 <= len as int <= 0xFFFF_FFFFu64,
            ;
        }
        let num: u64 = (j as u64 + 1) * (len as u64);
        let pos: usize = (num / (k as u64 + 1)) as usize;
        assert(pos as int == sel_pos(j as int, k as int, len as int));
        out.push(cands[pos]);
        proof {
            assert(out@ =~= proposal_spec(s, capacity as int).subrange(0, j as int + 1));
        }
        j = j + 1;
    }
    proof {
        assert(out@ =~= proposal_spec(s, capacity as int));
    }
    out
}

/// An allocation strategy: given the state and the free worker capacity,
/// choose which candidate indices to test next.  Every strategy proposes
/// at most `capacity` indices, each of them unresolved, unassigned and
/// strictly inside the valid interval, with no index proposed twice.
pub trait Allocator {
    /// Decide which candidate indices to test next.
    fn propose(state: &BisectionState, capacity: usize) -> (r: Vec<usize>)
        requires
            state.wf(),
        ensures
            r@.len() <= capacity,
            forall|j: int| 0 <= j < r@.len() ==> proposable(*state, #[trigger] r@[j]),
            forall|j1: int, j2: int| 0 <= j1 < j2 < r@.len() ==> r@[j1] != r@[j2],
    ;
}

/// The default strategy: k-way interval bisection.
pub struct BasicAllocator;

impl Allocator for BasicAllocator {
    fn propose(state: &BisectionState, capacity: usize) -> (r: Vec<usize>) {
        proof {
            lemma_proposal_props(*state, capacity as int);
        }
        basic_propose(state, capacity)
    }
}

proof fn lemma_cand_seq_full(s: BisectionState, k: int)
    requires
        0 <= k <= usize::MAX,
        s.commits@.len() >= 1,
        forall|c: usize|
            lo_spec(s.view_statuses()) < c < hi_spec(s.view_statuses()) ==> #[trigger] proposable(
                s,
                c,
            ),
    ensures
        cand_seq(s, k).len() == max(
            0,
            min(k, hi_spec(s.view_statuses())) - lo_spec(s.view_statuses()) - 1,
        ),
        forall|p: int|
            0 <= p < cand_seq(s, k).len() ==> #[trigger] cand_seq(s, k)[p] == lo_spec(
                s.view_statuses(),
            ) + 1 + p,
    decreases k,
{
    crate::state::lemma_bounds_shape(s.view_statuses());
    if k > 0 {
        lemma_cand_seq_full(s, k - 1);
        let lo = lo_spec(s.view_statuses());
        let hi = hi_spec(s.view_statuses());
        if lo < k - 1 < hi {
            assert(proposable(s, (k - 1) as usize));
        }
    }
}

/// Law: over a state whose whole interior interval is unresolved and
/// unassigned, the k-way strategy proposes exactly
/// `min(capacity, hi - lo - 1)` indices, and they are the interior
/// boundaries of an even partition of `(lo, hi)` into at most
/// `capacity + 1` segments.
pub proof fn lemma_kway_partition_size(s: BisectionState, capacity: int)
    requires
        capacity >= 0,
        1 <= s.commits@.len() <= usize::MAX,
        forall|c: usize|
            lo_spec(s.view_statuses()) < c < hi_spec(s.view_statuses()) ==> #[trigger] proposable(
                s,
                c,
            ),
    ensures
        proposal_spec(s, capacity).len() == min(
            capacity,
            max(hi_spec(s.view_statuses()) - lo_spec(s.view_statuses()) - 1, 0),
        ),
        forall|j: int|
            0 <= j < proposal_spec(s, capacity).len() ==> #[trigger] proposal_spec(s, capacity)[j]
                == lo_spec(s.view_statuses()) + 1 + sel_pos(
                j,
                proposal_spec(s, capacity).len() as int,
                max(hi_spec(s.view_statuses()) - lo_spec(s.view_statuses()) - 1, 0),
            ),
{
    let n = s.commits@.len() as int;
    lemma_cand_seq_full(s, n);
    crate::state::lemma_bounds_shape(s.view_statuses());
    lemma_proposal_props(s, capacity);
    let cands = candidates(s);
    let k = min(capacity, cands.len() as int);
    assert forall|j: int| 0 <= j < proposal_spec(s, capacity).len() implies #[trigger] proposal_spec(
        s,
        capacity,
    )[j] == lo_spec(s.view_statuses()) + 1 + sel_pos(
        j,
        proposal_spec(s, capacity).len() as int,
        max(hi_spec(s.view_statuses()) - lo_spec(s.view_statuses()) - 1, 0),
    ) by {
        lemma_sel_pos_shape(j, k, cands.len() as int);
    }
}

/// Build the starting state of a run: every candidate `Unknown`, and an
/// initial k-way proposal of up to `jobs` probes already assigned, each
/// with start time 0.
pub fn init(commits: &Vec<String>, jobs: usize, check_bounds: bool) -> (s: BisectionState)
    requires
        1 <= commits@.len() <= 0xFFFF_FFFF,
    ensures
        s.wf(),
        s.commits@.len() == commits@.len(),
        forall|i: int|
            0 <= i < commits@.len() ==> (#[trigger] s.commits@[i]).hash == commits@[i]
                && s.commits@[i].status == Status::Unknown,
        s.jobs == jobs,
        s.check_bounds == check_bounds,
        s.runners.commits@.len() == min(jobs as int, max(commits@.len() - 2, 0)),
        forall|j: int|
            0 <= j < s.runners.commits@.len() ==> (#[trigger] s.runners.commits@[j]) as int == 1
                + sel_pos(
                j,
                s.runners.commits@.len() as int,
                max(commits@.len() - 2, 0),
            ),
        s.runners.start_times@ == Seq::new(s.runners.commits@.len(), |j: int| 0u64),
{
    let n = commits.len();
    let mut records: Vec<CommitState> = Vec::new();
    let mut i: usize = 0;
    while i < n
        invariant
            0 <= i <= n,
            n == commits@.len(),
            records@.len() == i,
            forall|p: int|
                0 <= p < i ==> (#[trigger] records@[p]).hash == commits@[p] && records@[p].status
                    == Status::Unknown,
        decreases n - i,
    {
        records.push(CommitState { hash: commits[i].clone(), status: Status::Unknown });
        i = i + 1;
    }
    let mid = BisectionState {
        commits: records,
        runners: Runners { commits: Vec::new(), start_times: Vec::new() },
        jobs,
        check_bounds,
    };
    proof {
        lemma_all_unknown_bounds(mid.view_statuses());
        lemma_kway_partition_size(mid, jobs as int);
        lemma_proposal_props(mid, jobs as int);
    }
    let probes = basic_propose(&mid, jobs);
    let mut times: Vec<u64> = Vec::new();
    let mut t: usize = 0;
    let probe_count = probes.len();
    while t < probe_count
        invariant
            0 <= t <= probe_count,
            times@ =~= Seq::new(t as nat, |j: int| 0u64),
        decreases probe_count - t,
    {
        times.push(0u64);
        t = t + 1;
    }
    let BisectionState { commits: records, runners: _, jobs: _, check_bounds: _ } = mid;
    let s = BisectionState {
        commits: records,
        runners: Runners { commits: probes, start_times: times },
        jobs,
        check_bounds,
    };
    proof {
        assert(s.view_statuses() =~= mid.view_statuses());
        assert(s.runners.start_times@ =~= Seq::new(s.runners.commits@.len(), |j: int| 0u64));
    }
    s
}

/// A result at a sequence endpoint that contradicts the monotonicity
/// assumption: the oldest candidate must never be `Bad`, the newest never
/// `Good`.  Such a result halts the run.
#[derive(Clone, Copy, PartialEq, Eq, Structural, Debug)]
pub enum BoundsViolation {
    /// The candidate at index 0 resolved `Bad`.
    OldestBad,
    /// The candidate at the last index resolved `Good`.
    NewestGood,
}

/// Whether recording `result` at index `idx` of a sequence of length `len`
/// violates the monotonicity assumption at an endpoint.
pub open spec fn violates_bounds(len: int, idx: int, result: Status) -> bool {
    (idx == 0 && result == Status::Bad) || (idx == len - 1 && result == Status::Good)
}

/// The lower interval bound after recording `result` at index `idx`.
pub open spec fn new_lo(ss: Seq<Status>, idx: int, result: Status) -> int {
    if result == Status::Good {
        max(lo_spec(ss), idx)
    } else {
        lo_spec(ss)
    }
}

/// The upper interval bound after recording `result` at index `idx`.
pub open spec fn new_hi(ss: Seq<Status>, idx: int, result: Status) -> int {
    if result == Status::Bad {
        min(hi_spec(ss), idx)
    } else {
        hi_spec(ss)
    }
}

/// Whether assignment `c` becomes stale when `result` is recorded at
/// `idx`: it was assigned, is not the resolved index itself, and now falls
/// outside the narrowed interval.
pub open spec fn stale_after(s: BisectionState, idx: usize, result: Status, c: usize) -> bool {
    let ss = s.view_statuses();
    assigned(s.runners, c) && c != idx && !(new_lo(ss, idx as int, result) < c < new_hi(
        ss,
        idx as int,
        result,
    ))
}

/// Whether assignment `c` survives the recording of `result` at `idx`.
pub open spec fn survives(s: BisectionState, idx: usize, result: Status, c: usize) -> bool {
    let ss = s.view_statuses();
    assigned(s.runners, c) && c != idx && new_lo(ss, idx as int, result) < c < new_hi(
        ss,
        idx as int,
        result,
    )
}

/// Law: a `Skip` result never moves the interval bounds and never counts
/// as a bounds violation, whatever index was tested.
pub proof fn lemma_skip_changes_nothing(ss: Seq<Status>, idx: int)
    ensures
        new_lo(ss, idx, Status::Skip) == lo_spec(ss),
        new_hi(ss, idx, Status::Skip) == hi_spec(ss),
        !violates_bounds(ss.len() as int, idx, Status::Skip),
{
}

/// Law: whatever result is recorded at whatever index, the new valid
/// interval is a subset of the old one.
pub proof fn lemma_interval_narrows_monotonically(ss: Seq<Status>, idx: int, result: Status)
    ensures
        lo_spec(ss) <= new_lo(ss, idx, result),
        new_hi(ss, idx, result) <= hi_spec(ss),
{
}

/// Law: resolving an unresolved index strictly inside the valid interval
/// as `Good` or `Bad` strictly narrows the interval while keeping it
/// non-empty.  The interval width is a non-negative integer, so repeated
/// propose/step rounds in which every probe resolves `Good` or `Bad`
/// reach `hi == lo + 1` after finitely many resolutions.
pub proof fn lemma_resolution_narrows(ss: Seq<Status>, idx: int, result: Status)
    requires
        lo_spec(ss) < idx < hi_spec(ss),
        result == Status::Good || result == Status::Bad,
    ensures
        new_lo(ss, idx, result) < new_hi(ss, idx, result),
        new_hi(ss, idx, result) - new_lo(ss, idx, result) < hi_spec(ss) - lo_spec(ss),
{
}

/// Apply one worker's verdict to the state: resolve the candidate at
/// `resolved_index`, drop that assignment, recompute the valid interval,
/// name which surviving assignments are now stale, and fill the freed
/// capacity with a fresh proposal of strategy `A`, stamped with
/// `current_runtime`.  An endpoint verdict that contradicts monotonicity
/// is signalled instead of applied.  `commit_runtime` (how long the
/// resolved worker ran) is available to allocation strategies that weigh
/// historical runtimes; the k-way strategy does not consult it.
#[allow(unused_variables)]
pub fn step<A: Allocator>(
    state: &BisectionState,
    result: Status,
    resolved_index: usize,
    commit_runtime: u64,
    current_runtime: u64,
) -> (r: Result<(BisectionState, Vec<usize>, Vec<usize>), BoundsViolation>)
    requires
        state.wf(),
        resolved_index < state.commits@.len(),
        assigned(state.runners, resolved_index),
        result != Status::Unknown,
    ensures
        r is Err <==> violates_bounds(
            state.commits@.len() as int,
            resolved_index as int,
            result,
        ),
        r matches Err(v) ==> v == (if resolved_index == 0 && result == Status::Bad {
            BoundsViolation::OldestBad
        } else {
            BoundsViolation::NewestGood
        }),
        r matches Ok(t) ==> {
            let ss0 = state.view_statuses();
            let ss1 = t.0.view_statuses();
            &&& t.0.wf()
            &&& t.0.commits@.len() == state.commits@.len()
            &&& ss1 == ss0.update(resolved_index as int, result)
            &&& forall|i: int|
                0 <= i < state.commits@.len() ==> (#[trigger] t.0.commits@[i]).hash
                    == state.commits@[i].hash
            &&& t.0.jobs == state.jobs
            &&& t.0.check_bounds == state.check_bounds
            &&& lo_spec(ss1) == new_lo(ss0, resolved_index as int, result)
            &&& hi_spec(ss1) == new_hi(ss0, resolved_index as int, result)
            &&& lo_spec(ss0) <= lo_spec(ss1)
            &&& hi_spec(ss1) <= hi_spec(ss0)
            &&& forall|j: int|
                0 <= j < t.1@.len() ==> stale_after(
                    *state,
                    resolved_index,
                    result,
                    #[trigger] t.1@[j],
                )
            &&& forall|c: usize|
                stale_after(*state, resolved_index, result, c) ==> t.1@.contains(c)
            &&& forall|j1: int, j2: int| 0 <= j1 < j2 < t.1@.len() ==> t.1@[j1] != t.1@[j2]
            &&& forall|c: usize|
                #[trigger] assigned(t.0.runners, c) <==> (survives(
                    *state,
                    resolved_index,
                    result,
                    c,
                ) || t.2@.contains(c))
            &&& forall|j: int|
                0 <= j < t.2@.len() ==> {
                    let c = #[trigger] t.2@[j];
                    &&& ss1[c as int] == Status::Unknown
                    &&& lo_spec(ss1) < c < hi_spec(ss1)
                    &&& !assigned(state.runners, c)
                }
            &&& forall|j1: int, j2: int| 0 <= j1 < j2 < t.2@.len() ==> t.2@[j1] != t.2@[j2]
            &&& t.0.runners.commits@.len() + t.1@.len() + 1 == state.runners.commits@.len()
                + t.2@.len()
            &&& forall|j: int|
                0 <= j < t.0.runners.commits@.len() - t.2@.len() ==> exists|j2: int|
                    0 <= j2 < state.runners.commits@.len()
                        && state.runners.commits@[j2] == #[trigger] t.0.runners.commits@[j]
                        && state.runners.start_times@[j2] == t.0.runners.start_times@[j]
            &&& forall|j: int|
                t.0.runners.commits@.len() - t.2@.len() <= j < t.0.runners.commits@.len() ==> (
                #[trigger] t.0.runners.commits@[j]) == t.2@[j - (t.0.runners.commits@.len()
                    - t.2@.len())] && t.0.runners.start_times@[j] == current_runtime
        },
{
    let n = state.commits.len();
    if resolved_index == 0 && result == Status::Bad {
        return Err(BoundsViolation::OldestBad);
    }
    if resolved_index == n - 1 && result == Status::Good {
        return Err(BoundsViolation::NewestGood);
    }
    let ghost ss0 = state.view_statuses();
    let mut records: Vec<CommitState> = Vec::new();
    let mut i: usize = 0;
    while i < n
        invariant
            0 <= i <= n,
            n == state.commits@.len(),
            resolved_index < n,
            records@.len() == i,
            forall|p: int|
                0 <= p < i ==> (#[trigger] records@[p]).hash == state.commits@[p].hash,
            forall|p: int|
                0 <= p < i && p != resolved_index ==> (#[trigger] records@[p]).status
                    == state.commits@[p].status,
            i > resolved_index ==> records@[resolved_index as int].status == result,
        decreases n - i,
    {
        let st = if i == resolved_index {
            result
        } else {
            state.commits[i].status
        };
        let rec = state.commits[i].duplicate();
        records.push(CommitState { hash: rec.hash, status: st });
        i = i + 1;
    }
    let ghost ss1 = crate::statuses(records@);
    proof {
        assert(ss1 =~= ss0.update(resolved_index as int, result));
        assert(ss0[resolved_index as int] == Status::Unknown) by {
            let j2 = choose|j2: int|
                0 <= j2 < state.runners.commits@.len() && state.runners.commits@[j2]
                    == resolved_index;
        }
        crate::state::lemma_lo_update(ss0, resolved_index as int, result);
        crate::state::lemma_hi_update(ss0, resolved_index as int, result);
        crate::state::lemma_bounds_shape(ss1);
    }
    let (lo1, hi1) = crate::state::compute_bounds(&records);
    let mut surv_c: Vec<usize> = Vec::new();
    let mut surv_t: Vec<u64> = Vec::new();
    let mut stale: Vec<usize> = Vec::new();
    let runner_count = state.runners.commits.len();
    let mut j: usize = 0;
    let ghost mut seen_resolved = false;
    while j < runner_count
        invariant
            0 <= j <= runner_count,
            state.wf(),
            runner_count == state.runners.commits@.len(),
            lo1 == new_lo(ss0, resolved_index as int, result),
            hi1 == new_hi(ss0, resolved_index as int, result),
            ss0 == state.view_statuses(),
            surv_c@.len() == surv_t@.len(),
            seen_resolved == exists|j2: int|
                0 <= j2 < j && state.runners.commits@[j2] == resolved_index,
            surv_c@.len() + stale@.len() + (if seen_resolved {
                1int
            } else {
                0int
            }) == j,
            forall|p: int|
                0 <= p < surv_c@.len() ==> exists|j2: int|
                    0 <= j2 < j && state.runners.commits@[j2] == #[trigger] surv_c@[p]
                        && state.runners.start_times@[j2] == surv_t@[p],
            forall|p: int|
                0 <= p < surv_c@.len() ==> survives(
                    *state,
                    resolved_index,
                    result,
                    #[trigger] surv_c@[p],
                ),
            forall|p: int|
                0 <= p < stale@.len() ==> stale_after(
                    *state,
                    resolved_index,
                    result,
                    #[trigger] stale@[p],
                ),
            forall|p: int|
                0 <= p < stale@.len() ==> exists|j2: int|
                    0 <= j2 < j && state.runners.commits@[j2] == #[trigger] stale@[p],
            forall|j2: int|
                0 <= j2 < j ==> {
                    let c = #[trigger] state.runners.commits@[j2];
                    &&& (survives(*state, resolved_index, result, c) ==> surv_c@.contains(c))
                    &&& (stale_after(*state, resolved_index, result, c) ==> stale@.contains(c))
                },
            forall|p1: int, p2: int| 0 <= p1 < p2 < surv_c@.len() ==> surv_c@[p1] != surv_c@[p2],
            forall|p1: int, p2: int| 0 <= p1 < p2 < stale@.len() ==> stale@[p1] != stale@[p2],
        decreases runner_count - j,
    {
        let c = state.runners.commits[j];
        let tm = state.runners.start_times[j];
        proof {
            // A value at position j cannot already be in either output:
            // old assignments are pairwise distinct.
            if surv_c@.contains(c) {
                let p = choose|p: int| 0 <= p < surv_c@.len() && surv_c@[p] == c;
                let j2 = choose|j2: int|
                    0 <= j2 < j && state.runners.commits@[j2] == surv_c@[p]
                        && state.runners.start_times@[j2] == surv_t@[p];
                assert(false);
            }
            if stale@.contains(c) {
                let p = choose|p: int| 0 <= p < stale@.len() && stale@[p] == c;
                let j2 = choose|j2: int|
                    0 <= j2 < j && state.runners.commits@[j2] == stale@[p];
                assert(false);
            }
        }
        if c == resolved_index {
            proof {
                seen_resolved = true;
            }
        } else if lo1 < c && c < hi1 {
            proof {
                assert(assigned(state.runners, c)) by {
                    assert(state.runners.commits@[j as int] == c);
                }
            }
            surv_c.push(c);
            surv_t.push(tm);
        } else {
            proof {
                assert(assigned(state.runners, c)) by {
                    assert(state.runners.commits@[j as int] == c);
                }
            }
            stale.push(c);
        }
        j = j + 1;
    }
    proof {
        assert(seen_resolved);
    }
    let free = state.jobs - surv_c.len();
    let mid = BisectionState {
        commits: records,
        runners: Runners { commits: surv_c, start_times: surv_t },
        jobs: state.jobs,
        check_bounds: state.check_bounds,
    };
    proof {
        assert(mid.wf());
    }
    let fresh = A::propose(&mid, free);
    let BisectionState { commits: records, runners: mid_runners, jobs: _, check_bounds: _ } = mid;
    let Runners { commits: mut rc, start_times: mut rt } = mid_runners;
    let ghost surv_seq = rc@;
    let ghost surv_times = rt@;
    let fresh_count = fresh.len();
    let mut f: usize = 0;
    while f < fresh_count
        invariant
            0 <= f <= fresh_count,
            fresh_count == fresh@.len(),
            rc@ =~= surv_seq + fresh@.subrange(0, f as int),
            rt@ =~= surv_times + Seq::new(f as nat, |p: int| current_runtime),
        decreases fresh_count - f,
    {
        rc.push(fresh[f]);
        rt.push(current_runtime);
        f = f + 1;
    }
    let ns = BisectionState {
        commits: records,
        runners: Runners { commits: rc, start_times: rt },
        jobs: state.jobs,
        check_bounds: state.check_bounds,
    };
    proof {
        assert(ns.view_statuses() =~= ss1);
        assert forall|c: usize| #[trigger] assigned(ns.runners, c) implies (survives(
            *state,
            resolved_index,
            result,
            c,
        ) || fresh@.contains(c)) by {
            let p = choose|p: int| 0 <= p < ns.runners.commits@.len() && ns.runners.commits@[p] == c;
            if p < surv_seq.len() {
                assert(surv_seq[p] == c);
            } else {
                assert(fresh@[p - surv_seq.len()] == c);
            }
        }
        assert forall|c: usize| (survives(*state, resolved_index, result, c) || fresh@.contains(
            c,
        )) implies #[trigger] assigned(ns.runners, c) by {
            if survives(*state, resolved_index, result, c) {
                let j2 = choose|j2: int|
                    0 <= j2 < state.runners.commits@.len() && #[trigger] state.runners.commits@[j2]
                        == c;
                assert(surv_seq.contains(c));
                let p = choose|p: int| 0 <= p < surv_seq.len() && surv_seq[p] == c;
                assert(ns.runners.commits@[p] == c);
            } else {
                let p = choose|p: int| 0 <= p < fresh@.len() && fresh@[p] == c;
                assert(ns.runners.commits@[surv_seq.len() + p] == c);
            }
        }
        assert forall|j1: int, j2: int|
            0 <= j1 < j2 < ns.runners.commits@.len() implies ns.runners.commits@[j1]
            != ns.runners.commits@[j2] by {
            let sl = surv_seq.len() as int;
            if j1 < sl && j2 >= sl {
                assert(!assigned(mid.runners, fresh@[j2 - sl]));
                assert(surv_seq[j1] == mid.runners.commits@[j1]);
            }
        }
        assert(ns.wf());
    }
    Ok((ns, stale, fresh))
}

} // verus!
