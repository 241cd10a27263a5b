use git_biasect::allocator::{basic_propose, init, step, Allocator, BasicAllocator, BoundsViolation};
use git_biasect::report::{
    bounds_validated, classify_exit, commits_to_report, report_plan, ReportPlan,
};
use git_biasect::state::{compute_bounds, BisectionState, Runners};
use git_biasect::{CommitState, Status};

fn hashes(n: usize) -> Vec<String> {
    (0..n).map(|i| format!("rev{i}")).collect()
}

/// A state with the given resolutions and assignments (start times 0).
fn mk_state(statuses: &[Status], runners: &[usize], jobs: usize) -> BisectionState {
    BisectionState {
        commits: statuses
            .iter()
            .enumerate()
            .map(|(i, s)| CommitState { hash: format!("rev{i}"), status: *s })
            .collect(),
        runners: Runners {
            commits: runners.to_vec(),
            start_times: runners.iter().map(|_| 0u64).collect(),
        },
        jobs,
        check_bounds: true,
    }
}

#[test]
fn initial_proposal_is_binary_search_midpoint() {
    let s = init(&hashes(11), 1, true);
    assert_eq!(s.runners.commits, vec![5]);
    assert_eq!(s.runners.start_times, vec![0]);
    assert_eq!(s.jobs, 1);
    assert!(s.commits.iter().all(|c| c.status == Status::Unknown));
    assert_eq!(s.commits[3].hash, "rev3");
}

#[test]
fn initial_proposal_partitions_kway() {
    // 10 candidates: interior interval is 1..=8, three probes split it
    // into four even segments.
    let s = init(&hashes(10), 3, true);
    assert_eq!(s.runners.commits, vec![3, 5, 7]);
}

#[test]
fn initial_proposal_short_sequences() {
    // No interior candidate exists with fewer than three revisions.
    assert!(init(&hashes(1), 4, true).runners.commits.is_empty());
    assert!(init(&hashes(2), 4, true).runners.commits.is_empty());
    assert_eq!(init(&hashes(3), 4, true).runners.commits, vec![1]);
    // Zero capacity proposes nothing.
    assert!(init(&hashes(10), 0, true).runners.commits.is_empty());
}

#[test]
fn propose_skips_resolved_and_assigned() {
    // Interior indices 1..=8; 3 is Skip (resolved), 5 is assigned.
    let mut sts = vec![Status::Unknown; 10];
    sts[3] = Status::Skip;
    let s = mk_state(&sts, &[5], 3);
    let r = basic_propose(&s, 8);
    assert!(!r.contains(&3) && !r.contains(&5));
    assert!(!r.contains(&0) && !r.contains(&9));
    assert_eq!(r.len(), 6); // eight interior indices minus the two excluded
    let mut sorted = r.clone();
    sorted.sort();
    sorted.dedup();
    assert_eq!(sorted.len(), r.len());
}

#[test]
fn propose_size_is_min_of_capacity_and_interior() {
    let s = mk_state(&[Status::Unknown; 12], &[], 4);
    // Interior of (0, 11) holds ten candidates.
    for c in 0..14 {
        assert_eq!(basic_propose(&s, c).len(), c.min(10));
    }
}

#[test]
fn propose_segments_bounded_by_even_split() {
    // 64 revisions, interior 1..=62: three probes cut the 62 candidates
    // into four segments, none longer than ceil(62 / 4) == 16.
    let s = mk_state(&[Status::Unknown; 64], &[], 3);
    let r = basic_propose(&s, 3);
    assert_eq!(r, vec![16, 32, 47]);
    let bound = 16usize;
    assert!(r[0] - 1 <= bound);
    assert!(r[1] - r[0] <= bound);
    assert!(r[2] - r[1] <= bound);
    assert!(62 - r[2] <= bound);
}

#[test]
fn propose_converges_on_adjacent_pair() {
    // hi == lo + 1: nothing left to test.
    let mut sts = vec![Status::Unknown; 6];
    sts[2] = Status::Good;
    sts[3] = Status::Bad;
    let s = mk_state(&sts, &[], 4);
    assert_eq!(compute_bounds(&s.commits), (2, 3));
    assert!(basic_propose(&s, 4).is_empty());
}

#[test]
fn skip_never_moves_bounds_or_violates() {
    // A Skip result leaves the valid interval untouched, wherever it lands.
    for idx in [0usize, 2, 4] {
        let s = mk_state(&[Status::Unknown; 5], &[idx], 1);
        let before = compute_bounds(&s.commits);
        let out = step::<BasicAllocator>(&s, Status::Skip, idx, 1, 1);
        let (ns, _stale, _fresh) = out.expect("Skip must never be a bounds violation");
        assert_eq!(compute_bounds(&ns.commits), before);
        assert_eq!(ns.commits[idx].status, Status::Skip);
    }
}

#[test]
fn step_narrows_interval_monotonically() {
    let s = mk_state(&[Status::Unknown; 10], &[3, 5, 7], 3);
    let (lo0, hi0) = compute_bounds(&s.commits);
    let (ns, _, _) = step::<BasicAllocator>(&s, Status::Good, 5, 2, 2).unwrap();
    let (lo1, hi1) = compute_bounds(&ns.commits);
    assert!(lo0 <= lo1 && hi1 <= hi0);
    assert_eq!((lo1, hi1), (5, 9));
    let (ns2, _, _) = step::<BasicAllocator>(&ns, Status::Bad, 7, 3, 3).unwrap();
    let (lo2, hi2) = compute_bounds(&ns2.commits);
    assert!(lo1 <= lo2 && hi2 <= hi1);
    assert_eq!((lo2, hi2), (5, 7));
}

#[test]
fn step_cancels_stale_assignments() {
    // Resolving 5 as Bad narrows to (0, 5): the worker at 7 is stale,
    // the worker at 3 survives, and freed capacity is refilled.
    let s = mk_state(&[Status::Unknown; 10], &[3, 5, 7], 3);
    let (ns, stale, fresh) = step::<BasicAllocator>(&s, Status::Bad, 5, 1, 1).unwrap();
    assert_eq!(stale, vec![7]);
    assert!(ns.runners.commits.contains(&3));
    assert!(!ns.runners.commits.contains(&5));
    assert!(!ns.runners.commits.contains(&7));
    for c in &fresh {
        assert!(0 < *c && *c < 5 && *c != 3);
        assert_eq!(ns.commits[*c].status, Status::Unknown);
    }
    // One slot was freed by the resolution, one by the stale worker.
    assert_eq!(fresh.len(), 2);
    // New assignments carry the current timestamp.
    let surv = ns.runners.commits.len() - fresh.len();
    for t in &ns.runners.start_times[surv..] {
        assert_eq!(*t, 1);
    }
}

#[test]
fn bounds_gating_flushes_once_bad_then_good() {
    // Sequence length 10, jobs 3: a Bad at 5 alone reports nothing; the
    // Good at 2 validates the bounds and causes exactly one full flush,
    // in index order.
    let s0 = mk_state(&[Status::Unknown; 10], &[2, 5, 7], 3);
    let (s1, _, _) = step::<BasicAllocator>(&s0, Status::Bad, 5, 1, 1).unwrap();
    assert_eq!(report_plan(&s0.commits, &s1.commits, false), ReportPlan::Withhold);
    assert!(s1.runners.commits.contains(&2));
    let (s2, _, _) = step::<BasicAllocator>(&s1, Status::Good, 2, 2, 2).unwrap();
    assert_eq!(report_plan(&s1.commits, &s2.commits, false), ReportPlan::Flush);
    assert_eq!(commits_to_report(&s2.commits), vec![2, 5]);
    // Afterwards each result is reported singly: no second flush.
    let probe = s2.runners.commits[0];
    let (s3, _, _) = step::<BasicAllocator>(&s2, Status::Good, probe, 3, 3).unwrap();
    assert_eq!(report_plan(&s2.commits, &s3.commits, false), ReportPlan::Single);
}

#[test]
fn bounds_gating_flushes_once_good_then_bad() {
    let s0 = mk_state(&[Status::Unknown; 10], &[2, 5, 7], 3);
    let (s1, _, _) = step::<BasicAllocator>(&s0, Status::Good, 2, 1, 1).unwrap();
    assert_eq!(report_plan(&s0.commits, &s1.commits, false), ReportPlan::Withhold);
    assert!(s1.runners.commits.contains(&5));
    let (s2, _, _) = step::<BasicAllocator>(&s1, Status::Bad, 5, 2, 2).unwrap();
    assert_eq!(report_plan(&s1.commits, &s2.commits, false), ReportPlan::Flush);
    assert_eq!(commits_to_report(&s2.commits), vec![2, 5]);
}

#[test]
fn endpoint_violation_halts_run() {
    // Sequence length 5: a Bad at index 0 contradicts monotonicity and
    // must halt the run before any state change or report.
    let s = mk_state(&[Status::Unknown; 5], &[0], 1);
    let out = step::<BasicAllocator>(&s, Status::Bad, 0, 1, 1);
    assert_eq!(out.unwrap_err(), BoundsViolation::OldestBad);
    // The symmetric case: Good at the newest index.
    let s2 = mk_state(&[Status::Unknown; 5], &[4], 1);
    let out2 = step::<BasicAllocator>(&s2, Status::Good, 4, 1, 1);
    assert_eq!(out2.unwrap_err(), BoundsViolation::NewestGood);
}

#[test]
fn concurrent_completion_is_not_lost() {
    // Workers at 3 and 6 complete in the same tick.  Processing 3 first
    // must leave 6 assigned (not stale), so the next poll still sees it.
    let s = mk_state(&[Status::Unknown; 10], &[3, 6], 2);
    let (ns, stale, _fresh) = step::<BasicAllocator>(&s, Status::Good, 3, 1, 1).unwrap();
    assert!(!stale.contains(&6));
    assert!(ns.runners.commits.contains(&6));
    assert_eq!(compute_bounds(&ns.commits), (3, 9));
}

#[test]
fn classify_exit_codes() {
    assert_eq!(classify_exit(0), Status::Good);
    assert_eq!(classify_exit(124), Status::Skip);
    assert_eq!(classify_exit(1), Status::Bad);
    assert_eq!(classify_exit(-9), Status::Bad);
    assert_eq!(classify_exit(255), Status::Bad);
}

#[test]
fn bounds_validated_needs_good_and_bad() {
    let mut sts = vec![Status::Unknown; 4];
    let none = mk_state(&sts, &[], 1);
    assert!(!bounds_validated(&none.commits, false));
    assert!(bounds_validated(&none.commits, true)); // reckless trusts outright
    sts[1] = Status::Good;
    let only_good = mk_state(&sts, &[], 1);
    assert!(!bounds_validated(&only_good.commits, false));
    sts[2] = Status::Skip;
    let good_skip = mk_state(&sts, &[], 1);
    assert!(!bounds_validated(&good_skip.commits, false));
    sts[3] = Status::Bad;
    let both = mk_state(&sts, &[], 1);
    assert!(bounds_validated(&both.commits, false));
    let empty: Vec<CommitState> = Vec::new();
    assert!(bounds_validated(&empty, false));
}

#[test]
fn report_queue_in_index_order() {
    let sts = [
        Status::Unknown,
        Status::Bad,
        Status::Skip,
        Status::Unknown,
        Status::Good,
    ];
    let s = mk_state(&sts, &[], 1);
    assert_eq!(commits_to_report(&s.commits), vec![1, 2, 4]);
}

#[test]
fn reckless_mode_reports_every_result_singly() {
    let s0 = mk_state(&[Status::Unknown; 6], &[2], 1);
    let (s1, _, _) = step::<BasicAllocator>(&s0, Status::Bad, 2, 1, 1).unwrap();
    assert_eq!(report_plan(&s0.commits, &s1.commits, true), ReportPlan::Single);
}

#[test]
fn trait_propose_matches_basic_strategy() {
    let s = mk_state(&[Status::Unknown; 10], &[], 3);
    assert_eq!(<BasicAllocator as Allocator>::propose(&s, 3), basic_propose(&s, 3));
}

/// Drive propose -> step rounds against a planted transition point until
/// the interval is exhausted; every probe of a round resolves before the
/// next round is proposed, so rounds are bounded by log_{jobs+1} of the
/// sequence length.
fn drive(n: usize, jobs: usize, transition: usize) -> (usize, usize, usize) {
    let mut state = init(&hashes(n), jobs, true);
    let mut rounds = 0usize;
    while !state.runners.commits.is_empty() {
        rounds += 1;
        assert!(rounds <= n, "bisection failed to converge");
        let batch = state.runners.commits.clone();
        for idx in batch {
            if !state.runners.commits.contains(&idx) {
                continue; // cancelled as stale by an earlier result
            }
            let verdict = if idx < transition { Status::Good } else { Status::Bad };
            let (ns, _, _) =
                step::<BasicAllocator>(&state, verdict, idx, rounds as u64, rounds as u64)
                    .unwrap();
            state = ns;
        }
    }
    let (lo, hi) = compute_bounds(&state.commits);
    (lo, hi, rounds)
}

#[test]
fn repeated_steps_converge_to_adjacent_pair() {
    for transition in 1..10 {
        let (lo, hi, _) = drive(10, 3, transition);
        assert_eq!(hi, lo + 1);
        assert_eq!(hi, transition);
    }
    // A single worker degenerates to classical binary search.
    let (lo, hi, rounds) = drive(64, 1, 40);
    assert_eq!((lo, hi), (39, 40));
    assert!(rounds <= 7); // ceil(log2(64)) with one probe per round
    // Three workers: ceil(log4(64)) == 3 rounds of full batches.
    let (lo, hi, rounds) = drive(64, 3, 40);
    assert_eq!((lo, hi), (39, 40));
    assert!(rounds <= 4);
}
