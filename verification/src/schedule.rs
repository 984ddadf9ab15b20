//! The scheduler's arithmetic: one reconciliation pass is started
//! every interval, measured from the start of the previous pass, so a
//! slow pass compresses the idle gap instead of shifting the cadence.
//! The loop itself runs outside the library; the decision of how long
//! to sleep, and the cadence it yields, live here.

use vstd::prelude::*;

verus! {

/// The larger of `a` and `b`.
pub open spec fn spec_max(a: int, b: int) -> int {
    if a >= b {
        a
    } else {
        b
    }
}

/// The instant (relative to the first pass, which starts at 0) at
/// which pass `k` starts, when pass `j` takes `durations[j]`: each
/// pass starts an interval after the previous one started, or, when
/// the previous pass overran the interval, as soon as it ended —
/// missed ticks are not queued.
pub open spec fn pass_start(interval: int, durations: Seq<int>, k: int) -> int
    decreases k,
{
    if k <= 0 {
        0
    } else {
        pass_start(interval, durations, k - 1) + spec_max(interval, durations[k - 1])
    }
}

/// The milliseconds still to sleep after a pass that took
/// `elapsed_ms`, so that passes start `interval_ms` apart: the
/// remainder of the interval, or `None` when the pass overran it and
/// the next pass is due at once. Either way the gap between the two
/// starts comes to the larger of the interval and the pass duration.
pub fn remaining_wait(interval_ms: u64, elapsed_ms: u64) -> (r: Option<u64>)
    ensures
        elapsed_ms <= interval_ms ==> r == Some((interval_ms - elapsed_ms) as u64),
        elapsed_ms > interval_ms ==> r is None,
        elapsed_ms + (match r {
            Some(w) => w,
            None => 0,
        }) == spec_max(interval_ms as int, elapsed_ms as int),
{
    if elapsed_ms <= interval_ms {
        Some(interval_ms - elapsed_ms)
    } else {
        None
    }
}

/// Law: drift-free cadence. When every pass finishes within the
/// interval, pass `k` starts exactly `k` intervals after the first:
/// no tick is late and none is skipped.
pub proof fn lemma_cadence(interval: int, durations: Seq<int>, k: int)
    requires
        0 <= k <= durations.len(),
        forall|j: int| 0 <= j < durations.len() ==> #[trigger] durations[j] < interval,
    ensures
        pass_start(interval, durations, k) == k * interval,
    decreases k,
{
    if k == 0 {
        assert(0int * interval == 0) by (nonlinear_arith);
    } else {
        lemma_cadence(interval, durations, k - 1);
        assert(spec_max(interval, durations[k - 1]) == interval);
        assert((k - 1) * interval + interval == k * interval) by (nonlinear_arith);
    }
}

/// Law: passes never overlap. A pass runs to completion before the
/// next one starts, whatever the durations: at most one pass is ever
/// in flight.
pub proof fn lemma_no_overlap(interval: int, durations: Seq<int>, k: int)
    requires
        0 <= k < durations.len(),
    ensures
        pass_start(interval, durations, k) + durations[k] <= pass_start(
            interval,
            durations,
            k + 1,
        ),
{
}

/// Law: pass count. When every pass finishes within the interval,
/// exactly `n` passes start during the first `n` intervals of a run:
/// pass `k` starts before time `n * interval` if and only if `k < n`.
pub proof fn lemma_pass_count(interval: int, durations: Seq<int>, n: int, k: int)
    requires
        interval > 0,
        0 <= n,
        0 <= k <= durations.len(),
        forall|j: int| 0 <= j < durations.len() ==> #[trigger] durations[j] < interval,
    ensures
        pass_start(interval, durations, k) < n * interval <==> k < n,
{
    lemma_cadence(interval, durations, k);
    assert(k * interval < n * interval <==> k < n) by (nonlinear_arith)
        requires
            interval > 0,
    ;
}

} // verus!
