//! Summaries of load-test runs: request counts, latency percentiles and extremes.
use vstd::prelude::*;

verus! {

broadcast use vstd::seq_lib::group_to_multiset_ensures;

/// The outcome of one request.
#[derive(Debug, Clone)]
pub struct RequestResult {
    pub latency_ms: u64,
    pub success: bool,
    pub status: u16,
}

/// The integer part of a load-test report: counts, duration and latencies. The
/// throughput in requests per second is `total_requests / (duration_ms / 1000)`,
/// or 0 when the duration is 0.
#[derive(Debug, Clone)]
pub struct LoadTestReport {
    pub total_requests: usize,
    pub successful: usize,
    pub failed: usize,
    pub duration_ms: u64,
    pub p50_ms: u64,
    pub p95_ms: u64,
    pub p99_ms: u64,
    pub min_ms: u64,
    pub max_ms: u64,
}

/// `s` is in ascending order.
pub open spec fn sorted_ascending(s: Seq<u64>) -> bool {
    forall|i: int, j: int| 0 <= i <= j < s.len() ==> s[i] <= s[j]
}

/// The index `percentile` reads for `p` percent of `len` sorted values:
/// `p * len / 100 - 1`, kept within `0..len`.
pub open spec fn percentile_index(len: int, p: int) -> int {
    let raw = (p * len) / 100;
    let below = if raw >= 1 {
        raw - 1
    } else {
        0
    };
    if below < len - 1 {
        below
    } else {
        len - 1
    }
}

/// The `p`-th percentile of sorted values; 0 when there are none.
pub open spec fn percentile_of(sorted: Seq<u64>, p: int) -> u64 {
    if sorted.len() == 0 {
        0
    } else {
        sorted[percentile_index(sorted.len() as int, p)]
    }
}

/// The `p`-th percentile of `sorted` (nearest rank, rounded down).
pub fn percentile(sorted: &[u64], p: usize) -> (r: u64)
    requires
        p * sorted@.len() <= usize::MAX,
    ensures
        r == percentile_of(sorted@, p as int),
{
    if sorted.len() == 0 {
        return 0;
    }
    let raw = (p * sorted.len()) / 100;
    let below = raw.saturating_sub(1);
    let idx = if below < sorted.len() - 1 {
        below
    } else {
        sorted.len() - 1
    };
    sorted[idx]
}

/// The percentile index grows with `p`.
pub proof fn lemma_percentile_index_monotonic(len: int, p: int, q: int)
    requires
        len > 0,
        0 <= p <= q,
    ensures
        0 <= percentile_index(len, p) <= percentile_index(len, q) < len,
{
    assert((p * len) / 100 <= (q * len) / 100) by (nonlinear_arith)
        requires
            len > 0,
            0 <= p <= q,
    ;
    assert(0 <= (p * len) / 100) by (nonlinear_arith)
        requires
            len > 0,
            0 <= p,
    ;
}

/// On sorted values, a higher percentile is never smaller.
pub proof fn lemma_percentile_monotonic(sorted: Seq<u64>, p: int, q: int)
    requires
        sorted_ascending(sorted),
        0 <= p <= q,
    ensures
        percentile_of(sorted, p) <= percentile_of(sorted, q),
{
    if sorted.len() > 0 {
        lemma_percentile_index_monotonic(sorted.len() as int, p, q);
    }
}

/// `slice::sort_unstable` on latencies: claims an ascending rearrangement of the
/// same values.
#[verifier::external_body]
fn sort_latencies(v: &mut Vec<u64>)
    ensures
        sorted_ascending(final(v)@),
        final(v)@.to_multiset() == old(v)@.to_multiset(),
{
    v.sort_unstable();
}

/// The number of successful requests.
pub open spec fn count_successes(results: Seq<RequestResult>) -> nat
    decreases results.len(),
{
    if results.len() == 0 {
        0
    } else {
        count_successes(results.drop_last()) + if results.last().success {
            1nat
        } else {
            0nat
        }
    }
}

/// The latencies of `results`, in order.
pub open spec fn latencies_of(results: Seq<RequestResult>) -> Seq<u64> {
    results.map_values(|r: RequestResult| r.latency_ms)
}

proof fn lemma_count_successes_bound(results: Seq<RequestResult>)
    ensures
        count_successes(results) <= results.len(),
    decreases results.len(),
{
    if results.len() > 0 {
        lemma_count_successes_bound(results.drop_last());
    }
}

/// The successful requests of a run are exactly the results whose `success`
/// flag is set, whatever their status code: their number is the length of that
/// filter, and every result is either counted as a success or as a failure.
pub proof fn lemma_successes_are_flagged_results(results: Seq<RequestResult>)
    ensures
        count_successes(results) == results.filter(|r: RequestResult| r.success).len(),
        count_successes(results) <= results.len(),
        (forall|i: int| 0 <= i < results.len() ==> #[trigger] results[i].success) ==> count_successes(
            results,
        ) == results.len(),
        (forall|i: int| 0 <= i < results.len() ==> !(#[trigger] results[i].success))
            ==> count_successes(results) == 0,
    decreases results.len(),
{
    reveal(Seq::filter);
    lemma_count_successes_bound(results);
    if results.len() > 0 {
        let init = results.drop_last();
        lemma_successes_are_flagged_results(init);
        assert forall|i: int| 0 <= i < init.len() implies init[i] == results[i] by {}
        if forall|i: int| 0 <= i < results.len() ==> #[trigger] results[i].success {
            assert(results.last() == results[results.len() - 1]);
            assert forall|i: int| 0 <= i < init.len() implies #[trigger] init[i].success by {
                assert(init[i] == results[i]);
            }
        }
        if forall|i: int| 0 <= i < results.len() ==> !(#[trigger] results[i].success) {
            assert(results.last() == results[results.len() - 1]);
            assert forall|i: int| 0 <= i < init.len() implies !(#[trigger] init[i].success) by {
                assert(init[i] == results[i]);
            }
        }
    }
}

impl LoadTestReport {
    /// Summarizes `results` of a run that took `duration_ms`.
    pub fn from_results(results: &[RequestResult], duration_ms: u64) -> (r: Self)
        requires
            99 * results@.len() <= usize::MAX,
        ensures
            r.total_requests == results@.len(),
            r.successful == count_successes(results@),
            r.failed == results@.len() - count_successes(results@),
            r.duration_ms == duration_ms,
            exists|sorted: Seq<u64>|
                {
                    &&& sorted_ascending(sorted)
                    &&& sorted.to_multiset() == latencies_of(results@).to_multiset()
                    &&& r.p50_ms == percentile_of(sorted, 50)
                    &&& r.p95_ms == percentile_of(sorted, 95)
                    &&& r.p99_ms == percentile_of(sorted, 99)
                    &&& r.min_ms == (if sorted.len() == 0 {
                        0
                    } else {
                        sorted[0]
                    })
                    &&& r.max_ms == (if sorted.len() == 0 {
                        0
                    } else {
                        sorted.last()
                    })
                },
            results@.len() == 0 ==> r.min_ms == 0 && r.max_ms == 0,
            forall|i: int|
                0 <= i < results@.len() ==> r.min_ms <= #[trigger] results@[i].latency_ms
                    <= r.max_ms,
            r.min_ms <= r.p50_ms <= r.p95_ms <= r.p99_ms <= r.max_ms,
    {
        let total = results.len();
        let mut successful: usize = 0;
        let mut latencies: Vec<u64> = Vec::new();
        let mut i: usize = 0;
        while i < total
            invariant
                total == results@.len(),
                0 <= i <= total,
                successful == count_successes(results@.take(i as int)),
                latencies@ == latencies_of(results@.take(i as int)),
            decreases total - i,
        {
            proof {
                assert(results@.take(i + 1).drop_last() =~= results@.take(i as int));
                lemma_count_successes_bound(results@.take(i as int));
            }
            if results[i].success {
                successful = successful + 1;
            }
            latencies.push(results[i].latency_ms);
            proof {
                assert(latencies@ =~= latencies_of(results@.take(i + 1)));
            }
            i += 1;
        }
        proof {
            assert(results@.take(i as int) =~= results@);
            lemma_count_successes_bound(results@);
        }
        let ghost unsorted = latencies@;
        sort_latencies(&mut latencies);
        proof {
            assert(latencies@.len() == latencies@.to_multiset().len());
            assert(unsorted.len() == unsorted.to_multiset().len());
            let n = latencies@.len();
            assert(50 * n <= 99 * n && 95 * n <= 99 * n) by (nonlinear_arith);
        }
        let p50 = percentile(latencies.as_slice(), 50);
        let p95 = percentile(latencies.as_slice(), 95);
        let p99 = percentile(latencies.as_slice(), 99);
        let min = if latencies.len() == 0 {
            0
        } else {
            latencies[0]
        };
        let max = if latencies.len() == 0 {
            0
        } else {
            latencies[latencies.len() - 1]
        };
        proof {
            let s = latencies@;
            assert(s.len() == unsorted.len());
            if s.len() > 0 {
                lemma_percentile_index_monotonic(s.len() as int, 50, 95);
                lemma_percentile_index_monotonic(s.len() as int, 95, 99);
                lemma_percentile_index_monotonic(s.len() as int, 0, 50);
            }
            assert forall|k: int| 0 <= k < results@.len() implies min <= #[trigger] results@[k].latency_ms <= max by {
                assert(unsorted[k] == results@[k].latency_ms);
                assert(unsorted.contains(unsorted[k]));
                assert(unsorted.to_multiset().count(unsorted[k]) > 0);
                assert(s.contains(unsorted[k]));
                let j = choose|j: int| 0 <= j < s.len() && s[j] == unsorted[k];
                assert(s[0] <= s[j]);
                assert(s[j] <= s[s.len() - 1]);
            }
        }
        LoadTestReport {
            total_requests: total,
            successful,
            failed: total - successful,
            duration_ms,
            p50_ms: p50,
            p95_ms: p95,
            p99_ms: p99,
            min_ms: min,
            max_ms: max,
        }
    }
}

} // verus!
