use api_server::load_testing::{percentile, LoadTestReport, RequestResult};

#[test]
fn test_percentile_empty() {
    assert_eq!(percentile(&[], 50), 0);
}

#[test]
fn test_percentile_single() {
    assert_eq!(percentile(&[42], 99), 42);
}

#[test]
fn test_percentile_values() {
    let data: Vec<u64> = (1..=100).collect();
    assert_eq!(percentile(&data, 50), 50);
    assert_eq!(percentile(&data, 95), 95);
    assert_eq!(percentile(&data, 99), 99);
}

#[test]
fn test_report_from_results() {
    let results: Vec<RequestResult> = (1u64..=10)
        .map(|i| RequestResult { latency_ms: i * 10, success: i <= 9, status: if i <= 9 { 200 } else { 500 } })
        .collect();
    let report = LoadTestReport::from_results(&results, 1000);
    assert_eq!(report.total_requests, 10);
    assert_eq!(report.successful, 9);
    assert_eq!(report.failed, 1);
    assert_eq!(report.min_ms, 10);
    assert_eq!(report.max_ms, 100);
}

#[test]
fn report_percentiles_of_unsorted_results() {
    let latencies = [30u64, 10, 50, 20, 40];
    let results: Vec<RequestResult> =
        latencies.iter().map(|&l| RequestResult { latency_ms: l, success: true, status: 200 }).collect();
    let report = LoadTestReport::from_results(&results, 0);
    assert_eq!(report.p50_ms, 20);
    assert_eq!(report.p95_ms, 40);
    assert_eq!(report.p99_ms, 40);
    assert_eq!(report.min_ms, 10);
    assert_eq!(report.max_ms, 50);
    assert_eq!(report.duration_ms, 0);
    let empty = LoadTestReport::from_results(&[], 10);
    assert_eq!(empty.total_requests, 0);
    assert_eq!(empty.p50_ms, 0);
    assert_eq!(empty.min_ms, 0);
    assert_eq!(empty.max_ms, 0);
}

#[test]
fn percentile_index_rounds_down_and_clamps() {
    let data = [1u64, 2, 3];
    assert_eq!(percentile(&data, 0), 1);
    assert_eq!(percentile(&data, 66), 1);
    assert_eq!(percentile(&data, 67), 2);
    assert_eq!(percentile(&data, 100), 3);
    assert_eq!(percentile(&data, 500), 3);
}
