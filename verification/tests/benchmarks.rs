use reli::benchmarks::{benchmark_rows, median_bits, BenchmarkSample};

fn sample(profile: &str, workers: u32, jobs: u64, ms: u64) -> BenchmarkSample {
    BenchmarkSample { profile_id: profile.to_string(), worker_count: workers, jobs_processed: jobs, duration_ms: ms }
}

#[test]
fn rows_are_one_profile_ordered_by_worker_count() {
    let samples = vec![
        sample("industrial-v1", 4, 340, 1000),
        sample("satellite-v1", 1, 100, 1000),
        sample("industrial-v1", 1, 100, 1000),
        sample("industrial-v1", 2, 185, 1000),
    ];
    let rows = benchmark_rows("industrial-v1", &samples);
    let counts: Vec<u32> = rows.iter().map(|r| r.worker_count).collect();
    assert_eq!(counts, vec![1, 2, 4]);
    assert!(rows.iter().all(|r| r.profile_id == "industrial-v1"));
    assert!(benchmark_rows("other", &samples).is_empty());
}

#[test]
fn equal_worker_counts_keep_input_order() {
    let samples = vec![sample("p", 2, 1, 1), sample("p", 1, 2, 1), sample("p", 2, 3, 1), sample("p", 1, 4, 1)];
    let jobs: Vec<u64> = benchmark_rows("p", &samples).iter().map(|r| r.jobs_processed).collect();
    assert_eq!(jobs, vec![2, 4, 1, 3]);
}

#[test]
fn median_is_the_middle_of_the_ascending_order() {
    let values: Vec<u64> = [340.0f64, 100.0, 185.0].iter().map(|v| v.to_bits()).collect();
    assert_eq!(f64::from_bits(median_bits(&values)), 185.0);
    let values: Vec<u64> = [4.0f64, 1.0, 3.0, 2.0].iter().map(|v| v.to_bits()).collect();
    assert_eq!(f64::from_bits(median_bits(&values)), 3.0);
    let values: Vec<u64> = [-1.0f64, 0.5].iter().map(|v| v.to_bits()).collect();
    assert_eq!(f64::from_bits(median_bits(&values)), 0.5);
}
