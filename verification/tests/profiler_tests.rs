use std::sync::Arc;
use std::time::{Duration, Instant};

use arithmetics::profiler::{
    compute_stats, usage_between, CacheAnalyzer, CombinedProfiler, CounterValues, MemoryTracker,
    PerformanceProfiler, TrackingAllocator,
};

fn busy_wait(d: Duration) {
    let start = Instant::now();
    while start.elapsed() < d {}
}

#[test]
fn test_performance_profiler() {
    let mut profiler = PerformanceProfiler::new();

    profiler.measure_operation("test_operation", || {
        busy_wait(Duration::from_millis(10));
    });

    let stats = profiler.get_statistics("test_operation").unwrap();
    assert_eq!(stats.count, 1);
    assert!(stats.average >= Duration::from_millis(9).as_nanos() as u64);
}

#[test]
fn test_memory_tracking() {
    let allocator = Arc::new(TrackingAllocator::new());
    let mut tracker = MemoryTracker::new(allocator.clone());

    allocator.reset_stats();
    tracker.take_snapshot("start".to_string());

    // Allocate some memory
    let _data: Vec<u64> = vec![1; 1000];
    // A test binary does not install the tracking allocator as the global
    // allocator, so the allocation is booked here as its `alloc` books it.
    allocator.record_allocation((_data.capacity() * std::mem::size_of::<u64>()) as u64);

    tracker.take_snapshot("after_allocation".to_string());

    let deltas = tracker.get_memory_deltas();
    assert_eq!(deltas.len(), 1);
    assert!(deltas[0].usage_change > 0);
}

#[test]
fn test_cache_analyzer() {
    let analyzer = CacheAnalyzer::new();
    let data: Vec<u64> = (0..1000).collect();

    // Sequential access pattern
    let sequential: Vec<usize> = (0..100).collect();
    let seq_stats = analyzer.analyze_access_pattern(&data, &sequential);

    // Random access pattern
    let random: Vec<usize> = (0..100).map(|i| (i * 17) % 1000).collect();
    let rand_stats = analyzer.analyze_access_pattern(&data, &random);

    assert!(seq_stats.sequential_accesses > rand_stats.sequential_accesses);
    assert!(rand_stats.random_accesses > seq_stats.random_accesses);
}

#[test]
fn cache_counts_exact() {
    let analyzer = CacheAnalyzer::new();
    let data: Vec<u64> = (0..1000).collect();
    let sequential: Vec<usize> = (0..100).collect();
    let s = analyzer.analyze_access_pattern(&data, &sequential);
    // 8-byte elements, 8 per 64-byte line: indices 0..100 span 13 lines.
    assert_eq!(s.total_accesses, 100);
    assert_eq!(s.cache_lines_used, 13);
    assert_eq!(s.estimated_cache_misses, 13);
    assert_eq!(s.sequential_accesses, 99);
    assert_eq!(s.random_accesses, 0);

    // Out-of-range indices are skipped; returning to a line counts again.
    let pattern = vec![0usize, 5000, 8, 0, 1];
    let s = analyzer.analyze_access_pattern(&data, &pattern);
    assert_eq!(s.total_accesses, 5);
    assert_eq!(s.cache_lines_used, 3);
    assert_eq!(s.sequential_accesses, 1);
    assert_eq!(s.random_accesses, 2);
}

#[test]
fn cache_large_elements_and_zero_sized() {
    let analyzer = CacheAnalyzer::new();
    let units = vec![(); 100];
    let s = analyzer.analyze_access_pattern(&units, &[0, 1, 2, 70, 200]);
    // Zero-sized elements count as one byte: 64 per line; 200 is out of range.
    assert_eq!(s.cache_lines_used, 2);
    assert_eq!(s.sequential_accesses, 2);
    assert_eq!(s.random_accesses, 1);
    assert_eq!(s.total_accesses, 5);
    let big = vec![[0u8; 100]; 3];
    let s = analyzer.analyze_access_pattern(&big, &[5, 9]);
    assert_eq!(s.cache_lines_used, 0);
    assert_eq!(s.total_accesses, 2);
}

#[test]
fn stats_of_known_samples() {
    let s = compute_stats(&vec![40, 10, 30, 20]);
    assert_eq!(s.count, 4);
    assert_eq!(s.total, 100);
    assert_eq!(s.average, 25);
    assert_eq!(s.median, 25);
    assert_eq!(s.min, 10);
    assert_eq!(s.max, 40);
    assert_eq!(s.p95, 40);
    assert_eq!(s.p99, 40);

    let samples: Vec<u64> = (1..=100).rev().collect();
    let s = compute_stats(&samples);
    assert_eq!(s.median, 50);
    assert_eq!(s.p95, 96);
    assert_eq!(s.p99, 100);
    assert_eq!(s.average, 50);

    let s = compute_stats(&vec![7, 3, 5]);
    assert_eq!(s.median, 5);
    assert_eq!(s.average, 5);
    assert_eq!(s.p95, 7);
}

#[test]
fn stats_are_ordered_on_concrete_samples() {
    let samples = vec![3, 1_000_000, 17, 17, 250, 9, 4_000];
    let s = compute_stats(&samples);
    assert!(s.min <= s.average && s.average <= s.max);
    assert!(s.min <= s.median && s.median <= s.max);
    assert!(s.min <= s.p95 && s.p95 <= s.p99 && s.p99 <= s.max);
    assert_eq!(s.min, 3);
    assert_eq!(s.max, 1_000_000);
}

#[test]
fn profiler_start_end_and_clear() {
    let mut p = PerformanceProfiler::new();
    assert!(p.get_statistics("op").is_none());
    // Ending an operation that was never started records nothing.
    p.end_measurement("op");
    assert!(p.get_statistics("op").is_none());
    p.start_measurement("op");
    p.end_measurement("op");
    p.start_measurement("op");
    p.end_measurement("op");
    p.start_measurement("other");
    p.end_measurement("other");
    assert_eq!(p.get_statistics("op").unwrap().count, 2);
    assert_eq!(p.get_statistics("other").unwrap().count, 1);
    let mut names = p.operation_names();
    names.sort();
    assert_eq!(names, vec!["op".to_string(), "other".to_string()]);
    // A second end without a new start adds nothing.
    p.end_measurement("op");
    assert_eq!(p.get_statistics("op").unwrap().count, 2);
    p.clear();
    assert!(p.get_statistics("op").is_none());
    assert!(p.operation_names().is_empty());
}

#[test]
fn measure_operation_returns_result() {
    let mut p = PerformanceProfiler::new();
    let v = p.measure_operation("sum", || (1..=10u64).sum::<u64>());
    assert_eq!(v, 55);
    assert_eq!(p.get_statistics("sum").unwrap().count, 1);
}

#[test]
fn usage_between_wraps_and_saturates() {
    let before = CounterValues { current_usage: 100, peak_usage: 500, allocation_count: 3, deallocation_count: 1 };
    let after = CounterValues { current_usage: 40, peak_usage: 200, allocation_count: 7, deallocation_count: 4 };
    let u = usage_between(&before, &after);
    assert_eq!(u.net_allocation, -60);
    assert_eq!(u.peak_during_operation, 0);
    assert_eq!(u.allocations_made, 4);
    assert_eq!(u.deallocations_made, 3);
    let u = usage_between(&after, &before);
    assert_eq!(u.net_allocation, 60);
    assert_eq!(u.peak_during_operation, 300);
    assert_eq!(u.allocations_made, u64::MAX - 3);
}

#[test]
fn tracking_allocator_counts() {
    let a = TrackingAllocator::new();
    a.record_allocation(100);
    a.record_allocation(50);
    a.record_deallocation(100);
    assert_eq!(a.current_usage(), 50);
    assert_eq!(a.peak_usage(), 150);
    assert_eq!(a.allocation_count(), 2);
    assert_eq!(a.deallocation_count(), 1);
    a.reset_stats();
    assert_eq!(a.current_usage(), 0);
    assert_eq!(a.peak_usage(), 0);
    assert_eq!(a.allocation_count(), 0);
}

#[test]
fn memory_deltas_follow_counters() {
    let allocator = Arc::new(TrackingAllocator::new());
    let mut tracker = MemoryTracker::new(allocator.clone());
    assert!(tracker.get_memory_deltas().is_empty());
    tracker.take_snapshot("a".to_string());
    assert!(tracker.get_memory_deltas().is_empty());
    allocator.record_allocation(64);
    tracker.take_snapshot("b".to_string());
    allocator.record_deallocation(64);
    tracker.take_snapshot("c".to_string());
    let d = tracker.get_memory_deltas();
    assert_eq!(d.len(), 2);
    assert_eq!(d[0].from_label, "a");
    assert_eq!(d[0].to_label, "b");
    assert_eq!(d[0].usage_change, 64);
    assert_eq!(d[0].peak_change, 64);
    assert_eq!(d[0].allocation_change, 1);
    assert_eq!(d[1].usage_change, -64);
    assert_eq!(d[1].peak_change, 0);
    assert_eq!(d[1].deallocation_change, 1);
}

#[test]
fn measure_memory_usage_snapshots() {
    let allocator = Arc::new(TrackingAllocator::new());
    let mut tracker = MemoryTracker::new(allocator.clone());
    let (v, usage) = tracker.measure_memory_usage("work", || {
        allocator.record_allocation(10);
        7
    });
    assert_eq!(v, 7);
    assert_eq!(usage.net_allocation, 10);
    assert_eq!(usage.allocations_made, 1);
    let labels: Vec<String> = tracker.get_snapshots().iter().map(|s| s.label.clone()).collect();
    assert_eq!(labels, vec!["work_start".to_string(), "work_end".to_string()]);
}

#[test]
fn combined_profiler_records_both() {
    let allocator = Arc::new(TrackingAllocator::new());
    let mut profiler = CombinedProfiler::new(allocator.clone());
    let (v, profile) = profiler.profile_operation("job", || {
        allocator.record_allocation(32);
        "done"
    });
    assert_eq!(v, "done");
    assert_eq!(profile.operation, "job");
    assert_eq!(profile.memory_usage.net_allocation, 32);
    assert_eq!(profiler.performance().get_statistics("job").unwrap().count, 1);
    assert_eq!(profiler.memory_tracker().get_snapshots().len(), 2);
    assert_eq!(profiler.memory_tracker().get_memory_deltas()[0].usage_change, 32);
}

#[test]
fn recorded_samples_are_the_values_given() {
    let mut profiler = PerformanceProfiler::new();
    profiler.record_sample("op", 30);
    profiler.record_sample("op", 10);
    profiler.record_sample("other", 7);
    let stats = profiler.get_statistics("op").unwrap();
    assert_eq!(stats.count, 2);
    assert_eq!(stats.total, 40);
    assert_eq!(stats.min, 10);
    assert_eq!(stats.max, 30);
    let other = profiler.get_statistics("other").unwrap();
    assert_eq!((other.count, other.min, other.max), (1, 7, 7));
}
