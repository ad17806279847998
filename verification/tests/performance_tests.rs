use lightning_dictionary::cache::{create_cache, Definition};
use lightning_dictionary::clock::{clamp_nanos, Stopwatch};
use lightning_dictionary::dictionary::{DictionaryService, LookupStart};
use lightning_dictionary::performance::{PerformanceTracker, SAMPLE_WINDOW};
use std::time::Instant;

const MS: u64 = 1_000_000;

fn record(tracker: &mut PerformanceTracker, marks: [u64; 5], hit: bool, api: Option<u64>) {
    tracker.mark_at("hotkey_pressed", marks[0]);
    tracker.mark_at("text_captured", marks[1]);
    tracker.mark_at("cache_lookup_start", marks[2]);
    tracker.mark_at("cache_lookup_end", marks[3]);
    tracker.mark_at("backend_complete", marks[4]);
    assert!(tracker.measure_backend(hit, api).is_some());
}

#[test]
fn test_end_to_end_performance() {
    // Get overall performance stats
    let tracker = PerformanceTracker::new();
    let stats = tracker.get_stats();

    if stats.count > 0 {
        let avg_total_ms = stats.avg_total_ns as f64 / 1_000_000.0;
        let p95_total_ms = stats.p95_total_ns as f64 / 1_000_000.0;
        let p99_total_ms = stats.p99_total_ns as f64 / 1_000_000.0;
        println!("\n=== End-to-End Performance Stats ===");
        println!("Total measurements: {}", stats.count);
        println!("Average total time: {:.2}ms", avg_total_ms);
        println!("P95 total time: {:.2}ms", p95_total_ms);
        println!("P99 total time: {:.2}ms", p99_total_ms);
        println!("Cache hit rate: {:.1}%", stats.cache_hits as f64 / stats.count as f64 * 100.0);

        println!("\nBreakdown:");
        println!("  Text capture: {:.2}ms", stats.breakdown.text_capture_ns as f64 / 1_000_000.0);
        println!("  Cache lookup: {:.2}ms", stats.breakdown.cache_lookup_ns as f64 / 1_000_000.0);
        println!("  API call (avg): {:.2}ms", stats.breakdown.api_call_ns as f64 / 1_000_000.0);

        // Performance assertions
        assert!(avg_total_ms < 50.0, "Average total time should be < 50ms");
        assert!(p95_total_ms < 100.0, "P95 total time should be < 100ms");
    }
}

#[test]
fn test_cache_performance_benchmark() {
    // Create a cache with 10,000 capacity
    let mut cache = create_cache(10_000);

    // Pre-populate cache with test data
    let test_words = vec![
        ("example", "noun", vec!["a thing characteristic of its kind"]),
        ("test", "verb", vec!["to try out", "to examine"]),
        ("performance", "noun", vec!["the action of performing a task"]),
        ("cache", "noun", vec!["a store of things"]),
        ("memory", "noun", vec!["the faculty by which the mind stores info"]),
    ];

    for (word, pos, defs) in test_words {
        cache.insert(
            word.to_string(),
            Definition {
                word: word.to_string(),
                pronunciation: None,
                pos: pos.to_string(),
                definitions: defs.iter().map(|s| s.to_string()).collect(),
                frequency: None,
            },
        );
    }
    let mut dictionary_service =
        DictionaryService::new(cache, "http://localhost:3001".to_string());

    // Benchmark cache hits
    println!("\n=== Cache Hit Performance ===");
    let mut cache_times = Vec::new();

    for _ in 0..100 {
        dictionary_service.mark("hotkey_pressed");
        dictionary_service.mark("text_captured");

        let start = Instant::now();
        let found = dictionary_service.start_lookup("example");
        let duration = start.elapsed();
        assert!(matches!(found, LookupStart::Hit(_)));

        cache_times.push(duration.as_micros() as f64 / 1000.0); // Convert to ms
    }

    cache_times.sort_by(|a, b| a.partial_cmp(b).unwrap());
    let avg_cache = cache_times.iter().sum::<f64>() / cache_times.len() as f64;
    let p95_cache = cache_times[(cache_times.len() as f64 * 0.95) as usize];
    let p99_cache = cache_times[(cache_times.len() as f64 * 0.99) as usize];

    println!("Average cache hit time: {:.3}ms", avg_cache);
    println!("P95 cache hit time: {:.3}ms", p95_cache);
    println!("P99 cache hit time: {:.3}ms", p99_cache);
    println!("Min cache hit time: {:.3}ms", cache_times[0]);
    println!("Max cache hit time: {:.3}ms", cache_times[cache_times.len() - 1]);

    // Assert performance targets
    assert!(avg_cache < 1.0, "Average cache hit time should be < 1ms");
    assert!(p95_cache < 2.0, "P95 cache hit time should be < 2ms");
    assert!(p99_cache < 5.0, "P99 cache hit time should be < 5ms");

    let stats = dictionary_service.get_performance_stats();
    assert_eq!(stats.count, 100);
    assert_eq!(stats.cache_hits, 100);
    assert_eq!(stats.cache_hit_rate, 100);
}

#[test]
fn percentiles_are_rank_based() {
    let mut tracker = PerformanceTracker::new();
    // totals of 1 ms to 100 ms, fed in a scrambled order
    for k in 0..100u64 {
        let total = (k * 37 % 100 + 1) * MS;
        record(&mut tracker, [0, 0, 0, 0, total], true, None);
    }
    let stats = tracker.get_stats();
    assert_eq!(stats.count, 100);
    assert_eq!(stats.p50_total_ns, 51 * MS);
    assert_eq!(stats.p95_total_ns, 96 * MS);
    assert_eq!(stats.p99_total_ns, 100 * MS);
    assert_eq!(stats.min_total_ns, MS);
    assert_eq!(stats.max_total_ns, 100 * MS);
    assert_eq!(stats.sum_total_ns, 5050 * MS as u128);
    assert_eq!(stats.avg_total_ns, 50_500_000);
}

#[test]
fn percentiles_of_small_windows() {
    let mut tracker = PerformanceTracker::new();
    record(&mut tracker, [0, 0, 0, 0, 7], false, None);
    let one = tracker.get_stats();
    assert_eq!((one.min_total_ns, one.p50_total_ns, one.p95_total_ns, one.p99_total_ns, one.max_total_ns), (7, 7, 7, 7, 7));
    record(&mut tracker, [0, 0, 0, 0, 3], false, None);
    record(&mut tracker, [0, 0, 0, 0, 5], false, None);
    let three = tracker.get_stats();
    // sorted 3, 5, 7: ranks 3/2 = 1, 3*95/100 = 2, 3*99/100 = 2
    assert_eq!(three.p50_total_ns, 5);
    assert_eq!(three.p95_total_ns, 7);
    assert_eq!(three.p99_total_ns, 7);
    assert_eq!(three.avg_total_ns, 5);
}

#[test]
fn empty_window_gives_zero_stats() {
    let tracker = PerformanceTracker::new();
    let stats = tracker.get_stats();
    assert_eq!(stats.count, 0);
    assert_eq!(stats.avg_total_ns, 0);
    assert_eq!(stats.min_total_ns, 0);
    assert_eq!(stats.max_total_ns, 0);
    assert_eq!(stats.p50_total_ns, 0);
    assert_eq!(stats.p95_total_ns, 0);
    assert_eq!(stats.p99_total_ns, 0);
    assert_eq!(stats.cache_hits, 0);
    assert_eq!(stats.cache_hit_rate, 0);
    assert_eq!(stats.breakdown.text_capture_ns, 0);
    assert_eq!(stats.breakdown.cache_lookup_ns, 0);
    assert_eq!(stats.breakdown.api_call_ns, 0);
}

#[test]
fn sample_is_made_of_mark_differences() {
    let mut tracker = PerformanceTracker::new();
    tracker.mark_at("hotkey_pressed", 100);
    tracker.mark_at("text_captured", 130);
    tracker.mark_at("cache_lookup_start", 150);
    tracker.mark_at("cache_lookup_end", 190);
    tracker.mark_at("backend_complete", 1_000);
    let sample = tracker.measure_backend(false, Some(700)).unwrap();
    assert_eq!(sample.hotkey_to_text_capture, 30);
    assert_eq!(sample.text_capture_to_cache_lookup, 20);
    assert_eq!(sample.cache_lookup_time, 40);
    assert_eq!(sample.api_call_time, Some(700));
    assert_eq!(sample.total_backend_time, 900);
    assert!(!sample.cache_hit);
    assert_eq!(tracker.get_stats().count, 1);
}

#[test]
fn marks_out_of_order_give_zero_durations() {
    let mut tracker = PerformanceTracker::new();
    tracker.mark_at("hotkey_pressed", 500);
    tracker.mark_at("text_captured", 400);
    tracker.mark_at("cache_lookup_start", 300);
    tracker.mark_at("cache_lookup_end", 200);
    tracker.mark_at("backend_complete", 100);
    let sample = tracker.measure_backend(true, None).unwrap();
    assert_eq!(sample.hotkey_to_text_capture, 0);
    assert_eq!(sample.text_capture_to_cache_lookup, 0);
    assert_eq!(sample.cache_lookup_time, 0);
    assert_eq!(sample.total_backend_time, 0);
}

#[test]
fn missing_mark_measures_nothing() {
    let mut tracker = PerformanceTracker::new();
    assert!(tracker.measure_backend(true, None).is_none());
    tracker.mark_at("hotkey_pressed", 1);
    tracker.mark_at("text_captured", 2);
    tracker.mark_at("cache_lookup_start", 3);
    tracker.mark_at("cache_lookup_end", 4);
    assert!(tracker.measure_backend(true, None).is_none());
    assert_eq!(tracker.get_stats().count, 0);
    tracker.mark_at("backend_complete", 5);
    assert!(tracker.measure_backend(true, None).is_some());
    assert_eq!(tracker.get_stats().count, 1);
}

#[test]
fn marking_again_replaces_the_reading() {
    let mut tracker = PerformanceTracker::new();
    assert_eq!(tracker.reading("hotkey_pressed"), None);
    tracker.mark_at("hotkey_pressed", 10);
    tracker.mark_at("text_captured", 20);
    tracker.mark_at("hotkey_pressed", 15);
    assert_eq!(tracker.reading("hotkey_pressed"), Some(15));
    assert_eq!(tracker.reading("text_captured"), Some(20));
    assert_eq!(tracker.reading("other"), None);
}

#[test]
fn mark_reads_the_clock() {
    let mut tracker = PerformanceTracker::new();
    tracker.mark("a");
    let first = tracker.reading("a").unwrap();
    tracker.mark("b");
    let second = tracker.reading("b").unwrap();
    assert!(second >= first);
    assert_eq!(tracker.reading("a"), Some(first));
}

#[test]
fn window_drops_the_oldest_sample() {
    let mut tracker = PerformanceTracker::new();
    // the first sample is the only slow one
    record(&mut tracker, [0, 0, 0, 0, 999], true, None);
    for _ in 1..SAMPLE_WINDOW {
        record(&mut tracker, [0, 0, 0, 0, 1], false, None);
    }
    let full = tracker.get_stats();
    assert_eq!(full.count, SAMPLE_WINDOW);
    assert_eq!(full.max_total_ns, 999);
    assert_eq!(full.cache_hits, 1);
    record(&mut tracker, [0, 0, 0, 0, 2], false, None);
    let after = tracker.get_stats();
    assert_eq!(after.count, SAMPLE_WINDOW);
    assert_eq!(after.max_total_ns, 2);
    assert_eq!(after.cache_hits, 0);
}

#[test]
fn hit_rate_and_breakdown_are_averages() {
    let mut tracker = PerformanceTracker::new();
    record(&mut tracker, [0, 10, 10, 30, 100], true, None);
    record(&mut tracker, [0, 20, 20, 30, 200], false, Some(90));
    record(&mut tracker, [0, 40, 40, 45, 400], false, Some(31));
    let stats = tracker.get_stats();
    assert_eq!(stats.count, 3);
    assert_eq!(stats.cache_hits, 1);
    assert_eq!(stats.cache_hit_rate, 33);
    assert_eq!(stats.sum_total_ns, 700);
    assert_eq!(stats.avg_total_ns, 233);
    assert_eq!(stats.breakdown.text_capture_ns, 23);
    assert_eq!(stats.breakdown.cache_lookup_ns, 11);
    assert_eq!(stats.breakdown.api_call_ns, 60);
}

#[test]
fn reset_forgets_marks_and_samples() {
    let mut tracker = PerformanceTracker::new();
    record(&mut tracker, [0, 1, 2, 3, 4], true, None);
    tracker.reset();
    assert_eq!(tracker.get_stats().count, 0);
    assert_eq!(tracker.reading("hotkey_pressed"), None);
    assert!(tracker.measure_backend(true, None).is_none());
}

#[test]
fn stopwatch_counts_up() {
    let watch = Stopwatch::start();
    let a = watch.elapsed_nanos();
    let b = watch.elapsed_nanos();
    assert!(b >= a);
}

#[test]
fn nanoseconds_are_held_to_64_bits() {
    assert_eq!(clamp_nanos(0), 0);
    assert_eq!(clamp_nanos(12_345), 12_345);
    assert_eq!(clamp_nanos(u64::MAX as u128), u64::MAX);
    assert_eq!(clamp_nanos(u64::MAX as u128 + 1), u64::MAX);
    assert_eq!(clamp_nanos(u128::MAX), u64::MAX);
}
