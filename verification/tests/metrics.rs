use flashield_lite::metrics::Metrics;
use flashield_lite::policy::{
    replay, run_to_end, CachePolicy, DramLruCache, FlashieldConfig, FlashieldLiteCache,
    NaiveFlashCache,
};
use flashield_lite::cli::{PolicyKind, SimulateOptions};
use flashield_lite::report::json_report;
use flashield_lite::simulate::simulate_trace;
use flashield_lite::trace::{Operation, TraceEvent};

#[test]
fn records_keep_lookups_split_into_hits_and_misses() {
    let mut m = Metrics::default();
    m.record_request();
    m.record_dram_hit();
    m.record_request();
    m.record_flash_hit();
    m.record_request();
    m.record_miss();
    assert_eq!(m.total_requests, 3);
    assert_eq!(m.lookup_requests, 3);
    assert_eq!(m.cache_hits, 2);
    assert_eq!(m.dram_hits, 1);
    assert_eq!(m.flash_hits, 1);
    assert_eq!(m.cache_misses, 1);
    m.absorb_flash_counters(10, 20, 30);
    assert_eq!(
        (m.flash_bytes_written, m.logical_bytes_admitted, m.segment_flushes),
        (10, 20, 30)
    );
    assert_eq!(m.evictions, 0);
}

fn event(timestamp: u64, op: Operation, key: &str, size: u64) -> TraceEvent {
    TraceEvent {
        timestamp,
        op,
        key: key.to_string(),
        size,
    }
}

#[test]
fn replay_handles_every_event_like_handle() {
    let events = vec![
        event(1, Operation::Put, "a", 10),
        event(2, Operation::Get, "a", 0),
        event(3, Operation::Get, "b", 0),
    ];
    let mut cache = DramLruCache::new(100);
    let mut metrics = Metrics::default();
    assert_eq!(replay(&mut cache, &events, &mut metrics), 3);
    let mut direct = DramLruCache::new(100);
    let mut direct_metrics = Metrics::default();
    for e in &events {
        direct.handle(e, &mut direct_metrics);
    }
    assert_eq!(metrics, direct_metrics);
}

#[test]
fn replay_stops_before_a_counter_would_overflow() {
    let events = vec![event(1, Operation::Get, "a", 0)];
    let mut cache = DramLruCache::new(100);
    let mut metrics = Metrics::default();
    metrics.total_requests = u64::MAX;
    assert_eq!(replay(&mut cache, &events, &mut metrics), 0);
    assert_eq!(metrics.total_requests, u64::MAX);
}

#[test]
fn a_full_counter_that_the_event_does_not_touch_is_no_obstacle() {
    let config = FlashieldConfig {
        dram_capacity: 1024,
        flash_capacity: 1024,
        segment_size: 1,
        min_reads: 1,
        max_updates: 1,
        min_age: 0,
    };
    let mut cache = FlashieldLiteCache::new(config);
    let mut full = Metrics::default();
    full.evictions = u64::MAX;
    full.cache_misses = u64::MAX;
    assert!(cache.try_handle(&event(1, Operation::Put, "a", 10), &mut full));
    assert!(cache.try_handle(&event(2, Operation::Get, "a", 0), &mut full));
    assert_eq!(full.dram_hits, 1);
    assert_eq!(full.evictions, u64::MAX);
    let mut dram = DramLruCache::new(100);
    let mut m = Metrics::default();
    m.cache_hits = u64::MAX;
    assert!(dram.try_handle(&event(1, Operation::Get, "b", 0), &mut m));
    assert_eq!(m.cache_misses, 1);
    assert!(dram.try_handle(&event(2, Operation::Put, "b", 10), &mut m));
    assert!(!dram.try_handle(&event(3, Operation::Get, "b", 0), &mut m));
}

#[test]
fn flashield_room_check_accepts_a_huge_dram_capacity() {
    let config = FlashieldConfig {
        dram_capacity: u64::MAX,
        flash_capacity: 1024,
        segment_size: 64,
        min_reads: 2,
        max_updates: 1,
        min_age: 2,
    };
    let mut cache = FlashieldLiteCache::new(config);
    let mut metrics = Metrics::default();
    let events = vec![event(1, Operation::Put, "a", 1), event(2, Operation::Get, "a", 0)];
    assert_eq!(run_to_end(&mut cache, &events, &mut metrics), Ok(()));
    assert_eq!(metrics.total_requests, 2);
    assert_eq!(metrics.dram_hits, 1);
}

#[test]
fn run_to_end_counts_every_event_and_every_get() {
    let events = vec![
        event(1, Operation::Put, "a", 40),
        event(2, Operation::Get, "a", 0),
        event(3, Operation::Put, "b", 40),
        event(4, Operation::Get, "c", 0),
        event(5, Operation::Delete, "a", 0),
        event(6, Operation::Get, "a", 0),
    ];
    let mut cache = NaiveFlashCache::new(1000, 1000, 64);
    let mut metrics = Metrics::default();
    assert_eq!(run_to_end(&mut cache, &events, &mut metrics), Ok(()));
    assert_eq!(metrics.total_requests, 6);
    assert_eq!(metrics.lookup_requests, 3);
    assert_eq!(metrics.cache_hits + metrics.cache_misses, 3);
    assert_eq!((metrics.dram_hits, metrics.cache_misses), (1, 2));
    assert_eq!(metrics.logical_bytes_admitted, 80);
    assert_eq!(metrics.segment_flushes, 2);
    assert_eq!(metrics.flash_bytes_written, 128);
}

#[test]
fn run_to_end_reports_counter_overflow() {
    let events = vec![event(1, Operation::Get, "a", 0)];
    let mut cache = DramLruCache::new(100);
    let mut metrics = Metrics::default();
    metrics.total_requests = u64::MAX;
    assert_eq!(
        run_to_end(&mut cache, &events, &mut metrics),
        Err("counter overflow".to_string())
    );
    assert_eq!(metrics.total_requests, u64::MAX);
}

#[test]
fn json_report_writes_every_counter() {
    let metrics = Metrics {
        total_requests: 10000,
        lookup_requests: 5012,
        cache_hits: 2419,
        cache_misses: 2593,
        dram_hits: 1834,
        flash_hits: 585,
        flash_bytes_written: 2097152,
        logical_bytes_admitted: 1636288,
        segment_flushes: 2,
        evictions: 0,
    };
    let expected = "{\n  \"policy\": \"flashield-lite\",\n  \"total_requests\": 10000,\n  \"lookup_requests\": 5012,\n  \"cache_hits\": 2419,\n  \"cache_misses\": 2593,\n  \"hit_rate\": 0.482642,\n  \"dram_hits\": 1834,\n  \"flash_hits\": 585,\n  \"flash_bytes_written\": 2097152,\n  \"logical_bytes_admitted\": 1636288,\n  \"write_amplification\": 1.281656,\n  \"segment_flushes\": 2,\n  \"evictions\": 0\n}";
    assert_eq!(json_report("flashield-lite", &metrics, "0.482642", "1.281656"), expected);
}

#[test]
fn simulate_trace_runs_the_named_policy() {
    let args: Vec<String> = ["--policy", "naive-flash", "--trace", "t", "--segment-size", "64"]
        .iter()
        .map(|a| a.to_string())
        .collect();
    let options = SimulateOptions::parse(&args).unwrap();
    let events = vec![
        event(1, Operation::Put, "a", 40),
        event(2, Operation::Get, "a", 0),
        event(3, Operation::Put, "b", 40),
        event(4, Operation::Get, "c", 0),
        event(5, Operation::Delete, "a", 0),
        event(6, Operation::Get, "a", 0),
    ];
    let naive = simulate_trace(PolicyKind::NaiveFlash, &options, &events).unwrap();
    assert_eq!((naive.total_requests, naive.lookup_requests), (6, 3));
    assert_eq!((naive.dram_hits, naive.cache_misses), (1, 2));
    assert_eq!(naive.flash_bytes_written, 128);
    assert_eq!(naive.segment_flushes, 2);
    let dram = simulate_trace(PolicyKind::DramLru, &options, &events).unwrap();
    assert_eq!((dram.dram_hits, dram.cache_misses), (1, 2));
    assert_eq!(dram.flash_bytes_written, 0);
    let lite = simulate_trace(PolicyKind::FlashieldLite, &options, &events).unwrap();
    assert_eq!(lite.total_requests, 6);
    assert_eq!(lite.logical_bytes_admitted, 0);
}
