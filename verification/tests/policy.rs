use flashield_lite::metrics::Metrics;
use flashield_lite::policy::{
    CachePolicy, DramLruCache, FlashieldConfig, FlashieldLiteCache, NaiveFlashCache,
};
use flashield_lite::trace::{Operation, TraceEvent};

fn trace_event(timestamp: u64, op: Operation, key: &str, size: u64) -> TraceEvent {
    TraceEvent {
        timestamp,
        op,
        key: key.to_string(),
        size,
    }
}

const DEFAULT_TEST_SEGMENT: u64 = 1;

fn hit_rate(metrics: &Metrics) -> f64 {
    let lookups = metrics.cache_hits + metrics.cache_misses;
    if lookups == 0 {
        0.0
    } else {
        metrics.cache_hits as f64 / lookups as f64
    }
}

#[test]
fn naive_flash_writes_every_set_and_update() {
    let events = [
        trace_event(1, Operation::Put, "synthetic:1", 100),
        trace_event(2, Operation::Update, "synthetic:1", 50),
    ];
    let mut cache = NaiveFlashCache::new(1024, 1024, DEFAULT_TEST_SEGMENT);
    let mut metrics = Metrics::default();

    for event in &events {
        cache.handle(event, &mut metrics);
    }
    cache.finish(&mut metrics);

    assert_eq!(metrics.logical_bytes_admitted, 150);
    assert_eq!(metrics.flash_bytes_written, 150);
}

#[test]
fn flashield_lite_admits_stable_read_worthy_objects() {
    let config = FlashieldConfig {
        dram_capacity: 1024,
        flash_capacity: 1024,
        segment_size: DEFAULT_TEST_SEGMENT,
        min_reads: 2,
        max_updates: 0,
        min_age: 2,
    };
    let events = [
        trace_event(1, Operation::Put, "synthetic:1", 128),
        trace_event(2, Operation::Get, "synthetic:1", 0),
        trace_event(3, Operation::Get, "synthetic:1", 0),
    ];
    let mut cache = FlashieldLiteCache::new(config);
    let mut metrics = Metrics::default();

    for event in &events {
        cache.handle(event, &mut metrics);
    }
    cache.finish(&mut metrics);

    assert_eq!(metrics.logical_bytes_admitted, 128);
    assert_eq!(metrics.flash_bytes_written, 128);
}

#[test]
fn update_heavy_workload_writes_less_with_flashield_lite() {
    let mut events = Vec::new();
    events.push(trace_event(1, Operation::Put, "synthetic:1", 128));
    for timestamp in 2..=40 {
        let op = if timestamp % 2 == 0 {
            Operation::Update
        } else {
            Operation::Get
        };
        events.push(trace_event(timestamp, op, "synthetic:1", 128));
    }

    let mut naive = NaiveFlashCache::new(1024, 4096, DEFAULT_TEST_SEGMENT);
    let mut naive_metrics = Metrics::default();
    for event in &events {
        naive.handle(event, &mut naive_metrics);
    }
    naive.finish(&mut naive_metrics);

    let config = FlashieldConfig {
        dram_capacity: 1024,
        flash_capacity: 4096,
        segment_size: DEFAULT_TEST_SEGMENT,
        min_reads: 2,
        max_updates: 1,
        min_age: 2,
    };
    let mut flashield = FlashieldLiteCache::new(config);
    let mut flashield_metrics = Metrics::default();
    for event in &events {
        flashield.handle(event, &mut flashield_metrics);
    }
    flashield.finish(&mut flashield_metrics);

    assert!(flashield_metrics.flash_bytes_written < naive_metrics.flash_bytes_written);
}

#[test]
fn read_heavy_stable_workload_keeps_reasonable_hit_rate() {
    let config = FlashieldConfig {
        dram_capacity: 128,
        flash_capacity: 4096,
        segment_size: DEFAULT_TEST_SEGMENT,
        min_reads: 2,
        max_updates: 0,
        min_age: 1,
    };
    let mut events = Vec::new();
    let mut timestamp = 1;
    for key in ["synthetic:1", "synthetic:2", "synthetic:3", "synthetic:4"] {
        events.push(trace_event(timestamp, Operation::Put, key, 64));
        timestamp += 1;
        events.push(trace_event(timestamp, Operation::Get, key, 0));
        timestamp += 1;
        events.push(trace_event(timestamp, Operation::Get, key, 0));
        timestamp += 1;
    }
    for _ in 0..5 {
        for key in ["synthetic:1", "synthetic:2", "synthetic:3", "synthetic:4"] {
            events.push(trace_event(timestamp, Operation::Get, key, 0));
            timestamp += 1;
        }
    }

    let mut cache = FlashieldLiteCache::new(config);
    let mut metrics = Metrics::default();
    for event in &events {
        cache.handle(event, &mut metrics);
    }
    cache.finish(&mut metrics);

    assert!(hit_rate(&metrics) >= 0.75);
    assert!(metrics.flash_hits > 0);
}

#[test]
fn dram_lru_counts_hits_misses_and_evictions() {
    let mut cache = DramLruCache::new(100);
    let mut metrics = Metrics::default();
    let events = [
        trace_event(1, Operation::Put, "a", 60),
        trace_event(2, Operation::Get, "a", 0),
        trace_event(3, Operation::Put, "b", 60),
        trace_event(4, Operation::Get, "a", 0),
        trace_event(5, Operation::Get, "b", 0),
        trace_event(6, Operation::Delete, "b", 0),
        trace_event(7, Operation::Get, "b", 0),
    ];
    for event in &events {
        cache.handle(event, &mut metrics);
    }
    cache.finish(&mut metrics);
    assert_eq!(metrics.total_requests, 7);
    assert_eq!(metrics.lookup_requests, 4);
    assert_eq!(metrics.cache_hits, 2);
    assert_eq!(metrics.dram_hits, 2);
    assert_eq!(metrics.cache_misses, 2);
    assert_eq!(metrics.evictions, 1);
    assert_eq!(metrics.flash_bytes_written, 0);
}

#[test]
fn naive_flash_promotes_flash_hits_into_dram() {
    let mut cache = NaiveFlashCache::new(100, 1000, 10);
    let mut metrics = Metrics::default();
    let events = [
        trace_event(1, Operation::Put, "a", 60),
        trace_event(2, Operation::Put, "b", 60),
        trace_event(3, Operation::Get, "a", 0),
        trace_event(4, Operation::Get, "a", 0),
    ];
    for event in &events {
        cache.handle(event, &mut metrics);
    }
    cache.finish(&mut metrics);
    assert_eq!(metrics.flash_hits, 1);
    assert_eq!(metrics.dram_hits, 1);
    assert_eq!(metrics.evictions, 2);
    assert_eq!(metrics.logical_bytes_admitted, 120);
    assert_eq!(metrics.flash_bytes_written, 120);
    assert_eq!(metrics.segment_flushes, 12);
}

#[test]
fn deleted_key_misses_in_every_policy() {
    let config = FlashieldConfig {
        dram_capacity: 1024,
        flash_capacity: 1024,
        segment_size: 1,
        min_reads: 0,
        max_updates: 5,
        min_age: 0,
    };
    let events = [
        trace_event(1, Operation::Put, "k", 10),
        trace_event(2, Operation::Get, "k", 0),
        trace_event(3, Operation::Delete, "k", 0),
        trace_event(4, Operation::Get, "k", 0),
    ];
    let mut dram = DramLruCache::new(1024);
    let mut naive = NaiveFlashCache::new(1024, 1024, 1);
    let mut flashield = FlashieldLiteCache::new(config);
    let (mut m1, mut m2, mut m3) = (Metrics::default(), Metrics::default(), Metrics::default());
    for event in &events {
        dram.handle(event, &mut m1);
        naive.handle(event, &mut m2);
        flashield.handle(event, &mut m3);
    }
    for m in [&m1, &m2, &m3] {
        assert_eq!(m.cache_hits, 1);
        assert_eq!(m.cache_misses, 1);
    }
}

#[test]
fn flashield_update_invalidates_flash_copy() {
    let config = FlashieldConfig {
        dram_capacity: 100,
        flash_capacity: 1000,
        segment_size: 1,
        min_reads: 0,
        max_updates: 0,
        min_age: 0,
    };
    let mut cache = FlashieldLiteCache::new(config);
    let mut metrics = Metrics::default();
    let events = [
        trace_event(1, Operation::Put, "k", 80),
        trace_event(2, Operation::Get, "k", 0),
        trace_event(3, Operation::Update, "k", 90),
        trace_event(4, Operation::Put, "other", 90),
        trace_event(5, Operation::Get, "k", 0),
    ];
    for event in &events {
        cache.handle(event, &mut metrics);
    }
    cache.finish(&mut metrics);
    // "k" was admitted on its first read, updated (dropping the flash copy) and then
    // evicted from DRAM without being eligible again, so the last get misses.
    assert_eq!(metrics.logical_bytes_admitted, 80);
    assert_eq!(metrics.cache_misses, 1);
    assert_eq!(metrics.dram_hits, 1);
}
