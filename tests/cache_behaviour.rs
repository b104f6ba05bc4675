use breeze::cache::Cache;
use breeze::config::CacheConfig;

fn cfg(mem_capacity: usize, max_length: u64, upload_lifetime: u64) -> CacheConfig {
    CacheConfig { max_length, upload_lifetime, scan_freq: 1000, mem_capacity }
}

#[test]
fn added_entry_reads_back() {
    let mut c = Cache::with_config(cfg(1 << 20, 1 << 20, 60_000));
    assert!(c.add("k", vec![1, 2, 3], 10));
    assert_eq!(c.get("k", 10), Some(vec![1, 2, 3]));
    assert_eq!(c.len(), 3);
}

#[test]
fn replacing_an_entry_counts_its_bytes_once() {
    let mut c = Cache::with_config(cfg(1 << 20, 1 << 20, 60_000));
    assert!(c.add("k", vec![0; 10], 1));
    assert!(!c.add("k", vec![0; 4], 2));
    assert_eq!(c.len(), 4);
}

#[test]
fn eviction_under_pressure() {
    let mut c = Cache::with_config(cfg(1000, 10_000, 60_000));
    for (i, k) in ["K1", "K2", "K3", "K4", "K5"].iter().enumerate() {
        c.add(k, vec![7; 300], i as u64 + 1);
    }
    c.add("K6", vec![8; 300], 6);
    assert!(c.len() <= 1000);
    assert_eq!(c.len(), 900);
    assert!(!c.has("K1", 6));
    assert!(!c.has("K2", 6));
    assert!(!c.has("K3", 6));
    assert!(c.has("K4", 6));
    assert!(c.has("K5", 6));
    assert!(c.has("K6", 6));
    assert_eq!(c.get("K6", 6), Some(vec![8; 300]));
}

#[test]
fn admissions_that_fit_evict_nothing() {
    let mut c = Cache::with_config(cfg(1000, 10_000, 60_000));
    for (i, k) in ["a", "b", "c", "d"].iter().enumerate() {
        c.add(k, vec![1; 250], i as u64);
    }
    assert_eq!(c.len(), 1000);
    for k in ["a", "b", "c", "d"] {
        assert!(c.has(k, 5));
    }
}

#[test]
fn oversized_entry_stays_alone() {
    let mut c = Cache::with_config(cfg(100, 10_000, 60_000));
    c.add("small", vec![1; 50], 1);
    c.add("big", vec![2; 500], 2);
    assert!(!c.has("small", 2));
    assert_eq!(c.len(), 500);
}

#[test]
fn least_recently_used_leaves_first() {
    let mut c = Cache::with_config(cfg(300, 10_000, 60_000));
    c.add("old", vec![1; 100], 1);
    c.add("mid", vec![1; 100], 2);
    c.add("new", vec![1; 100], 3);
    // reading "old" makes it the most recently used
    assert!(c.get("old", 4).is_some());
    c.add("next", vec![1; 100], 5);
    assert!(c.has("old", 5));
    assert!(!c.has("mid", 5));
    assert!(c.has("new", 5));
}

#[test]
fn sweep_past_all_lifetimes_empties_the_cache() {
    let mut c = Cache::with_config(cfg(1 << 20, 1 << 20, 1000));
    c.add("a", vec![1; 10], 0);
    c.add("b", vec![1; 20], 500);
    c.add_with_lifetime("t", vec![1; 5], 100, false, 200);
    c.scan(10_000);
    assert_eq!(c.len(), 0);
    assert!(!c.has("a", 10_000));
}

#[test]
fn sweep_keeps_live_entries() {
    let mut c = Cache::with_config(cfg(1 << 20, 1 << 20, 1000));
    c.add("a", vec![1; 10], 0);
    c.add("b", vec![1; 20], 900);
    c.scan(1000);
    assert!(!c.has("a", 1000));
    assert!(c.has("b", 1000));
    assert_eq!(c.len(), 20);
}

#[test]
fn expired_entry_is_dropped_on_read() {
    let mut c = Cache::with_config(cfg(1 << 20, 1 << 20, 1000));
    c.add("a", vec![1; 10], 0);
    assert_eq!(c.get("a", 999), Some(vec![1; 10]));
    // the read renewed it at 999
    assert_eq!(c.get("a", 1998), Some(vec![1; 10]));
    assert_eq!(c.get("a", 2998), None);
    assert_eq!(c.len(), 0);
}

#[test]
fn temporary_entry_is_not_renewed() {
    let mut c = Cache::with_config(cfg(1 << 20, 1 << 20, 60_000));
    c.add_with_lifetime("t", vec![1], 1000, false, 0);
    assert!(c.get("t", 900).is_some());
    assert!(c.get("t", 1000).is_none());
}

#[test]
fn clock_moving_backward_keeps_entry() {
    let mut c = Cache::with_config(cfg(1 << 20, 1 << 20, 10));
    c.add("a", vec![1], 5000);
    assert!(c.has("a", 10));
}

#[test]
fn remove_reports_presence() {
    let mut c = Cache::with_config(cfg(1 << 20, 1 << 20, 1000));
    c.add("a", vec![1; 3], 0);
    assert_eq!(c.remove("a"), Some(()));
    assert_eq!(c.remove("a"), None);
    assert_eq!(c.len(), 0);
}

#[test]
fn will_use_is_inclusive() {
    let c = Cache::with_config(cfg(10, 100, 1000));
    assert!(c.will_use(100));
    assert!(!c.will_use(101));
}
