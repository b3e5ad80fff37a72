use nexus::clock::VectorClock;
use nexus::gc::{
    excess_clocks, excess_tombstones, expired_tombstones, gc_sweep, is_orphaned, orphaned_clocks,
    GcConfig, GcReport, Observed,
};
use nexus::host::FileServiceImpl;
use nexus::keymap::KeySet;
use nexus::store::{ClockStore, FileValue, TombstoneStore};

fn clock(pairs: &[(&str, u64)]) -> VectorClock {
    let mut c = VectorClock::new();
    for (d, n) in pairs {
        c.set(d, *n);
    }
    c
}

fn stamped(entries: &[(&str, u64)]) -> Vec<(String, FileValue)> {
    entries
        .iter()
        .map(|(k, at)| (k.to_string(), FileValue::New(clock(&[("dell", 1)]), *at)))
        .collect()
}

fn service(clocks: &[(&str, u64)], tombstones: &[(&str, u64)]) -> FileServiceImpl {
    FileServiceImpl {
        clocks: ClockStore::open(stamped(clocks)),
        tombstones: TombstoneStore::open(stamped(tombstones)),
    }
}

fn set(keys: &[&str]) -> KeySet {
    let mut s = KeySet::new();
    for k in keys {
        s.insert(k);
    }
    s
}

fn seen(live: &[&str], contested: &[&str]) -> Observed {
    Observed { live: set(live), contested: set(contested) }
}

fn sweep(
    s: &mut FileServiceImpl,
    ttl: u64,
    max_entries: usize,
    live: &[&str],
    contested: &[&str],
) -> GcReport {
    let config = GcConfig { interval: 3600, tombstone_ttl: ttl, max_entries };
    gc_sweep(
        s,
        &config,
        100,
        &seen(live, contested),
        &seen(live, contested),
        &set(contested),
        &seen(live, contested),
    )
}

fn names(store: &TombstoneStore) -> Vec<String> {
    store.entries().into_iter().map(|(k, _)| k).collect()
}

#[test]
fn t1_ttl_evicts_old_tombstone() {
    let mut s = service(&[], &[("old.txt", 1), ("old2.txt", 0)]);
    let r = sweep(&mut s, 1, 50000, &[], &[]);
    assert_eq!(s.tombstones.len(), 1, "only old2.txt should remain");
    assert_eq!(names(&s.tombstones), vec!["old2.txt"], "old2.txt should be kept");
    assert_eq!(r.expired, vec!["old.txt"]);
}

#[test]
fn t2_live_file_clock_entry_not_removed() {
    let mut s = service(&[("live.txt", 1)], &[]);
    sweep(&mut s, 1, 0, &["live.txt"], &[]);
    assert_eq!(s.clocks.get("live.txt").get("dell"), 1);
}

#[test]
fn t3_hard_cap_evicts_oldest_tombstones() {
    let mut s = service(&[], &[("a.txt", 1), ("b.txt", 2)]);
    let r = sweep(&mut s, 9999, 1, &[], &[]);
    assert_eq!(s.tombstones.len(), 1, "only 1 entry should remain after cap eviction");
    assert_eq!(names(&s.tombstones), vec!["b.txt"], "b.txt should be kept");
    assert_eq!(r.capped_tombstones, vec!["a.txt"]);
}

#[test]
fn t4_hard_cap_does_not_evict_live_clock_entries() {
    let live = ["live0.txt", "live1.txt", "live2.txt", "live3.txt", "live4.txt"];
    let clocks: Vec<(&str, u64)> = live.iter().map(|n| (*n, 1)).collect();
    let mut s = service(&clocks, &[]);
    sweep(&mut s, 1, 2, &live, &[]);
    for name in live {
        assert_eq!(s.clocks.get(name).get("dell"), 1, "{name} should be preserved");
    }
}

#[test]
fn t5_gc_skips_contested_entries() {
    let mut s = service(&[], &[("contested.txt", 1)]);
    sweep(&mut s, 1, 50000, &[], &["contested.txt"]);
    assert_eq!(s.tombstones.len(), 1, "contested entry should not be removed");
}

#[test]
fn a_tombstone_whose_file_is_back_is_kept() {
    let mut s = service(&[], &[("back.txt", 1)]);
    sweep(&mut s, 1, 50000, &["back.txt"], &[]);
    assert_eq!(s.tombstones.len(), 1);
}

#[test]
fn an_old_clock_without_file_or_tombstone_goes() {
    let mut s = service(&[("gone.txt", 10), ("young.txt", 95), ("dateless.txt", 0)], &[]);
    let r = sweep(&mut s, 50, 50000, &[], &[]);
    assert_eq!(r.orphaned, vec!["gone.txt"]);
    assert_eq!(s.clocks.len(), 2);
}

#[test]
fn the_cap_takes_the_oldest_clocks_of_no_use() {
    let mut s = service(&[("a", 30), ("b", 20), ("c", 90), ("live", 1)], &[]);
    let r = sweep(&mut s, 9999, 2, &["live"], &[]);
    assert_eq!(r.capped_clocks, vec!["b", "a"]);
    assert_eq!(s.clocks.len(), 2);
    assert_eq!(s.clocks.get("live").get("dell"), 1);
    assert_eq!(s.clocks.get("c").get("dell"), 1);
}

#[test]
fn sweeping_again_finds_nothing() {
    let mut s = service(&[("gone.txt", 10)], &[("old.txt", 1), ("x", 99)]);
    sweep(&mut s, 50, 10, &[], &[]);
    let r = sweep(&mut s, 50, 10, &[], &[]);
    assert!(r.expired.is_empty() && r.orphaned.is_empty());
    assert!(r.capped_tombstones.is_empty() && r.capped_clocks.is_empty());
    assert_eq!(names(&s.tombstones), vec!["x"]);
}

#[test]
fn each_rule_picks_what_it_says() {
    let s = service(&[("a", 1), ("b", 2), ("c", 3)], &[("c", 40), ("d", 100)]);
    assert_eq!(expired_tombstones(&s.tombstones, 60, 100), vec!["c"]);
    assert!(is_orphaned(&s.tombstones, "a", false));
    assert!(!is_orphaned(&s.tombstones, "a", true));
    assert!(!is_orphaned(&s.tombstones, "c", false));
    assert_eq!(orphaned_clocks(&s.clocks, &s.tombstones, &set(&["b"]), 50, 100), vec!["a"]);
    assert_eq!(excess_tombstones(&s.tombstones, 1), vec!["c"]);
    assert!(excess_tombstones(&s.tombstones, 2).is_empty());
    assert_eq!(excess_clocks(&s.clocks, &s.tombstones, &set(&["b"]), 3, 1), vec!["a"]);
    let config = GcConfig::from_hours(6, 24, 7);
    assert_eq!(config.interval, 21_600);
    assert_eq!(config.tombstone_ttl, 86_400);
    assert_eq!(config.max_entries, 7);
}
