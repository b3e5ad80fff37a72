use nexus::clock::{ClockOrder, VectorClock};
use nexus::store::{ClockStore, FileValue, TombstoneStore};

fn clock(pairs: &[(&str, u64)]) -> VectorClock {
    let mut c = VectorClock::new();
    for (d, n) in pairs {
        c.set(d, *n);
    }
    c
}

#[test]
fn equal_clocks() {
    assert_eq!(
        clock(&[("a", 1)]).compare(&clock(&[("a", 1)])),
        ClockOrder::Equal
    );
    assert_eq!(
        VectorClock::new().compare(&VectorClock::new()),
        ClockOrder::Equal
    );
}

#[test]
fn dominance() {
    assert_eq!(
        clock(&[("a", 1), ("b", 1)]).compare(&clock(&[("a", 1)])),
        ClockOrder::Dominates
    );
    assert_eq!(
        clock(&[("a", 1)]).compare(&clock(&[("a", 1), ("b", 1)])),
        ClockOrder::DominatedBy
    );
    assert_eq!(
        clock(&[("a", 1)]).compare(&VectorClock::new()),
        ClockOrder::Dominates
    );
}

#[test]
fn concurrent_is_a_conflict() {
    assert_eq!(
        clock(&[("dell", 2)]).compare(&clock(&[("dell", 1), ("phone", 1)])),
        ClockOrder::Concurrent
    );
    assert_eq!(
        clock(&[("a", 1)]).compare(&clock(&[("b", 1)])),
        ClockOrder::Concurrent
    );
}

#[test]
fn increment_and_merge() {
    let mut c = clock(&[("a", 1)]);
    c.increment("a");
    c.increment("b");
    assert_eq!(c.get("a"), 2);
    assert_eq!(c.get("b"), 1);

    let merged = clock(&[("a", 2), ("b", 1)]).merge(&clock(&[("a", 1), ("c", 5)]));
    assert_eq!(merged, clock(&[("a", 2), ("b", 1), ("c", 5)]));
}

#[test]
fn a_device_that_wrote_nothing_makes_no_difference() {
    assert_eq!(
        clock(&[("a", 1), ("b", 0)]).compare(&clock(&[("a", 1)])),
        ClockOrder::Equal
    );
}

#[test]
fn comparing_the_other_way_round_swaps_dominance() {
    let a = clock(&[("a", 3), ("b", 1)]);
    let b = clock(&[("a", 2)]);
    assert_eq!(a.compare(&b), ClockOrder::Dominates);
    assert_eq!(b.compare(&a), ClockOrder::DominatedBy);
}

#[test]
fn merging_is_commutative_and_idempotent() {
    let a = clock(&[("a", 3), ("b", 1)]);
    let b = clock(&[("b", 4), ("c", 2)]);
    assert_eq!(a.merge(&b), b.merge(&a));
    assert_eq!(a.merge(&a), a);
    assert_eq!(a.merge(&b), clock(&[("a", 3), ("b", 4), ("c", 2)]));
}

#[test]
fn independent_increments_conflict() {
    let base = clock(&[("a", 1)]);
    let mut x = base.clone();
    x.increment("x");
    let mut y = base.clone();
    y.increment("y");
    assert_eq!(x.compare(&base), ClockOrder::Dominates);
    assert_eq!(x.compare(&y), ClockOrder::Concurrent);
}

#[test]
fn store_roundtrips_and_persists() {
    let mut store = ClockStore::open(Vec::new());
    assert_eq!(store.get("missing"), VectorClock::new());
    store.put("dir/f.txt", clock(&[("dell", 3)]));
    let written: Vec<(String, FileValue)> = store
        .entries()
        .into_iter()
        .map(|(k, e)| (k, FileValue::New(e.clock, e.last_updated_at)))
        .collect();
    let store = ClockStore::open(written);
    assert_eq!(store.get("dir/f.txt"), clock(&[("dell", 3)]));
}

#[test]
fn tombstone_store_roundtrips_and_persists() {
    let mut store = TombstoneStore::open(Vec::new());
    assert_eq!(store.get("missing"), VectorClock::new());
    store.put("del.txt", clock(&[("dell", 2)]));
    let written: Vec<(String, FileValue)> = store
        .entries()
        .into_iter()
        .map(|(k, e)| (k, FileValue::New(e.clock, e.created_at)))
        .collect();
    let store = TombstoneStore::open(written);
    assert_eq!(store.get("del.txt"), clock(&[("dell", 2)]));
}

#[test]
fn tombstone_entry_gets_created_at() {
    let mut store = TombstoneStore::open(Vec::new());
    store.put("f.txt", clock(&[("a", 1)]));
    let entries = store.entries();
    let (_, entry) = entries.iter().find(|(k, _)| k == "f.txt").unwrap();
    assert!(
        entry.created_at > 0,
        "new tombstone should have created_at set"
    );
}

#[test]
fn a_tombstone_that_is_put_again_keeps_its_creation() {
    let mut store = TombstoneStore::open(Vec::new());
    store.put_at("f", clock(&[("a", 1)]), 10);
    store.put_at("f", clock(&[("a", 2)]), 20);
    assert_eq!(store.entries()[0].1.created_at, 10);
    assert_eq!(store.get("f"), clock(&[("a", 2)]));

    let mut live = ClockStore::open(Vec::new());
    live.put_at("f", clock(&[("a", 1)]), 10);
    live.put_at("f", clock(&[("a", 2)]), 20);
    assert_eq!(live.entries()[0].1.last_updated_at, 20);
}

#[test]
fn values_without_a_second_load_as_zero() {
    let store = ClockStore::open(vec![(
        "f".to_string(),
        FileValue::Old(clock(&[("a", 1)])),
    )]);
    assert_eq!(store.entries()[0].1.last_updated_at, 0);
    let store = TombstoneStore::open(vec![(
        "f".to_string(),
        FileValue::Old(clock(&[("a", 1)])),
    )]);
    assert_eq!(store.entries()[0].1.created_at, 0);
}

#[test]
fn removing_says_whether_there_was_something() {
    let mut store = ClockStore::open(Vec::new());
    assert!(store.is_empty());
    store.put_at("b", clock(&[("a", 1)]), 1);
    store.put_at("a", clock(&[("a", 1)]), 1);
    assert_eq!(store.len(), 2);
    let keys: Vec<String> = store.entries().into_iter().map(|(k, _)| k).collect();
    assert_eq!(keys, vec!["a".to_string(), "b".to_string()]);
    assert!(store.remove("a"));
    assert!(!store.remove("a"));
    assert_eq!(store.get("a"), VectorClock::new());
    assert_eq!(store.len(), 1);
}

#[test]
fn the_system_clock_is_past_the_epoch() {
    // 2020-01-01.
    assert!(nexus::wall::now_unix() > 1_577_836_800);
    assert_eq!(nexus::wall::seconds_or_epoch(None), 0);
    assert_eq!(nexus::wall::seconds_or_epoch(Some(7)), 7);
}
