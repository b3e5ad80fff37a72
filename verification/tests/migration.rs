use std::collections::HashMap;
use std::sync::{Arc, Mutex};

use nexus::clock::VectorClock;
use nexus::keymap::KeyMap;
use nexus::migrate::{
    check_schema_version, resolve_conflicts, settle_entry, AppSnapshot, ConflictPolicy,
    KeyRegistration, MigratableApp, MigrateError, SchemaAction, StateEntry,
};
use nexus::sdk::{
    export_snapshot, get_state_value, import_snapshot, init_global, put_state_value,
    register_key_internal, Global, MigrateSdk,
};
use nexus::transport::{
    clock_from_proto, decode_value, encode_value, policy_from_number, policy_to_number,
    proto_to_snapshot, pushed_conflicts, snapshot_to_proto, ProtoConflict, StoredValue,
};

type Store = Arc<Mutex<HashMap<String, (Vec<u8>, ConflictPolicy, u32)>>>;

fn clock(pairs: &[(&str, u64)]) -> VectorClock {
    let mut c = VectorClock::new();
    for (d, n) in pairs {
        c.set(d, *n);
    }
    c
}

fn entry(value: &[u8], conflict_policy: ConflictPolicy, schema_version: u32) -> StateEntry {
    StateEntry {
        value: value.to_vec(),
        conflict_policy,
        schema_version,
    }
}

fn snapshot(
    device_id: &str,
    counts: &[(&str, u64)],
    keys: Vec<(&str, &[u8], ConflictPolicy, u32)>,
) -> AppSnapshot {
    let mut map = KeyMap::new();
    for (k, v, p, s) in keys {
        map.insert(k.to_string(), entry(v, p, s));
    }
    AppSnapshot {
        device_id: device_id.to_string(),
        vector_clock: clock(counts),
        keys: map,
    }
}

fn keys_of(store: &Store) -> KeyMap<StateEntry> {
    let mut map = KeyMap::new();
    for (k, (v, p, s)) in store.lock().unwrap().iter() {
        map.insert(k.clone(), entry(v, *p, *s));
    }
    map
}

fn take(store: &Store, keys: &KeyMap<StateEntry>) {
    let mut s = store.lock().unwrap();
    s.clear();
    for i in 0..keys.len() {
        let e = keys.value_at(i);
        s.insert(
            keys.key_at(i).clone(),
            (e.value.clone(), e.conflict_policy, e.schema_version),
        );
    }
}

struct TestApp {
    store: Store,
}

impl MigratableApp for TestApp {
    fn export_state(&self) -> Result<AppSnapshot, MigrateError> {
        Ok(AppSnapshot {
            device_id: "test".to_string(),
            vector_clock: clock(&[("test", 1)]),
            keys: keys_of(&self.store),
        })
    }

    fn import_state(&self, snapshot: AppSnapshot) -> Result<(), MigrateError> {
        take(&self.store, &snapshot.keys);
        Ok(())
    }

    fn merge(&self, _key: &str, local: Vec<u8>, remote: Vec<u8>) -> Result<Vec<u8>, MigrateError> {
        // simple merge: pick longer value
        if local.len() >= remote.len() {
            Ok(local)
        } else {
            Ok(remote)
        }
    }
}

fn store_with(entries: Vec<(&str, &[u8], ConflictPolicy, u32)>) -> Store {
    Arc::new(Mutex::new(
        entries
            .into_iter()
            .map(|(k, v, p, s)| (k.to_string(), (v.to_vec(), p, s)))
            .collect(),
    ))
}

fn make_sdk_with(store: Store) -> MigrateSdk<TestApp> {
    let mut sdk = MigrateSdk::new(TestApp { store }, "test-device".to_string());
    sdk.register_key("k1".to_string(), ConflictPolicy::LastWriteWins, 1);
    sdk.register_key("k2".to_string(), ConflictPolicy::AppMerge, 1);
    sdk.register_key("k3".to_string(), ConflictPolicy::KeepBoth, 1);
    sdk
}

fn make_sdk() -> MigrateSdk<TestApp> {
    make_sdk_with(store_with(vec![]))
}

#[test]
fn t1_export_round_trip() {
    let mut sdk = make_sdk();
    let snapshot = sdk.export_snapshot().unwrap();
    assert_eq!(snapshot.device_id, "test-device");
    assert!(!snapshot.vector_clock.is_empty());
}

#[test]
fn t2_import_last_write_wins() {
    let mut sdk = make_sdk();
    let remote = snapshot(
        "remote",
        &[("remote", 1)],
        vec![("k1", b"remote-value", ConflictPolicy::LastWriteWins, 1)],
    );
    let conflicts = sdk.import_snapshot(remote).unwrap();
    assert!(conflicts.conflicts.is_empty());
}

#[test]
fn t3_import_app_merge_resolves_conflict() {
    let store = store_with(vec![(
        "k2",
        b"local-value-here",
        ConflictPolicy::AppMerge,
        1,
    )]);
    let mut sdk = make_sdk_with(store);
    sdk.export_snapshot().unwrap();

    let remote = snapshot(
        "remote",
        &[("remote", 1), ("test-device", 1)],
        vec![("k2", b"short", ConflictPolicy::AppMerge, 1)],
    );
    let conflicts = sdk.import_snapshot(remote).unwrap();
    assert!(conflicts.conflicts.is_empty());

    let exported = sdk.export_snapshot().unwrap();
    let entry = exported.keys.get("k2").unwrap();
    assert_eq!(entry.value, b"local-value-here");
}

#[test]
fn t4_import_keep_both_produces_conflict() {
    let store = store_with(vec![("k3", b"local-val", ConflictPolicy::KeepBoth, 1)]);
    let mut sdk = make_sdk_with(store);
    sdk.export_snapshot().unwrap();

    let remote = snapshot(
        "remote",
        &[("remote", 1), ("test-device", 1)],
        vec![("k3", b"remote-val", ConflictPolicy::KeepBoth, 1)],
    );
    let conflicts = sdk.import_snapshot(remote).unwrap();
    assert_eq!(conflicts.conflicts.len(), 1);
    assert_eq!(conflicts.conflicts[0].key, "k3");
}

#[test]
fn t5_schema_mismatch_drops_key() {
    let mut sdk = make_sdk();
    let remote = snapshot(
        "remote",
        &[],
        vec![("k1", b"v", ConflictPolicy::LastWriteWins, 99)],
    );
    let result = sdk.import_snapshot(remote).unwrap();
    assert_eq!(result.schema_dropped_keys, vec!["k1"]);
    assert!(result.conflicts.is_empty());
}

struct MigratingApp {
    store: Store,
}

impl MigratableApp for MigratingApp {
    fn export_state(&self) -> Result<AppSnapshot, MigrateError> {
        Ok(AppSnapshot {
            device_id: "test".to_string(),
            vector_clock: VectorClock::new(),
            keys: keys_of(&self.store),
        })
    }

    fn import_state(&self, snapshot: AppSnapshot) -> Result<(), MigrateError> {
        take(&self.store, &snapshot.keys);
        Ok(())
    }

    fn migrate_schema(
        &self,
        _key: &str,
        _from_version: u32,
        value: Vec<u8>,
    ) -> Result<Vec<u8>, MigrateError> {
        let mut v = value;
        v.push(b'-');
        v.push(b'm');
        Ok(v)
    }
}

#[test]
fn t6_import_with_schema_migration() {
    let app = MigratingApp {
        store: store_with(vec![]),
    };
    let mut sdk = MigrateSdk::new(app, "test-dev".to_string());
    sdk.register_key("k1".to_string(), ConflictPolicy::LastWriteWins, 2);

    let remote = snapshot(
        "remote",
        &[],
        vec![("k1", b"old-schema", ConflictPolicy::LastWriteWins, 1)],
    );
    let _ = sdk.import_snapshot(remote).unwrap();
    let exported = sdk.export_snapshot().unwrap();
    let entry = exported.keys.get("k1").unwrap();
    assert_eq!(entry.schema_version, 2);
    assert!(entry.value.ends_with(b"-m"));
}

#[test]
fn t7_global_api_round_trip() {
    let mut global = Global::new();
    let app = TestApp {
        store: store_with(vec![]),
    };
    init_global(&mut global, app, "global-dev".to_string()).unwrap();
    register_key_internal(
        &mut global,
        "g1",
        KeyRegistration {
            policy: ConflictPolicy::LastWriteWins,
            schema_version: 1,
        },
    );
    let snapshot = export_snapshot(&mut global);
    assert_eq!(snapshot.device_id, "global-dev");
    let conflicts = import_snapshot(&mut global, snapshot).unwrap();
    assert!(conflicts.conflicts.is_empty());
}

#[test]
fn nothing_is_shared_before_it_is_initialised() {
    let mut global: Global<TestApp> = Global::new();
    put_state_value(&mut global, "k", b"v".to_vec());
    assert_eq!(get_state_value(&global, "k"), None);
    let s = export_snapshot(&mut global);
    assert_eq!(s.device_id, "");
    assert!(s.keys.is_empty());
    let e = import_snapshot(&mut global, snapshot("x", &[], vec![])).unwrap_err();
    assert_eq!(
        e.to_string(),
        "callback failed: global SDK not initialised"
    );
}

#[test]
fn a_value_that_was_put_is_got_back() {
    let mut global = Global::new();
    let app = TestApp {
        store: store_with(vec![]),
    };
    init_global(&mut global, app, "d".to_string()).unwrap();
    put_state_value(&mut global, "k", b"v".to_vec());
    assert_eq!(get_state_value(&global, "k"), Some(b"v".to_vec()));
    assert_eq!(get_state_value(&global, "other"), None);
    let again = TestApp {
        store: store_with(vec![]),
    };
    let e = init_global(&mut global, again, "d".to_string()).unwrap_err();
    assert_eq!(
        e.to_string(),
        "callback failed: global SDK already initialised"
    );
}

struct BareApp;

impl MigratableApp for BareApp {
    fn export_state(&self) -> Result<AppSnapshot, MigrateError> {
        Ok(snapshot(
            "bare",
            &[("bare", 1)],
            vec![("k", b"mine", ConflictPolicy::AppMerge, 1)],
        ))
    }

    fn import_state(&self, _snapshot: AppSnapshot) -> Result<(), MigrateError> {
        Ok(())
    }
}

#[test]
fn an_application_that_does_not_merge_fails_the_import() {
    let mut sdk = MigrateSdk::new(BareApp, "bare".to_string());
    sdk.register_key("k".to_string(), ConflictPolicy::AppMerge, 1);
    let remote = snapshot(
        "remote",
        &[("remote", 1)],
        vec![("k", b"theirs", ConflictPolicy::AppMerge, 1)],
    );
    let e = sdk.import_snapshot(remote).unwrap_err();
    assert_eq!(
        e.to_string(),
        "callback failed: merge failed for 'k': unsupported operation: AppMerge"
    );
}

#[test]
fn an_application_that_does_not_migrate_drops_older_values() {
    let mut sdk = MigrateSdk::new(BareApp, "bare".to_string());
    sdk.register_key("old".to_string(), ConflictPolicy::LastWriteWins, 3);
    let remote = snapshot(
        "remote",
        &[("remote", 1)],
        vec![("old", b"v", ConflictPolicy::LastWriteWins, 2)],
    );
    let set = sdk.import_snapshot(remote).unwrap();
    assert_eq!(set.schema_dropped_keys, vec!["old"]);
}

#[test]
fn matching_versions_is_current() {
    let action = check_schema_version("k", 1, 1).unwrap();
    assert!(matches!(action, SchemaAction::Current));
}

#[test]
fn older_incoming_requires_migration() {
    let action = check_schema_version("k", 1, 2).unwrap();
    assert!(matches!(
        action,
        SchemaAction::Migrate {
            from_version: 1,
            ..
        }
    ));
}

#[test]
fn newer_incoming_returns_error() {
    let err = check_schema_version("k", 2, 1).unwrap_err();
    assert!(matches!(err, MigrateError::SchemaMismatch { .. }));
}

#[test]
fn errors_have_their_texts() {
    let err = check_schema_version("k", 2, 1).unwrap_err();
    assert_eq!(
        err.to_string(),
        "schema version mismatch for key 'k': incoming=2, local=1"
    );
    assert_eq!(
        MigrateError::Transport("x".to_string()).to_string(),
        "transport error: x"
    );
}

#[test]
fn settling_follows_the_schema() {
    let e = entry(b"v", ConflictPolicy::KeepBoth, 2);
    assert_eq!(settle_entry("k", &e, None, None).unwrap().value, b"v");
    assert_eq!(settle_entry("k", &e, Some(2), None).unwrap().value, b"v");
    assert!(settle_entry("k", &e, Some(1), Some(b"w".to_vec())).is_none());
    assert!(settle_entry("k", &e, Some(3), None).is_none());
    let m = settle_entry("k", &e, Some(3), Some(b"w".to_vec())).unwrap();
    assert_eq!(m, entry(b"w", ConflictPolicy::KeepBoth, 3));
}

#[test]
fn remote_dominates_uses_remote_values() {
    let local = snapshot("a", &[("a", 1)], vec![]);
    let remote = snapshot(
        "b",
        &[("a", 2)],
        vec![("k", b"remote", ConflictPolicy::LastWriteWins, 1)],
    );
    let (resolved, _) = resolve_conflicts(&local, &remote).unwrap();
    assert_eq!(resolved.get("k").unwrap().value, b"remote");
}

#[test]
fn local_dominates_keeps_local_values() {
    let local = snapshot(
        "a",
        &[("a", 2)],
        vec![("k", b"local", ConflictPolicy::LastWriteWins, 1)],
    );
    let remote = snapshot(
        "b",
        &[("a", 1)],
        vec![("k", b"remote", ConflictPolicy::LastWriteWins, 1)],
    );
    let (resolved, _) = resolve_conflicts(&local, &remote).unwrap();
    assert_eq!(resolved.get("k").unwrap().value, b"local");
}

#[test]
fn concurrent_last_write_wins_uses_remote() {
    let local = snapshot(
        "a",
        &[("a", 1)],
        vec![("k", b"local", ConflictPolicy::LastWriteWins, 1)],
    );
    let remote = snapshot(
        "b",
        &[("b", 1)],
        vec![("k", b"remote", ConflictPolicy::LastWriteWins, 1)],
    );
    let (resolved, _) = resolve_conflicts(&local, &remote).unwrap();
    assert_eq!(resolved.get("k").unwrap().value, b"remote");
}

#[test]
fn concurrent_keep_both_produces_conflict() {
    let local = snapshot(
        "a",
        &[("a", 1)],
        vec![("k", b"local", ConflictPolicy::KeepBoth, 1)],
    );
    let remote = snapshot(
        "b",
        &[("b", 1)],
        vec![("k", b"remote", ConflictPolicy::KeepBoth, 1)],
    );
    let (resolved, conflicts) = resolve_conflicts(&local, &remote).unwrap();
    assert_eq!(resolved.get("k").unwrap().value, b"local");
    assert_eq!(conflicts.conflicts.len(), 1);
    assert_eq!(conflicts.conflicts[0].key, "k");
}

#[test]
fn new_key_from_remote_is_added() {
    let local = snapshot("a", &[("a", 1)], vec![]);
    let remote = snapshot(
        "b",
        &[("a", 2)],
        vec![("k", b"val", ConflictPolicy::LastWriteWins, 1)],
    );
    let (resolved, _) = resolve_conflicts(&local, &remote).unwrap();
    assert_eq!(resolved.get("k").unwrap().value, b"val");
}

#[test]
fn an_own_snapshot_changes_nothing() {
    let s = snapshot(
        "a",
        &[("a", 1)],
        vec![("k", b"v", ConflictPolicy::KeepBoth, 1)],
    );
    let (resolved, set) = resolve_conflicts(&s, &s.clone()).unwrap();
    assert_eq!(resolved, s.keys);
    assert!(set.conflicts.is_empty());
}

#[test]
fn base64_round_trip() {
    let text = encode_value(b"hello world");
    assert_eq!(text, "aGVsbG8gd29ybGQ=");
    let decoded = decode_value(StoredValue::Text(text)).unwrap();
    assert_eq!(decoded, b"hello world");
}

#[test]
fn base64_backward_compat_legacy_array() {
    let decoded = decode_value(StoredValue::Numbers(vec![72, 101, 108, 108, 111])).unwrap();
    assert_eq!(decoded, b"Hello");
}

#[test]
fn base64_empty_value() {
    let decoded = decode_value(StoredValue::Text(encode_value(b""))).unwrap();
    assert!(decoded.is_empty());
}

#[test]
fn snapshot_round_trip_uses_base64() {
    let text = encode_value(b"\xff\xfe");
    assert_eq!(text, "//4=");
    let decoded = decode_value(StoredValue::Text(text)).unwrap();
    assert_eq!(decoded, b"\xff\xfe");
    assert!(decode_value(StoredValue::Text("not base64!".to_string())).is_none());
}

#[test]
fn a_snapshot_that_travels_arrives_as_it_was() {
    let s = snapshot(
        "dev",
        &[("a", 1), ("b", 2)],
        vec![
            ("k", b"v", ConflictPolicy::KeepBoth, 4),
            ("j", b"w", ConflictPolicy::AppMerge, 5),
        ],
    );
    let back = proto_to_snapshot(Some(snapshot_to_proto(&s))).unwrap();
    assert_eq!(back.device_id, s.device_id);
    assert_eq!(back.vector_clock, s.vector_clock);
    assert_eq!(back.keys, s.keys);
}

#[test]
fn what_cannot_have_been_sent_is_refused() {
    let e = proto_to_snapshot(None).unwrap_err();
    assert_eq!(e.to_string(), "transport error: empty snapshot");
    let s = snapshot("d", &[], vec![("k", b"v", ConflictPolicy::KeepBoth, 1)]);
    let mut p = snapshot_to_proto(&s);
    p.keys[0].1.policy = -7;
    let e = proto_to_snapshot(Some(p)).unwrap_err();
    assert_eq!(
        e.to_string(),
        "transport error: unknown conflict policy: -7"
    );
}

#[test]
fn policies_and_clocks_travel_as_numbers() {
    assert_eq!(policy_to_number(ConflictPolicy::AppMerge), 1);
    assert_eq!(policy_from_number(2), Some(ConflictPolicy::KeepBoth));
    assert_eq!(policy_from_number(3), None);
    assert!(clock_from_proto(&None).is_empty());
    assert_eq!(
        clock_from_proto(&Some(vec![("a".to_string(), 1), ("a".to_string(), 2)])),
        clock(&[("a", 2)])
    );
}

#[test]
fn pushed_conflicts_carry_no_version() {
    let set = pushed_conflicts(&vec![ProtoConflict {
        key: "k".to_string(),
        local_value: b"l".to_vec(),
        remote_value: b"r".to_vec(),
    }]);
    assert_eq!(set.conflicts[0].key, "k");
    assert_eq!(set.conflicts[0].remote_value, b"r");
    assert_eq!(set.conflicts[0].schema_version, 0);
}

#[test]
fn an_android_application_registers_by_number() {
    let mut global = Global::new();
    let app = TestApp { store: store_with(vec![]) };
    init_global(&mut global, app, "phone".to_string()).unwrap();
    assert!(nexus::android::register_key(&mut global, "k", 2, -1));
    assert!(!nexus::android::register_key(&mut global, "x", 3, 1));
    let state = global.state.as_ref().unwrap();
    let registration = state.sdk.registrations.get("k").unwrap();
    assert_eq!(registration.policy, ConflictPolicy::KeepBoth);
    assert_eq!(registration.schema_version, u32::MAX);
    assert!(state.sdk.registrations.get("x").is_none());
}

#[test]
fn an_import_takes_over_the_incoming_clock() {
    let mut sdk = make_sdk();
    let own = sdk.vector_clock.get("test-device");
    let remote = snapshot(
        "remote",
        &[("remote", 7)],
        vec![("k1", b"v", ConflictPolicy::LastWriteWins, 1)],
    );
    sdk.import_snapshot(remote).unwrap();
    assert_eq!(sdk.vector_clock.get("remote"), 7);
    assert_eq!(sdk.vector_clock.get("test-device"), own);
    let exported = sdk.export_snapshot().unwrap();
    assert_eq!(exported.vector_clock.get("remote"), 7);
    assert_eq!(exported.vector_clock.get("test-device"), own + 1);
}

#[test]
fn dropped_keys_are_listed_once_in_order() {
    let mut sdk = make_sdk();
    let remote = snapshot(
        "remote",
        &[("remote", 1)],
        vec![
            ("k3", b"x", ConflictPolicy::KeepBoth, 9),
            ("k1", b"x", ConflictPolicy::LastWriteWins, 9),
            ("k2", b"x", ConflictPolicy::AppMerge, 1),
        ],
    );
    let set = sdk.import_snapshot(remote).unwrap();
    assert_eq!(set.schema_dropped_keys, vec!["k1", "k3"]);
}
