//! Moving the state of applications between devices: snapshots of keyed values, how an older
//! schema is brought up to date, and how two snapshots are brought together.
use vstd::prelude::*;
use vstd::string::*;

use crate::clock::{order, ClockOrder, Counts, VectorClock};
use crate::keymap::{
    ascending, lemma_ascending_distinct, lemma_filter_lists, lemma_filter_step, lemma_listed_once,
    lists, part, precedes_at, Duplicate, KeyMap,
};
use crate::text::{decimal, render_decimal};

verus! {

broadcast use vstd::seq_lib::group_seq_properties;

/// What is done where two devices have changed a value independently.
#[derive(Clone, Copy, Debug, PartialEq, Eq, Structural)]
pub enum ConflictPolicy {
    /// The incoming value is taken.
    LastWriteWins,
    /// The application is asked to merge the values.
    AppMerge,
    /// The own value stays, and both are reported.
    KeepBoth,
}

/// What can go wrong.
#[derive(Debug)]
pub enum MigrateError {
    SchemaMismatch { key: String, incoming: u32, local: u32 },
    Transport(String),
    UnsupportedOperation(String),
    CallbackFailed(String),
}

/// The text of an error.
pub open spec fn error_text(e: MigrateError) -> Seq<char> {
    match e {
        MigrateError::SchemaMismatch { key, incoming, local } => "schema version mismatch for key '"@
            + key@ + "': incoming="@ + decimal(incoming as nat) + ", local="@ + decimal(
            local as nat,
        ),
        MigrateError::Transport(s) => "transport error: "@ + s@,
        MigrateError::UnsupportedOperation(s) => "unsupported operation: "@ + s@,
        MigrateError::CallbackFailed(s) => "callback failed: "@ + s@,
    }
}

impl MigrateError {
    /// The text that is shown for the error.
    pub fn to_string(&self) -> (r: String)
        ensures
            r@ == error_text(*self),
    {
        match self {
            MigrateError::SchemaMismatch { key, incoming, local } => {
                let mut s: String = "schema version mismatch for key '".to_owned();
                s.append(key.as_str());
                s.append("': incoming=");
                let n = render_decimal(*incoming as u64);
                s.append(n.as_str());
                s.append(", local=");
                let n = render_decimal(*local as u64);
                s.append(n.as_str());
                s
            },
            MigrateError::Transport(m) => "transport error: ".to_owned().concat(m.as_str()),
            MigrateError::UnsupportedOperation(m) => {
                "unsupported operation: ".to_owned().concat(m.as_str())
            },
            MigrateError::CallbackFailed(m) => "callback failed: ".to_owned().concat(m.as_str()),
        }
    }
}

/// A value of an application, as contracts speak of it.
#[verifier::ext_equal]
pub struct EntryView {
    pub value: Seq<u8>,
    pub conflict_policy: ConflictPolicy,
    pub schema_version: u32,
}

/// A value of an application.
#[derive(Debug, PartialEq, Eq)]
pub struct StateEntry {
    pub value: Vec<u8>,
    pub conflict_policy: ConflictPolicy,
    pub schema_version: u32,
}

impl View for StateEntry {
    type V = EntryView;

    open spec fn view(&self) -> EntryView {
        EntryView {
            value: self.value@,
            conflict_policy: self.conflict_policy,
            schema_version: self.schema_version,
        }
    }
}

impl Duplicate for StateEntry {
    fn duplicate(&self) -> (r: Self) {
        StateEntry {
            value: self.value.duplicate(),
            conflict_policy: self.conflict_policy,
            schema_version: self.schema_version,
        }
    }
}

impl Clone for StateEntry {
    fn clone(&self) -> (r: Self)
        ensures
            r@ == self@,
    {
        self.duplicate()
    }
}

/// The values of an application by their keys, as contracts speak of them.
pub type Entries = Map<Seq<char>, EntryView>;

/// The state of an application, as contracts speak of it.
#[verifier::ext_equal]
pub struct SnapshotView {
    pub device_id: Seq<char>,
    pub vector_clock: Counts,
    pub keys: Entries,
}

/// The state of an application at one time on one device.
#[derive(Debug)]
pub struct AppSnapshot {
    pub device_id: String,
    pub vector_clock: VectorClock,
    pub keys: KeyMap<StateEntry>,
}

impl View for AppSnapshot {
    type V = SnapshotView;

    open spec fn view(&self) -> SnapshotView {
        SnapshotView {
            device_id: self.device_id@,
            vector_clock: self.vector_clock@,
            keys: self.keys@,
        }
    }
}

impl Duplicate for AppSnapshot {
    fn duplicate(&self) -> (r: Self) {
        AppSnapshot {
            device_id: self.device_id.clone(),
            vector_clock: self.vector_clock.duplicate(),
            keys: self.keys.duplicate(),
        }
    }
}

impl Clone for AppSnapshot {
    fn clone(&self) -> (r: Self)
        ensures
            r@ == self@,
    {
        self.duplicate()
    }
}

/// Two values of one key of which neither replaces the other, as contracts speak of them.
#[verifier::ext_equal]
pub struct ConflictView {
    pub local_value: Seq<u8>,
    pub remote_value: Seq<u8>,
    pub schema_version: u32,
}

/// Two values of one key of which neither replaces the other.
#[derive(Debug)]
pub struct ConflictEntry {
    pub key: String,
    pub local_value: Vec<u8>,
    pub remote_value: Vec<u8>,
    pub schema_version: u32,
}

impl View for ConflictEntry {
    type V = ConflictView;

    open spec fn view(&self) -> ConflictView {
        ConflictView {
            local_value: self.local_value@,
            remote_value: self.remote_value@,
            schema_version: self.schema_version,
        }
    }
}

impl ConflictEntry {
    /// The same conflict once more.
    pub fn duplicate(&self) -> (r: ConflictEntry)
        ensures
            r@ == self@,
            r.key@ == self.key@,
    {
        ConflictEntry {
            key: self.key.clone(),
            local_value: self.local_value.duplicate(),
            remote_value: self.remote_value.duplicate(),
            schema_version: self.schema_version,
        }
    }
}

/// Conflicts with their keys, as contracts speak of them.
pub open spec fn conflict_views(v: Seq<ConflictEntry>) -> Seq<(Seq<char>, ConflictView)> {
    v.map_values(|c: ConflictEntry| (c.key@, c@))
}

/// What an import leaves to be told: the conflicts that are open, and the keys whose values could
/// not be taken because of their schema.
#[derive(Debug)]
pub struct ConflictSet {
    pub conflicts: Vec<ConflictEntry>,
    pub schema_dropped_keys: Vec<String>,
}

impl Default for ConflictSet {
    fn default() -> (r: ConflictSet)
        ensures
            r.conflicts@.len() == 0,
            r.schema_dropped_keys@.len() == 0,
    {
        ConflictSet { conflicts: Vec::new(), schema_dropped_keys: Vec::new() }
    }
}

/// How an application handles a key, as contracts speak of it.
pub struct RegistrationView {
    pub policy: ConflictPolicy,
    pub schema_version: u32,
}

/// How an application handles a key.
#[derive(Clone, Copy, Debug, PartialEq, Eq)]
pub struct KeyRegistration {
    pub policy: ConflictPolicy,
    pub schema_version: u32,
}

impl View for KeyRegistration {
    type V = RegistrationView;

    open spec fn view(&self) -> RegistrationView {
        RegistrationView { policy: self.policy, schema_version: self.schema_version }
    }
}

/// How an application handles its keys, as contracts speak of it.
pub type Registrations = Map<Seq<char>, RegistrationView>;

/// What is to be done with a value because of its schema.
#[derive(Debug)]
pub enum SchemaAction {
    /// The versions agree.
    Current,
    /// The value is older: the application brings it up to date.
    Migrate { from_version: u32, value: Vec<u8> },
    /// The value is newer than the application.
    TooNew { incoming: u32, local: u32 },
}

/// Compares the schema version of an incoming value with that of the application. A newer one is
/// an error; for an older one, the caller fills in the value.
pub fn check_schema_version(key: &str, incoming_version: u32, local_version: u32) -> (r: Result<
    SchemaAction,
    MigrateError,
>)
    ensures
        match r {
            Ok(SchemaAction::Current) => incoming_version == local_version,
            Ok(SchemaAction::Migrate { from_version, value }) => incoming_version < local_version
                && from_version == incoming_version && value@.len() == 0,
            Ok(SchemaAction::TooNew { incoming, local }) => false,
            Err(MigrateError::SchemaMismatch { key: k, incoming, local }) => incoming_version
                > local_version && k@ == key@ && incoming == incoming_version && local
                == local_version,
            Err(_) => false,
        },
{
    if incoming_version == local_version {
        return Ok(SchemaAction::Current);
    }
    if incoming_version > local_version {
        return Err(
            MigrateError::SchemaMismatch {
                key: key.to_owned(),
                incoming: incoming_version,
                local: local_version,
            },
        );
    }
    Ok(SchemaAction::Migrate { from_version: incoming_version, value: Vec::new() })
}

/// An application that hands its state over and takes it back.
pub trait MigratableApp: Send + Sync {
    /// The whole current state.
    fn export_state(&self) -> Result<AppSnapshot, MigrateError>;

    /// Takes a state in which conflicts have been dealt with.
    fn import_state(&self, snapshot: AppSnapshot) -> Result<(), MigrateError>;

    /// Merges two values of a key that were changed independently.
    fn merge(&self, key: &str, local: Vec<u8>, remote: Vec<u8>) -> (r: Result<
        Vec<u8>,
        MigrateError,
    >)
        default_ensures
            r matches Err(MigrateError::UnsupportedOperation(s)) && s@ == "AppMerge"@,
    {
        Err(MigrateError::UnsupportedOperation("AppMerge".to_owned()))
    }

    /// Brings a value of an older schema up to date.
    fn migrate_schema(&self, key: &str, from_version: u32, value: Vec<u8>) -> (r: Result<
        Vec<u8>,
        MigrateError,
    >)
        default_ensures
            r matches Err(MigrateError::UnsupportedOperation(s)) && s@ == "migrate_schema"@,
    {
        Err(MigrateError::UnsupportedOperation("migrate_schema".to_owned()))
    }
}

/// Whether the application may answer `answer` when asked to bring `value` of `key` up to date;
/// no answer where it fails.
pub open spec fn may_migrate<A: MigratableApp>(
    app: A,
    key: Seq<char>,
    from_version: u32,
    value: Seq<u8>,
    answer: Option<Seq<u8>>,
) -> bool {
    exists|k: &str, v: Vec<u8>, out: Result<Vec<u8>, MigrateError>|
        k@ == key && v@ == value && #[trigger] call_ensures(
            A::migrate_schema,
            (&app, k, from_version, v),
            out,
        ) && answer == (match out {
            Ok(b) => Some(b@),
            Err(_) => None,
        })
}

/// What becomes of an incoming value because of its schema, where the application handles the key
/// at version `local`, if it handles it at all, and has answered `migrated` where it was asked to
/// bring the value up to date.
pub open spec fn settled(entry: EntryView, local: Option<u32>, migrated: Option<Seq<u8>>) -> Option<
    EntryView,
> {
    match local {
        None => Some(entry),
        Some(version) => if entry.schema_version == version {
            Some(entry)
        } else if entry.schema_version > version {
            None
        } else {
            match migrated {
                Some(value) => Some(EntryView { value, schema_version: version, ..entry }),
                None => None,
            }
        },
    }
}

/// The version at which a key is handled.
pub open spec fn version_of(regs: Registrations, key: Seq<char>) -> Option<u32> {
    if regs.dom().contains(key) {
        Some(regs[key].schema_version)
    } else {
        None
    }
}

/// Whether the application is asked to bring a value up to date.
pub open spec fn asks_for_migration(entry: EntryView, local: Option<u32>) -> bool {
    local matches Some(version) && entry.schema_version < version
}

/// The bytes that there may be.
pub open spec fn bytes_of(b: Option<Vec<u8>>) -> Option<Seq<u8>> {
    match b {
        Some(v) => Some(v@),
        None => None,
    }
}

/// What becomes of an incoming value because of its schema, where `migrated` is what the
/// application made of it if it was asked to bring it up to date and could.
pub fn settle_entry(key: &str, entry: &StateEntry, local: Option<u32>, migrated: Option<Vec<u8>>) -> (r:
    Option<StateEntry>)
    ensures
        match r {
            Some(e) => settled(entry@, local, bytes_of(migrated)) == Some(e@),
            None => settled(entry@, local, bytes_of(migrated)) is None,
        },
{
    match local {
        None => Some(entry.duplicate()),
        Some(version) => match check_schema_version(key, entry.schema_version, version) {
            Ok(SchemaAction::Current) => Some(entry.duplicate()),
            Ok(SchemaAction::Migrate { from_version, value }) => match migrated {
                Some(value) => Some(
                    StateEntry {
                        value,
                        conflict_policy: entry.conflict_policy,
                        schema_version: version,
                    },
                ),
                None => None,
            },
            _ => None,
        },
    }
}

/// What the application answers for each key that it is asked about.
pub type Answers = Map<Seq<char>, Option<Seq<u8>>>;

/// Whether `answers` are what the application may have answered for the first `n` of `entries`.
pub open spec fn answers_for<A: MigratableApp>(
    app: A,
    regs: Registrations,
    keys: Entries,
    answers: Answers,
) -> bool {
    forall|k: Seq<char>| #[trigger]
        keys.dom().contains(k) && asks_for_migration(keys[k], version_of(regs, k)) ==> may_migrate(
            app,
            k,
            keys[k].schema_version,
            keys[k].value,
            answers[k],
        )
}

/// The incoming values that can be taken, where the application has given `answers`.
pub open spec fn takeable(keys: Entries, regs: Registrations, answers: Answers) -> Entries {
    Map::new(
        |k: Seq<char>|
            keys.dom().contains(k) && settled(keys[k], version_of(regs, k), answers[k]) is Some,
        |k: Seq<char>| settled(keys[k], version_of(regs, k), answers[k])->0,
    )
}

/// Whether `dropped` are the keys whose values cannot be taken, each once, in the order of the keys.
pub open spec fn drops(
    keys: Entries,
    regs: Registrations,
    answers: Answers,
    dropped: Seq<Seq<char>>,
) -> bool {
    &&& ascending(dropped)
    &&& dropped.no_duplicates()
    &&& forall|k: Seq<char>| #[trigger]
        dropped.contains(k) <==> keys.dom().contains(k) && settled(
            keys[k],
            version_of(regs, k),
            answers[k],
        ) is None
}

/// The keys of a list.
pub open spec fn key_views(v: Seq<String>) -> Seq<Seq<char>> {
    v.map_values(|s: String| s@)
}

/// Keys of the first `i` entries stay in ascending order when the key of the next is put behind
/// them.
proof fn lemma_still_ascending<T>(l: Seq<(Seq<char>, T)>, i: int, some: Seq<Seq<char>>)
    requires
        ascending(l.map_values(|e: (Seq<char>, T)| e.0)),
        0 <= i < l.len(),
        ascending(some),
        forall|k: Seq<char>| #[trigger]
            some.contains(k) ==> exists|j: int| 0 <= j < i && #[trigger] l[j].0 == k,
    ensures
        ascending(some.push(l[i].0)),
{
    let keys = l.map_values(|e: (Seq<char>, T)| e.0);
    let more = some.push(l[i].0);
    assert forall|a: int, b: int| 0 <= a < b < more.len() implies precedes_at(more, a, b) by {
        if b < some.len() {
            assert(precedes_at(some, a, b));
        } else {
            assert(some.contains(some[a]));
            let j = choose|j: int| 0 <= j < i && #[trigger] l[j].0 == some[a];
            assert(precedes_at(keys, j, i));
        }
    }
}

/// Takes the values out of an incoming snapshot that cannot be taken because of their schema, has
/// the application bring the older ones up to date, and says which keys were dropped, in the order
/// of the keys.
pub fn filter_schema_keys<A: MigratableApp>(
    remote: &mut AppSnapshot,
    registrations: &KeyMap<KeyRegistration>,
    app: &A,
) -> (r: Vec<String>)
    ensures
        final(remote).device_id@ == old(remote).device_id@,
        final(remote).vector_clock@ == old(remote).vector_clock@,
        exists|answers: Answers| #[trigger]
            answers_for(*app, registrations@, old(remote).keys@, answers) && final(remote).keys@
                == takeable(old(remote).keys@, registrations@, answers) && drops(
                old(remote).keys@,
                registrations@,
                answers,
                key_views(r@),
            ),
{
    let ghost keys = remote.keys@;
    let ghost regs = registrations@;
    let n = remote.keys.len();
    let ghost l = remote.keys.listing();
    let mut kept: KeyMap<StateEntry> = KeyMap::new();
    let mut dropped: Vec<String> = Vec::new();
    let ghost mut answers: Answers = Map::empty();
    let mut i: usize = 0;
    while i < n
        invariant
            i <= n,
            n == l.len(),
            l == remote.keys.listing(),
            keys == remote.keys@,
            regs == registrations@,
            lists(l, keys),
            remote.device_id@ == old(remote).device_id@,
            remote.vector_clock@ == old(remote).vector_clock@,
            keys == old(remote).keys@,
            forall|j: int|
                0 <= j < i && asks_for_migration(
                    (#[trigger] l[j]).1,
                    version_of(regs, l[j].0),
                ) ==> may_migrate(*app, l[j].0, l[j].1.schema_version, l[j].1.value, answers[l[j].0]),
            forall|k: Seq<char>| #[trigger]
                kept@.dom().contains(k) <==> exists|j: int|
                    0 <= j < i && #[trigger] l[j].0 == k && settled(
                        l[j].1,
                        version_of(regs, k),
                        answers[k],
                    ) is Some,
            forall|k: Seq<char>| #[trigger]
                kept@.dom().contains(k) ==> keys.dom().contains(k) && settled(
                    keys[k],
                    version_of(regs, k),
                    answers[k],
                ) == Some(kept@[k]),
            forall|k: Seq<char>| #[trigger]
                key_views(dropped@).contains(k) <==> exists|j: int|
                    0 <= j < i && #[trigger] l[j].0 == k && settled(
                        l[j].1,
                        version_of(regs, k),
                        answers[k],
                    ) is None,
            ascending(key_views(dropped@)),
        decreases n - i,
    {
        let key = remote.keys.key_at(i).clone();
        let entry = remote.keys.value_at(i).duplicate();
        let local = match registrations.get(key.as_str()) {
            Some(reg) => Some(reg.schema_version),
            None => None,
        };
        let ghost k0 = l[i as int].0;
        let ghost e0 = l[i as int].1;
        proof {
            assert(keys.dom().contains(l[i as int].0));
            assert(local == version_of(regs, k0));
            assert(e0 == keys[k0]);
            assert forall|j: int| 0 <= j < i implies (#[trigger] l[j]).0 != k0 by {
                lemma_listed_once(l, keys, j, i as int);
            }
        }
        let asks = match local {
            Some(version) => entry.schema_version < version,
            None => false,
        };
        let migrated: Option<Vec<u8>> = if asks {
            let old = entry.value.duplicate();
            let answer = app.migrate_schema(key.as_str(), entry.schema_version, old);
            let out = match answer {
                Ok(b) => Some(b),
                Err(_) => None,
            };
            proof {
                assert(may_migrate(*app, k0, e0.schema_version, e0.value, bytes_of(out)));
            }
            out
        } else {
            None
        };
        let ghost before = answers;
        let ghost kept_before = kept@;
        let ghost dropped_before = key_views(dropped@);
        let ghost view = bytes_of(migrated);
        proof {
            answers = answers.insert(k0, view);
            assert forall|k: Seq<char>| k != k0 implies #[trigger] answers[k] == before[k] by {}
        }
        match settle_entry(key.as_str(), &entry, local, migrated) {
            Some(e) => {
                kept.insert(key, e);
            },
            None => {
                dropped.push(key);
                assert(key_views(dropped@) =~= dropped_before.push(k0));
                proof {
                    lemma_still_ascending(l, i as int, dropped_before);
                }
            },
        }
        proof {
            let gone = settled(e0, version_of(regs, k0), view) is None;
            assert forall|k: Seq<char>| #[trigger]
                kept@.dom().contains(k) <==> exists|j: int|
                    0 <= j < i + 1 && #[trigger] l[j].0 == k && settled(
                        l[j].1,
                        version_of(regs, k),
                        answers[k],
                    ) is Some by {
                if kept@.dom().contains(k) {
                    if k == k0 && !gone {
                        assert(l[i as int].0 == k);
                    } else {
                        assert(kept_before.dom().contains(k));
                        let j = choose|j: int|
                            0 <= j < i && #[trigger] l[j].0 == k && settled(
                                l[j].1,
                                version_of(regs, k),
                                before[k],
                            ) is Some;
                        assert(l[j].0 == k);
                    }
                }
                if exists|j: int|
                    0 <= j < i + 1 && #[trigger] l[j].0 == k && settled(
                        l[j].1,
                        version_of(regs, k),
                        answers[k],
                    ) is Some {
                    let j = choose|j: int|
                        0 <= j < i + 1 && #[trigger] l[j].0 == k && settled(
                            l[j].1,
                            version_of(regs, k),
                            answers[k],
                        ) is Some;
                    if j < i {
                        assert(l[j].0 != k0);
                        assert(kept_before.dom().contains(k));
                    }
                }
            }
            assert forall|k: Seq<char>| #[trigger] kept@.dom().contains(k) implies keys.dom().contains(
                k,
            ) && settled(keys[k], version_of(regs, k), answers[k]) == Some(kept@[k]) by {
                if !(k == k0 && !gone) {
                    assert(kept_before.dom().contains(k));
                    let j = choose|j: int|
                        0 <= j < i && #[trigger] l[j].0 == k && settled(
                            l[j].1,
                            version_of(regs, k),
                            before[k],
                        ) is Some;
                    assert(l[j].0 != k0);
                }
            }
            assert forall|k: Seq<char>| #[trigger]
                key_views(dropped@).contains(k) <==> exists|j: int|
                    0 <= j < i + 1 && #[trigger] l[j].0 == k && settled(
                        l[j].1,
                        version_of(regs, k),
                        answers[k],
                    ) is None by {
                if key_views(dropped@).contains(k) {
                    if k == k0 && gone {
                        assert(l[i as int].0 == k);
                    } else {
                        assert(dropped_before.contains(k));
                        let j = choose|j: int|
                            0 <= j < i && #[trigger] l[j].0 == k && settled(
                                l[j].1,
                                version_of(regs, k),
                                before[k],
                            ) is None;
                        assert(l[j].0 != k0);
                    }
                }
                if exists|j: int|
                    0 <= j < i + 1 && #[trigger] l[j].0 == k && settled(
                        l[j].1,
                        version_of(regs, k),
                        answers[k],
                    ) is None {
                    let j = choose|j: int|
                        0 <= j < i + 1 && #[trigger] l[j].0 == k && settled(
                            l[j].1,
                            version_of(regs, k),
                            answers[k],
                        ) is None;
                    if j < i {
                        assert(l[j].0 != k0);
                        assert(dropped_before.contains(k));
                    }
                }
            }
        }
        i = i + 1;
    }
    proof {
        assert forall|k: Seq<char>| #[trigger]
            keys.dom().contains(k) && asks_for_migration(
                keys[k],
                version_of(regs, k),
            ) implies may_migrate(*app, k, keys[k].schema_version, keys[k].value, answers[k]) by {
            let j = choose|j: int| 0 <= j < l.len() && #[trigger] l[j].0 == k;
            assert(keys.dom().contains(l[j].0));
        }
        assert forall|k: Seq<char>| keys.dom().contains(k) implies exists|j: int|
            0 <= j < l.len() && #[trigger] l[j].0 == k && l[j].1 == keys[k] by {
            let j = choose|j: int| 0 <= j < l.len() && #[trigger] l[j].0 == k;
            assert(keys.dom().contains(l[j].0));
        }
        assert forall|j: int| 0 <= j < l.len() implies keys.dom().contains((#[trigger] l[j]).0) && l[j].1
            == keys[l[j].0] by {
            assert(keys.dom().contains(l[j].0));
        }
        assert(answers_for(*app, regs, keys, answers));
        assert(kept@ =~= takeable(keys, regs, answers));
        lemma_ascending_distinct(key_views(dropped@));
        assert(drops(keys, regs, answers, key_views(dropped@)));
    }
    remote.keys = kept;
    dropped
}

/// The value that a key has after two snapshots were brought together that were changed
/// independently.
pub open spec fn chosen(local: Entries, remote: Entries, key: Seq<char>) -> EntryView {
    if !local.dom().contains(key) {
        remote[key]
    } else if remote.dom().contains(key) && remote[key].conflict_policy
        == ConflictPolicy::LastWriteWins {
        remote[key]
    } else {
        local[key]
    }
}

/// The values after two snapshots were brought together: those of the newer one, where the own one
/// counts as newer if neither is and takes over the keys that it lacks; and key by key where both
/// were changed independently.
pub open spec fn resolved_keys(local: SnapshotView, remote: SnapshotView) -> Entries {
    match order(local.vector_clock, remote.vector_clock) {
        ClockOrder::Dominates | ClockOrder::Equal => remote.keys.union_prefer_right(local.keys),
        ClockOrder::DominatedBy => remote.keys,
        ClockOrder::Concurrent => Map::new(
            |k: Seq<char>| local.keys.dom().contains(k) || remote.keys.dom().contains(k),
            |k: Seq<char>| chosen(local.keys, remote.keys, k),
        ),
    }
}

/// Whether an incoming value is in conflict with the own value of its key.
pub open spec fn in_conflict(local: Entries, e: (Seq<char>, EntryView)) -> bool {
    local.dom().contains(e.0) && e.1.conflict_policy != ConflictPolicy::LastWriteWins
}

/// The conflict between an incoming value and the own value of its key.
pub open spec fn conflict_of(local: Entries, e: (Seq<char>, EntryView)) -> (Seq<char>, ConflictView) {
    (
        e.0,
        ConflictView {
            local_value: local[e.0].value,
            remote_value: e.1.value,
            schema_version: e.1.schema_version,
        },
    )
}

/// The conflicts that are left when two snapshots are brought together.
pub open spec fn open_conflicts(local: SnapshotView, remote: SnapshotView) -> Map<
    Seq<char>,
    ConflictView,
> {
    if order(local.vector_clock, remote.vector_clock) == ClockOrder::Concurrent {
        Map::new(
            |k: Seq<char>|
                remote.keys.dom().contains(k) && in_conflict(local.keys, (k, remote.keys[k])),
            |k: Seq<char>| conflict_of(local.keys, (k, remote.keys[k])).1,
        )
    } else {
        Map::empty()
    }
}

/// Whether one of the first `n` entries is that of `k`.
spec fn listed(entries: Seq<(Seq<char>, EntryView)>, n: int, k: Seq<char>) -> bool {
    exists|j: int| 0 <= j < n && #[trigger] entries[j].0 == k
}

proof fn lemma_listed_step(entries: Seq<(Seq<char>, EntryView)>, n: int, k: Seq<char>)
    requires
        0 <= n < entries.len(),
    ensures
        listed(entries, n + 1, k) <==> listed(entries, n, k) || k == entries[n].0,
{
    if k == entries[n].0 {
        assert(entries[n].0 == k);
    }
    if listed(entries, n, k) {
        let j = choose|j: int| 0 <= j < n && #[trigger] entries[j].0 == k;
        assert(entries[j].0 == k);
    }
}

/// Conflicts of the entries of a list list the map of those conflicts.
proof fn lemma_conflicts_listed(
    local: Entries,
    l: Seq<(Seq<char>, EntryView)>,
    remote: Entries,
    out: Seq<(Seq<char>, ConflictView)>,
    m: Map<Seq<char>, ConflictView>,
)
    requires
        lists(l, remote),
        out == l.filter(|e: (Seq<char>, EntryView)| in_conflict(local, e)).map_values(
            |e: (Seq<char>, EntryView)| conflict_of(local, e),
        ),
        forall|k: Seq<char>| #[trigger]
            m.dom().contains(k) <==> remote.dom().contains(k) && in_conflict(local, (k, remote[k])),
        forall|k: Seq<char>| #[trigger]
            m.dom().contains(k) ==> m[k] == conflict_of(local, (k, remote[k])).1,
    ensures
        lists(out, m),
{
    let keep = |e: (Seq<char>, EntryView)| in_conflict(local, e);
    let f = l.filter(keep);
    lemma_filter_lists(l, remote, keep);
    let p = part(remote, keep);
    let kf = f.map_values(|e: (Seq<char>, EntryView)| e.0);
    let ko = out.map_values(|e: (Seq<char>, ConflictView)| e.0);
    assert(kf =~= ko);
    assert forall|i: int| 0 <= i < out.len() implies #[trigger] m.dom().contains(out[i].0)
        && m[out[i].0] == out[i].1 by {
        assert(p.dom().contains(f[i].0));
        assert(out[i] == conflict_of(local, f[i]));
        assert(f[i] == (f[i].0, remote[f[i].0]));
        assert(keep((f[i].0, remote[f[i].0])));
        assert(m.dom().contains(f[i].0));
    }
    assert forall|k: Seq<char>| #[trigger] m.dom().contains(k) implies exists|i: int|
        0 <= i < out.len() && #[trigger] out[i].0 == k by {
        assert(p.dom().contains(k));
        let i = choose|i: int| 0 <= i < f.len() && #[trigger] f[i].0 == k;
        assert(out[i].0 == k);
    }
}

/// Brings two snapshots together: the values that result, and the conflicts that are left, in the
/// order of their keys.
pub fn resolve_conflicts(local: &AppSnapshot, remote: &AppSnapshot) -> (r: Result<
    (KeyMap<StateEntry>, ConflictSet),
    MigrateError,
>)
    ensures
        r is Ok,
        r->Ok_0.0@ == resolved_keys(local@, remote@),
        lists(conflict_views(r->Ok_0.1.conflicts@), open_conflicts(local@, remote@)),
        r->Ok_0.1.schema_dropped_keys@.len() == 0,
{
    let ghost lk = local.keys@;
    let ghost rk = remote.keys@;
    let n = remote.keys.len();
    let ghost l = remote.keys.listing();
    let ghost keep = |e: (Seq<char>, EntryView)| in_conflict(lk, e);
    let ghost turn = |e: (Seq<char>, EntryView)| conflict_of(lk, e);
    match local.vector_clock.compare(&remote.vector_clock) {
        ClockOrder::Dominates | ClockOrder::Equal => {
            let mut resolved = local.keys.duplicate();
            let mut i: usize = 0;
            while i < n
                invariant
                    i <= n,
                    n == l.len(),
                    l == remote.keys.listing(),
                    lk == local.keys@,
                    rk == remote.keys@,
                    lists(l, rk),
                    forall|k: Seq<char>| #[trigger]
                        resolved@.dom().contains(k) <==> lk.dom().contains(k) || listed(
                            l,
                            i as int,
                            k,
                        ),
                    forall|k: Seq<char>| #[trigger]
                        resolved@.dom().contains(k) ==> resolved@[k] == (if lk.dom().contains(k) {
                            lk[k]
                        } else {
                            rk[k]
                        }),
                decreases n - i,
            {
                let key = remote.keys.key_at(i).clone();
                assert(rk.dom().contains(l[i as int].0));
                assert forall|k: Seq<char>| #[trigger]
                    listed(l, i + 1, k) <==> listed(l, i as int, k) || k == key@ by {
                    lemma_listed_step(l, i as int, k);
                }
                if !resolved.contains_key(key.as_str()) {
                    resolved.insert(key, remote.keys.value_at(i).duplicate());
                }
                i = i + 1;
            }
            assert forall|k: Seq<char>| #[trigger] listed(l, n as int, k) == rk.dom().contains(k) by {}
            assert(resolved@ =~= resolved_keys(local@, remote@));
            let set: ConflictSet = Default::default();
            assert(conflict_views(set.conflicts@) =~= Seq::empty());
            return Ok((resolved, set));
        },
        ClockOrder::DominatedBy => {
            let set: ConflictSet = Default::default();
            assert(conflict_views(set.conflicts@) =~= Seq::empty());
            return Ok((remote.keys.duplicate(), set));
        },
        ClockOrder::Concurrent => {},
    }
    let mut resolved = local.keys.duplicate();
    let mut conflicts: Vec<ConflictEntry> = Vec::new();
    proof {
        reveal(Seq::filter);
        assert(l.take(0).filter(keep) =~= Seq::empty());
        assert(conflict_views(conflicts@) =~= l.take(0).filter(keep).map_values(turn));
    }
    let mut i: usize = 0;
    while i < n
        invariant
            i <= n,
            n == l.len(),
            l == remote.keys.listing(),
            lk == local.keys@,
            rk == remote.keys@,
            lists(l, rk),
            keep == (|e: (Seq<char>, EntryView)| in_conflict(lk, e)),
            turn == (|e: (Seq<char>, EntryView)| conflict_of(lk, e)),
            forall|k: Seq<char>| #[trigger]
                resolved@.dom().contains(k) <==> lk.dom().contains(k) || listed(l, i as int, k),
            forall|k: Seq<char>| #[trigger]
                resolved@.dom().contains(k) ==> resolved@[k] == (if listed(l, i as int, k) {
                    chosen(lk, rk, k)
                } else {
                    lk[k]
                }),
            conflict_views(conflicts@) == l.take(i as int).filter(keep).map_values(turn),
        decreases n - i,
    {
        let key = remote.keys.key_at(i).clone();
        let entry = remote.keys.value_at(i);
        let ghost e0 = l[i as int];
        let ghost was = conflicts@;
        proof {
            assert(rk.dom().contains(l[i as int].0));
            assert forall|k: Seq<char>| #[trigger]
                listed(l, i + 1, k) <==> listed(l, i as int, k) || k == key@ by {
                lemma_listed_step(l, i as int, k);
            }
            assert forall|j: int| 0 <= j < i implies (#[trigger] l[j]).0 != key@ by {
                lemma_listed_once(l, rk, j, i as int);
            }
            assert(!listed(l, i as int, key@));
            lemma_filter_step(l, i as int, keep);
        }
        let mine = match resolved.get(key.as_str()) {
            Some(e) => Some(e.duplicate()),
            None => None,
        };
        match mine {
            None => {
                resolved.insert(key, entry.duplicate());
            },
            Some(own) => match entry.conflict_policy {
                ConflictPolicy::LastWriteWins => {
                    resolved.insert(key, entry.duplicate());
                },
                ConflictPolicy::AppMerge | ConflictPolicy::KeepBoth => {
                    assert(own@ == lk[key@]);
                    let c = ConflictEntry {
                        key,
                        local_value: own.value,
                        remote_value: entry.value.duplicate(),
                        schema_version: entry.schema_version,
                    };
                    conflicts.push(c);
                    assert(conflict_views(conflicts@) =~= conflict_views(was).push((c.key@, c@)));
                    assert((c.key@, c@) == turn(e0));
                    assert(l.take(i + 1).filter(keep).map_values(turn) =~= l.take(i as int).filter(
                        keep,
                    ).map_values(turn).push(turn(e0)));
                },
            },
        }
        i = i + 1;
    }
    proof {
        assert forall|k: Seq<char>| #[trigger] listed(l, n as int, k) == rk.dom().contains(k) by {}
        assert(resolved@ =~= resolved_keys(local@, remote@));
        assert(l.take(i as int) =~= l);
        lemma_conflicts_listed(
            lk,
            l,
            rk,
            conflict_views(conflicts@),
            open_conflicts(local@, remote@),
        );
    }
    Ok((resolved, ConflictSet { conflicts, schema_dropped_keys: Vec::new() }))
}

} // verus!
