//! What an application links to: registering keys, exporting its state and importing that of
//! another device.
use vstd::prelude::*;
use vstd::string::*;

use crate::clock::{
    count, covers, joined, law_increment_dominates, law_merge_is_least_upper_bound, order, ticked,
    ClockOrder, Counts, VectorClock,
};
use crate::keymap::{
    lemma_filter_lists, lemma_filter_step, lists, part, Duplicate, KeyMap,
};
use crate::migrate::{
    answers_for, conflict_views, drops, error_text, filter_schema_keys, key_views, open_conflicts,
    resolve_conflicts, resolved_keys, takeable, Answers, AppSnapshot, ConflictEntry, ConflictPolicy,
    ConflictSet, ConflictView, Entries, EntryView, KeyRegistration, MigratableApp, MigrateError,
    RegistrationView, Registrations, SnapshotView, StateEntry,
};

verus! {

broadcast use vstd::seq_lib::group_seq_properties;

/// Whether the application may hand `snapshot` over.
pub open spec fn may_export<A: MigratableApp>(app: A, snapshot: SnapshotView) -> bool {
    exists|s: AppSnapshot| s@ == snapshot && #[trigger] call_ensures(A::export_state, (&app,), Ok(s))
}

/// Whether the application may fail with `e` when it is to hand its state over.
pub open spec fn may_fail_export<A: MigratableApp>(app: A, e: MigrateError) -> bool {
    call_ensures(A::export_state, (&app,), Err(e))
}

/// Whether the application may take `snapshot`.
pub open spec fn may_import<A: MigratableApp>(app: A, snapshot: SnapshotView) -> bool {
    exists|s: AppSnapshot, out: Result<(), MigrateError>|
        s@ == snapshot && out is Ok && #[trigger] call_ensures(A::import_state, (&app, s), out)
}

/// Whether the application may fail with `e` when it is to take `snapshot`.
pub open spec fn may_fail_import<A: MigratableApp>(app: A, snapshot: SnapshotView, e: MigrateError) -> bool {
    exists|s: AppSnapshot|
        s@ == snapshot && #[trigger] call_ensures(A::import_state, (&app, s), Err(e))
}

/// Whether the application may merge two values of `key` into `merged`.
pub open spec fn may_merge<A: MigratableApp>(
    app: A,
    key: Seq<char>,
    c: ConflictView,
    merged: Seq<u8>,
) -> bool {
    exists|k: &str, local: Vec<u8>, remote: Vec<u8>, out: Vec<u8>|
        k@ == key && local@ == c.local_value && remote@ == c.remote_value && out@ == merged
            && #[trigger] call_ensures(A::merge, (&app, k, local, remote), Ok(out))
}

/// The text of the error where the application fails to merge two values of `key`.
pub open spec fn merge_failure(key: Seq<char>, e: MigrateError) -> Seq<char> {
    "merge failed for '"@ + key + "': "@ + error_text(e)
}

/// Whether the application may fail to merge two values of `key`, so that the import fails with
/// `e`.
pub open spec fn may_fail_merge<A: MigratableApp>(
    app: A,
    key: Seq<char>,
    c: ConflictView,
    e: MigrateError,
) -> bool {
    exists|k: &str, local: Vec<u8>, remote: Vec<u8>, inner: MigrateError|
        k@ == key && local@ == c.local_value && remote@ == c.remote_value && #[trigger] call_ensures(
            A::merge,
            (&app, k, local, remote),
            Err(inner),
        ) && (e matches MigrateError::CallbackFailed(m) && m@ == merge_failure(key, inner))
}

/// Whether the application merges the values of a key that are in conflict.
pub open spec fn app_merges(regs: Registrations, key: Seq<char>) -> bool {
    regs.dom().contains(key) && regs[key].policy == ConflictPolicy::AppMerge
}

/// Whether `merges` are what the application may have merged the conflicts into.
pub open spec fn merges_for<A: MigratableApp>(
    app: A,
    regs: Registrations,
    conflicts: Map<Seq<char>, ConflictView>,
    merges: Map<Seq<char>, Seq<u8>>,
) -> bool {
    forall|k: Seq<char>| #[trigger]
        conflicts.dom().contains(k) && app_merges(regs, k) ==> may_merge(
            app,
            k,
            conflicts[k],
            merges[k],
        )
}

/// The values once the merged ones have taken the place of those that were in conflict.
pub open spec fn with_merged(
    keys: Entries,
    regs: Registrations,
    conflicts: Map<Seq<char>, ConflictView>,
    merges: Map<Seq<char>, Seq<u8>>,
) -> Entries {
    Map::new(
        |k: Seq<char>|
            keys.dom().contains(k) || (conflicts.dom().contains(k) && app_merges(regs, k)),
        |k: Seq<char>|
            if conflicts.dom().contains(k) && app_merges(regs, k) {
                EntryView {
                    value: merges[k],
                    conflict_policy: ConflictPolicy::AppMerge,
                    schema_version: conflicts[k].schema_version,
                }
            } else {
                keys[k]
            },
    )
}

/// The conflicts that the application does not merge.
pub open spec fn unmerged(conflicts: Map<Seq<char>, ConflictView>, regs: Registrations) -> Map<
    Seq<char>,
    ConflictView,
> {
    part(conflicts, |e: (Seq<char>, ConflictView)| !app_merges(regs, e.0))
}

/// Whether one of the first `n` conflicts is that of `k`.
spec fn seen(l: Seq<(Seq<char>, ConflictView)>, n: int, k: Seq<char>) -> bool {
    exists|j: int| 0 <= j < n && #[trigger] l[j].0 == k
}

/// Has the application merge the conflicts of the keys that it has registered for that: the values
/// that result, and the conflicts that are left. Stops at the first merge that fails.
fn merge_conflicts<A: MigratableApp>(
    app: &A,
    regs: &KeyMap<KeyRegistration>,
    keys: KeyMap<StateEntry>,
    conflicts: Vec<ConflictEntry>,
    open: Ghost<Map<Seq<char>, ConflictView>>,
) -> (r: Result<(KeyMap<StateEntry>, Vec<ConflictEntry>), MigrateError>)
    requires
        lists(conflict_views(conflicts@), open@),
    ensures
        match r {
            Ok((merged, left)) => exists|merges: Map<Seq<char>, Seq<u8>>| #[trigger]
                merges_for(*app, regs@, open@, merges) && merged@ == with_merged(
                    keys@,
                    regs@,
                    open@,
                    merges,
                ) && lists(conflict_views(left@), unmerged(open@, regs@)),
            Err(e) => exists|k: Seq<char>| #[trigger]
                open@.dom().contains(k) && app_merges(regs@, k) && may_fail_merge(
                    *app,
                    k,
                    open@[k],
                    e,
                ),
        },
{
    let ghost l = conflict_views(conflicts@);
    let ghost rv = regs@;
    let ghost before = keys@;
    let ghost keep = |e: (Seq<char>, ConflictView)| !app_merges(rv, e.0);
    let mut keys = keys;
    let mut left: Vec<ConflictEntry> = Vec::new();
    let ghost mut merges: Map<Seq<char>, Seq<u8>> = Map::empty();
    proof {
        reveal(Seq::filter);
        assert(conflict_views(left@) =~= l.take(0).filter(keep));
    }
    let mut i: usize = 0;
    while i < conflicts.len()
        invariant
            i <= conflicts@.len(),
            l == conflict_views(conflicts@),
            lists(l, open@),
            rv == regs@,
            keep == (|e: (Seq<char>, ConflictView)| !app_merges(rv, e.0)),
            conflict_views(left@) == l.take(i as int).filter(keep),
            forall|j: int|
                0 <= j < i && app_merges(rv, (#[trigger] l[j]).0) ==> may_merge(
                    *app,
                    l[j].0,
                    l[j].1,
                    merges[l[j].0],
                ),
            forall|k: Seq<char>| #[trigger]
                keys@.dom().contains(k) <==> before.dom().contains(k) || (seen(l, i as int, k)
                    && app_merges(rv, k)),
            forall|k: Seq<char>| #[trigger]
                keys@.dom().contains(k) ==> keys@[k] == (if seen(l, i as int, k) && app_merges(
                    rv,
                    k,
                ) {
                    EntryView {
                        value: merges[k],
                        conflict_policy: ConflictPolicy::AppMerge,
                        schema_version: open@[k].schema_version,
                    }
                } else {
                    before[k]
                }),
        decreases conflicts@.len() - i,
    {
        let c = &conflicts[i];
        let ghost k0 = l[i as int].0;
        let ghost old_keys = keys@;
        let ghost old_merges = merges;
        proof {
            assert(l[i as int] == (c.key@, c@));
            assert(open@.dom().contains(l[i as int].0));
            lemma_filter_step(l, i as int, keep);
            assert forall|k: Seq<char>| #[trigger]
                seen(l, i + 1, k) <==> seen(l, i as int, k) || k == k0 by {
                if k == k0 {
                    assert(l[i as int].0 == k);
                }
                if seen(l, i as int, k) {
                    let j = choose|j: int| 0 <= j < i && #[trigger] l[j].0 == k;
                    assert(l[j].0 == k);
                }
            }
            assert forall|j: int| 0 <= j < i implies (#[trigger] l[j]).0 != k0 by {
                crate::keymap::lemma_listed_once(l, open@, j, i as int);
            }
        }
        let by_app = match regs.get(c.key.as_str()) {
            Some(reg) => reg.policy == ConflictPolicy::AppMerge,
            None => false,
        };
        if by_app {
            let local = c.local_value.duplicate();
            let remote = c.remote_value.duplicate();
            match app.merge(c.key.as_str(), local, remote) {
                Ok(merged) => {
                    proof {
                        assert(may_merge(*app, k0, l[i as int].1, merged@));
                        merges = merges.insert(k0, merged@);
                    }
                    keys.insert(
                        c.key.clone(),
                        StateEntry {
                            value: merged,
                            conflict_policy: ConflictPolicy::AppMerge,
                            schema_version: c.schema_version,
                        },
                    );
                },
                Err(e) => {
                    let mut m: String = "merge failed for '".to_owned();
                    m.append(c.key.as_str());
                    m.append("': ");
                    let inner = e.to_string();
                    m.append(inner.as_str());
                    let failed = MigrateError::CallbackFailed(m);
                    assert(may_fail_merge(*app, k0, open@[k0], failed));
                    return Err(failed);
                },
            }
        } else {
            let ghost was = left@;
            let again = c.duplicate();
            left.push(again);
            assert(conflict_views(left@) =~= conflict_views(was).push((again.key@, again@)));
        }
        proof {
            assert forall|k: Seq<char>| k != k0 implies #[trigger] merges[k] == old_merges[k] by {}
            assert(!seen(l, i as int, k0));
        }
        i = i + 1;
    }
    proof {
        assert(l.take(i as int) =~= l);
        lemma_filter_lists(l, open@, keep);
        assert forall|k: Seq<char>| #[trigger] seen(l, i as int, k) == open@.dom().contains(k) by {
            if seen(l, i as int, k) {
                let j = choose|j: int| 0 <= j < i && #[trigger] l[j].0 == k;
                assert(open@.dom().contains(l[j].0));
            }
        }
        assert forall|k: Seq<char>| #[trigger]
            open@.dom().contains(k) && app_merges(rv, k) implies may_merge(
            *app,
            k,
            open@[k],
            merges[k],
        ) by {
            let j = choose|j: int| 0 <= j < l.len() && #[trigger] l[j].0 == k;
            assert(open@.dom().contains(l[j].0));
        }
        assert(merges_for(*app, rv, open@, merges));
        assert(keys@ =~= with_merged(before, rv, open@, merges));
        assert(unmerged(open@, rv) =~= part(open@, keep));
    }
    Ok((keys, left))
}

/// What the application answers to the calls of an import, and what was handed to it.
pub struct Exchange {
    /// The own state.
    pub local: SnapshotView,
    /// What values of an older schema were brought up to date to.
    pub answers: Answers,
    /// What values in conflict were merged into.
    pub merges: Map<Seq<char>, Seq<u8>>,
}

/// The incoming snapshot without the values that cannot be taken.
pub open spec fn filtered(remote: SnapshotView, regs: Registrations, x: Exchange) -> SnapshotView {
    SnapshotView { keys: takeable(remote.keys, regs, x.answers), ..remote }
}

/// The snapshot that the application is handed in the end.
pub open spec fn handed_back(
    device_id: Seq<char>,
    clock: Counts,
    regs: Registrations,
    remote: SnapshotView,
    x: Exchange,
) -> SnapshotView {
    let taken = filtered(remote, regs, x);
    SnapshotView {
        device_id,
        vector_clock: clock,
        keys: with_merged(
            resolved_keys(x.local, taken),
            regs,
            open_conflicts(x.local, taken),
            x.merges,
        ),
    }
}

/// Whether the application may have taken part in an import in this way, up to merging.
pub open spec fn may_resolve<A: MigratableApp>(
    app: A,
    regs: Registrations,
    remote: SnapshotView,
    x: Exchange,
) -> bool {
    &&& may_export(app, x.local)
    &&& answers_for(app, regs, remote.keys, x.answers)
}

/// Whether the application may have taken part in an import in this way, with all values in
/// conflict merged that it merges.
pub open spec fn may_settle<A: MigratableApp>(
    app: A,
    regs: Registrations,
    remote: SnapshotView,
    x: Exchange,
) -> bool {
    &&& may_resolve(app, regs, remote, x)
    &&& merges_for(app, regs, open_conflicts(x.local, filtered(remote, regs, x)), x.merges)
}

/// Whether an import may have gone through, where the own clock was `clock`, and left these
/// conflicts open and these keys dropped.
pub open spec fn imported<A: MigratableApp>(
    app: A,
    regs: Registrations,
    device_id: Seq<char>,
    clock: Counts,
    remote: SnapshotView,
    conflicts: Seq<(Seq<char>, ConflictView)>,
    dropped: Seq<Seq<char>>,
) -> bool {
    exists|x: Exchange| #[trigger]
        may_settle(app, regs, remote, x) && lists(
            conflicts,
            unmerged(open_conflicts(x.local, filtered(remote, regs, x)), regs),
        ) && drops(remote.keys, regs, x.answers, dropped) && may_import(
            app,
            handed_back(device_id, joined(clock, remote.vector_clock), regs, remote, x),
        )
}

/// Whether an import may have failed with `e` and left the clock `after`: because the application
/// does not hand its state over or fails to merge two values, which leaves the clock as it was, or
/// because it does not take the result, once the incoming clock has been merged.
pub open spec fn import_failed<A: MigratableApp>(
    app: A,
    regs: Registrations,
    device_id: Seq<char>,
    clock: Counts,
    remote: SnapshotView,
    e: MigrateError,
    after: Counts,
) -> bool {
    ||| after == clock && may_fail_export(app, e)
    ||| after == clock && exists|x: Exchange, k: Seq<char>| #[trigger]
        may_resolve(app, regs, remote, x) && #[trigger] app_merges(regs, k) && open_conflicts(
            x.local,
            filtered(remote, regs, x),
        ).dom().contains(k) && may_fail_merge(
            app,
            k,
            open_conflicts(x.local, filtered(remote, regs, x))[k],
            e,
        )
    ||| after == joined(clock, remote.vector_clock) && exists|x: Exchange| #[trigger]
        may_settle(app, regs, remote, x) && may_fail_import(
            app,
            handed_back(device_id, joined(clock, remote.vector_clock), regs, remote, x),
            e,
        )
}

/// The library for one application on one device.
#[derive(Debug)]
pub struct MigrateSdk<A: MigratableApp> {
    pub app: A,
    pub registrations: KeyMap<KeyRegistration>,
    pub device_id: String,
    pub vector_clock: VectorClock,
}

impl<A: MigratableApp> MigrateSdk<A> {
    /// The library for an application that has registered no key.
    pub fn new(app: A, device_id: String) -> (r: MigrateSdk<A>)
        ensures
            r.app == app,
            r.device_id@ == device_id@,
            r.registrations@ == Registrations::empty(),
            r.vector_clock@ == Counts::empty(),
    {
        MigrateSdk {
            app,
            registrations: KeyMap::new(),
            device_id,
            vector_clock: VectorClock::new(),
        }
    }

    /// Registers how a key is handled, and counts that as a change by this device.
    pub fn register_key(&mut self, key: String, policy: ConflictPolicy, schema_version: u32)
        requires
            count(old(self).vector_clock@, old(self).device_id@) < u64::MAX,
        ensures
            final(self).app == old(self).app,
            final(self).device_id@ == old(self).device_id@,
            final(self).registrations@ == old(self).registrations@.insert(
                key@,
                RegistrationView { policy, schema_version },
            ),
            final(self).vector_clock@ == ticked(old(self).vector_clock@, old(self).device_id@),
    {
        self.registrations.insert(key, KeyRegistration { policy, schema_version });
        self.vector_clock.increment(self.device_id.as_str());
    }

    /// The application's state under this device's name, counted as a change by it.
    pub fn export_snapshot(&mut self) -> (r: Result<AppSnapshot, MigrateError>)
        requires
            count(old(self).vector_clock@, old(self).device_id@) < u64::MAX,
        ensures
            final(self).app == old(self).app,
            final(self).device_id@ == old(self).device_id@,
            final(self).registrations@ == old(self).registrations@,
            match r {
                Ok(s) => {
                    &&& final(self).vector_clock@ == ticked(
                        old(self).vector_clock@,
                        old(self).device_id@,
                    )
                    &&& s.device_id@ == old(self).device_id@
                    &&& s.vector_clock@ == final(self).vector_clock@
                    &&& exists|state: SnapshotView| #[trigger]
                        may_export(old(self).app, state) && s.keys@ == state.keys
                },
                Err(e) => final(self).vector_clock@ == old(self).vector_clock@ && may_fail_export(
                    old(self).app,
                    e,
                ),
            },
    {
        match self.app.export_state() {
            Ok(s) => {
                assert(may_export(self.app, s@));
                let mut snapshot = s;
                snapshot.device_id = self.device_id.clone();
                self.vector_clock.increment(self.device_id.as_str());
                snapshot.vector_clock = self.vector_clock.duplicate();
                Ok(snapshot)
            },
            Err(e) => Err(e),
        }
    }

    /// Brings an incoming snapshot together with the application's own state, merges the clocks of
    /// both, and hands the result to the application. What is told are the conflicts that are left and the keys that were
    /// dropped because of their schema, both in the order of the keys.
    pub fn import_snapshot(&mut self, remote: AppSnapshot) -> (r: Result<ConflictSet, MigrateError>)
        ensures
            final(self).app == old(self).app,
            final(self).device_id@ == old(self).device_id@,
            final(self).registrations@ == old(self).registrations@,
            match r {
                Ok(set) => final(self).vector_clock@ == joined(
                    old(self).vector_clock@,
                    remote@.vector_clock,
                ) && imported(
                    old(self).app,
                    old(self).registrations@,
                    old(self).device_id@,
                    old(self).vector_clock@,
                    remote@,
                    conflict_views(set.conflicts@),
                    key_views(set.schema_dropped_keys@),
                ),
                Err(e) => import_failed(
                    old(self).app,
                    old(self).registrations@,
                    old(self).device_id@,
                    old(self).vector_clock@,
                    remote@,
                    e,
                    final(self).vector_clock@,
                ),
            },
    {
        let ghost remote_view = remote@;
        let ghost regs = self.registrations@;
        let local = match self.app.export_state() {
            Ok(s) => s,
            Err(e) => {
                return Err(e);
            },
        };
        assert(may_export(self.app, local@));
        let mut remote = remote;
        let dropped = filter_schema_keys(&mut remote, &self.registrations, &self.app);
        let ghost answers = choose|answers: Answers| #[trigger]
            answers_for(self.app, regs, remote_view.keys, answers) && remote.keys@ == takeable(
                remote_view.keys,
                regs,
                answers,
            ) && drops(remote_view.keys, regs, answers, key_views(dropped@));
        let (resolved, set) = match resolve_conflicts(&local, &remote) {
            Ok(pair) => pair,
            Err(e) => {
                return Err(e);
            },
        };
        let ghost open = open_conflicts(local@, remote@);
        let ghost x0 = Exchange { local: local@, answers, merges: Map::empty() };
        proof {
            assert(filtered(remote_view, regs, x0) =~= remote@);
            assert(may_resolve(self.app, regs, remote_view, x0));
        }
        let (keys, left) = match merge_conflicts(
            &self.app,
            &self.registrations,
            resolved,
            set.conflicts,
            Ghost(open),
        ) {
            Ok(pair) => pair,
            Err(e) => {
                proof {
                    let k = choose|k: Seq<char>| #[trigger]
                        open.dom().contains(k) && app_merges(regs, k) && may_fail_merge(
                            self.app,
                            k,
                            open[k],
                            e,
                        );
                    assert(may_resolve(self.app, regs, remote_view, x0) && app_merges(regs, k));
                }
                return Err(e);
            },
        };
        let ghost merges = choose|merges: Map<Seq<char>, Seq<u8>>| #[trigger]
            merges_for(self.app, regs, open, merges) && keys@ == with_merged(
                resolved_keys(local@, remote@),
                regs,
                open,
                merges,
            );
        let ghost x = Exchange { local: local@, answers, merges };
        self.vector_clock = self.vector_clock.merge(&remote.vector_clock);
        let handed = AppSnapshot {
            device_id: self.device_id.clone(),
            vector_clock: self.vector_clock.duplicate(),
            keys,
        };
        let ghost handed_view = handed@;
        proof {
            assert(filtered(remote_view, regs, x) =~= remote@);
            assert(may_settle(self.app, regs, remote_view, x));
            assert(handed_view =~= handed_back(
                self.device_id@,
                self.vector_clock@,
                regs,
                remote_view,
                x,
            ));
        }
        match self.app.import_state(handed) {
            Ok(_) => {
                assert(may_import(self.app, handed_view));
                Ok(ConflictSet { conflicts: left, schema_dropped_keys: dropped })
            },
            Err(e) => {
                assert(may_fail_import(self.app, handed_view, e));
                Err(e)
            },
        }
    }
}

/// What a process shares: nothing until it is initialised, then the library for its application
/// and the values that were put.
#[derive(Debug)]
pub struct Global<A: MigratableApp> {
    pub state: Option<GlobalState<A>>,
}

/// The library for the application of a process, and the values that were put.
#[derive(Debug)]
pub struct GlobalState<A: MigratableApp> {
    pub sdk: MigrateSdk<A>,
    pub store: KeyMap<StateEntry>,
}

impl<A: MigratableApp> Global<A> {
    /// What a process shares before it is initialised.
    pub fn new() -> (r: Global<A>)
        ensures
            r.state is None,
    {
        Global { state: None }
    }
}

/// Whether the count of this device can go up once more.
pub open spec fn countable<A: MigratableApp>(g: Global<A>) -> bool {
    g.state matches Some(s) ==> count(s.sdk.vector_clock@, s.sdk.device_id@) < u64::MAX
}

/// Initialises what the process shares, once.
pub fn init_global<A: MigratableApp>(global: &mut Global<A>, app: A, device_id: String) -> (r: Result<
    (),
    MigrateError,
>)
    ensures
        match old(global).state {
            None => r is Ok && (final(global).state matches Some(s) && s.sdk.app == app
                && s.sdk.device_id@ == device_id@ && s.sdk.registrations@ == Registrations::empty()
                && s.sdk.vector_clock@ == Counts::empty() && s.store@ == Entries::empty()),
            Some(_) => *final(global) == *old(global) && (r matches Err(
                MigrateError::CallbackFailed(m),
            ) && m@ == "global SDK already initialised"@),
        },
{
    match &global.state {
        Some(_) => Err(MigrateError::CallbackFailed("global SDK already initialised".to_owned())),
        None => {
            global.state = Some(
                GlobalState { sdk: MigrateSdk::new(app, device_id), store: KeyMap::new() },
            );
            Ok(())
        },
    }
}

/// Registers how a key is handled; nothing happens where nothing was initialised.
pub fn register_key_internal<A: MigratableApp>(
    global: &mut Global<A>,
    key: &str,
    registration: KeyRegistration,
)
    requires
        countable(*old(global)),
    ensures
        match (old(global).state, final(global).state) {
            (None, None) => true,
            (Some(a), Some(b)) => b.store@ == a.store@ && b.sdk.app == a.sdk.app
                && b.sdk.device_id@ == a.sdk.device_id@ && b.sdk.registrations@
                == a.sdk.registrations@.insert(key@, registration@) && b.sdk.vector_clock@
                == ticked(a.sdk.vector_clock@, a.sdk.device_id@),
            _ => false,
        },
{
    match global.state.take() {
        None => {},
        Some(state) => {
            let mut state = state;
            state.sdk.register_key(
                key.to_owned(),
                registration.policy,
                registration.schema_version,
            );
            global.state = Some(state);
        },
    }
}

/// The application's state under this device's name. An empty snapshot where nothing was
/// initialised, or where the application fails.
pub fn export_snapshot<A: MigratableApp>(global: &mut Global<A>) -> (r: AppSnapshot)
    requires
        countable(*old(global)),
    ensures
        match (old(global).state, final(global).state) {
            (None, None) => is_blank(r@),
            (Some(a), Some(b)) => b.store@ == a.store@ && b.sdk.app == a.sdk.app
                && b.sdk.device_id@ == a.sdk.device_id@ && b.sdk.registrations@
                == a.sdk.registrations@ && ({
                ||| b.sdk.vector_clock@ == ticked(a.sdk.vector_clock@, a.sdk.device_id@)
                    && r.device_id@ == a.sdk.device_id@ && r.vector_clock@ == b.sdk.vector_clock@
                    && exists|s: SnapshotView| #[trigger]
                    may_export(a.sdk.app, s) && r.keys@ == s.keys
                ||| b.sdk.vector_clock@ == a.sdk.vector_clock@ && is_blank(r@)
                    && exists|e: MigrateError| #[trigger] may_fail_export(a.sdk.app, e)
            }),
            _ => false,
        },
{
    match global.state.take() {
        None => blank(),
        Some(state) => {
            let mut state = state;
            let r = state.sdk.export_snapshot();
            global.state = Some(state);
            match r {
                Ok(s) => s,
                Err(e) => blank(),
            }
        },
    }
}

/// Whether a snapshot holds nothing.
pub open spec fn is_blank(s: SnapshotView) -> bool {
    s.device_id.len() == 0 && s.vector_clock == Counts::empty() && s.keys == Entries::empty()
}

fn blank() -> (r: AppSnapshot)
    ensures
        is_blank(r@),
{
    AppSnapshot { device_id: String::new(), vector_clock: VectorClock::new(), keys: KeyMap::new() }
}

/// Brings an incoming snapshot together with the application's own state, as
/// [`MigrateSdk::import_snapshot`] does; an error where nothing was initialised.
pub fn import_snapshot<A: MigratableApp>(global: &mut Global<A>, snapshot: AppSnapshot) -> (r: Result<
    ConflictSet,
    MigrateError,
>)
    ensures
        match (old(global).state, final(global).state) {
            (None, None) => r matches Err(MigrateError::CallbackFailed(m)) && m@
                == "global SDK not initialised"@,
            (Some(a), Some(b)) => {
                &&& b.store@ == a.store@
                &&& b.sdk.app == a.sdk.app
                &&& b.sdk.device_id@ == a.sdk.device_id@
                &&& b.sdk.registrations@ == a.sdk.registrations@
                &&& match r {
                    Ok(set) => b.sdk.vector_clock@ == joined(
                        a.sdk.vector_clock@,
                        snapshot@.vector_clock,
                    ) && imported(
                        a.sdk.app,
                        a.sdk.registrations@,
                        a.sdk.device_id@,
                        a.sdk.vector_clock@,
                        snapshot@,
                        conflict_views(set.conflicts@),
                        key_views(set.schema_dropped_keys@),
                    ),
                    Err(e) => import_failed(
                        a.sdk.app,
                        a.sdk.registrations@,
                        a.sdk.device_id@,
                        a.sdk.vector_clock@,
                        snapshot@,
                        e,
                        b.sdk.vector_clock@,
                    ),
                }
            },
            _ => false,
        },
{
    match global.state.take() {
        None => Err(MigrateError::CallbackFailed("global SDK not initialised".to_owned())),
        Some(state) => {
            let mut state = state;
            let r = state.sdk.import_snapshot(snapshot);
            global.state = Some(state);
            r
        },
    }
}

/// The entry that a value is put as: under the policy and the version that the key is registered
/// with, by default last write wins and zero.
pub open spec fn put_entry(regs: Registrations, key: Seq<char>, value: Seq<u8>) -> EntryView {
    EntryView {
        value,
        conflict_policy: if regs.dom().contains(key) {
            regs[key].policy
        } else {
            ConflictPolicy::LastWriteWins
        },
        schema_version: if regs.dom().contains(key) {
            regs[key].schema_version
        } else {
            0
        },
    }
}

/// Puts the value of a key; nothing happens where nothing was initialised.
pub fn put_state_value<A: MigratableApp>(global: &mut Global<A>, key: &str, value: Vec<u8>)
    ensures
        match (old(global).state, final(global).state) {
            (None, None) => true,
            (Some(a), Some(b)) => b.sdk == a.sdk && b.store@ == a.store@.insert(
                key@,
                put_entry(a.sdk.registrations@, key@, value@),
            ),
            _ => false,
        },
{
    match global.state.take() {
        None => {},
        Some(state) => {
            let mut state = state;
            let (conflict_policy, schema_version) = match state.sdk.registrations.get(key) {
                Some(reg) => (reg.policy, reg.schema_version),
                None => (ConflictPolicy::LastWriteWins, 0u32),
            };
            state.store.insert(
                key.to_owned(),
                StateEntry { value, conflict_policy, schema_version },
            );
            global.state = Some(state);
        },
    }
}

/// The value that was put for a key, if one was and something was initialised.
pub fn get_state_value<A: MigratableApp>(global: &Global<A>, key: &str) -> (r: Option<Vec<u8>>)
    ensures
        match r {
            Some(v) => global.state matches Some(s) && s.store@.dom().contains(key@) && v@
                == s.store@[key@].value,
            None => global.state is None || !global.state->0.store@.dom().contains(key@),
        },
{
    match &global.state {
        None => None,
        Some(s) => match s.store.get(key) {
            Some(e) => Some(e.value.duplicate()),
            None => None,
        },
    }
}

/// What this device exports after an import has seen what was imported: its clock covers that of the
/// incoming snapshot and its own, and dominates both.
pub proof fn law_export_follows_import(own: Counts, incoming: Counts, device: Seq<char>)
    requires
        count(joined(own, incoming), device) < u64::MAX,
    ensures
        covers(ticked(joined(own, incoming), device), incoming),
        covers(ticked(joined(own, incoming), device), own),
        order(ticked(joined(own, incoming), device), incoming) == ClockOrder::Dominates,
        order(ticked(joined(own, incoming), device), own) == ClockOrder::Dominates,
{
    let merged = joined(own, incoming);
    law_merge_is_least_upper_bound(own, incoming, merged);
    law_increment_dominates(merged, device);
}

/// Importing an own snapshot that no key has changed since leaves no conflict and every value as it
/// is, as long as the schemas agree.
pub proof fn law_own_snapshot_changes_nothing(s: SnapshotView)
    ensures
        resolved_keys(s, s) == s.keys,
        open_conflicts(s, s) == Map::<Seq<char>, ConflictView>::empty(),
{
    crate::clock::law_order_equal(s.vector_clock, s.vector_clock);
    assert(resolved_keys(s, s) =~= s.keys);
}

/// Bringing two snapshots together keeps the keys of both, unless one of them is strictly newer and
/// takes the place of the other.
pub proof fn law_keys_are_kept(local: SnapshotView, remote: SnapshotView, k: Seq<char>)
    requires
        order(local.vector_clock, remote.vector_clock)
            != ClockOrder::DominatedBy,
    ensures
        resolved_keys(local, remote).dom().contains(k) <==> local.keys.dom().contains(k)
            || remote.keys.dom().contains(k),
{
}

/// A value that is in conflict is not lost: the own one stays, and the conflict holds both.
pub proof fn law_conflict_holds_both(local: SnapshotView, remote: SnapshotView, k: Seq<char>)
    requires
        open_conflicts(local, remote).dom().contains(k),
    ensures
        resolved_keys(local, remote)[k] == local.keys[k],
        open_conflicts(local, remote)[k].local_value == local.keys[k].value,
        open_conflicts(local, remote)[k].remote_value == remote.keys[k].value,
{
}

} // verus!
