//! What holds when the states of two devices are brought together, key by key.
use vstd::prelude::*;
use vstd::string::*;

use crate::clock::Counts;
use crate::clock_laws::{has_seen, lemma_has_seen, lemma_unites, unites, writes};
use crate::keymap::{lists, KeyMap};
use crate::migrate::{
    answers_for, check_schema_version, conflict_views, filter_schema_keys, key_views, may_migrate,
    open_conflicts, resolve_conflicts, settle_entry, Answers, AppSnapshot, ConflictPolicy,
    ConflictSet, ConflictView, KeyRegistration, MigratableApp, MigrateError, SchemaAction,
    StateEntry,
};
use crate::sdk::{
    app_merges, filtered, get_state_value, handed_back, init_global, may_export, may_import,
    may_merge, may_settle, put_state_value, unmerged, Exchange, Global, MigrateSdk,
};
use crate::text::render_decimal;

verus! {

/// Whether a list of conflicts tells of the two values of `k`.
pub open spec fn tells_of(set: ConflictSet, k: Seq<char>, local: Seq<u8>, remote: Seq<u8>, version: u32) -> bool {
    exists|i: int|
        {
            &&& 0 <= i < set.conflicts@.len()
            &&& (#[trigger] set.conflicts@[i]).key@ == k
            &&& set.conflicts@[i].local_value@ == local
            &&& set.conflicts@[i].remote_value@ == remote
            &&& set.conflicts@[i].schema_version == version
        }
}

proof fn lemma_told(set: ConflictSet, m: Map<Seq<char>, ConflictView>)
    requires
        lists(conflict_views(set.conflicts@), m),
    ensures
        forall|i: int|
            0 <= i < set.conflicts@.len() ==> {
                let c = #[trigger] set.conflicts@[i];
                &&& m.dom().contains(c.key@)
                &&& m[c.key@] == c@
            },
        forall|k: Seq<char>| #[trigger]
            m.dom().contains(k) ==> tells_of(
                set,
                k,
                m[k].local_value,
                m[k].remote_value,
                m[k].schema_version,
            ),
        forall|i: int, j: int|
            0 <= i < j < set.conflicts@.len() ==> (#[trigger] set.conflicts@[i]).key@ != (
            #[trigger] set.conflicts@[j]).key@,
{
    let l = conflict_views(set.conflicts@);
    assert forall|i: int| 0 <= i < set.conflicts@.len() implies ({
        let c = #[trigger] set.conflicts@[i];
        &&& m.dom().contains(c.key@)
        &&& m[c.key@] == c@
    }) by {
        assert(l[i] == (set.conflicts@[i].key@, set.conflicts@[i]@));
        assert(m.dom().contains(l[i].0));
    }
    assert forall|k: Seq<char>| #[trigger] m.dom().contains(k) implies tells_of(
        set,
        k,
        m[k].local_value,
        m[k].remote_value,
        m[k].schema_version,
    ) by {
        let i = choose|i: int| 0 <= i < l.len() && #[trigger] l[i].0 == k;
        assert(m.dom().contains(l[i].0));
        assert(set.conflicts@[i].key@ == k);
    }
    assert forall|i: int, j: int| 0 <= i < j < set.conflicts@.len() implies (
    #[trigger] set.conflicts@[i]).key@ != (#[trigger] set.conflicts@[j]).key@ by {
        assert(l[i].0 == set.conflicts@[i].key@);
        assert(l[j].0 == set.conflicts@[j].key@);
        if l[i].0 == l[j].0 {
            crate::keymap::lemma_listed_once(l, m, i, j);
        }
    }
}

/// The state of a device that has seen all that the other has, and more, replaces that of the other
/// whole: a key that it has dropped is gone.
pub proof fn law_newer_state_replaces(
    local: &AppSnapshot,
    remote: &AppSnapshot,
    keys: KeyMap<StateEntry>,
    set: ConflictSet,
)
    requires
        call_ensures(resolve_conflicts, (local, remote), Ok((keys, set))),
        has_seen(remote.vector_clock@, local.vector_clock@),
        !has_seen(local.vector_clock@, remote.vector_clock@),
    ensures
        keys@ == remote.keys@,
        set.conflicts@.len() == 0,
{
    lemma_has_seen(remote.vector_clock@, local.vector_clock@);
    lemma_has_seen(local.vector_clock@, remote.vector_clock@);
    lemma_told(set, open_conflicts(local@, remote@));
    if set.conflicts@.len() > 0 {
        assert(open_conflicts(local@, remote@).dom().contains(set.conflicts@[0].key@));
    }
}

/// Where the own device has seen all that the other has, each of its values stays as it is, and only
/// the keys that it lacks are taken over.
pub proof fn law_own_values_stay(
    local: &AppSnapshot,
    remote: &AppSnapshot,
    keys: KeyMap<StateEntry>,
    set: ConflictSet,
)
    requires
        call_ensures(resolve_conflicts, (local, remote), Ok((keys, set))),
        has_seen(local.vector_clock@, remote.vector_clock@),
    ensures
        forall|k: Seq<char>| #[trigger]
            local.keys@.dom().contains(k) ==> keys@.dom().contains(k) && keys@[k] == local.keys@[k],
        forall|k: Seq<char>|
            !local.keys@.dom().contains(k) ==> (#[trigger] keys@.dom().contains(k)
                <==> remote.keys@.dom().contains(k)),
        forall|k: Seq<char>|
            !local.keys@.dom().contains(k) && #[trigger] remote.keys@.dom().contains(k) ==> keys@[k]
                == remote.keys@[k],
        set.conflicts@.len() == 0,
{
    lemma_has_seen(remote.vector_clock@, local.vector_clock@);
    lemma_has_seen(local.vector_clock@, remote.vector_clock@);
    lemma_told(set, open_conflicts(local@, remote@));
    if set.conflicts@.len() > 0 {
        assert(open_conflicts(local@, remote@).dom().contains(set.conflicts@[0].key@));
    }
}

/// Where both devices have changed their state independently, no key is lost. A key that one of them
/// lacks has the value of the other. A key that both have has the incoming value where that one is
/// to win; else the own value stays, and both are told, once.
pub proof fn law_independent_changes_are_kept(
    local: &AppSnapshot,
    remote: &AppSnapshot,
    keys: KeyMap<StateEntry>,
    set: ConflictSet,
)
    requires
        call_ensures(resolve_conflicts, (local, remote), Ok((keys, set))),
        !has_seen(local.vector_clock@, remote.vector_clock@),
        !has_seen(remote.vector_clock@, local.vector_clock@),
    ensures
        forall|k: Seq<char>| #[trigger]
            keys@.dom().contains(k) <==> local.keys@.dom().contains(k) || remote.keys@.dom().contains(
                k,
            ),
        forall|k: Seq<char>| #[trigger]
            keys@.dom().contains(k) ==> {
                let own = local.keys@.dom().contains(k);
                let wins = remote.keys@.dom().contains(k) && remote.keys@[k].conflict_policy
                    == ConflictPolicy::LastWriteWins;
                &&& !own ==> keys@[k] == remote.keys@[k]
                &&& own && wins ==> keys@[k] == remote.keys@[k]
                &&& own && !wins ==> keys@[k] == local.keys@[k]
            },
        forall|k: Seq<char>|
            #![trigger remote.keys@.dom().contains(k)]
            local.keys@.dom().contains(k) && remote.keys@.dom().contains(k)
                && remote.keys@[k].conflict_policy != ConflictPolicy::LastWriteWins ==> tells_of(
                set,
                k,
                local.keys@[k].value,
                remote.keys@[k].value,
                remote.keys@[k].schema_version,
            ),
        forall|i: int|
            0 <= i < set.conflicts@.len() ==> {
                let k = (#[trigger] set.conflicts@[i]).key@;
                &&& local.keys@.dom().contains(k)
                &&& remote.keys@.dom().contains(k)
                &&& remote.keys@[k].conflict_policy != ConflictPolicy::LastWriteWins
            },
        forall|i: int, j: int|
            0 <= i < j < set.conflicts@.len() ==> (#[trigger] set.conflicts@[i]).key@ != (
            #[trigger] set.conflicts@[j]).key@,
{
    lemma_has_seen(remote.vector_clock@, local.vector_clock@);
    lemma_has_seen(local.vector_clock@, remote.vector_clock@);
    let open = open_conflicts(local@, remote@);
    lemma_told(set, open);
    assert forall|k: Seq<char>|
        #![trigger remote.keys@.dom().contains(k)]
        local.keys@.dom().contains(k) && remote.keys@.dom().contains(k)
            && remote.keys@[k].conflict_policy != ConflictPolicy::LastWriteWins implies tells_of(
        set,
        k,
        local.keys@[k].value,
        remote.keys@[k].value,
        remote.keys@[k].schema_version,
    ) by {
        assert(open.dom().contains(k));
    }
}

/// A value whose schema the application knows, or of a key that it does not handle, is taken as it
/// is. A value of a newer schema is dropped. A value of an older one is what the application made of
/// it, at the version of the application, and is dropped where the application could not.
pub proof fn law_schema_decides(
    key: &str,
    entry: &StateEntry,
    local: Option<u32>,
    migrated: Option<Vec<u8>>,
    r: Option<StateEntry>,
)
    requires
        call_ensures(settle_entry, (key, entry, local, migrated), r),
    ensures
        local is None || local->0 == entry.schema_version ==> (r matches Some(e) && e.value@
            == entry.value@ && e.conflict_policy == entry.conflict_policy && e.schema_version
            == entry.schema_version),
        local is Some && local->0 < entry.schema_version ==> r is None,
        local is Some && local->0 > entry.schema_version ==> {
            &&& r is Some <==> migrated is Some
            &&& r matches Some(e) ==> e.value@ == (migrated->0)@ && e.conflict_policy
                == entry.conflict_policy && e.schema_version == local->0
        },
{
}

/// Only a newer schema is an error, and it names the key and both versions; only an older one is to
/// be brought up to date, from the version that came.
pub proof fn law_newer_schema_is_an_error(
    key: &str,
    incoming: u32,
    local: u32,
    r: Result<SchemaAction, MigrateError>,
)
    requires
        call_ensures(check_schema_version, (key, incoming, local), r),
    ensures
        r is Err <==> incoming > local,
        incoming > local ==> (r matches Err(MigrateError::SchemaMismatch {
            key: k,
            incoming: i,
            local: l,
        }) && k@ == key@ && i == incoming && l == local),
        incoming == local ==> (r matches Ok(SchemaAction::Current)),
        incoming < local ==> (r matches Ok(SchemaAction::Migrate { from_version, value })
            && from_version == incoming),
{
}

/// Taking the schemas into account, a value of a key that the application does not handle, or handles
/// at the same version, stays as it came; one of a newer version is dropped and told; one of an older
/// version either has become what the application answered for it, or is dropped and told. Every key
/// is either there or told, and none is both.
pub proof fn law_schemas_are_filtered<A: MigratableApp>(
    remote: &mut AppSnapshot,
    regs: &KeyMap<KeyRegistration>,
    app: &A,
    dropped: Vec<String>,
    k: Seq<char>,
)
    requires
        call_ensures(filter_schema_keys::<A>, (remote, regs, app), dropped),
        old(remote).keys@.dom().contains(k),
    ensures
        ({
            let came = old(remote).keys@[k];
            let left = final(remote).keys@;
            let told = exists|i: int| 0 <= i < dropped@.len() && (#[trigger] dropped@[i])@ == k;
            let handled = regs@.dom().contains(k);
            &&& left.dom().contains(k) <==> !told
            &&& !handled || regs@[k].schema_version == came.schema_version ==> left.dom().contains(k)
                && left[k] == came
            &&& handled && regs@[k].schema_version < came.schema_version ==> told
            &&& handled && regs@[k].schema_version > came.schema_version && !told ==> {
                &&& left[k].schema_version == regs@[k].schema_version
                &&& left[k].conflict_policy == came.conflict_policy
                &&& exists|name: &str, v: Vec<u8>, b: Vec<u8>|
                    name@ == k && v@ == came.value && b@ == left[k].value && #[trigger] call_ensures(
                        A::migrate_schema,
                        (app, name, came.schema_version, v),
                        Ok(b),
                    )
            }
        }),
        forall|other: Seq<char>| #[trigger]
            final(remote).keys@.dom().contains(other) ==> old(remote).keys@.dom().contains(other),
        final(remote).vector_clock@ == old(remote).vector_clock@,
        final(remote).device_id@ == old(remote).device_id@,
{
    let came = old(remote).keys@[k];
    let left = final(remote).keys@;
    let answers = choose|answers: Answers| #[trigger]
        answers_for(*app, regs@, old(remote).keys@, answers) && left == crate::migrate::takeable(
            old(remote).keys@,
            regs@,
            answers,
        ) && crate::migrate::drops(old(remote).keys@, regs@, answers, key_views(dropped@));
    let names = key_views(dropped@);
    let told = exists|i: int| 0 <= i < dropped@.len() && (#[trigger] dropped@[i])@ == k;
    assert(told == names.contains(k)) by {
        if told {
            let i = choose|i: int| 0 <= i < dropped@.len() && (#[trigger] dropped@[i])@ == k;
            assert(names[i] == k);
        }
        if names.contains(k) {
            let i = choose|i: int| 0 <= i < names.len() && names[i] == k;
            assert(dropped@[i]@ == k);
        }
    }
    if regs@.dom().contains(k) && regs@[k].schema_version > came.schema_version && !told {
        assert(may_migrate(*app, k, came.schema_version, came.value, answers[k]));
        let (name, v, out) = choose|name: &str, v: Vec<u8>, out: Result<Vec<u8>, MigrateError>|
            name@ == k && v@ == came.value && #[trigger] call_ensures(
                A::migrate_schema,
                (&*app, name, came.schema_version, v),
                out,
            ) && answers[k] == (match out {
                Ok(b) => Some(b@),
                Err(_) => None,
            });
        let b = out->Ok_0;
        assert(call_ensures(A::migrate_schema, (app, name, came.schema_version, v), Ok(b)));
    }
}

/// Whether an incoming value can be taken as it came: its key is not handled, or is handled at its
/// version.
pub open spec fn taken_as_is<A: MigratableApp>(sdk: MigrateSdk<A>, remote: AppSnapshot, k: Seq<char>) -> bool {
    &&& remote.keys@.dom().contains(k)
    &&& sdk.registrations@.dom().contains(k) ==> sdk.registrations@[k].schema_version
        == remote.keys@[k].schema_version
}

/// Whether an incoming value is of a newer schema than the application handles.
pub open spec fn too_new<A: MigratableApp>(sdk: MigrateSdk<A>, remote: AppSnapshot, k: Seq<char>) -> bool {
    &&& remote.keys@.dom().contains(k)
    &&& sdk.registrations@.dom().contains(k)
    &&& sdk.registrations@[k].schema_version < remote.keys@[k].schema_version
}

/// Whether what the application gets back for a key is what it has made of an incoming value of an
/// older schema, at the version at which it handles the key.
pub open spec fn is_migrated<A: MigratableApp>(
    sdk: MigrateSdk<A>,
    remote: AppSnapshot,
    given: AppSnapshot,
    k: Seq<char>,
) -> bool {
    &&& given.keys@[k].schema_version == sdk.registrations@[k].schema_version
    &&& given.keys@[k].conflict_policy == remote.keys@[k].conflict_policy
    &&& exists|name: &str, v: Vec<u8>, b: Vec<u8>|
        name@ == k && v@ == remote.keys@[k].value && b@ == given.keys@[k].value
            && #[trigger] call_ensures(
            A::migrate_schema,
            (&sdk.app, name, remote.keys@[k].schema_version, v),
            Ok(b),
        )
}

/// Whether the application merges the values of a key.
pub open spec fn merged_by_app<A: MigratableApp>(sdk: MigrateSdk<A>, k: Seq<char>) -> bool {
    sdk.registrations@.dom().contains(k) && sdk.registrations@[k].policy == ConflictPolicy::AppMerge
}

/// Whether what the application gets back for the key `k` is what is owed: `local` is what it had,
/// `remote` is what came, `given` is what it gets back, and `set` is what is told.
pub open spec fn is_owed<A: MigratableApp>(
    sdk: MigrateSdk<A>,
    local: AppSnapshot,
    remote: AppSnapshot,
    given: AppSnapshot,
    set: ConflictSet,
    k: Seq<char>,
) -> bool {
    let own_newer = has_seen(local.vector_clock@, remote.vector_clock@);
    let remote_newer = !own_newer && has_seen(remote.vector_clock@, local.vector_clock@);
    let had = local.keys@.dom().contains(k);
    let came = remote.keys@.dom().contains(k);
    let gets = given.keys@.dom().contains(k);
    let as_is = taken_as_is(sdk, remote, k);
    let wins = came && remote.keys@[k].conflict_policy == ConflictPolicy::LastWriteWins;
    let older = came && !as_is && !too_new(sdk, remote, k);
    let told = exists|i: int|
        0 <= i < set.schema_dropped_keys@.len() && (#[trigger] set.schema_dropped_keys@[i])@ == k;
    &&& !had && !came ==> !gets
    &&& own_newer && had ==> gets && given.keys@[k] == local.keys@[k]
    &&& !remote_newer && had ==> gets
    &&& !came && had && !remote_newer ==> given.keys@[k] == local.keys@[k]
    &&& !came && remote_newer ==> !gets
    &&& !had && as_is ==> gets && given.keys@[k] == remote.keys@[k]
    &&& remote_newer && as_is ==> gets && given.keys@[k] == remote.keys@[k]
    &&& !own_newer && as_is && wins ==> gets && given.keys@[k] == remote.keys@[k]
    &&& too_new(sdk, remote, k) && (!had || remote_newer) ==> !gets
    &&& too_new(sdk, remote, k) && had && !remote_newer ==> given.keys@[k] == local.keys@[k]
    &&& too_new(sdk, remote, k) ==> told
    &&& as_is ==> !told
    &&& older && (!had || remote_newer) ==> (gets && is_migrated(sdk, remote, given, k)) || (!gets
        && told)
    &&& older && had && !own_newer && !remote_newer && wins ==> is_migrated(sdk, remote, given, k) || (
    given.keys@[k] == local.keys@[k] && told)
    &&& !own_newer && !remote_newer && had && as_is && !wins && !merged_by_app(sdk, k) ==> {
        &&& given.keys@[k] == local.keys@[k]
        &&& tells_of(
            set,
            k,
            local.keys@[k].value,
            remote.keys@[k].value,
            remote.keys@[k].schema_version,
        )
    }
    &&& !own_newer && !remote_newer && had && as_is && !wins && merged_by_app(sdk, k) ==> {
        &&& given.keys@[k].schema_version == remote.keys@[k].schema_version
        &&& given.keys@[k].conflict_policy == ConflictPolicy::AppMerge
        &&& exists|name: &str, a: Vec<u8>, b: Vec<u8>, out: Vec<u8>|
            name@ == k && a@ == local.keys@[k].value && b@ == remote.keys@[k].value && out@
                == given.keys@[k].value && #[trigger] call_ensures(
                A::merge,
                (&sdk.app, name, a, b),
                Ok(out),
            )
    }
}

/// Whether the application was asked for its state and handed a new one, under the own name and with
/// the clock `after`, in which each key has the value that is owed.
pub open spec fn was_handed<A: MigratableApp>(
    sdk: MigrateSdk<A>,
    after: Counts,
    remote: AppSnapshot,
    set: ConflictSet,
) -> bool {
    exists|local: AppSnapshot, given: AppSnapshot, done: Result<(), MigrateError>| {
        &&& #[trigger] call_ensures(A::export_state, (&sdk.app,), Ok(local))
        &&& #[trigger] call_ensures(A::import_state, (&sdk.app, given), done)
        &&& done is Ok
        &&& given.device_id@ == sdk.device_id@
        &&& given.vector_clock@ == after
        &&& forall|k: Seq<char>| #[trigger] is_owed(sdk, local, remote, given, set, k)
    }
}

/// Whether only such keys are told as dropped as could not be taken as they came, and only such
/// conflicts as the application does not merge.
pub open spec fn is_rightly_told<A: MigratableApp>(
    sdk: MigrateSdk<A>,
    remote: AppSnapshot,
    set: ConflictSet,
) -> bool {
    &&& forall|i: int|
        0 <= i < set.schema_dropped_keys@.len() ==> {
            let k = (#[trigger] set.schema_dropped_keys@[i])@;
            &&& remote.keys@.dom().contains(k)
            &&& !taken_as_is(sdk, remote, k)
        }
    &&& forall|i: int|
        0 <= i < set.conflicts@.len() ==> !merged_by_app(sdk, (#[trigger] set.conflicts@[i]).key@)
}

/// An import that succeeds has asked the application for its state and handed it a new one, under the
/// own name, that has seen what both have seen, and in which each key has the value that is owed. From
/// then on the own clock has seen what came. Nothing else of the own side has changed.
pub proof fn law_import_hands_back_what_is_owed<A: MigratableApp>(
    sdk: &mut MigrateSdk<A>,
    remote: AppSnapshot,
    set: ConflictSet,
)
    requires
        call_ensures(MigrateSdk::<A>::import_snapshot, (sdk, remote), Ok(set)),
    ensures
        unites(final(sdk).vector_clock@, old(sdk).vector_clock@, remote.vector_clock@),
        final(sdk).device_id@ == old(sdk).device_id@,
        final(sdk).registrations@ == old(sdk).registrations@,
        was_handed(*old(sdk), final(sdk).vector_clock@, remote, set),
        is_rightly_told(*old(sdk), remote, set),
{
    lemma_unites(old(sdk).vector_clock@, remote.vector_clock@);
    lemma_handed(*old(sdk), remote, set);
}

/// An import through the shared library hands back what is owed as well.
pub proof fn law_shared_import_hands_back_what_is_owed<A: MigratableApp>(
    g: &mut Global<A>,
    remote: AppSnapshot,
    set: ConflictSet,
)
    requires
        call_ensures(crate::sdk::import_snapshot::<A>, (g, remote), Ok(set)),
    ensures
        old(g).state is Some && final(g).state is Some,
        was_handed(
            old(g).state->0.sdk,
            final(g).state->0.sdk.vector_clock@,
            remote,
            set,
        ),
        is_rightly_told(old(g).state->0.sdk, remote, set),
        unites(
            final(g).state->0.sdk.vector_clock@,
            old(g).state->0.sdk.vector_clock@,
            remote.vector_clock@,
        ),
        final(g).state->0.sdk.registrations@ == old(g).state->0.sdk.registrations@,
{
    lemma_unites(old(g).state->0.sdk.vector_clock@, remote.vector_clock@);
    lemma_handed(old(g).state->0.sdk, remote, set);
}

proof fn lemma_handed<A: MigratableApp>(sdk: MigrateSdk<A>, remote: AppSnapshot, set: ConflictSet)
    requires
        crate::sdk::imported(
            sdk.app,
            sdk.registrations@,
            sdk.device_id@,
            sdk.vector_clock@,
            remote@,
            conflict_views(set.conflicts@),
            key_views(set.schema_dropped_keys@),
        ),
    ensures
        was_handed(sdk, crate::clock::joined(sdk.vector_clock@, remote.vector_clock@), remote, set),
        is_rightly_told(sdk, remote, set),
{
    let app = sdk.app;
    let regs = sdk.registrations@;
    let clock = sdk.vector_clock@;
    let id = sdk.device_id@;
    let names = key_views(set.schema_dropped_keys@);
    let x = choose|x: Exchange| #[trigger]
        may_settle(app, regs, remote@, x) && lists(
            conflict_views(set.conflicts@),
            unmerged(open_conflicts(x.local, filtered(remote@, regs, x)), regs),
        ) && crate::migrate::drops(remote@.keys, regs, x.answers, names) && may_import(
            app,
            handed_back(id, crate::clock::joined(clock, remote.vector_clock@), regs, remote@, x),
        );
    let back = handed_back(id, crate::clock::joined(clock, remote.vector_clock@), regs, remote@, x);
    let open = open_conflicts(x.local, filtered(remote@, regs, x));
    lemma_told(set, unmerged(open, regs));
    assert(may_export(app, x.local));
    let local = choose|s: AppSnapshot|
        s@ == x.local && #[trigger] call_ensures(A::export_state, (&app,), Ok(s));
    let (given, done) = choose|s: AppSnapshot, out: Result<(), MigrateError>|
        s@ == back && out is Ok && #[trigger] call_ensures(A::import_state, (&app, s), out);
    assert forall|k: Seq<char>| #[trigger] is_owed(sdk, local, remote, given, set, k) by {
        lemma_owed(sdk, local, remote, given, set, k, x);
    }
    assert forall|i: int| 0 <= i < set.schema_dropped_keys@.len() implies ({
        let k = (#[trigger] set.schema_dropped_keys@[i])@;
        &&& remote.keys@.dom().contains(k)
        &&& !taken_as_is(sdk, remote, k)
    }) by {
        assert(names[i] == set.schema_dropped_keys@[i]@);
        assert(names.contains(names[i]));
    }
}

proof fn lemma_owed<A: MigratableApp>(
    sdk: MigrateSdk<A>,
    local: AppSnapshot,
    remote: AppSnapshot,
    given: AppSnapshot,
    set: ConflictSet,
    k: Seq<char>,
    x: Exchange,
)
    requires
        x.local == local@,
        may_settle(sdk.app, sdk.registrations@, remote@, x),
        lists(
            conflict_views(set.conflicts@),
            unmerged(open_conflicts(x.local, filtered(remote@, sdk.registrations@, x)), sdk.registrations@),
        ),
        crate::migrate::drops(
            remote@.keys,
            sdk.registrations@,
            x.answers,
            key_views(set.schema_dropped_keys@),
        ),
        given.keys@ == handed_back(
            sdk.device_id@,
            crate::clock::joined(sdk.vector_clock@, remote.vector_clock@),
            sdk.registrations@,
            remote@,
            x,
        ).keys,
    ensures
        is_owed(sdk, local, remote, given, set, k),
{
    let regs = sdk.registrations@;
    let taken = filtered(remote@, regs, x);
    let open = open_conflicts(x.local, taken);
    let names = key_views(set.schema_dropped_keys@);
    lemma_told(set, unmerged(open, regs));
    lemma_has_seen(local.vector_clock@, remote.vector_clock@);
    lemma_has_seen(remote.vector_clock@, local.vector_clock@);
    assert(app_merges(regs, k) == merged_by_app(sdk, k));
    let told = exists|i: int|
        0 <= i < set.schema_dropped_keys@.len() && (#[trigger] set.schema_dropped_keys@[i])@ == k;
    assert(told == names.contains(k)) by {
        if told {
            let i = choose|i: int|
                0 <= i < set.schema_dropped_keys@.len() && (
                #[trigger] set.schema_dropped_keys@[i])@ == k;
            assert(names[i] == k);
        }
        if names.contains(k) {
            let i = choose|i: int| 0 <= i < names.len() && names[i] == k;
            assert(set.schema_dropped_keys@[i]@ == k);
        }
    }
    if remote.keys@.dom().contains(k) && !taken_as_is(sdk, remote, k) && !too_new(sdk, remote, k) {
        let came = remote.keys@[k];
        assert(may_migrate(sdk.app, k, came.schema_version, came.value, x.answers[k]));
        let (name, v, out) = choose|name: &str, v: Vec<u8>, out: Result<Vec<u8>, MigrateError>|
            name@ == k && v@ == came.value && #[trigger] call_ensures(
                A::migrate_schema,
                (&sdk.app, name, came.schema_version, v),
                out,
            ) && x.answers[k] == (match out {
                Ok(b) => Some(b@),
                Err(_) => None,
            });
        if out is Ok {
            let b = out->Ok_0;
            assert(call_ensures(
                A::migrate_schema,
                (&sdk.app, name, came.schema_version, v),
                Ok(b),
            ));
            assert(taken.keys.dom().contains(k));
            assert(taken.keys[k].value == b@);
        } else {
            assert(!taken.keys.dom().contains(k));
            assert(names.contains(k));
        }
    }
    if taken_as_is(sdk, remote, k) {
        assert(taken.keys.dom().contains(k));
        assert(taken.keys[k] == remote.keys@[k]);
    }
    if open.dom().contains(k) && !app_merges(regs, k) {
        assert(unmerged(open, regs).dom().contains(k));
    }
    if open.dom().contains(k) && app_merges(regs, k) {
        assert(may_merge(sdk.app, k, open[k], x.merges[k]));
    }
}

/// An exported state is what the application gave, under the own name and with the own clock, in
/// which one more change of the own device is counted.
pub proof fn law_export_is_the_state_of_the_application<A: MigratableApp>(
    sdk: &mut MigrateSdk<A>,
    r: Result<AppSnapshot, MigrateError>,
)
    requires
        call_ensures(MigrateSdk::<A>::export_snapshot, (sdk,), r),
        writes(old(sdk).vector_clock@, old(sdk).device_id@) < u64::MAX,
    ensures
        r matches Ok(s) ==> {
            &&& s.device_id@ == old(sdk).device_id@
            &&& s.vector_clock@ == final(sdk).vector_clock@
            &&& writes(s.vector_clock@, s.device_id@) == writes(
                old(sdk).vector_clock@,
                s.device_id@,
            ) + 1
            &&& forall|d: Seq<char>|
                d != s.device_id@ ==> #[trigger] writes(s.vector_clock@, d) == writes(
                    old(sdk).vector_clock@,
                    d,
                )
            &&& exists|state: AppSnapshot| #[trigger]
                call_ensures(A::export_state, (&old(sdk).app,), Ok(state)) && s.keys@ == state.keys@
        },
        r matches Err(e) ==> {
            &&& final(sdk).vector_clock@ == old(sdk).vector_clock@
            &&& call_ensures(A::export_state, (&old(sdk).app,), Err(e))
        },
{
    if r is Ok {
        let s = r->Ok_0;
        let app = old(sdk).app;
        let v = choose|state: crate::migrate::SnapshotView| #[trigger]
            may_export(app, state) && s.keys@ == state.keys;
        let state = choose|state: AppSnapshot|
            state@ == v && #[trigger] call_ensures(A::export_state, (&app,), Ok(state));
        assert(call_ensures(A::export_state, (&old(sdk).app,), Ok(state)));
    }
}

/// A key is handled from then on as it was registered, other keys as before, and the registration
/// counts as a change of the own device.
pub proof fn law_registered_key_is_handled<A: MigratableApp>(
    sdk: &mut MigrateSdk<A>,
    key: String,
    policy: ConflictPolicy,
    version: u32,
)
    requires
        call_ensures(MigrateSdk::<A>::register_key, (sdk, key, policy, version), ()),
        writes(old(sdk).vector_clock@, old(sdk).device_id@) < u64::MAX,
    ensures
        final(sdk).registrations@.dom().contains(key@),
        final(sdk).registrations@[key@].policy == policy,
        final(sdk).registrations@[key@].schema_version == version,
        final(sdk).registrations@.remove(key@) == old(sdk).registrations@.remove(key@),
        writes(final(sdk).vector_clock@, old(sdk).device_id@) == writes(
            old(sdk).vector_clock@,
            old(sdk).device_id@,
        ) + 1,
        forall|d: Seq<char>|
            d != old(sdk).device_id@ ==> #[trigger] writes(final(sdk).vector_clock@, d) == writes(
                old(sdk).vector_clock@,
                d,
            ),
{
    assert(final(sdk).registrations@.remove(key@) =~= old(sdk).registrations@.remove(key@));
}

/// A value that is put is read back, and every other key reads as before. Where nothing was set up,
/// nothing is read.
pub proof fn law_put_value_is_read_back<A: MigratableApp>(
    g: &mut Global<A>,
    key: &str,
    value: Vec<u8>,
    other: &str,
    before: Option<Vec<u8>>,
    after: Option<Vec<u8>>,
)
    requires
        call_ensures(get_state_value::<A>, (&*old(g), other), before),
        call_ensures(put_state_value::<A>, (g, key, value), ()),
        call_ensures(get_state_value::<A>, (&*final(g), other), after),
    ensures
        old(g).state is None ==> before is None && after is None,
        old(g).state is Some && other@ == key@ ==> (after matches Some(v) && v@ == value@),
        other@ != key@ ==> (before is Some <==> after is Some) && (before matches Some(v) ==> v@
            == (after->0)@),
{
}

/// A value that is put is of the policy and the version at which its key is handled; of a key that is
/// not handled, the last write wins.
pub proof fn law_put_value_follows_the_registration<A: MigratableApp>(
    g: &mut Global<A>,
    key: &str,
    value: Vec<u8>,
)
    requires
        call_ensures(put_state_value::<A>, (g, key, value), ()),
        old(g).state is Some,
    ensures
        final(g).state matches Some(s) && s.store@.dom().contains(key@) && ({
            let regs = old(g).state->0.sdk.registrations@;
            let e = s.store@[key@];
            &&& regs.dom().contains(key@) ==> e.conflict_policy == regs[key@].policy
                && e.schema_version == regs[key@].schema_version
            &&& !regs.dom().contains(key@) ==> e.conflict_policy == ConflictPolicy::LastWriteWins
                && e.schema_version == 0
        }),
{
}

/// An import fails only where the application fails: to give its state, to merge two values, or to take
/// the new state. A failure leaves the own name and the registrations as they were, and the own clock
/// too, unless the application was handed the new state.
pub proof fn law_import_fails_only_where_the_application_does<A: MigratableApp>(
    sdk: &mut MigrateSdk<A>,
    remote: AppSnapshot,
    r: Result<ConflictSet, MigrateError>,
)
    requires
        call_ensures(MigrateSdk::<A>::import_snapshot, (sdk, remote), r),
    ensures
        (forall|e: MigrateError| !#[trigger] call_ensures(A::export_state, (&old(sdk).app,), Err(e)))
            && (forall|k: &str, a: Vec<u8>, b: Vec<u8>, e: MigrateError| !#[trigger]
            call_ensures(A::merge, (&old(sdk).app, k, a, b), Err(e))) && (forall|
            s: AppSnapshot,
            e: MigrateError,
        | !#[trigger] call_ensures(A::import_state, (&old(sdk).app, s), Err(e))) ==> r is Ok,
        r is Err ==> {
            &&& final(sdk).device_id@ == old(sdk).device_id@
            &&& final(sdk).registrations@ == old(sdk).registrations@
            &&& final(sdk).vector_clock@ == old(sdk).vector_clock@ || unites(
                final(sdk).vector_clock@,
                old(sdk).vector_clock@,
                remote.vector_clock@,
            )
        },
{
    lemma_unites(old(sdk).vector_clock@, remote.vector_clock@);
}

/// The shared library is set up once: with the application and the name that were given first, and with
/// nothing registered, counted or kept. Setting it up again is an error and changes nothing.
pub proof fn law_set_up_once<A: MigratableApp>(
    g: &mut Global<A>,
    app: A,
    id: String,
    r: Result<(), MigrateError>,
)
    requires
        call_ensures(init_global::<A>, (g, app, id), r),
    ensures
        r is Ok <==> old(g).state is None,
        r is Err ==> *final(g) == *old(g),
        r is Ok ==> (final(g).state matches Some(s) && s.sdk.app == app && s.sdk.device_id@ == id@
            && s.sdk.registrations@.dom() == Set::<Seq<char>>::empty() && s.sdk.vector_clock@.dom()
            == Set::<Seq<char>>::empty() && s.store@.dom() == Set::<Seq<char>>::empty()),
{
    if r is Ok {
        let s = final(g).state->0;
        assert(s.sdk.registrations@.dom() =~= Set::<Seq<char>>::empty());
        assert(s.sdk.vector_clock@.dom() =~= Set::<Seq<char>>::empty());
        assert(s.store@.dom() =~= Set::<Seq<char>>::empty());
    }
}

/// Before the library is set up an import is an error, and an export is empty; neither sets it up. What
/// is kept by the library stays through both.
pub proof fn law_nothing_moves_before_the_set_up<A: MigratableApp>(
    g: &mut Global<A>,
    snapshot: AppSnapshot,
    r: Result<ConflictSet, MigrateError>,
    h: &mut Global<A>,
    out: AppSnapshot,
)
    requires
        call_ensures(crate::sdk::import_snapshot::<A>, (g, snapshot), r),
        call_ensures(crate::sdk::export_snapshot::<A>, (h,), out),
    ensures
        old(g).state is None ==> r is Err && final(g).state is None,
        old(g).state is Some ==> final(g).state is Some && final(g).state->0.store@ == old(
            g,
        ).state->0.store@,
        old(g).state is Some && r is Ok ==> unites(
            final(g).state->0.sdk.vector_clock@,
            old(g).state->0.sdk.vector_clock@,
            snapshot.vector_clock@,
        ),
        old(h).state is None ==> final(h).state is None && out.device_id@.len() == 0
            && out.keys@.dom() == Set::<Seq<char>>::empty() && out.vector_clock@.dom() == Set::<
            Seq<char>,
        >::empty(),
        old(h).state is Some ==> final(h).state is Some && final(h).state->0.store@ == old(
            h,
        ).state->0.store@,
{
    if old(g).state is Some {
        lemma_unites(old(g).state->0.sdk.vector_clock@, snapshot.vector_clock@);
    }
    if old(h).state is None {
        assert(out.keys@.dom() =~= Set::<Seq<char>>::empty());
        assert(out.vector_clock@.dom() =~= Set::<Seq<char>>::empty());
    }
}

/// Whether an export of the shared library has gone as that of the library does: it is the state of the
/// application under the own name, with one more change counted, or empty where the application failed.
pub proof fn law_shared_export<A: MigratableApp>(g: &mut Global<A>, r: AppSnapshot)
    requires
        call_ensures(crate::sdk::export_snapshot::<A>, (g,), r),
        old(g).state is Some,
        writes(old(g).state->0.sdk.vector_clock@, old(g).state->0.sdk.device_id@) < u64::MAX,
        forall|e: MigrateError| !#[trigger]
            call_ensures(A::export_state, (&old(g).state->0.sdk.app,), Err(e)),
    ensures
        ({
            let a = old(g).state->0.sdk;
            let b = final(g).state->0.sdk;
            &&& r.device_id@ == a.device_id@
            &&& r.vector_clock@ == b.vector_clock@
            &&& writes(r.vector_clock@, a.device_id@) == writes(a.vector_clock@, a.device_id@) + 1
            &&& forall|d: Seq<char>|
                d != a.device_id@ ==> #[trigger] writes(r.vector_clock@, d) == writes(
                    a.vector_clock@,
                    d,
                )
            &&& b.registrations@ == a.registrations@
            &&& exists|state: AppSnapshot| #[trigger]
                call_ensures(A::export_state, (&a.app,), Ok(state)) && r.keys@ == state.keys@
        }),
{
    let app = old(g).state->0.sdk.app;
    let v = choose|s: crate::migrate::SnapshotView| #[trigger] may_export(app, s) && r.keys@ == s.keys;
    let state = choose|state: AppSnapshot|
        state@ == v && #[trigger] call_ensures(A::export_state, (&app,), Ok(state));
    assert(call_ensures(A::export_state, (&old(g).state->0.sdk.app,), Ok(state)));
}

/// The text of an error says what went wrong, and names the key and both versions where a schema did.
pub proof fn law_text_of_an_error(e: &MigrateError, r: String, i: String, l: String)
    requires
        call_ensures(MigrateError::to_string, (e,), r),
        *e matches MigrateError::SchemaMismatch { key, incoming, local } ==> call_ensures(
            render_decimal,
            (incoming as u64,),
            i,
        ) && call_ensures(render_decimal, (local as u64,), l),
    ensures
        *e matches MigrateError::SchemaMismatch { key, incoming, local } ==> r@
            == "schema version mismatch for key '"@ + key@ + "': incoming="@ + i@ + ", local="@ + l@,
        *e matches MigrateError::Transport(s) ==> r@ == "transport error: "@ + s@,
        *e matches MigrateError::UnsupportedOperation(s) ==> r@ == "unsupported operation: "@ + s@,
        *e matches MigrateError::CallbackFailed(s) ==> r@ == "callback failed: "@ + s@,
{
}

} // verus!
