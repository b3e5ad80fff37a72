//! Snapshots in the form in which they travel, and values in the form in which they are kept as
//! text.
use vstd::prelude::*;
use vstd::string::*;

use crate::clock::{Counts, VectorClock};
use crate::keymap::{filled, law_filled_from_its_list, lists, Duplicate, KeyMap};
use crate::migrate::{
    AppSnapshot, ConflictEntry, ConflictPolicy, ConflictSet, EntryView, MigrateError,
    SnapshotView, StateEntry,
};
use crate::text::{decimal, render_decimal};

verus! {

/// What `Engine::encode` of the crate base64, with the engine `STANDARD`, makes of bytes.
pub uninterp spec fn base64_encoded(bytes: Seq<u8>) -> Seq<char>;

/// What `Engine::decode` of the crate base64, with the engine `STANDARD`, makes of a text, if it
/// accepts it.
pub uninterp spec fn base64_decoded(text: Seq<char>) -> Option<Seq<u8>>;

/// `Engine::encode` of the crate base64, with the engine `STANDARD`: depends on the bytes alone.
#[verifier::external_body]
fn base64_encode(bytes: &[u8]) -> (r: String)
    ensures
        r@ == base64_encoded(bytes@),
{
    base64::Engine::encode(&base64::engine::general_purpose::STANDARD, bytes)
}

/// `Engine::decode` of the crate base64, with the engine `STANDARD`: depends on the text alone, and
/// gives back the bytes that a text was made of.
#[verifier::external_body]
fn base64_decode(text: &str) -> (r: Option<Vec<u8>>)
    ensures
        match r {
            Some(b) => base64_decoded(text@) == Some(b@),
            None => base64_decoded(text@) is None,
        },
        forall|bytes: Seq<u8>| text@ == #[trigger] base64_encoded(bytes) ==> r is Some && r->0@ == bytes,
{
    base64::Engine::decode(&base64::engine::general_purpose::STANDARD, text).ok()
}

/// A value as a file holds it: as text, or as a list of numbers, as older files do.
#[derive(Debug)]
pub enum StoredValue {
    Text(String),
    Numbers(Vec<u8>),
}

/// The value that a file holds, if it holds one.
pub open spec fn value_of(stored: StoredValue) -> Option<Seq<u8>> {
    match stored {
        StoredValue::Text(t) => base64_decoded(t@),
        StoredValue::Numbers(n) => Some(n@),
    }
}

/// The text that a value is kept as.
pub fn encode_value(bytes: &[u8]) -> (r: String)
    ensures
        r@ == base64_encoded(bytes@),
{
    base64_encode(bytes)
}

/// The value that a file holds, from either form; none where a text stands for none.
pub fn decode_value(stored: StoredValue) -> (r: Option<Vec<u8>>)
    ensures
        match r {
            Some(b) => value_of(stored) == Some(b@),
            None => value_of(stored) is None,
        },
        stored matches StoredValue::Text(t) ==> forall|bytes: Seq<u8>|
            t@ == #[trigger] base64_encoded(bytes) ==> (r matches Some(b) && b@ == bytes),
{
    match stored {
        StoredValue::Text(t) => base64_decode(t.as_str()),
        StoredValue::Numbers(n) => Some(n),
    }
}

/// A value as it travels.
#[derive(Debug)]
pub struct ProtoStateEntry {
    pub value: Vec<u8>,
    pub policy: i32,
    pub schema_version: u32,
}

/// A snapshot as it travels.
#[derive(Debug)]
pub struct ProtoAppSnapshot {
    pub device_id: String,
    pub clock: Option<Vec<(String, u64)>>,
    pub keys: Vec<(String, ProtoStateEntry)>,
}

/// The number that stands for a policy.
pub open spec fn policy_number(p: ConflictPolicy) -> i32 {
    match p {
        ConflictPolicy::LastWriteWins => 0,
        ConflictPolicy::AppMerge => 1,
        ConflictPolicy::KeepBoth => 2,
    }
}

/// The policy that a number stands for, if it stands for one.
pub open spec fn policy_of(n: i32) -> Option<ConflictPolicy> {
    if n == 0 {
        Some(ConflictPolicy::LastWriteWins)
    } else if n == 1 {
        Some(ConflictPolicy::AppMerge)
    } else if n == 2 {
        Some(ConflictPolicy::KeepBoth)
    } else {
        None
    }
}

/// The policy that a number stands for.
pub fn policy_from_number(n: i32) -> (r: Option<ConflictPolicy>)
    ensures
        r == policy_of(n),
{
    match n {
        0 => Some(ConflictPolicy::LastWriteWins),
        1 => Some(ConflictPolicy::AppMerge),
        2 => Some(ConflictPolicy::KeepBoth),
        _ => None,
    }
}

/// The number that stands for a policy.
pub fn policy_to_number(p: ConflictPolicy) -> (r: i32)
    ensures
        r == policy_number(p),
        policy_of(r) == Some(p),
{
    match p {
        ConflictPolicy::LastWriteWins => 0,
        ConflictPolicy::AppMerge => 1,
        ConflictPolicy::KeepBoth => 2,
    }
}

/// The counts of a list.
pub open spec fn counter_views(v: Seq<(String, u64)>) -> Seq<(Seq<char>, u64)> {
    v.map_values(|e: (String, u64)| (e.0@, e.1))
}

/// A value that has travelled, where its policy is known.
pub open spec fn entry_of(e: ProtoStateEntry) -> EntryView {
    EntryView {
        value: e.value@,
        conflict_policy: policy_of(e.policy)->0,
        schema_version: e.schema_version,
    }
}

/// Values that have travelled, where their policies are known.
pub open spec fn entry_views(v: Seq<(String, ProtoStateEntry)>) -> Seq<(Seq<char>, EntryView)> {
    v.map_values(|e: (String, ProtoStateEntry)| (e.0@, entry_of(e.1)))
}

/// Whether the policies of all values are known.
pub open spec fn policies_known(v: Seq<(String, ProtoStateEntry)>) -> bool {
    forall|i: int| 0 <= i < v.len() ==> policy_of((#[trigger] v[i]).1.policy) is Some
}

/// The clock of a snapshot that has travelled; empty where none came along.
pub open spec fn clock_of_proto(clock: Option<Vec<(String, u64)>>) -> Counts {
    match clock {
        Some(v) => filled(counter_views(v@)),
        None => Counts::empty(),
    }
}

/// The counts of a clock, in the order of the devices.
pub fn clock_to_proto(clock: &VectorClock) -> (r: Vec<(String, u64)>)
    ensures
        lists(counter_views(r@), clock@),
{
    let n = clock.0.len();
    let ghost l = clock.0.listing();
    let mut out: Vec<(String, u64)> = Vec::new();
    let mut i: usize = 0;
    while i < n
        invariant
            i <= n,
            n == l.len(),
            l == clock.0.listing(),
            counter_views(out@) == l.take(i as int),
        decreases n - i,
    {
        let e = (clock.0.key_at(i).clone(), *clock.0.value_at(i));
        let ghost was = out@;
        out.push(e);
        assert(counter_views(out@) =~= counter_views(was).push((e.0@, e.1)));
        i = i + 1;
        assert(l.take(i as int) =~= l.take(i - 1).push(l[i - 1]));
    }
    assert(l.take(i as int) =~= l);
    out
}

/// The clock of a list of counts, where a later count of a device takes the place of an earlier
/// one; empty where no list came along.
pub fn clock_from_proto(clock: &Option<Vec<(String, u64)>>) -> (r: VectorClock)
    ensures
        r@ == clock_of_proto(*clock),
{
    let mut out = VectorClock::new();
    if let Some(v) = clock {
        let ghost l = counter_views(v@);
        let mut i: usize = 0;
        while i < v.len()
            invariant
                i <= v@.len(),
                l == counter_views(v@),
                out@ == filled(l.take(i as int)),
            decreases v@.len() - i,
        {
            out.set(v[i].0.as_str(), v[i].1);
            i = i + 1;
            assert(l.take(i as int).drop_last() =~= l.take(i - 1));
            assert(l.take(i as int).last() == (v@[i - 1].0@, v@[i - 1].1));
        }
        assert(l.take(i as int) =~= l);
    }
    out
}

/// A snapshot in the form in which it travels.
pub fn snapshot_to_proto(snapshot: &AppSnapshot) -> (r: ProtoAppSnapshot)
    ensures
        r.device_id@ == snapshot.device_id@,
        r.clock matches Some(c) && lists(counter_views(c@), snapshot.vector_clock@),
        policies_known(r.keys@),
        lists(entry_views(r.keys@), snapshot.keys@),
{
    let n = snapshot.keys.len();
    let ghost l = snapshot.keys.listing();
    let mut keys: Vec<(String, ProtoStateEntry)> = Vec::new();
    let mut i: usize = 0;
    while i < n
        invariant
            i <= n,
            n == l.len(),
            l == snapshot.keys.listing(),
            policies_known(keys@),
            entry_views(keys@) == l.take(i as int),
        decreases n - i,
    {
        let v = snapshot.keys.value_at(i);
        let e = ProtoStateEntry {
            value: v.value.duplicate(),
            policy: policy_to_number(v.conflict_policy),
            schema_version: v.schema_version,
        };
        let ghost was = keys@;
        let pair = (snapshot.keys.key_at(i).clone(), e);
        assert((pair.0@, entry_of(pair.1)) == l[i as int]);
        keys.push(pair);
        assert(entry_views(keys@) =~= entry_views(was).push((pair.0@, entry_of(pair.1))));
        i = i + 1;
        assert(l.take(i as int) =~= l.take(i - 1).push(l[i - 1]));
    }
    assert(l.take(i as int) =~= l);
    ProtoAppSnapshot {
        device_id: snapshot.device_id.clone(),
        clock: Some(clock_to_proto(&snapshot.vector_clock)),
        keys,
    }
}

/// A number with its sign, in decimal.
pub open spec fn signed_decimal(n: int) -> Seq<char> {
    if n < 0 {
        seq!['-'] + decimal((-n) as nat)
    } else {
        decimal(n as nat)
    }
}

fn render_signed(n: i32) -> (r: String)
    ensures
        r@ == signed_decimal(n as int),
{
    if n < 0 {
        let mut s: String = String::new();
        s.push('-');
        let magnitude: u64 = (-(n as i64)) as u64;
        let digits = render_decimal(magnitude);
        s.append(digits.as_str());
        assert(s@ =~= seq!['-'] + decimal((-n) as nat));
        s
    } else {
        render_decimal(n as u64)
    }
}

/// The snapshot that has travelled. None is an error, and so is a policy that is not known: the
/// first one in the list is named.
pub fn proto_to_snapshot(proto: Option<ProtoAppSnapshot>) -> (r: Result<AppSnapshot, MigrateError>)
    ensures
        match (proto, r) {
            (None, Err(MigrateError::Transport(m))) => m@ == "empty snapshot"@,
            (Some(p), Ok(s)) => policies_known(p.keys@) && s@ == (SnapshotView {
                device_id: p.device_id@,
                vector_clock: clock_of_proto(p.clock),
                keys: filled(entry_views(p.keys@)),
            }),
            (Some(p), Err(MigrateError::Transport(m))) => exists|i: int|
                0 <= i < p.keys@.len() && policies_known(p.keys@.take(i)) && policy_of(
                    (#[trigger] p.keys@[i]).1.policy,
                ) is None && m@ == "unknown conflict policy: "@ + signed_decimal(
                    p.keys@[i].1.policy as int,
                ),
            _ => false,
        },
{
    let p = match &proto {
        None => {
            return Err(MigrateError::Transport("empty snapshot".to_owned()));
        },
        Some(inner) => inner,
    };
    let mut keys: KeyMap<StateEntry> = KeyMap::new();
    let ghost l = entry_views(p.keys@);
    let mut i: usize = 0;
    while i < p.keys.len()
        invariant
            proto == Some(*p),
            i <= p.keys@.len(),
            l == entry_views(p.keys@),
            policies_known(p.keys@.take(i as int)),
            keys@ == filled(l.take(i as int)),
        decreases p.keys@.len() - i,
    {
        let e = &p.keys[i].1;
        let policy = match policy_from_number(e.policy) {
            Some(known) => known,
            None => {
                let mut m: String = "unknown conflict policy: ".to_owned();
                let n = render_signed(e.policy);
                m.append(n.as_str());
                assert(policy_of(p.keys@[i as int].1.policy) is None && policies_known(
                    p.keys@.take(i as int),
                ) && m@ == "unknown conflict policy: "@ + signed_decimal(
                    p.keys@[i as int].1.policy as int,
                ));
                return Err(MigrateError::Transport(m));
            },
        };
        keys.insert(
            p.keys[i].0.clone(),
            StateEntry {
                value: e.value.duplicate(),
                conflict_policy: policy,
                schema_version: e.schema_version,
            },
        );
        i = i + 1;
        proof {
            assert(l.take(i as int).drop_last() =~= l.take(i - 1));
            assert(l.take(i as int).last() == (
                p.keys@[i - 1].0@,
                entry_of(p.keys@[i - 1].1),
            ));
            assert forall|j: int| 0 <= j < i implies policy_of(
                (#[trigger] p.keys@.take(i as int)[j]).1.policy,
            ) is Some by {
                if j < i - 1 {
                    assert(p.keys@.take(i - 1)[j] == p.keys@[j]);
                }
            }
        }
    }
    proof {
        assert(l.take(i as int) =~= l);
        assert(p.keys@.take(i as int) =~= p.keys@);
    }
    let vector_clock = clock_from_proto(&p.clock);
    Ok(AppSnapshot { device_id: p.device_id.clone(), vector_clock, keys })
}

/// A snapshot that travels arrives as it was sent.
pub proof fn law_travelling_changes_nothing(sent: SnapshotView, travelling: ProtoAppSnapshot)
    requires
        travelling.device_id@ == sent.device_id,
        travelling.clock matches Some(c) && lists(counter_views(c@), sent.vector_clock),
        policies_known(travelling.keys@),
        lists(entry_views(travelling.keys@), sent.keys),
    ensures
        (SnapshotView {
            device_id: travelling.device_id@,
            vector_clock: clock_of_proto(travelling.clock),
            keys: filled(entry_views(travelling.keys@)),
        }) == sent,
{
    law_filled_from_its_list(counter_views(travelling.clock->0@), sent.vector_clock);
    law_filled_from_its_list(entry_views(travelling.keys@), sent.keys);
}

/// A conflict as the answer to a pushed snapshot tells of it.
#[derive(Debug)]
pub struct ProtoConflict {
    pub key: String,
    pub local_value: Vec<u8>,
    pub remote_value: Vec<u8>,
}

/// The conflicts that the answer to a pushed snapshot tells of. The version of the schema does not
/// travel; it counts as 0.
pub fn pushed_conflicts(conflicts: &Vec<ProtoConflict>) -> (r: ConflictSet)
    ensures
        r.schema_dropped_keys@.len() == 0,
        r.conflicts@.len() == conflicts@.len(),
        forall|i: int|
            0 <= i < conflicts@.len() ==> (#[trigger] r.conflicts@[i]).key@ == conflicts@[i].key@
                && r.conflicts@[i].local_value@ == conflicts@[i].local_value@
                && r.conflicts@[i].remote_value@ == conflicts@[i].remote_value@
                && r.conflicts@[i].schema_version == 0,
{
    let mut out: Vec<ConflictEntry> = Vec::new();
    let mut i: usize = 0;
    while i < conflicts.len()
        invariant
            i <= conflicts@.len(),
            out@.len() == i,
            forall|j: int|
                0 <= j < i ==> (#[trigger] out@[j]).key@ == conflicts@[j].key@
                    && out@[j].local_value@ == conflicts@[j].local_value@ && out@[j].remote_value@
                    == conflicts@[j].remote_value@ && out@[j].schema_version == 0,
        decreases conflicts@.len() - i,
    {
        let c = &conflicts[i];
        out.push(
            ConflictEntry {
                key: c.key.clone(),
                local_value: c.local_value.duplicate(),
                remote_value: c.remote_value.duplicate(),
                schema_version: 0,
            },
        );
        i = i + 1;
    }
    ConflictSet { conflicts: out, schema_dropped_keys: Vec::new() }
}

} // verus!
