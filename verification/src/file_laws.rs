//! What holds of what a host remembers of its files, of where it serves them from, and of how they are
//! read and written in pieces.
use vstd::prelude::*;

use crate::clock::{Counts, VectorClock};
use crate::files::{
    after_read, components, file_entry, read_want, resolve, resolve_for_write, same_bytes,
    starts_with, stat, stat_full, FileEntry, FileMeta, StatReply, TempFile,
};
use crate::host::{chunk_content, write_chunks, WriteFileChunk};
use crate::keymap::{filled, KeyMap, KeySet};
use crate::request_laws::leads_to;
use crate::status::{Code, Status};
use crate::store::{
    stamps_of, ClockEntry, ClockStore, FileValue, Stamped, TombstoneEntry, TombstoneStore,
};
use crate::wall::{
    is_clock_second, is_epoch, is_reading, millis_or_epoch, nanos_since, now_millis, now_unix,
    seconds_or_epoch, time_between,
};

verus! {

broadcast use vstd::seq_lib::group_seq_properties;

/// The clock that was put for a path is the one that is held for it, with the second in which it was
/// put; what is held for another path stays.
pub proof fn law_put_clock_is_got(
    s: &mut ClockStore,
    key: &str,
    clock: VectorClock,
    now: u64,
    other: &str,
    before: VectorClock,
    after: VectorClock,
)
    requires
        call_ensures(ClockStore::get, (&*old(s), other), before),
        call_ensures(ClockStore::put_at, (s, key, clock, now), ()),
        call_ensures(ClockStore::get, (&*final(s), other), after),
    ensures
        other@ == key@ ==> after@ == clock@,
        other@ != key@ ==> after@ == before@,
        final(s)@.dom() == old(s)@.dom().insert(key@),
        final(s)@[key@].at == now,
        forall|k: Seq<char>|
            k != key@ && #[trigger] old(s)@.dom().contains(k) ==> final(s)@[k] == old(s)@[k],
{
    assert(final(s)@.dom() =~= old(s)@.dom().insert(key@));
}

/// What was forgotten is held no longer, and what is held for another path stays. There was something
/// to forget where something was held.
pub proof fn law_removed_clock_is_gone(
    s: &mut ClockStore,
    key: &str,
    r: bool,
    other: &str,
    before: VectorClock,
    after: VectorClock,
)
    requires
        call_ensures(ClockStore::get, (&*old(s), other), before),
        call_ensures(ClockStore::remove, (s, key), r),
        call_ensures(ClockStore::get, (&*final(s), other), after),
    ensures
        other@ == key@ ==> after@ == Counts::empty(),
        other@ != key@ ==> after@ == before@,
        r <==> old(s)@.dom().contains(key@),
        final(s)@.dom() == old(s)@.dom().remove(key@),
{
    assert(final(s)@.dom() =~= old(s)@.dom().remove(key@));
}

/// The tombstone that was put for a path is the one that is held for it, with the second in which the
/// first one was put; what is held for another path stays.
pub proof fn law_put_tombstone_is_got(
    s: &mut TombstoneStore,
    key: &str,
    clock: VectorClock,
    now: u64,
    other: &str,
    before: VectorClock,
    after: VectorClock,
)
    requires
        call_ensures(TombstoneStore::get, (&*old(s), other), before),
        call_ensures(TombstoneStore::put_at, (s, key, clock, now), ()),
        call_ensures(TombstoneStore::get, (&*final(s), other), after),
    ensures
        other@ == key@ ==> after@ == clock@,
        other@ != key@ ==> after@ == before@,
        final(s)@.dom() == old(s)@.dom().insert(key@),
        old(s)@.dom().contains(key@) ==> final(s)@[key@].at == old(s)@[key@].at,
        !old(s)@.dom().contains(key@) ==> final(s)@[key@].at == now,
        forall|k: Seq<char>|
            k != key@ && #[trigger] old(s)@.dom().contains(k) ==> final(s)@[k] == old(s)@[k],
{
    assert(final(s)@.dom() =~= old(s)@.dom().insert(key@));
}

/// What was forgotten is held no longer, and what is held for another path stays. There was something
/// to forget where something was held.
pub proof fn law_removed_tombstone_is_gone(
    s: &mut TombstoneStore,
    key: &str,
    r: bool,
    other: &str,
    before: VectorClock,
    after: VectorClock,
)
    requires
        call_ensures(TombstoneStore::get, (&*old(s), other), before),
        call_ensures(TombstoneStore::remove, (s, key), r),
        call_ensures(TombstoneStore::get, (&*final(s), other), after),
    ensures
        other@ == key@ ==> after@ == Counts::empty(),
        other@ != key@ ==> after@ == before@,
        r <==> old(s)@.dom().contains(key@),
        final(s)@.dom() == old(s)@.dom().remove(key@),
{
    assert(final(s)@.dom() =~= old(s)@.dom().remove(key@));
}

pub proof fn lemma_filled_by_the_last<T>(l: Seq<(Seq<char>, T)>, i: int)
    requires
        0 <= i < l.len(),
        forall|j: int| i < j < l.len() ==> (#[trigger] l[j]).0 != l[i].0,
    ensures
        filled(l).dom().contains(l[i].0),
        filled(l)[l[i].0] == l[i].1,
    decreases l.len(),
{
    if i < l.len() - 1 {
        let t = l.drop_last();
        assert(t[i] == l[i]);
        assert forall|j: int| i < j < t.len() implies (#[trigger] t[j]).0 != t[i].0 by {
            assert(l[j].0 != l[i].0);
        }
        lemma_filled_by_the_last(t, i);
        assert(l[l.len() - 1].0 != l[i].0);
    }
}

pub proof fn lemma_filled_only<T>(l: Seq<(Seq<char>, T)>, k: Seq<char>)
    requires
        forall|i: int| 0 <= i < l.len() ==> (#[trigger] l[i]).0 != k,
    ensures
        !filled(l).dom().contains(k),
    decreases l.len(),
{
    if l.len() > 0 {
        let t = l.drop_last();
        assert forall|i: int| 0 <= i < t.len() implies (#[trigger] t[i]).0 != k by {
            assert(l[i].0 != k);
        }
        lemma_filled_only(t, k);
        assert(l[l.len() - 1].0 != k);
    }
}

/// Whether the value at `i` is the last of its path in a file.
pub open spec fn is_last_of_its_path(values: Seq<(String, FileValue)>, i: int) -> bool {
    &&& 0 <= i < values.len()
    &&& forall|j: int| i < j < values.len() ==> (#[trigger] values[j]).0@ != values[i].0@
}

/// Whether what is held for a path is what a file says: a bare clock has no second.
pub open spec fn is_value(s: Stamped, v: FileValue) -> bool {
    match v {
        FileValue::Old(clock) => s.clock == clock@ && s.at == 0,
        FileValue::New(clock, at) => s.clock == clock@ && s.at == at,
    }
}

/// A store that is read from a file holds for each path what the file says of it last, and nothing for
/// a path that the file does not have.
pub proof fn law_clocks_are_read(values: Vec<(String, FileValue)>, r: ClockStore)
    requires
        call_ensures(ClockStore::open, (values,), r),
    ensures
        forall|i: int| #[trigger]
            is_last_of_its_path(values@, i) ==> r@.dom().contains(values@[i].0@) && is_value(
                r@[values@[i].0@],
                values@[i].1,
            ),
        forall|k: Seq<char>|
            (forall|i: int| 0 <= i < values@.len() ==> (#[trigger] values@[i]).0@ != k)
                ==> !#[trigger] r@.dom().contains(k),
{
    lemma_values_are_read(values@);
}

/// A store of tombstones that is read from a file holds for each path what the file says of it last,
/// and nothing for a path that the file does not have.
pub proof fn law_tombstones_are_read(values: Vec<(String, FileValue)>, r: TombstoneStore)
    requires
        call_ensures(TombstoneStore::open, (values,), r),
    ensures
        forall|i: int| #[trigger]
            is_last_of_its_path(values@, i) ==> r@.dom().contains(values@[i].0@) && is_value(
                r@[values@[i].0@],
                values@[i].1,
            ),
        forall|k: Seq<char>|
            (forall|i: int| 0 <= i < values@.len() ==> (#[trigger] values@[i]).0@ != k)
                ==> !#[trigger] r@.dom().contains(k),
{
    lemma_values_are_read(values@);
}

proof fn lemma_values_are_read(values: Seq<(String, FileValue)>)
    ensures
        forall|i: int| #[trigger]
            is_last_of_its_path(values, i) ==> filled(stamps_of(values)).dom().contains(values[i].0@)
                && is_value(filled(stamps_of(values))[values[i].0@], values[i].1),
        forall|k: Seq<char>|
            (forall|i: int| 0 <= i < values.len() ==> (#[trigger] values[i]).0@ != k)
                ==> !#[trigger] filled(stamps_of(values)).dom().contains(k),
{
    let l = stamps_of(values);
    assert forall|i: int| #[trigger] is_last_of_its_path(values, i) implies filled(
        l,
    ).dom().contains(values[i].0@) && is_value(filled(l)[values[i].0@], values[i].1) by {
        assert(l[i] == (values[i].0@, values[i].1@));
        assert forall|j: int| i < j < l.len() implies (#[trigger] l[j]).0 != l[i].0 by {
            assert(values[j].0@ != values[i].0@);
        }
        lemma_filled_by_the_last(l, i);
    }
    assert forall|k: Seq<char>|
        (forall|i: int|
            0 <= i < values.len() ==> (#[trigger] values[i]).0@ != k) implies !#[trigger] filled(
        l,
    ).dom().contains(k) by {
        assert forall|i: int| 0 <= i < l.len() implies (#[trigger] l[i]).0 != k by {
            assert(values[i].0@ != k);
        }
        lemma_filled_only(l, k);
    }
}

/// What is listed of a store is what it holds: each path once, with its clock and its second.
pub proof fn law_clocks_are_listed(s: &ClockStore, r: Vec<(String, ClockEntry)>)
    requires
        call_ensures(ClockStore::entries, (s,), r),
    ensures
        forall|i: int|
            0 <= i < r@.len() ==> {
                let e = #[trigger] r@[i];
                &&& s@.dom().contains(e.0@)
                &&& s@[e.0@].clock == e.1.clock@
                &&& s@[e.0@].at == e.1.last_updated_at
            },
        forall|k: Seq<char>| #[trigger]
            s@.dom().contains(k) ==> exists|i: int| 0 <= i < r@.len() && (#[trigger] r@[i]).0@ == k,
        forall|i: int, j: int|
            0 <= i < j < r@.len() ==> (#[trigger] r@[i]).0@ != (#[trigger] r@[j]).0@,
{
    let l = stamps_of(r@);
    assert forall|i: int| 0 <= i < r@.len() implies ({
        let e = #[trigger] r@[i];
        &&& s@.dom().contains(e.0@)
        &&& s@[e.0@].clock == e.1.clock@
        &&& s@[e.0@].at == e.1.last_updated_at
    }) by {
        assert(l[i] == (r@[i].0@, r@[i].1@));
        assert(s@.dom().contains(l[i].0));
    }
    assert forall|k: Seq<char>| #[trigger] s@.dom().contains(k) implies exists|i: int|
        0 <= i < r@.len() && (#[trigger] r@[i]).0@ == k by {
        let i = choose|i: int| 0 <= i < l.len() && #[trigger] l[i].0 == k;
        assert(r@[i].0@ == k);
    }
    assert forall|i: int, j: int| 0 <= i < j < r@.len() implies (#[trigger] r@[i]).0@ != (
    #[trigger] r@[j]).0@ by {
        assert(l[i].0 == r@[i].0@ && l[j].0 == r@[j].0@);
        if l[i].0 == l[j].0 {
            crate::keymap::lemma_listed_once(l, s@, i, j);
        }
    }
}

/// What is listed of a store of tombstones is what it holds: each path once, with its clock and its
/// second.
pub proof fn law_tombstones_are_listed(s: &TombstoneStore, r: Vec<(String, TombstoneEntry)>)
    requires
        call_ensures(TombstoneStore::entries, (s,), r),
    ensures
        forall|i: int|
            0 <= i < r@.len() ==> {
                let e = #[trigger] r@[i];
                &&& s@.dom().contains(e.0@)
                &&& s@[e.0@].clock == e.1.clock@
                &&& s@[e.0@].at == e.1.created_at
            },
        forall|k: Seq<char>| #[trigger]
            s@.dom().contains(k) ==> exists|i: int| 0 <= i < r@.len() && (#[trigger] r@[i]).0@ == k,
        forall|i: int, j: int|
            0 <= i < j < r@.len() ==> (#[trigger] r@[i]).0@ != (#[trigger] r@[j]).0@,
{
    let l = stamps_of(r@);
    assert forall|i: int| 0 <= i < r@.len() implies ({
        let e = #[trigger] r@[i];
        &&& s@.dom().contains(e.0@)
        &&& s@[e.0@].clock == e.1.clock@
        &&& s@[e.0@].at == e.1.created_at
    }) by {
        assert(l[i] == (r@[i].0@, r@[i].1@));
        assert(s@.dom().contains(l[i].0));
    }
    assert forall|k: Seq<char>| #[trigger] s@.dom().contains(k) implies exists|i: int|
        0 <= i < r@.len() && (#[trigger] r@[i]).0@ == k by {
        let i = choose|i: int| 0 <= i < l.len() && #[trigger] l[i].0 == k;
        assert(r@[i].0@ == k);
    }
    assert forall|i: int, j: int| 0 <= i < j < r@.len() implies (#[trigger] r@[i]).0@ != (
    #[trigger] r@[j]).0@ by {
        assert(l[i].0 == r@[i].0@ && l[j].0 == r@[j].0@);
        if l[i].0 == l[j].0 {
            crate::keymap::lemma_listed_once(l, s@, i, j);
        }
    }
}

/// Whether every component of `root` stands at its place in `path`.
pub open spec fn lies_below(root: Seq<Vec<u8>>, path: Seq<Vec<u8>>) -> bool {
    &&& root.len() <= path.len()
    &&& forall|i: int| 0 <= i < root.len() ==> (#[trigger] path[i])@ == root[i]@
}

proof fn lemma_lies_below(root: Seq<Vec<u8>>, path: Seq<Vec<u8>>)
    ensures
        lies_below(root, path) == crate::files::within(components(root), components(path)),
{
    let (r, p) = (components(root), components(path));
    if lies_below(root, path) {
        assert forall|i: int| 0 <= i < r.len() implies p.take(r.len() as int)[i] == r[i] by {
            assert(path[i]@ == root[i]@);
        }
        assert(p.take(r.len() as int) =~= r);
    }
    if crate::files::within(r, p) {
        assert forall|i: int| 0 <= i < root.len() implies (#[trigger] path[i])@ == root[i]@ by {
            assert(p.take(r.len() as int)[i] == r[i]);
            assert(p[i] == path[i]@);
        }
    }
}

/// A path lies inside the served root where it begins with every component of the root, each whole.
pub proof fn law_inside_by_whole_components(path: &Vec<Vec<u8>>, root: &Vec<Vec<u8>>, r: bool)
    requires
        call_ensures(starts_with, (path, root), r),
    ensures
        r <==> lies_below(root@, path@),
{
    lemma_lies_below(root@, path@);
}

/// A file is served where it was located inside the root. One that was not found is not found, and one
/// that lies elsewhere is refused.
pub proof fn law_only_the_root_is_served(
    root: &Vec<Vec<u8>>,
    canonical: Option<&Vec<Vec<u8>>>,
    r: Result<(), Status>,
)
    requires
        call_ensures(resolve, (root, canonical), r),
    ensures
        r is Ok <==> (canonical matches Some(p) && lies_below(root@, p@)),
        canonical is None ==> (r matches Err(e) && e.code == Code::NotFound),
        canonical matches Some(p) && !lies_below(root@, p@) ==> (r matches Err(e) && e.code
            == Code::PermissionDenied),
{
    if canonical is Some {
        lemma_lies_below(root@, (canonical->0)@);
    }
}

/// A path can be written where it has a name and its directory was located inside the root. A
/// directory that lies elsewhere is refused, whatever the name; one that was not found is not found.
pub proof fn law_only_below_the_root_is_written(
    root: &Vec<Vec<u8>>,
    has_parent: bool,
    parent: Option<&Vec<Vec<u8>>>,
    has_name: bool,
    r: Result<(), Status>,
)
    requires
        call_ensures(resolve_for_write, (root, has_parent, parent, has_name), r),
    ensures
        r is Ok <==> has_parent && has_name && (parent matches Some(p) && lies_below(root@, p@)),
        !has_parent ==> (r matches Err(e) && e.code == Code::InvalidArgument),
        has_parent && parent is None ==> (r matches Err(e) && e.code == Code::NotFound),
        has_parent && (parent matches Some(p) && !lies_below(root@, p@)) ==> (r matches Err(e)
            && e.code == Code::PermissionDenied),
        has_parent && (parent matches Some(p) && lies_below(root@, p@)) && !has_name ==> (
        r matches Err(e) && e.code == Code::InvalidArgument),
{
    if parent is Some {
        lemma_lies_below(root@, (parent->0)@);
    }
}

/// As much is asked for as is left, but never more than a piece can carry; what came is taken off what
/// is left, and reading goes on while some is left and something came.
pub proof fn law_reading_goes_on_while_some_is_left(left: u64, want: usize, n: usize, r: Option<u64>)
    requires
        call_ensures(read_want, (left,), want),
        call_ensures(after_read, (left, n), r),
        n <= left,
    ensures
        want <= 65536,
        want <= left,
        want == left || want == 65536,
        r is Some <==> 0 < n < left,
        r matches Some(rest) ==> rest + n == left,
{
}

/// A status tells of the file that was located: its name, whether it is a directory, its size, when it
/// was changed, and what the host has seen of its path. Nothing is told of a file that was not.
pub proof fn law_status_tells_of_the_file(
    clocks: &ClockStore,
    path: &str,
    located: Option<(Option<String>, FileMeta)>,
    r: StatReply,
    key: Seq<char>,
)
    requires
        call_ensures(stat, (clocks, path, located), r),
        leads_to(path@, key),
    ensures
        r.found <==> located is Some,
        located is None ==> r.entry is None && r.clock is None,
        located matches Some((name, meta)) ==> {
            &&& r.entry matches Some(e) && e.is_dir == meta.is_dir && e.size_bytes == meta.size_bytes
                && e.modified_unix == (if meta.modified_unix is Some {
                meta.modified_unix->0
            } else {
                0
            }) && (name matches Some(n) ==> e.name@ == n@) && (name is None ==> e.name@.len() == 0)
            &&& r.clock is Some
            &&& clocks@.dom().contains(key) ==> (r.clock->0)@ == clocks@[key].clock
            &&& !clocks@.dom().contains(key) ==> (r.clock->0)@ == Counts::empty()
        },
{
    crate::request_laws::lemma_trimmed(path@, key);
}

/// An entry tells what the file system says; a file without a second of its change counts as changed
/// at the beginning of time.
pub proof fn law_entry_tells_what_the_file_system_says(name: String, meta: FileMeta, r: FileEntry)
    requires
        call_ensures(file_entry, (name, meta), r),
    ensures
        r.name@ == name@,
        r.is_dir == meta.is_dir,
        r.size_bytes == meta.size_bytes,
        meta.modified_unix matches Some(t) ==> r.modified_unix == t,
        meta.modified_unix is None ==> r.modified_unix == 0,
{
}

/// A client takes from a status the entry and the clock that it brings; a status without an entry
/// brings nothing.
pub proof fn law_client_takes_the_status(reply: StatReply, r: Option<(FileEntry, VectorClock)>)
    requires
        call_ensures(stat_full, (reply,), r),
    ensures
        r is Some <==> reply.found && reply.entry is Some,
        r matches Some((e, c)) ==> reply.entry == Some(e) && (reply.clock matches Some(k) ==> c@
            == k@) && (reply.clock is None ==> c@ == Counts::empty()),
{
}

/// A temporary file is to be removed until it was moved to its place.
pub proof fn law_temporary_file_is_cleaned_up(
    path: String,
    made: TempFile,
    t: &mut TempFile,
    before: bool,
    after: bool,
)
    requires
        call_ensures(TempFile::new, (path,), made),
        *old(t) == made,
        call_ensures(TempFile::leftover, (&*old(t),), before),
        call_ensures(TempFile::mark_committed, (t,), ()),
        call_ensures(TempFile::leftover, (&*final(t),), after),
    ensures
        before,
        !after,
        final(t).at() == path@,
{
}

/// Bytes are the same where there are as many and each is the same.
pub proof fn law_same_bytes(a: &[u8], b: &[u8], r: bool)
    requires
        call_ensures(same_bytes, (a, b), r),
    ensures
        r <==> a@.len() == b@.len() && forall|i: int| 0 <= i < a@.len() ==> #[trigger] a@[i] == b@[i],
{
    if a@.len() == b@.len() && forall|i: int| 0 <= i < a@.len() ==> #[trigger] a@[i] == b@[i] {
        assert(a@ =~= b@);
    }
}

proof fn lemma_chunks(chunks: Seq<WriteFileChunk>, i: int, j: int)
    requires
        0 <= i < chunks.len(),
        0 <= j < chunks[i].data@.len(),
        forall|k: int| 0 <= k < chunks.len() - 1 ==> (#[trigger] chunks[k]).data@.len() == 65536,
    ensures
        0 <= i * 65536 + j < chunk_content(chunks).len(),
        chunk_content(chunks)[i * 65536 + j] == chunks[i].data@[j],
        chunk_content(chunks).len() == (chunks.len() - 1) * 65536 + chunks.last().data@.len(),
    decreases chunks.len(),
{
    let rest = chunks.drop_last();
    if rest.len() > 0 {
        assert forall|k: int| 0 <= k < rest.len() - 1 implies (#[trigger] rest[k]).data@.len()
            == 65536 by {
            assert(chunks[k].data@.len() == 65536);
        }
        assert(rest[rest.len() - 1] == chunks[rest.len() - 1]);
        assert(chunks[chunks.len() - 2].data@.len() == 65536);
        if i < chunks.len() - 1 {
            lemma_chunks(rest, i, j);
        } else {
            lemma_chunks(rest, rest.len() - 1, 0);
        }
    } else {
        assert(chunk_content(rest) =~= Seq::empty());
    }
}

/// A file is sent in full pieces and a last one with what is left: the byte at each place of a piece is
/// the one that the file has there. Only the first piece says where the content goes, with what the
/// client has seen and who writes it.
pub proof fn law_pieces_hold_the_file_in_order(
    path: &str,
    data: &Vec<u8>,
    clock: &VectorClock,
    writer: &str,
    r: Vec<WriteFileChunk>,
)
    requires
        call_ensures(write_chunks, (path, data, clock, writer), r),
    ensures
        r@.len() > 0,
        r@[0].path@ == path@,
        r@[0].writer_device_id@ == writer@,
        r@[0].clock matches Some(c) && c@ == clock@,
        forall|i: int|
            0 < i < r@.len() ==> (#[trigger] r@[i]).path@.len() == 0 && r@[i].clock is None
                && r@[i].writer_device_id@.len() == 0,
        forall|i: int, j: int|
            0 <= i < r@.len() && 0 <= j < r@[i].data@.len() ==> i * 65536 + j < data@.len()
                && #[trigger] r@[i].data@[j] == data@[i * 65536 + j],
        forall|i: int| 0 <= i < r@.len() - 1 ==> (#[trigger] r@[i]).data@.len() == 65536,
        r@.last().data@.len() == data@.len() - (r@.len() - 1) * 65536,
{
    assert(crate::files::CHUNK_SIZE == 65536);
    assert forall|i: int, j: int|
        0 <= i < r@.len() && 0 <= j < r@[i].data@.len() implies i * 65536 + j < data@.len()
        && #[trigger] r@[i].data@[j] == data@[i * 65536 + j] by {
        lemma_chunks(r@, i, j);
    }
    let n = r@.len() - 1;
    if r@[n].data@.len() > 0 {
        lemma_chunks(r@, n, 0);
    } else {
        reveal_with_fuel(chunk_content, 2);
        assert(data@.len() == 0);
        if n > 0 {
            assert(r@[0].data@.len() == 65536);
            lemma_chunks(r@, 0, 0);
        }
    }
}

/// What is kept for a key is what is got for it, and every other key is got as before.
pub proof fn law_kept_value_is_got<V: View>(
    m: &mut KeyMap<V>,
    key: String,
    value: V,
    other: &str,
    before: Option<&V>,
    after: Option<&V>,
    known: bool,
)
    requires
        call_ensures(KeyMap::<V>::get, (&*old(m), other), before),
        call_ensures(KeyMap::<V>::insert, (m, key, value), ()),
        call_ensures(KeyMap::<V>::get, (&*final(m), other), after),
        call_ensures(KeyMap::<V>::contains_key, (&*final(m), other), known),
    ensures
        known <==> after is Some,
        other@ == key@ ==> (after matches Some(v) && v@ == value@),
        other@ != key@ ==> (after is Some <==> before is Some) && (after matches Some(v) ==> v@
            == (before->0)@),
{
}

/// What is dropped is handed back and got no longer, and every other key is got as before.
pub proof fn law_dropped_value_is_handed_back<V: View>(
    m: &mut KeyMap<V>,
    key: &str,
    r: Option<V>,
    other: &str,
    before: Option<&V>,
    after: Option<&V>,
)
    requires
        call_ensures(KeyMap::<V>::get, (&*old(m), other), before),
        call_ensures(KeyMap::<V>::remove, (m, key), r),
        call_ensures(KeyMap::<V>::get, (&*final(m), other), after),
    ensures
        other@ == key@ ==> after is None && (r is Some <==> before is Some) && (r matches Some(v)
            ==> v@ == (before->0)@),
        other@ != key@ ==> (after is Some <==> before is Some) && (after matches Some(v) ==> v@
            == (before->0)@),
{
}

/// A member of a set is in it from the time that it was put in to the time that it was dropped, and no
/// other member is touched.
pub proof fn law_members_of_a_set(
    s: &mut KeySet,
    key: &str,
    fresh: bool,
    t: &mut KeySet,
    gone: &str,
    was: bool,
    other: &str,
    before: bool,
    put: bool,
    after: bool,
)
    requires
        call_ensures(KeySet::contains, (&*old(s), other), before),
        call_ensures(KeySet::insert, (s, key), fresh),
        call_ensures(KeySet::contains, (&*final(s), other), put),
        *old(t) == *final(s),
        call_ensures(KeySet::remove, (t, gone), was),
        call_ensures(KeySet::contains, (&*final(t), other), after),
    ensures
        put <==> before || other@ == key@,
        after <==> put && other@ != gone@,
        other@ == key@ ==> fresh == !before,
        other@ == gone@ ==> was == put,
{
}

/// A clock or a tombstone that is put now is put at a second that the system clock shows.
pub proof fn law_put_now(
    c: &mut ClockStore,
    t: &mut TombstoneStore,
    key: &str,
    clock: VectorClock,
)
    requires
        call_ensures(ClockStore::put, (c, key, clock), ()),
        call_ensures(TombstoneStore::put, (t, key, clock), ()),
    ensures
        final(c)@.dom() == old(c)@.dom().insert(key@),
        final(c)@[key@].clock == clock@,
        is_clock_second(final(c)@[key@].at),
        forall|k: Seq<char>|
            k != key@ && #[trigger] old(c)@.dom().contains(k) ==> final(c)@[k] == old(c)@[k],
        final(t)@.dom() == old(t)@.dom().insert(key@),
        final(t)@[key@].clock == clock@,
        old(t)@.dom().contains(key@) ==> final(t)@[key@].at == old(t)@[key@].at,
        !old(t)@.dom().contains(key@) ==> is_clock_second(final(t)@[key@].at),
        forall|k: Seq<char>|
            k != key@ && #[trigger] old(t)@.dom().contains(k) ==> final(t)@[k] == old(t)@[k],
{
    assert(final(c)@.dom() =~= old(c)@.dom().insert(key@));
    assert(final(t)@.dom() =~= old(t)@.dom().insert(key@));
}

/// A second of the clock is the whole seconds since the epoch; a time before it counts as the epoch. A
/// millisecond is the whole milliseconds, as long as they fit.
pub proof fn law_seconds_and_milliseconds(s: Option<u64>, r: u64, n: Option<u128>, ms: u64)
    requires
        call_ensures(seconds_or_epoch, (s,), r),
        call_ensures(millis_or_epoch, (n,), ms),
    ensures
        s is None ==> r == 0,
        s is Some ==> r == s->0,
        n is None ==> ms == 0,
        n matches Some(ns) && ns < 1_000_000 * 0x1_0000_0000_0000_0000 ==> ms * 1_000_000 <= n->0
            && n->0 < (ms + 1) * 1_000_000,
{
}

/// The seconds, the milliseconds and the time gone by that the system clock shows are those of a reading
/// of it, cut off and not rounded; a time before the epoch, or before the start, counts as none.
pub proof fn law_what_the_clock_shows(start: &std::time::SystemTime, s: u64, ms: u64, ns: u128)
    requires
        call_ensures(now_unix, (), s),
        call_ensures(now_millis, (), ms),
        call_ensures(nanos_since, (start,), ns),
    ensures
        exists|now: std::time::SystemTime, epoch: std::time::SystemTime| {
            let between = #[trigger] time_between(now, epoch);
            &&& is_reading(now)
            &&& is_epoch(epoch)
            &&& between is None ==> s == 0
            &&& between is Some ==> s * 1_000_000_000 <= between->0 < (s + 1) * 1_000_000_000
        },
        exists|now: std::time::SystemTime, epoch: std::time::SystemTime| {
            let between = #[trigger] time_between(now, epoch);
            &&& is_reading(now)
            &&& is_epoch(epoch)
            &&& between is None ==> ms == 0
            &&& between is Some && between->0 < 1_000_000 * 0x1_0000_0000_0000_0000 ==> ms * 1_000_000
                <= between->0 < (ms + 1) * 1_000_000
        },
        exists|now: std::time::SystemTime| {
            let between = #[trigger] time_between(now, *start);
            &&& is_reading(now)
            &&& between is None ==> ns == 0
            &&& between is Some ==> ns == between->0
        },
{
    let (n1, e1) = choose|now: std::time::SystemTime, epoch: std::time::SystemTime|
        is_reading(now) && is_epoch(epoch) && s == crate::wall::whole_seconds(
            #[trigger] time_between(now, epoch),
        );
    let b1 = time_between(n1, e1);
    assert(b1 is None ==> s == 0);
    let (n2, e2) = choose|now: std::time::SystemTime, epoch: std::time::SystemTime|
        is_reading(now) && is_epoch(epoch) && ms == crate::wall::whole_millis(
            #[trigger] time_between(now, epoch),
        );
    let b2 = time_between(n2, e2);
    assert(b2 is None ==> ms == 0);
    let n3 = choose|now: std::time::SystemTime|
        is_reading(now) && ns == crate::wall::whole_nanos(#[trigger] time_between(now, *start));
    let b3 = time_between(n3, *start);
    assert(b3 is None ==> ns == 0);
}

} // verus!
