//! What each request to the serving side comes to, by what its sender and the host have seen.
use vstd::prelude::*;
use vstd::string::*;

use crate::clock::{Counts, VectorClock};
use crate::clock_laws::{has_seen, lemma_has_seen, lemma_unites, unites};
use crate::host::{
    after_step, after_steps, alphanumeric, clock_key, open_write_stream, parent_of,
    sanitize_device_id, touched_by, views, DeleteFileRequest, DeletePlan, DeleteResult,
    FileServiceImpl, RenameFileRequest, RenamePlan, RenameResult, Step, StepView, StreamTarget,
    Touched, World, WriteFileChunk, WriteFileRequest, WritePlan, WriteResult,
};
use crate::status::{Code, Status};
use crate::store::{clock_of, Stamped, Stamps};
use crate::text::{last_index, render_decimal, trimmed_start, without_suffixes};

verus! {

/// Whether a requested path is the relative path `key` with any number of slashes before it.
pub open spec fn leads_to(path: Seq<char>, key: Seq<char>) -> bool {
    &&& path.len() >= key.len()
    &&& path.skip(path.len() - key.len()) == key
    &&& forall|i: int| 0 <= i < path.len() - key.len() ==> #[trigger] path[i] == '/'
    &&& key.len() > 0 ==> key[0] != '/'
}

/// What a request has seen: nothing where it carries no clock.
pub open spec fn brought(clock: Option<VectorClock>) -> Counts {
    if clock is Some {
        (clock->0)@
    } else {
        Counts::empty()
    }
}

/// Whether a store holds a clock for a path that lists any device.
pub open spec fn holds(m: Stamps, key: Seq<char>) -> bool {
    m.dom().contains(key) && exists|d: Seq<char>| #[trigger] m[key].clock.dom().contains(d)
}

/// The clock that the host goes by for a path: that of its deletion where it was deleted, else that
/// of its content.
pub open spec fn gone_by(s: FileServiceImpl, key: Seq<char>) -> Counts {
    if holds(s.tombstones@, key) {
        s.tombstones@[key].clock
    } else if s.clocks@.dom().contains(key) {
        s.clocks@[key].clock
    } else {
        Counts::empty()
    }
}

pub proof fn lemma_trimmed(path: Seq<char>, key: Seq<char>)
    requires
        leads_to(path, key),
    ensures
        trimmed_start(path, '/') == key,
    decreases path.len(),
{
    if path.len() > key.len() {
        assert(path[0] == '/');
        let rest = path.drop_first();
        assert(rest.skip(rest.len() - key.len()) =~= key);
        assert forall|i: int| 0 <= i < rest.len() - key.len() implies #[trigger] rest[i] == '/' by {
            assert(path[i + 1] == '/');
        }
        lemma_trimmed(rest, key);
    } else {
        assert(path =~= key);
    }
}

proof fn lemma_leads(path: Seq<char>)
    ensures
        leads_to(path, trimmed_start(path, '/')),
    decreases path.len(),
{
    if path.len() > 0 && path[0] == '/' {
        let rest = path.drop_first();
        lemma_leads(rest);
        let key = trimmed_start(path, '/');
        assert(key == trimmed_start(rest, '/'));
        assert(path.skip(path.len() - key.len()) =~= rest.skip(rest.len() - key.len()));
        assert forall|i: int| 0 <= i < path.len() - key.len() implies #[trigger] path[i] == '/' by {
            if i > 0 {
                assert(rest[i - 1] == '/');
            }
        }
    } else {
        assert(path.skip(0) =~= path);
    }
}

pub proof fn lemma_held(m: Stamps, key: Seq<char>)
    ensures
        holds(m, key) <==> clock_of(m, key) != Counts::empty(),
{
    let c = clock_of(m, key);
    if c != Counts::empty() {
        assert(m.dom().contains(key));
        assert(exists|d: Seq<char>| #[trigger] m[key].clock.dom().contains(d)) by {
            if forall|d: Seq<char>| !#[trigger] m[key].clock.dom().contains(d) {
                assert(c =~= Counts::empty());
            }
        }
    }
}

proof fn lemma_views(steps: Seq<Step>)
    ensures
        views(steps).len() == steps.len(),
{
}

/// The path that is remembered is the requested one without the slashes before it: nothing else is
/// cut off, and no two requests for different files are taken for one.
pub proof fn law_key_is_the_path_without_leading_slashes(path: &str, key: String)
    requires
        call_ensures(clock_key, (path,), key),
    ensures
        leads_to(path@, key@),
        forall|other: Seq<char>| #[trigger] leads_to(path@, other) ==> other == key@,
{
    lemma_leads(path@);
    assert forall|other: Seq<char>| #[trigger] leads_to(path@, other) implies other == key@ by {
        lemma_trimmed(path@, other);
    }
}

/// A write is applied where its sender has seen all that the host has seen of the path, is stale
/// where the host has seen all that its sender has and more, and is a conflict where each has seen
/// something that the other has not. How much each has seen otherwise makes no difference.
pub proof fn law_write_result(
    s: &FileServiceImpl,
    q: &WriteFileRequest,
    dest: &Result<(), Status>,
    ts: u64,
    plan: WritePlan,
    key: Seq<char>,
)
    requires
        call_ensures(FileServiceImpl::write_file, (s, q, dest, ts), Ok(plan)),
        leads_to(q.path@, key),
    ensures
        ({
            let known = gone_by(*s, key);
            let sent = brought(q.clock);
            &&& plan.reply.result == WriteResult::Applied <==> has_seen(sent, known)
            &&& plan.reply.result == WriteResult::Stale <==> !has_seen(sent, known) && has_seen(
                known,
                sent,
            )
            &&& plan.reply.result == WriteResult::Conflict <==> !has_seen(sent, known)
                && !has_seen(known, sent)
        }),
{
    lemma_trimmed(q.path@, key);
    lemma_held(s.tombstones@, key);
    lemma_has_seen(brought(q.clock), gone_by(*s, key));
    lemma_has_seen(gone_by(*s, key), brought(q.clock));
}

/// A write that is applied, or that comes upon a deletion it had not seen, puts its content at the
/// path, and the host has from then on seen there what both have seen; the path is no longer deleted.
/// A stale write changes nothing. A write that conflicts with another content leaves that content and
/// its clock as they are, and is kept whole in a copy of its own, with what its sender had seen. No
/// other path is touched.
pub proof fn law_write_effect(
    s: &FileServiceImpl,
    q: &WriteFileRequest,
    dest: &Result<(), Status>,
    ts: u64,
    plan: WritePlan,
    key: Seq<char>,
    disk: Map<Seq<char>, Seq<u8>>,
    now: u64,
)
    requires
        call_ensures(FileServiceImpl::write_file, (s, q, dest, ts), Ok(plan)),
        leads_to(q.path@, key),
    ensures
        ({
            let known = gone_by(*s, key);
            let sent = brought(q.clock);
            let deleted = holds(s.tombstones@, key);
            let before = s.world(disk);
            let after = after_steps(before, views(plan.steps@), q.data@, now);
            let copy = plan.reply.conflict_path@;
            if has_seen(sent, known) || (deleted && !has_seen(known, sent)) {
                &&& after.disk == disk.insert(key, q.data@)
                &&& after.clocks.dom().contains(key)
                &&& after.clocks == before.clocks.insert(key, after.clocks[key])
                &&& after.clocks[key].at == now
                &&& unites(after.clocks[key].clock, known, sent)
                &&& plan.reply.clock@ == after.clocks[key].clock
                &&& !holds(after.tombstones, key)
                &&& after.tombstones.remove(key) == before.tombstones.remove(key)
                &&& copy.len() == 0
            } else if has_seen(known, sent) {
                &&& after == before
                &&& plan.reply.clock@ == known
                &&& copy.len() == 0
            } else {
                &&& copy.len() > key.len()
                &&& after.disk == disk.insert(copy, q.data@)
                &&& after.clocks == before.clocks.insert(copy, Stamped { clock: sent, at: now })
                &&& after.tombstones == before.tombstones
                &&& plan.reply.clock@ == known
            }
        }),
{
    reveal_with_fuel(after_steps, 5);
    lemma_trimmed(q.path@, key);
    lemma_held(s.tombstones@, key);
    let known = gone_by(*s, key);
    let sent = brought(q.clock);
    lemma_has_seen(sent, known);
    lemma_has_seen(known, sent);
    lemma_unites(known, sent);
    reveal_strlit(".conflict-");
    let before = s.world(disk);
    let after = after_steps(before, views(plan.steps@), q.data@, now);
    assert(before.tombstones.remove(key).remove(key) =~= before.tombstones.remove(key));
    lemma_held(after.tombstones, key);
}

/// The copy that keeps a conflicting write stands beside the file: its name is that of the file, who
/// wrote it, and the second in which it came.
pub proof fn law_copy_is_named_after_its_writer(
    s: &FileServiceImpl,
    q: &WriteFileRequest,
    dest: &Result<(), Status>,
    ts: u64,
    plan: WritePlan,
    key: Seq<char>,
    id: &str,
    writer: String,
    digits: String,
)
    requires
        call_ensures(FileServiceImpl::write_file, (s, q, dest, ts), Ok(plan)),
        leads_to(q.path@, key),
        plan.reply.conflict_path@.len() > 0,
        call_ensures(sanitize_device_id, (id,), writer),
        id@ == q.writer_device_id@,
        call_ensures(render_decimal, (ts,), digits),
    ensures
        plan.reply.conflict_path@ == key + ".conflict-"@ + (if q.writer_device_id@.len() == 0 {
            "unknown"@
        } else {
            writer@
        }) + "-"@ + digits@,
{
    lemma_trimmed(q.path@, key);
}

/// A write is turned down for one of two reasons only: it is for the root, or its path could not be
/// located, and then with the reason for that. What anyone has seen turns no write down.
pub proof fn law_write_is_turned_down(
    s: &FileServiceImpl,
    q: &WriteFileRequest,
    dest: &Result<(), Status>,
    ts: u64,
    r: Result<WritePlan, Status>,
    key: Seq<char>,
)
    requires
        call_ensures(FileServiceImpl::write_file, (s, q, dest, ts), r),
        leads_to(q.path@, key),
    ensures
        key.len() == 0 ==> (r matches Err(e) && e.code == Code::InvalidArgument),
        key.len() > 0 && *dest is Ok ==> r is Ok,
        key.len() > 0 && r is Err ==> *dest is Err && r->Err_0.code == (*dest)->Err_0.code
            && r->Err_0.message@ == (*dest)->Err_0.message@,
        key.len() > 0 && *dest is Err && (*dest)->Err_0.code != Code::NotFound ==> r is Err,
        *dest is Err && !key.contains('/') ==> r is Err,
{
    lemma_trimmed(q.path@, key);
    if !key.contains('/') {
        lemma_no_parent(key);
    }
}

proof fn lemma_no_parent(key: Seq<char>)
    requires
        !key.contains('/'),
    ensures
        parent_of(key) is None,
{
    if key.len() > 0 {
        assert(key.contains(key.last()));
    }
    lemma_no_suffix(key);
    crate::text_laws::lemma_last_index(key, '/');
    if last_index(key, '/') is Some {
        assert(key.contains(key[last_index(key, '/')->0]));
    }
}

/// No directory is made for a path that could be located, and nothing is remembered before the content
/// that it is about is in its place.
pub proof fn law_content_comes_before_its_clock(
    s: &FileServiceImpl,
    q: &WriteFileRequest,
    dest: &Result<(), Status>,
    ts: u64,
    plan: WritePlan,
)
    requires
        call_ensures(FileServiceImpl::write_file, (s, q, dest, ts), Ok(plan)),
    ensures
        *dest is Ok ==> forall|i: int|
            0 <= i < plan.steps@.len() ==> !((#[trigger] plan.steps@[i])@ is CreateDir),
        forall|i: int, j: int|
            0 <= i < j < plan.steps@.len() && ((#[trigger] plan.steps@[i])@ is PutClock
                || plan.steps@[i]@ is DropTombstone) ==> !((#[trigger] plan.steps@[j])@ is Store),
{
    lemma_views(plan.steps@);
    let v = views(plan.steps@);
    assert forall|i: int| 0 <= i < v.len() implies #[trigger] plan.steps@[i]@ == v[i] by {}
}

/// A file is removed before its deletion is remembered, and its clock is forgotten last; a file is at
/// its new path before that is remembered.
pub proof fn law_files_come_before_what_is_remembered(
    s: &FileServiceImpl,
    d: &DeleteFileRequest,
    found: &Result<(), Status>,
    gone: DeletePlan,
    q: &RenameFileRequest,
    dest: &Result<(), Status>,
    ts: u64,
    moved: RenamePlan,
    new: Seq<char>,
)
    requires
        call_ensures(FileServiceImpl::delete_file, (s, d, found), Ok(gone)),
        call_ensures(FileServiceImpl::rename_file, (s, q, found, dest, ts), Ok(moved)),
        leads_to(q.new_path@, new),
    ensures
        forall|i: int, j: int|
            0 <= i < j < gone.steps@.len() ==> !((#[trigger] gone.steps@[j])@ is RemoveFile) && !((
            #[trigger] gone.steps@[i])@ is DropClock),
        forall|i: int, j: int|
            0 <= i < j < moved.steps@.len() && (#[trigger] moved.steps@[i])@ is PutClock && (
            moved.steps@[i]@->PutClock_key) == new && moved.reply.conflict_path@ != new ==> !((
            #[trigger] moved.steps@[j])@ is MoveFile) && !(moved.steps@[j]@ is CreateEmpty),
{
    lemma_trimmed(q.new_path@, new);
    lemma_views(gone.steps@);
    lemma_views(moved.steps@);
    let v = views(gone.steps@);
    assert forall|i: int| 0 <= i < v.len() implies #[trigger] gone.steps@[i]@ == v[i] by {}
    let w = views(moved.steps@);
    assert forall|i: int| 0 <= i < w.len() implies #[trigger] moved.steps@[i]@ == w[i] by {}
}

/// The copy that a conflicting rename leaves stands beside the old path: its name is that of the file,
/// who renamed it, and the second in which it came.
pub proof fn law_copy_of_a_rename_is_named_after_its_writer(
    s: &FileServiceImpl,
    q: &RenameFileRequest,
    found: &Result<(), Status>,
    dest: &Result<(), Status>,
    ts: u64,
    plan: RenamePlan,
    key: Seq<char>,
    id: &str,
    writer: String,
    digits: String,
)
    requires
        call_ensures(FileServiceImpl::rename_file, (s, q, found, dest, ts), Ok(plan)),
        leads_to(q.old_path@, key),
        plan.reply.conflict_path@.len() > 0,
        call_ensures(sanitize_device_id, (id,), writer),
        id@ == q.writer_device_id@,
        call_ensures(render_decimal, (ts,), digits),
    ensures
        plan.reply.conflict_path@ == key + ".conflict-"@ + (if q.writer_device_id@.len() == 0 {
            "unknown"@
        } else {
            writer@
        }) + "-"@ + digits@,
{
    lemma_trimmed(q.old_path@, key);
}

/// Whether a path is that of a name in the directory `dir`, with slashes between them that end at `n`,
/// and with nothing but slashes from `m` on.
pub open spec fn lies_in_dir(key: Seq<char>, dir: Seq<char>, n: int, m: int) -> bool {
    &&& 0 < dir.len() < n
    &&& n < m <= key.len()
    &&& key.take(dir.len() as int) == dir
    &&& dir.last() != '/'
    &&& forall|i: int| dir.len() <= i < n ==> #[trigger] key[i] == '/'
    &&& forall|i: int| n <= i < m ==> #[trigger] key[i] != '/'
    &&& forall|i: int| m <= i < key.len() ==> #[trigger] key[i] == '/'
}

/// A write of a file in a directory that does not exist goes through where the directory was
/// deleted: the directory is made first, and nothing else is done to it. Where it was not deleted,
/// the write is turned down.
pub proof fn law_write_below_a_missing_directory(
    s: &FileServiceImpl,
    q: &WriteFileRequest,
    dest: &Result<(), Status>,
    ts: u64,
    r: Result<WritePlan, Status>,
    key: Seq<char>,
    dir: Seq<char>,
    n: int,
    m: int,
)
    requires
        call_ensures(FileServiceImpl::write_file, (s, q, dest, ts), r),
        leads_to(q.path@, key),
        lies_in_dir(key, dir, n, m),
        *dest matches Err(e) && e.code == Code::NotFound,
    ensures
        r is Ok <==> holds(s.tombstones@, dir),
        r matches Ok(plan) ==> ({
            &&& plan.reply.result != WriteResult::Stale ==> plan.steps@.len() > 0
                && plan.steps@[0]@ == (StepView::CreateDir { key: dir })
            &&& plan.reply.result == WriteResult::Stale ==> plan.steps@.len() == 0
        }),
{
    lemma_trimmed(q.path@, key);
    lemma_held(s.tombstones@, dir);
    lemma_parent(key, dir, n, m);
    if r is Ok {
        let plan = r->Ok_0;
        lemma_views(plan.steps@);
        if plan.steps@.len() > 0 {
            assert(views(plan.steps@)[0] == plan.steps@[0]@);
        }
    }
}

proof fn lemma_slashes_cut(s: Seq<char>, m: int)
    requires
        0 < m <= s.len(),
        s[m - 1] != '/',
        forall|i: int| m <= i < s.len() ==> #[trigger] s[i] == '/',
    ensures
        without_suffixes(s, "/"@) == s.take(m),
    decreases s.len(),
{
    reveal_strlit("/");
    if m < s.len() {
        let t = s.take(s.len() - 1);
        assert(s[s.len() - 1] == '/');
        assert(s.skip(s.len() - 1) =~= "/"@);
        lemma_slashes_cut(t, m);
        assert(t.take(m) =~= s.take(m));
    } else {
        assert(s.skip(s.len() - 1)[0] == s[m - 1]);
        assert(s.take(m) =~= s);
    }
}

proof fn lemma_no_suffix(s: Seq<char>)
    requires
        s.len() == 0 || s.last() != '/',
    ensures
        without_suffixes(s, "/"@) == s,
{
    reveal_strlit("/");
    if s.len() > 0 {
        assert(s.skip(s.len() - 1)[0] == s.last());
    }
}

proof fn lemma_parent(key: Seq<char>, dir: Seq<char>, n: int, m: int)
    requires
        lies_in_dir(key, dir, n, m),
    ensures
        parent_of(key) == Some(dir),
{
    assert(key[m - 1] != '/');
    lemma_slashes_cut(key, m);
    let k = key.take(m);
    crate::text_laws::lemma_last_index(k, '/');
    assert(k[n - 1] == '/');
    let i = last_index(k, '/')->0;
    assert(i == n - 1) by {
        if i > n - 1 {
            assert(key[i] != '/');
        }
    }
    let above = k.take(n - 1);
    let d = dir.len() as int;
    assert(above[d - 1] == key.take(d)[d - 1]);
    assert forall|j: int| d <= j < above.len() implies #[trigger] above[j] == '/' by {
        assert(key[j] == '/');
    }
    lemma_slashes_cut(above, d);
    assert(above.take(d) =~= key.take(d));
}

/// A file that is written in pieces fares as one that is written whole: the same is done, and the
/// same is answered.
pub proof fn law_pieces_fare_as_the_whole(
    s: &FileServiceImpl,
    c: &WriteFileChunk,
    t: &StreamTarget,
    q: &WriteFileRequest,
    dest: &Result<(), Status>,
    ts: u64,
    streamed: Result<WritePlan, Status>,
    whole: Result<WritePlan, Status>,
)
    requires
        call_ensures(open_write_stream, (Some(c),), Ok(*t)),
        call_ensures(FileServiceImpl::write_file_stream, (s, t, dest, ts), streamed),
        call_ensures(FileServiceImpl::write_file, (s, q, dest, ts), whole),
        q.path@ == c.path@,
        brought(q.clock) == brought(c.clock),
        q.writer_device_id@ == c.writer_device_id@,
    ensures
        t.path@ == q.path@,
        streamed is Ok <==> whole is Ok,
        streamed is Ok ==> views(streamed->Ok_0.steps@) == views(whole->Ok_0.steps@)
            && streamed->Ok_0.reply@ == whole->Ok_0.reply@,
        streamed is Err ==> streamed->Err_0@ == whole->Err_0@,
{
}

/// A stream can be read where its first piece names a path below the root.
pub proof fn law_first_piece_names_the_path(
    first: Option<&WriteFileChunk>,
    r: Result<StreamTarget, Status>,
    key: Seq<char>,
)
    requires
        call_ensures(open_write_stream, (first,), r),
        first matches Some(c) ==> leads_to(c.path@, key),
    ensures
        r is Ok <==> first is Some && key.len() > 0,
        r matches Ok(t) ==> t.key@ == key && t.path@ == first->0.path@ && t.incoming@ == brought(
            first->0.clock,
        ),
        r matches Err(e) ==> e.code == Code::InvalidArgument,
{
    if first is Some {
        lemma_trimmed(first->0.path@, key);
    }
}

/// A delete of a file is carried out where its sender has seen all that the host has seen of the
/// file, is stale where the host has seen all that the sender has and more, and is a conflict where
/// each has seen something that the other has not. A delete of what was deleted before is carried
/// out whatever its sender has seen.
pub proof fn law_delete_result(
    s: &FileServiceImpl,
    q: &DeleteFileRequest,
    found: &Result<(), Status>,
    plan: DeletePlan,
    key: Seq<char>,
)
    requires
        call_ensures(FileServiceImpl::delete_file, (s, q, found), Ok(plan)),
        leads_to(q.path@, key),
    ensures
        ({
            let known = gone_by(*s, key);
            let sent = brought(q.clock);
            let deleted = holds(s.tombstones@, key);
            &&& deleted ==> plan.reply.result == DeleteResult::Deleted
            &&& !deleted && *found is Err ==> plan.reply.result == DeleteResult::NotFound
            &&& !deleted && *found is Ok ==> {
                &&& plan.reply.result == DeleteResult::Deleted <==> has_seen(sent, known)
                &&& plan.reply.result == DeleteResult::Stale <==> !has_seen(sent, known) && has_seen(
                    known,
                    sent,
                )
                &&& plan.reply.result == DeleteResult::Conflict <==> !has_seen(sent, known)
                    && !has_seen(known, sent)
            }
        }),
{
    lemma_trimmed(q.path@, key);
    lemma_held(s.tombstones@, key);
    lemma_has_seen(brought(q.clock), gone_by(*s, key));
    lemma_has_seen(gone_by(*s, key), brought(q.clock));
}

/// A file whose deletion is carried out is gone with its clock, and what both have seen of it is
/// remembered as deleted. A file whose edits the sender had not all seen stays, with its clock. A
/// deletion that is repeated adds what its sender has seen to what is remembered, and keeps the
/// second in which it was first remembered. No other path is touched.
pub proof fn law_delete_effect(
    s: &FileServiceImpl,
    q: &DeleteFileRequest,
    found: &Result<(), Status>,
    plan: DeletePlan,
    key: Seq<char>,
    disk: Map<Seq<char>, Seq<u8>>,
    now: u64,
)
    requires
        call_ensures(FileServiceImpl::delete_file, (s, q, found), Ok(plan)),
        leads_to(q.path@, key),
    ensures
        ({
            let known = gone_by(*s, key);
            let sent = brought(q.clock);
            let before = s.world(disk);
            let after = after_steps(before, views(plan.steps@), Seq::empty(), now);
            if holds(s.tombstones@, key) {
                &&& after.disk == disk
                &&& after.clocks == before.clocks
                &&& after.tombstones == before.tombstones.insert(key, after.tombstones[key])
                &&& after.tombstones[key].at == before.tombstones[key].at
                &&& unites(after.tombstones[key].clock, known, sent)
                &&& plan.reply.clock@ == after.tombstones[key].clock
            } else if *found is Ok && has_seen(sent, known) {
                &&& after.disk == disk.remove(key)
                &&& after.clocks == before.clocks.remove(key)
                &&& after.tombstones == before.tombstones.insert(key, after.tombstones[key])
                &&& !before.tombstones.dom().contains(key) ==> after.tombstones[key].at == now
                &&& unites(after.tombstones[key].clock, known, sent)
                &&& plan.reply.clock@ == after.tombstones[key].clock
            } else {
                &&& after == before
                &&& plan.reply.clock@ == known
            }
        }),
{
    reveal_with_fuel(after_steps, 5);
    lemma_trimmed(q.path@, key);
    lemma_held(s.tombstones@, key);
    let known = gone_by(*s, key);
    let sent = brought(q.clock);
    lemma_has_seen(sent, known);
    lemma_has_seen(known, sent);
    lemma_unites(known, sent);
}

/// A delete is turned down for one of two reasons only: it is for the root, or the file could not be
/// looked for, and then with the reason for that.
pub proof fn law_delete_is_turned_down(
    s: &FileServiceImpl,
    q: &DeleteFileRequest,
    found: &Result<(), Status>,
    r: Result<DeletePlan, Status>,
    key: Seq<char>,
)
    requires
        call_ensures(FileServiceImpl::delete_file, (s, q, found), r),
        leads_to(q.path@, key),
    ensures
        key.len() == 0 ==> (r matches Err(e) && e.code == Code::InvalidArgument),
        key.len() > 0 ==> (r is Err <==> !holds(s.tombstones@, key) && (*found matches Err(d)
            && d.code != Code::NotFound)),
        key.len() > 0 && r is Err ==> r->Err_0.code == (*found)->Err_0.code && r->Err_0.message@
            == (*found)->Err_0.message@,
{
    lemma_trimmed(q.path@, key);
    lemma_held(s.tombstones@, key);
}

/// A rename is carried out where its sender has seen all that the host has seen of the old path, is
/// stale where the host has seen all that the sender has and more, and is a conflict where each has
/// seen something that the other has not.
pub proof fn law_rename_result(
    s: &FileServiceImpl,
    q: &RenameFileRequest,
    found: &Result<(), Status>,
    dest: &Result<(), Status>,
    ts: u64,
    plan: RenamePlan,
    key: Seq<char>,
)
    requires
        call_ensures(FileServiceImpl::rename_file, (s, q, found, dest, ts), Ok(plan)),
        leads_to(q.old_path@, key),
    ensures
        ({
            let known = gone_by(*s, key);
            let sent = brought(q.clock);
            let deleted = holds(s.tombstones@, key);
            &&& !deleted && *found is Err ==> plan.reply.result == RenameResult::NotFound
            &&& deleted || *found is Ok ==> {
                &&& plan.reply.result == RenameResult::Renamed <==> has_seen(sent, known)
                &&& plan.reply.result == RenameResult::Stale <==> !has_seen(sent, known) && has_seen(
                    known,
                    sent,
                )
                &&& plan.reply.result == RenameResult::Conflict <==> !has_seen(sent, known)
                    && !has_seen(known, sent)
            }
        }),
{
    lemma_trimmed(q.old_path@, key);
    lemma_held(s.tombstones@, key);
    lemma_has_seen(brought(q.clock), gone_by(*s, key));
    lemma_has_seen(gone_by(*s, key), brought(q.clock));
}

/// A file that is renamed, whether or not it was edited at the same time, is at the new path and no
/// longer at the old one, with what both have seen of it; where it was edited at the same time, its
/// content is also in a copy beside the old path, with what the sender had seen. Where the old path
/// was deleted, an empty file is at the new one. A rename that is stale or finds no file changes
/// nothing.
pub proof fn law_rename_effect(
    s: &FileServiceImpl,
    q: &RenameFileRequest,
    found: &Result<(), Status>,
    dest: &Result<(), Status>,
    ts: u64,
    plan: RenamePlan,
    key: Seq<char>,
    new: Seq<char>,
    disk: Map<Seq<char>, Seq<u8>>,
    now: u64,
)
    requires
        call_ensures(FileServiceImpl::rename_file, (s, q, found, dest, ts), Ok(plan)),
        leads_to(q.old_path@, key),
        leads_to(q.new_path@, new),
    ensures
        ({
            let known = gone_by(*s, key);
            let sent = brought(q.clock);
            let deleted = holds(s.tombstones@, key);
            let before = s.world(disk);
            let after = after_steps(before, views(plan.steps@), Seq::empty(), now);
            let copy = plan.reply.conflict_path@;
            if (!deleted && *found is Err) || (!has_seen(sent, known) && has_seen(known, sent)) {
                &&& after == before
                &&& plan.reply.clock@ == known
                &&& copy.len() == 0
            } else {
                &&& after.clocks.dom().contains(new)
                &&& after.clocks[new].at == now
                &&& unites(after.clocks[new].clock, known, sent)
                &&& plan.reply.clock@ == after.clocks[new].clock
                &&& !after.tombstones.dom().contains(new)
                &&& if deleted {
                    &&& after.disk == disk.insert(new, Seq::empty())
                    &&& after.tombstones == before.tombstones.remove(key).remove(new)
                    &&& after.clocks == before.clocks.insert(new, after.clocks[new])
                    &&& copy.len() == 0
                } else if has_seen(sent, known) {
                    &&& after.disk == disk.remove(key).insert(new, disk[key])
                    &&& after.tombstones == before.tombstones.remove(new)
                    &&& after.clocks == before.clocks.remove(key).insert(new, after.clocks[new])
                    &&& copy.len() == 0
                } else {
                    &&& copy.len() > key.len()
                    &&& after.disk == disk.insert(copy, disk[key]).remove(key).insert(new, disk[key])
                    &&& after.tombstones == before.tombstones.remove(new)
                    &&& after.clocks == before.clocks.insert(
                        copy,
                        Stamped { clock: sent, at: now },
                    ).remove(key).insert(new, after.clocks[new])
                }
            }
        }),
{
    reveal_with_fuel(after_steps, 8);
    lemma_trimmed(q.old_path@, key);
    lemma_trimmed(q.new_path@, new);
    lemma_held(s.tombstones@, key);
    let known = gone_by(*s, key);
    let sent = brought(q.clock);
    lemma_has_seen(sent, known);
    lemma_has_seen(known, sent);
    lemma_unites(known, sent);
    reveal_strlit(".conflict-");
    let before = s.world(disk);
    let copy = plan.reply.conflict_path@;
    if copy.len() > 0 {
        assert(copy.len() > key.len());
        assert(disk.insert(copy, disk[key])[key] == disk[key]);
    }
}

/// A rename is turned down where either path is the root, or where one of them could not be located
/// though the rename depends on it, and then with the reason for that.
pub proof fn law_rename_is_turned_down(
    s: &FileServiceImpl,
    q: &RenameFileRequest,
    found: &Result<(), Status>,
    dest: &Result<(), Status>,
    ts: u64,
    r: Result<RenamePlan, Status>,
    key: Seq<char>,
    new: Seq<char>,
)
    requires
        call_ensures(FileServiceImpl::rename_file, (s, q, found, dest, ts), r),
        leads_to(q.old_path@, key),
        leads_to(q.new_path@, new),
    ensures
        key.len() == 0 || new.len() == 0 ==> (r matches Err(e) && e.code == Code::InvalidArgument),
        key.len() > 0 && new.len() > 0 ==> (r is Err <==> {
            let known = gone_by(*s, key);
            let sent = brought(q.clock);
            let deleted = holds(s.tombstones@, key);
            let stale = !has_seen(sent, known) && has_seen(known, sent);
            ||| !deleted && *found is Err && (*found)->Err_0.code != Code::NotFound
            ||| !deleted && *found is Ok && *dest is Err
            ||| deleted && !stale && *dest is Err
        }),
        key.len() > 0 && new.len() > 0 && r is Ok && r->Ok_0.steps@.len() > 0 ==> *dest is Ok,
        key.len() > 0 && new.len() > 0 && r is Err ==> {
            ||| *dest is Err && r->Err_0@ == (*dest)->Err_0@
            ||| *found is Err && r->Err_0@ == (*found)->Err_0@
        },
{
    lemma_trimmed(q.old_path@, key);
    lemma_trimmed(q.new_path@, new);
    lemma_held(s.tombstones@, key);
    lemma_has_seen(brought(q.clock), gone_by(*s, key));
    lemma_has_seen(gone_by(*s, key), brought(q.clock));
    if r is Ok {
        lemma_views(r->Ok_0.steps@);
    }
}

/// What a step puts into a store is held from then on, what it drops is held no longer, and no other
/// path is touched; a tombstone that is already there keeps the second in which it was made. A store
/// is to be written out where it has changed.
pub proof fn law_step_on_the_stores(
    s: &mut FileServiceImpl,
    step: &Step,
    now: u64,
    touched: Touched,
    key: Seq<char>,
)
    requires
        call_ensures(FileServiceImpl::apply, (s, step, now), touched),
    ensures
        step@ matches StepView::PutClock { key, clock } ==> final(s).clocks@ == old(
            s,
        ).clocks@.insert(key, Stamped { clock, at: now }) && final(s).tombstones@ == old(
            s,
        ).tombstones@ && touched == Touched::Clocks,
        step@ matches StepView::PutTombstone { key, clock } ==> final(s).clocks@ == old(s).clocks@
            && final(s).tombstones@ == old(s).tombstones@.insert(key, final(s).tombstones@[key])
            && final(s).tombstones@[key].clock == clock && final(s).tombstones@[key].at == (if old(
            s,
        ).tombstones@.dom().contains(key) {
            old(s).tombstones@[key].at
        } else {
            now
        }) && touched == Touched::Tombstones,
        step@ == (StepView::DropClock { key }) ==> final(s).clocks@ == old(s).clocks@.remove(key)
            && final(s).tombstones@ == old(s).tombstones@,
        step@ == (StepView::DropTombstone { key }) || step@ == (StepView::ForgetTombstone { key })
            ==> final(s).tombstones@ == old(s).tombstones@.remove(key) && final(s).clocks@ == old(
            s,
        ).clocks@,
        step@ is Store || step@ is CreateDir || step@ is CreateEmpty || step@ is RemoveFile || step@
            is MoveFile || step@ is CopyFile ==> final(s).clocks@ == old(s).clocks@
            && final(s).tombstones@ == old(s).tombstones@,
        final(s).clocks@ != old(s).clocks@ ==> touched == Touched::Clocks,
        final(s).tombstones@ != old(s).tombstones@ ==> touched == Touched::Tombstones,
{
    let disk = Map::<Seq<char>, Seq<u8>>::empty();
    let before = old(s).world(disk);
    let after = after_step(before, step@, Seq::empty(), now);
    assert(final(s).clocks@ == after.clocks && final(s).tombstones@ == after.tombstones);
    assert(touched == touched_by(before, step@));
    match step@ {
        StepView::DropClock { key } => {
            if !before.clocks.dom().contains(key) {
                assert(before.clocks.remove(key) =~= before.clocks);
            }
        },
        StepView::DropTombstone { key } | StepView::ForgetTombstone { key } => {
            if !before.tombstones.dom().contains(key) {
                assert(before.tombstones.remove(key) =~= before.tombstones);
            }
        },
        _ => {},
    }
}

/// A device id in a file name keeps its letters, digits, `-` and `_` where they are, has `_` in the
/// place of every other character, and neither grows nor shrinks.
pub proof fn law_sanitized_keeps_plain_characters(raw: &str, r: String)
    requires
        call_ensures(sanitize_device_id, (raw,), r),
    ensures
        r@.len() == raw@.len(),
        forall|i: int|
            0 <= i < raw@.len() ==> {
                let c = #[trigger] raw@[i];
                let plain = ('0' <= c && c <= '9') || ('A' <= c && c <= 'Z') || ('a' <= c && c <= 'z')
                    || c == '-' || c == '_';
                &&& plain ==> r@[i] == c
                &&& !plain && (c as u32) < 128 ==> r@[i] == '_'
                &&& (c as u32) >= 128 && alphanumeric(c) ==> r@[i] == c
                &&& (c as u32) >= 128 && !alphanumeric(c) ==> r@[i] == '_'
            },
{
}

/// What each step does to the files, path by path: content that is stored is at its path, a file that is
/// made is empty, one that is removed is gone, one that is moved is at the new path and not at the old
/// one, and one that is copied is at both. No other path is touched, and no step on what is remembered
/// touches a file.
pub proof fn law_step_on_the_files(
    w: World,
    data: Seq<u8>,
    now: u64,
    a: Seq<char>,
    b: Seq<char>,
    p: Seq<char>,
    clock: Counts,
)
    requires
        a != b,
        w.disk.dom().contains(a),
    ensures
        ({
            let stored = after_step(w, StepView::Store { key: b }, data, now).disk;
            let made = after_step(w, StepView::CreateEmpty { key: b }, data, now).disk;
            let removed = after_step(w, StepView::RemoveFile { key: a }, data, now).disk;
            let moved = after_step(w, StepView::MoveFile { from: a, to: b }, data, now).disk;
            let copied = after_step(w, StepView::CopyFile { from: a, to: b }, data, now).disk;
            &&& stored.dom().contains(b) && stored[b] == data
            &&& made.dom().contains(b) && made[b].len() == 0
            &&& !removed.dom().contains(a)
            &&& moved.dom().contains(b) && moved[b] == w.disk[a] && !moved.dom().contains(a)
            &&& copied.dom().contains(b) && copied[b] == w.disk[a] && copied[a] == w.disk[a]
            &&& p != b && w.disk.dom().contains(p) ==> stored[p] == w.disk[p] && made[p] == w.disk[p]
                && copied[p] == w.disk[p]
            &&& p != a && w.disk.dom().contains(p) ==> removed[p] == w.disk[p]
            &&& p != a && p != b && w.disk.dom().contains(p) ==> moved[p] == w.disk[p]
            &&& after_step(w, StepView::CreateDir { key: b }, data, now).disk == w.disk
            &&& after_step(w, StepView::PutClock { key: b, clock }, data, now).disk == w.disk
            &&& after_step(w, StepView::DropClock { key: b }, data, now).disk == w.disk
            &&& after_step(w, StepView::PutTombstone { key: b, clock }, data, now).disk == w.disk
            &&& after_step(w, StepView::DropTombstone { key: b }, data, now).disk == w.disk
            &&& after_step(w, StepView::ForgetTombstone { key: b }, data, now).disk == w.disk
        }),
{
}

/// Steps are done one after the other: no step changes nothing, and one step more is done to what those
/// before it have left.
pub proof fn law_steps_are_done_in_order(
    w: World,
    steps: Seq<StepView>,
    last: StepView,
    data: Seq<u8>,
    now: u64,
)
    ensures
        after_steps(w, Seq::empty(), data, now) == w,
        after_steps(w, steps.push(last), data, now) == after_step(
            after_steps(w, steps, data, now),
            last,
            data,
            now,
        ),
    decreases steps.len(),
{
    reveal_with_fuel(after_steps, 2);
    if steps.len() > 0 {
        assert(steps.push(last).drop_first() =~= steps.drop_first().push(last));
        law_steps_are_done_in_order(
            after_step(w, steps[0], data, now),
            steps.drop_first(),
            last,
            data,
            now,
        );
    } else {
        assert(steps.push(last).drop_first() =~= Seq::empty());
    }
}

} // verus!
