//! What holds of the serving side over whole requests and over sequences of them.
use vstd::prelude::*;

use crate::clock::{
    count, covers, joined, law_increment_dominates, law_independent_writes_conflict,
    law_merge_is_least_upper_bound, order, ticked, ClockOrder, Counts,
};
use crate::host::{
    after_steps, below_dir, chunk_content, conflict_name, delete_answer, delete_steps, is_decided,
    key_of, law_conflict_copy_is_beside, opens, parent_of, planned_steps, rename_answer,
    rename_copy, rename_steps, seen, write_reply, write_steps, writer_or_unknown, DeleteResult, RenameResult,
    StepView, StreamTarget, World, WriteFileChunk, WriteFileRequest, WritePlan, WriteReplyView,
    WriteResult,
};
use crate::status::Status;
use crate::store::clock_of;
use crate::text::{last_index, without_suffixes};

verus! {

/// The world after a write of `data` to `key`, by `writer` with the clock `incoming`.
pub open spec fn after_write(
    w: World,
    key: Seq<char>,
    incoming: Counts,
    writer: Seq<char>,
    ts: u64,
    data: Seq<u8>,
    now: u64,
) -> World {
    after_steps(
        w,
        write_steps(
            clock_of(w.tombstones, key),
            clock_of(w.clocks, key),
            incoming,
            key,
            writer,
            ts,
        ),
        data,
        now,
    )
}

/// The answer to that write.
pub open spec fn answer_to_write(
    w: World,
    key: Seq<char>,
    incoming: Counts,
    writer: Seq<char>,
    ts: u64,
) -> WriteReplyView {
    write_reply(clock_of(w.tombstones, key), clock_of(w.clocks, key), incoming, key, writer, ts)
}

/// The world after a delete of `key` with the clock `incoming`.
pub open spec fn after_delete(w: World, key: Seq<char>, incoming: Counts, now: u64) -> World {
    after_steps(
        w,
        delete_steps(
            clock_of(w.tombstones, key),
            clock_of(w.clocks, key),
            incoming,
            key,
            !w.disk.dom().contains(key),
        ),
        Seq::empty(),
        now,
    )
}

/// The answer to that delete.
pub open spec fn answer_to_delete(w: World, key: Seq<char>, incoming: Counts) -> (
    DeleteResult,
    Counts,
) {
    delete_answer(
        clock_of(w.tombstones, key),
        clock_of(w.clocks, key),
        incoming,
        !w.disk.dom().contains(key),
    )
}

/// The world after a rename from `old` to `new`, by `writer` with the clock `incoming`.
pub open spec fn after_rename(
    w: World,
    old: Seq<char>,
    new: Seq<char>,
    incoming: Counts,
    writer: Seq<char>,
    ts: u64,
    now: u64,
) -> World {
    after_steps(
        w,
        rename_steps(
            clock_of(w.tombstones, old),
            clock_of(w.clocks, old),
            incoming,
            old,
            new,
            writer,
            ts,
            !w.disk.dom().contains(old),
        ),
        Seq::empty(),
        now,
    )
}

/// The answer to that rename.
pub open spec fn answer_to_rename(w: World, old: Seq<char>, incoming: Counts) -> (
    RenameResult,
    Counts,
) {
    rename_answer(
        clock_of(w.tombstones, old),
        clock_of(w.clocks, old),
        incoming,
        !w.disk.dom().contains(old),
    )
}

/// Where that rename keeps a copy, if it does.
pub open spec fn copy_of_rename(
    w: World,
    old: Seq<char>,
    incoming: Counts,
    writer: Seq<char>,
    ts: u64,
) -> Seq<char> {
    rename_copy(
        clock_of(w.tombstones, old),
        clock_of(w.clocks, old),
        incoming,
        old,
        writer,
        ts,
        !w.disk.dom().contains(old),
    )
}

/// Whether no path is remembered as live and as deleted at once.
pub open spec fn live_or_deleted(w: World) -> bool {
    forall|k: Seq<char>| #[trigger]
        w.clocks.dom().contains(k) ==> clock_of(w.tombstones, k) == Counts::empty()
}

/// A write that is answered with `Stale` changes nothing, and the answer tells the writer what
/// the host has seen.
pub proof fn law_stale_write_changes_nothing(
    w: World,
    key: Seq<char>,
    incoming: Counts,
    writer: Seq<char>,
    ts: u64,
    data: Seq<u8>,
    now: u64,
)
    requires
        answer_to_write(w, key, incoming, writer, ts).result == WriteResult::Stale,
    ensures
        after_write(w, key, incoming, writer, ts, data, now) == w,
        order(incoming, answer_to_write(w, key, incoming, writer, ts).clock)
            == ClockOrder::DominatedBy,
{
}

/// A write that is answered with `Applied` has put its content at the path. The path is live, with
/// the clock that was answered, which has seen all that the writer and the host had seen.
pub proof fn law_applied_write_is_stored(
    w: World,
    key: Seq<char>,
    incoming: Counts,
    writer: Seq<char>,
    ts: u64,
    data: Seq<u8>,
    now: u64,
)
    requires
        answer_to_write(w, key, incoming, writer, ts).result == WriteResult::Applied,
    ensures
        ({
            let after = after_write(w, key, incoming, writer, ts, data, now);
            let answer = answer_to_write(w, key, incoming, writer, ts);
            &&& after.disk.dom().contains(key)
            &&& after.disk[key] == data
            &&& clock_of(after.clocks, key) == answer.clock
            &&& clock_of(after.tombstones, key) == Counts::empty()
            &&& covers(answer.clock, incoming)
            &&& covers(answer.clock, clock_of(w.tombstones, key))
            &&& clock_of(w.tombstones, key) == Counts::empty() ==> covers(
                answer.clock,
                clock_of(w.clocks, key),
            )
        }),
{
    reveal_with_fuel(after_steps, 4);
    let tomb = clock_of(w.tombstones, key);
    let stored = clock_of(w.clocks, key);
    law_merge_is_least_upper_bound(tomb, incoming, incoming);
    law_merge_is_least_upper_bound(stored, incoming, incoming);
    if tomb != Counts::empty() {
    } else {
        assert(covers(joined(stored, incoming), tomb));
    }
}

/// A write that conflicts with an edit keeps both: the file and its clock stay as they were, and
/// the written content is in a copy beside it, with the writer's clock.
pub proof fn law_concurrent_write_keeps_both(
    w: World,
    key: Seq<char>,
    incoming: Counts,
    writer: Seq<char>,
    ts: u64,
    data: Seq<u8>,
    now: u64,
)
    requires
        clock_of(w.tombstones, key) == Counts::empty(),
        answer_to_write(w, key, incoming, writer, ts).result == WriteResult::Conflict,
    ensures
        ({
            let after = after_write(w, key, incoming, writer, ts, data, now);
            let copy = conflict_name(key, writer, ts);
            &&& answer_to_write(w, key, incoming, writer, ts).conflict_path == copy
            &&& copy != key
            &&& after.disk[copy] == data
            &&& after.disk.dom().contains(copy)
            &&& after.disk.dom().contains(key) == w.disk.dom().contains(key)
            &&& after.disk[key] == w.disk[key]
            &&& clock_of(after.clocks, key) == clock_of(w.clocks, key)
            &&& clock_of(after.clocks, copy) == incoming
        }),
{
    reveal_with_fuel(after_steps, 4);
    law_conflict_copy_is_beside(key, writer, ts);
}

/// A write that conflicts with a delete keeps the written content: the path is live again, with a
/// clock that has seen the write and the delete.
pub proof fn law_edit_survives_concurrent_delete(
    w: World,
    key: Seq<char>,
    incoming: Counts,
    writer: Seq<char>,
    ts: u64,
    data: Seq<u8>,
    now: u64,
)
    requires
        clock_of(w.tombstones, key) != Counts::empty(),
        order(incoming, clock_of(w.tombstones, key)) == ClockOrder::Concurrent,
    ensures
        ({
            let after = after_write(w, key, incoming, writer, ts, data, now);
            let answer = answer_to_write(w, key, incoming, writer, ts);
            &&& answer.result == WriteResult::Conflict
            &&& answer.conflict_path.len() == 0
            &&& after.disk.dom().contains(key)
            &&& after.disk[key] == data
            &&& clock_of(after.tombstones, key) == Counts::empty()
            &&& clock_of(after.clocks, key) == joined(clock_of(w.tombstones, key), incoming)
        }),
{
    reveal_with_fuel(after_steps, 4);
}

/// A write touches the file it names or the copy that it is answered with, and no other path.
pub proof fn law_write_leaves_other_paths(
    w: World,
    key: Seq<char>,
    incoming: Counts,
    writer: Seq<char>,
    ts: u64,
    data: Seq<u8>,
    now: u64,
    other: Seq<char>,
)
    requires
        other != key,
        other != answer_to_write(w, key, incoming, writer, ts).conflict_path,
    ensures
        ({
            let after = after_write(w, key, incoming, writer, ts, data, now);
            &&& after.disk.dom().contains(other) == w.disk.dom().contains(other)
            &&& after.disk[other] == w.disk[other]
            &&& clock_of(after.clocks, other) == clock_of(w.clocks, other)
            &&& clock_of(after.tombstones, other) == clock_of(w.tombstones, other)
        }),
{
    reveal_with_fuel(after_steps, 4);
}

proof fn lemma_no_longer(s: Seq<char>, p: Seq<char>)
    ensures
        without_suffixes(s, p).len() <= s.len(),
    decreases s.len(),
{
    if p.len() > 0 && crate::text::ends_in(s, p) {
        lemma_no_longer(s.take(s.len() - p.len()), p);
    }
}

proof fn lemma_last_index_below(s: Seq<char>, c: char)
    ensures
        last_index(s, c) matches Some(i) ==> 0 <= i < s.len() && s[i] == c,
    decreases s.len(),
{
    if s.len() > 0 && s.last() != c {
        lemma_last_index_below(s.drop_last(), c);
    }
}

/// A write into a directory that was deleted makes the directory again, and else does what it does
/// in a directory that exists. That the directory was deleted stays on record.
pub proof fn law_write_into_deleted_directory(
    w: World,
    key: Seq<char>,
    dir: Seq<char>,
    incoming: Counts,
    writer: Seq<char>,
    ts: u64,
    data: Seq<u8>,
    now: u64,
)
    requires
        parent_of(key) == Some(dir),
    ensures
        ({
            let steps = write_steps(
                clock_of(w.tombstones, key),
                clock_of(w.clocks, key),
                incoming,
                key,
                writer,
                ts,
            );
            let after = after_steps(w, below_dir(Some(dir), steps), data, now);
            &&& after == after_write(w, key, incoming, writer, ts, data, now)
            &&& clock_of(after.tombstones, dir) == clock_of(w.tombstones, dir)
            &&& steps.len() > 0 ==> below_dir(Some(dir), steps)[0] == (StepView::CreateDir {
                key: dir,
            })
        }),
{
    let steps = write_steps(
        clock_of(w.tombstones, key),
        clock_of(w.clocks, key),
        incoming,
        key,
        writer,
        ts,
    );
    if steps.len() > 0 {
        let all = below_dir(Some(dir), steps);
        assert(all.drop_first() =~= steps);
        reveal_with_fuel(after_steps, 2);
    }
    let k = without_suffixes(key, "/"@);
    lemma_no_longer(key, "/"@);
    lemma_last_index_below(k, '/');
    lemma_no_longer(k.take(last_index(k, '/')->0), "/"@);
    law_conflict_copy_is_beside(key, writer, ts);
    assert(conflict_name(key, writer, ts).len() >= key.len());
    law_write_leaves_other_paths(w, key, incoming, writer, ts, data, now, dir);
}

/// A file that is sent in pieces is written like one that is sent whole: the same steps, the same
/// answer, and the same content in the end.
pub proof fn law_streamed_write_is_a_whole_write(
    w: World,
    request: WriteFileRequest,
    chunks: Seq<WriteFileChunk>,
    target: StreamTarget,
    dest: Result<(), Status>,
    ts: u64,
    now: u64,
)
    requires
        chunks.len() > 0,
        chunks[0].path@ == request.path@,
        seen(chunks[0].clock) == seen(request.clock),
        chunks[0].writer_device_id@ == request.writer_device_id@,
        chunk_content(chunks) == request.data@,
        opens(chunks[0], target),
    ensures
        ({
            let key = key_of(request.path@);
            let incoming = seen(request.clock);
            let writer = writer_or_unknown(request.writer_device_id@);
            let whole = planned_steps(w.tombstones, w.clocks, key, incoming, writer, dest, ts);
            let streamed = planned_steps(
                w.tombstones,
                w.clocks,
                target.key@,
                target.incoming@,
                target.writer@,
                dest,
                ts,
            );
            &&& streamed == whole
            &&& answer_to_write(w, target.key@, target.incoming@, target.writer@, ts)
                == answer_to_write(w, key, incoming, writer, ts)
            &&& after_steps(w, streamed, chunk_content(chunks), now) == after_steps(
                w,
                whole,
                request.data@,
                now,
            )
            &&& forall|r: Result<WritePlan, Status>| #[trigger]
                is_decided(
                    w.tombstones,
                    w.clocks,
                    target.key@,
                    target.incoming@,
                    target.writer@,
                    dest,
                    ts,
                    r,
                ) == is_decided(w.tombstones, w.clocks, key, incoming, writer, dest, ts, r)
        }),
{
}

/// However far the steps of a write get, no clock is recorded for content that is not yet there.
pub proof fn law_content_before_clock(
    w: World,
    key: Seq<char>,
    incoming: Counts,
    writer: Seq<char>,
    ts: u64,
    data: Seq<u8>,
    now: u64,
    done: int,
    path: Seq<char>,
)
    requires
        ({
            let steps = write_steps(
                clock_of(w.tombstones, key),
                clock_of(w.clocks, key),
                incoming,
                key,
                writer,
                ts,
            );
            0 <= done <= steps.len()
        }),
    ensures
        ({
            let steps = write_steps(
                clock_of(w.tombstones, key),
                clock_of(w.clocks, key),
                incoming,
                key,
                writer,
                ts,
            );
            let part = after_steps(w, steps.take(done), data, now);
            clock_of(part.clocks, path) != clock_of(w.clocks, path) ==> part.disk[path] == data
        }),
{
    reveal_with_fuel(after_steps, 4);
}

/// A delete that is answered with `Deleted` leaves the path deleted: its tombstone carries the
/// clock that was answered, which has seen all that the deleter and the host had seen. Where the
/// path was not already deleted, the file is gone.
pub proof fn law_deleted_is_deleted(w: World, key: Seq<char>, incoming: Counts, now: u64)
    requires
        live_or_deleted(w),
        answer_to_delete(w, key, incoming).0 == DeleteResult::Deleted,
    ensures
        ({
            let after = after_delete(w, key, incoming, now);
            let clock = answer_to_delete(w, key, incoming).1;
            &&& clock_of(after.tombstones, key) == clock
            &&& clock_of(after.clocks, key) == Counts::empty()
            &&& covers(clock, incoming)
            &&& covers(clock, clock_of(w.clocks, key))
            &&& covers(clock, clock_of(w.tombstones, key))
            &&& clock_of(w.tombstones, key) == Counts::empty() ==> !after.disk.dom().contains(key)
        }),
{
    reveal_with_fuel(after_steps, 4);
    let tomb = clock_of(w.tombstones, key);
    let stored = clock_of(w.clocks, key);
    law_merge_is_least_upper_bound(tomb, incoming, incoming);
    law_merge_is_least_upper_bound(stored, incoming, incoming);
    if tomb != Counts::empty() {
        assert(!w.clocks.dom().contains(key));
        assert(covers(joined(tomb, incoming), stored));
    } else {
        assert(covers(joined(stored, incoming), tomb));
    }
}

/// A delete that is answered with anything else changes nothing: an edit that the deleter had not
/// seen is kept.
pub proof fn law_refused_delete_changes_nothing(w: World, key: Seq<char>, incoming: Counts, now: u64)
    requires
        answer_to_delete(w, key, incoming).0 != DeleteResult::Deleted,
    ensures
        after_delete(w, key, incoming, now) == w,
{
}

/// Deleting a path once more with the same clock is answered the same and leaves every clock as
/// it was.
pub proof fn law_delete_is_idempotent(w: World, key: Seq<char>, incoming: Counts, now: u64, later: u64)
    requires
        answer_to_delete(w, key, incoming).0 == DeleteResult::Deleted,
        answer_to_delete(w, key, incoming).1 != Counts::empty(),
    ensures
        ({
            let once = after_delete(w, key, incoming, now);
            let twice = after_delete(once, key, incoming, later);
            &&& answer_to_delete(once, key, incoming) == answer_to_delete(w, key, incoming)
            &&& twice == once
        }),
{
    reveal_with_fuel(after_steps, 4);
    let once = after_delete(w, key, incoming, now);
    let clock = answer_to_delete(w, key, incoming).1;
    assert(clock_of(once.tombstones, key) == clock);
    assert(joined(clock, incoming) =~= clock);
    let twice = after_delete(once, key, incoming, later);
    assert(twice.tombstones =~= once.tombstones);
    assert(twice =~= once);
}

/// However far the steps of a delete get, the path stays remembered: with the tombstone, or with
/// the clock that it had.
pub proof fn law_delete_always_remembers(
    w: World,
    key: Seq<char>,
    incoming: Counts,
    now: u64,
    done: int,
)
    requires
        ({
            let steps = delete_steps(
                clock_of(w.tombstones, key),
                clock_of(w.clocks, key),
                incoming,
                key,
                !w.disk.dom().contains(key),
            );
            0 <= done <= steps.len()
        }),
    ensures
        ({
            let tomb = clock_of(w.tombstones, key);
            let stored = clock_of(w.clocks, key);
            let steps = delete_steps(tomb, stored, incoming, key, !w.disk.dom().contains(key));
            let part = after_steps(w, steps.take(done), Seq::empty(), now);
            ||| clock_of(part.clocks, key) == stored
            ||| clock_of(part.tombstones, key) == joined(stored, incoming)
        }),
{
    reveal_with_fuel(after_steps, 4);
}

/// A rename that is answered with `Renamed` while the old path was live has moved the content: it
/// is at the new path with the clock that was answered, and the old path is not remembered as
/// live.
pub proof fn law_renamed_is_moved(
    w: World,
    old: Seq<char>,
    new: Seq<char>,
    incoming: Counts,
    writer: Seq<char>,
    ts: u64,
    now: u64,
)
    requires
        old != new,
        clock_of(w.tombstones, old) == Counts::empty(),
        answer_to_rename(w, old, incoming).0 == RenameResult::Renamed,
    ensures
        ({
            let after = after_rename(w, old, new, incoming, writer, ts, now);
            let clock = answer_to_rename(w, old, incoming).1;
            &&& w.disk.dom().contains(old)
            &&& !after.disk.dom().contains(old)
            &&& after.disk.dom().contains(new)
            &&& after.disk[new] == w.disk[old]
            &&& clock_of(after.clocks, old) == Counts::empty()
            &&& clock_of(after.clocks, new) == clock
            &&& clock_of(after.tombstones, new) == Counts::empty()
            &&& covers(clock, incoming)
            &&& covers(clock, clock_of(w.clocks, old))
        }),
{
    reveal_with_fuel(after_steps, 5);
    law_merge_is_least_upper_bound(clock_of(w.clocks, old), incoming, incoming);
}

/// A rename that conflicts with an edit keeps both: the file is at the new path, with the clock
/// that was answered, and in a copy beside the old one, with the clock of the rename.
pub proof fn law_concurrent_rename_keeps_both(
    w: World,
    old: Seq<char>,
    new: Seq<char>,
    incoming: Counts,
    writer: Seq<char>,
    ts: u64,
    now: u64,
)
    requires
        clock_of(w.tombstones, old) == Counts::empty(),
        answer_to_rename(w, old, incoming).0 == RenameResult::Conflict,
        new != conflict_name(old, writer, ts),
    ensures
        ({
            let after = after_rename(w, old, new, incoming, writer, ts, now);
            let copy = conflict_name(old, writer, ts);
            let clock = answer_to_rename(w, old, incoming).1;
            &&& copy_of_rename(w, old, incoming, writer, ts) == copy
            &&& copy != old
            &&& w.disk.dom().contains(old)
            &&& after.disk.dom().contains(new)
            &&& after.disk[new] == w.disk[old]
            &&& after.disk.dom().contains(copy)
            &&& after.disk[copy] == w.disk[old]
            &&& old != new ==> !after.disk.dom().contains(old) && clock_of(after.clocks, old)
                == Counts::empty()
            &&& clock_of(after.clocks, new) == clock
            &&& clock_of(after.tombstones, new) == Counts::empty()
            &&& clock_of(after.clocks, copy) == incoming
            &&& covers(clock, incoming)
            &&& covers(clock, clock_of(w.clocks, old))
        }),
{
    reveal_with_fuel(after_steps, 7);
    law_conflict_copy_is_beside(old, writer, ts);
    law_merge_is_least_upper_bound(clock_of(w.clocks, old), incoming, incoming);
}

/// A rename touches the two paths it names or the copy that it is answered with, and no other path.
pub proof fn law_rename_leaves_other_paths(
    w: World,
    old: Seq<char>,
    new: Seq<char>,
    incoming: Counts,
    writer: Seq<char>,
    ts: u64,
    now: u64,
    other: Seq<char>,
)
    requires
        other != old,
        other != new,
        other != copy_of_rename(w, old, incoming, writer, ts),
    ensures
        ({
            let after = after_rename(w, old, new, incoming, writer, ts, now);
            &&& after.disk.dom().contains(other) == w.disk.dom().contains(other)
            &&& after.disk[other] == w.disk[other]
            &&& clock_of(after.clocks, other) == clock_of(w.clocks, other)
            &&& clock_of(after.tombstones, other) == clock_of(w.tombstones, other)
        }),
{
    reveal_with_fuel(after_steps, 7);
}

/// A rename that is answered with `Stale` or `NotFound` changes nothing.
pub proof fn law_refused_rename_changes_nothing(
    w: World,
    old: Seq<char>,
    new: Seq<char>,
    incoming: Counts,
    writer: Seq<char>,
    ts: u64,
    now: u64,
)
    requires
        ({
            let result = answer_to_rename(w, old, incoming).0;
            result == RenameResult::Stale || result == RenameResult::NotFound
        }),
    ensures
        after_rename(w, old, new, incoming, writer, ts, now) == w,
{
}

/// A rename that is not stale of a path that was deleted makes an empty file at the new path, and
/// neither path is remembered as deleted any more.
pub proof fn law_rename_of_deleted_revives(
    w: World,
    old: Seq<char>,
    new: Seq<char>,
    incoming: Counts,
    writer: Seq<char>,
    ts: u64,
    now: u64,
)
    requires
        clock_of(w.tombstones, old) != Counts::empty(),
        order(incoming, clock_of(w.tombstones, old)) != ClockOrder::DominatedBy,
    ensures
        ({
            let after = after_rename(w, old, new, incoming, writer, ts, now);
            let answer = answer_to_rename(w, old, incoming);
            &&& answer.0 == (if order(incoming, clock_of(w.tombstones, old))
                == ClockOrder::Concurrent {
                RenameResult::Conflict
            } else {
                RenameResult::Renamed
            })
            &&& after.disk.dom().contains(new)
            &&& after.disk[new] == Seq::<u8>::empty()
            &&& clock_of(after.clocks, new) == answer.1
            &&& clock_of(after.tombstones, old) == Counts::empty()
            &&& clock_of(after.tombstones, new) == Counts::empty()
        }),
{
    reveal_with_fuel(after_steps, 5);
}

/// A write keeps every path either live or deleted. The copy of a conflicting write must not
/// itself have the name of a deleted path.
pub proof fn law_write_keeps_live_or_deleted(
    w: World,
    key: Seq<char>,
    incoming: Counts,
    writer: Seq<char>,
    ts: u64,
    data: Seq<u8>,
    now: u64,
)
    requires
        live_or_deleted(w),
        clock_of(w.tombstones, conflict_name(key, writer, ts)) == Counts::empty(),
    ensures
        live_or_deleted(after_write(w, key, incoming, writer, ts, data, now)),
{
    reveal_with_fuel(after_steps, 4);
    let after = after_write(w, key, incoming, writer, ts, data, now);
    assert forall|k: Seq<char>| #[trigger] after.clocks.dom().contains(k) implies clock_of(
        after.tombstones,
        k,
    ) == Counts::empty() by {
        assert(w.clocks.dom().contains(k) || k == key || k == conflict_name(key, writer, ts));
    }
}

/// A delete keeps every path either live or deleted.
pub proof fn law_delete_keeps_live_or_deleted(w: World, key: Seq<char>, incoming: Counts, now: u64)
    requires
        live_or_deleted(w),
    ensures
        live_or_deleted(after_delete(w, key, incoming, now)),
{
    reveal_with_fuel(after_steps, 4);
    let after = after_delete(w, key, incoming, now);
    assert forall|k: Seq<char>| #[trigger] after.clocks.dom().contains(k) implies clock_of(
        after.tombstones,
        k,
    ) == Counts::empty() by {
        assert(w.clocks.dom().contains(k));
    }
}

/// A rename keeps every path either live or deleted. The copy of a conflicting rename must not
/// itself have the name of a deleted path.
pub proof fn law_rename_keeps_live_or_deleted(
    w: World,
    old: Seq<char>,
    new: Seq<char>,
    incoming: Counts,
    writer: Seq<char>,
    ts: u64,
    now: u64,
)
    requires
        live_or_deleted(w),
        clock_of(w.tombstones, conflict_name(old, writer, ts)) == Counts::empty(),
    ensures
        live_or_deleted(after_rename(w, old, new, incoming, writer, ts, now)),
{
    reveal_with_fuel(after_steps, 7);
    let after = after_rename(w, old, new, incoming, writer, ts, now);
    assert forall|k: Seq<char>| #[trigger] after.clocks.dom().contains(k) implies clock_of(
        after.tombstones,
        k,
    ) == Counts::empty() by {
        assert(w.clocks.dom().contains(k) || k == new || k == conflict_name(old, writer, ts));
    }
}

/// A writer that has taken over what the host has seen of a live path, and counts its own edit on
/// top, is applied.
pub proof fn law_synced_write_is_applied(
    w: World,
    key: Seq<char>,
    known: Counts,
    device: Seq<char>,
    writer: Seq<char>,
    ts: u64,
)
    requires
        clock_of(w.tombstones, key) == Counts::empty(),
        count(joined(known, clock_of(w.clocks, key)), device) < u64::MAX,
    ensures
        answer_to_write(
            w,
            key,
            ticked(joined(known, clock_of(w.clocks, key)), device),
            writer,
            ts,
        ).result == WriteResult::Applied,
{
    let stored = clock_of(w.clocks, key);
    let synced = joined(known, stored);
    let incoming = ticked(synced, device);
    law_merge_is_least_upper_bound(known, stored, stored);
    law_increment_dominates(synced, device);
    assert forall|d: Seq<char>| #[trigger] count(incoming, d) >= count(stored, d) by {
        assert(count(incoming, d) >= count(synced, d));
        assert(count(synced, d) >= count(stored, d));
    }
}

/// Two devices that edit one version without knowing of each other: the first edit stays at the
/// path, the second is a conflict and is kept in a copy.
pub proof fn law_two_edits_are_both_kept(
    w: World,
    key: Seq<char>,
    first: Seq<char>,
    second: Seq<char>,
    ts: u64,
    one: Seq<u8>,
    two: Seq<u8>,
    now: u64,
    later: u64,
)
    requires
        first != second,
        clock_of(w.tombstones, key) == Counts::empty(),
        count(clock_of(w.clocks, key), first) < u64::MAX,
        count(clock_of(w.clocks, key), second) < u64::MAX,
    ensures
        ({
            let base = clock_of(w.clocks, key);
            let mid = after_write(w, key, ticked(base, first), first, ts, one, now);
            let end = after_write(mid, key, ticked(base, second), second, ts, two, later);
            &&& answer_to_write(w, key, ticked(base, first), first, ts).result
                == WriteResult::Applied
            &&& answer_to_write(mid, key, ticked(base, second), second, ts).result
                == WriteResult::Conflict
            &&& end.disk[key] == one
            &&& end.disk[conflict_name(key, second, ts)] == two
        }),
{
    reveal_with_fuel(after_steps, 4);
    let base = clock_of(w.clocks, key);
    let a = ticked(base, first);
    let b = ticked(base, second);
    law_increment_dominates(base, first);
    law_independent_writes_conflict(base, first, second);
    law_conflict_copy_is_beside(key, second, ts);
    let mid = after_write(w, key, a, first, ts, one, now);
    assert(clock_of(mid.clocks, key) == joined(base, a));
    assert(joined(base, a) =~= a);
    assert(order(b, a) == ClockOrder::Concurrent);
}

/// A device edits a version, and another that does not know of the edit renames it: the rename is a
/// conflict, and the edit is at the new path and in the copy.
pub proof fn law_edit_and_rename_are_both_kept(
    w: World,
    old: Seq<char>,
    new: Seq<char>,
    editor: Seq<char>,
    mover: Seq<char>,
    ts: u64,
    data: Seq<u8>,
    now: u64,
    later: u64,
)
    requires
        editor != mover,
        new != conflict_name(old, mover, ts),
        clock_of(w.tombstones, old) == Counts::empty(),
        count(clock_of(w.clocks, old), editor) < u64::MAX,
        count(clock_of(w.clocks, old), mover) < u64::MAX,
    ensures
        ({
            let base = clock_of(w.clocks, old);
            let mid = after_write(w, old, ticked(base, editor), editor, ts, data, now);
            let end = after_rename(mid, old, new, ticked(base, mover), mover, ts, later);
            &&& answer_to_write(w, old, ticked(base, editor), editor, ts).result
                == WriteResult::Applied
            &&& answer_to_rename(mid, old, ticked(base, mover)).0 == RenameResult::Conflict
            &&& end.disk[new] == data
            &&& end.disk[conflict_name(old, mover, ts)] == data
        }),
{
    reveal_with_fuel(after_steps, 4);
    let base = clock_of(w.clocks, old);
    let a = ticked(base, editor);
    let b = ticked(base, mover);
    law_increment_dominates(base, editor);
    law_independent_writes_conflict(base, editor, mover);
    let mid = after_write(w, old, a, editor, ts, data, now);
    assert(clock_of(mid.clocks, old) == joined(base, a));
    assert(joined(base, a) =~= a);
    assert(order(b, a) == ClockOrder::Concurrent);
    law_concurrent_rename_keeps_both(mid, old, new, b, mover, ts, later);
}

/// What was deleted stays deleted for a writer that had seen less than the delete: the write is
/// answered with `Stale` and does not bring the file back.
pub proof fn law_deleted_stays_deleted(
    w: World,
    key: Seq<char>,
    deleter: Counts,
    incoming: Counts,
    writer: Seq<char>,
    ts: u64,
    data: Seq<u8>,
    now: u64,
    later: u64,
)
    requires
        live_or_deleted(w),
        clock_of(w.tombstones, key) == Counts::empty(),
        answer_to_delete(w, key, deleter).0 == DeleteResult::Deleted,
        order(incoming, answer_to_delete(w, key, deleter).1) == ClockOrder::DominatedBy,
    ensures
        ({
            let mid = after_delete(w, key, deleter, now);
            let end = after_write(mid, key, incoming, writer, ts, data, later);
            &&& answer_to_write(mid, key, incoming, writer, ts).result == WriteResult::Stale
            &&& !end.disk.dom().contains(key)
            &&& end == mid
        }),
{
    law_deleted_is_deleted(w, key, deleter, now);
    let clock = answer_to_delete(w, key, deleter).1;
    if clock == Counts::empty() {
        assert(covers(incoming, clock));
    }
}

} // verus!
