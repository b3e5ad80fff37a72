//! The serving side of the file service: what a write, delete or rename request does to the served
//! directory and to what is remembered of its paths.
//!
//! A request is decided from the clocks alone. The decision is a list of steps, to be performed in
//! order until one fails, and the reply that is sent once all have been performed. Steps on files
//! are performed by the caller; steps on the stores by [`FileServiceImpl::apply`].
use vstd::prelude::*;
use vstd::string::*;

use crate::clock::{joined, order, ClockOrder, Counts, VectorClock};
use crate::files::CHUNK_SIZE;
use crate::keymap::Duplicate;
use crate::status::{Code, Status, StatusView};
use crate::store::{clock_of, with_clock, with_tombstone, ClockStore, Stamps, TombstoneStore};
use crate::text::{
    chars_of, decimal, find_last, last_index, render_decimal, string_of_range, trim_end_matches,
    trim_start, trimmed_start, without_suffixes,
};

verus! {

/// What `char::is_alphanumeric` of std answers, by Unicode's tables.
pub uninterp spec fn alphanumeric(c: char) -> bool;

/// Whether a character is an ASCII letter or digit.
pub open spec fn ascii_alphanumeric(c: char) -> bool {
    ('0' <= c && c <= '9') || ('A' <= c && c <= 'Z') || ('a' <= c && c <= 'z')
}

/// `char::is_alphanumeric` of std: depends on the character alone, and among the ASCII characters
/// holds of the letters and digits.
pub assume_specification[ char::is_alphanumeric ](c: char) -> (r: bool)
    ensures
        r == alphanumeric(c),
        (c as u32) < 128 ==> r == ascii_alphanumeric(c),
;

/// The relative path under which a requested path is remembered.
pub open spec fn key_of(requested: Seq<char>) -> Seq<char> {
    trimmed_start(requested, '/')
}

/// The relative path under which a requested path is remembered: without leading slashes, so that
/// the served root itself has the empty key.
pub fn clock_key(requested: &str) -> (r: String)
    ensures
        r@ == key_of(requested@),
{
    trim_start(requested, '/')
}

/// Whether a character of a device id can be part of a file name.
pub open spec fn is_plain(c: char) -> bool {
    c == '-' || c == '_' || if (c as u32) < 128 {
        ascii_alphanumeric(c)
    } else {
        alphanumeric(c)
    }
}

/// A device id with every character replaced that could mean something in a file name.
pub open spec fn sanitized(raw: Seq<char>) -> Seq<char> {
    raw.map_values(
        |c: char|
            if is_plain(c) {
                c
            } else {
                '_'
            },
    )
}

/// Makes a device id safe to be part of a file name: every character that is not alphanumeric,
/// `-` or `_` becomes `_`.
pub fn sanitize_device_id(raw: &str) -> (r: String)
    ensures
        r@ == sanitized(raw@),
        !r@.contains('/'),
        !r@.contains('.'),
{
    let v = chars_of(raw);
    let mut out: String = String::new();
    let mut i: usize = 0;
    while i < v.len()
        invariant
            v@ == raw@,
            i <= v@.len(),
            out@ == sanitized(raw@).take(i as int),
            forall|j: int| 0 <= j < i ==> out@[j] != '/' && out@[j] != '.',
        decreases v@.len() - i,
    {
        let c = v[i];
        let kept = if c.is_alphanumeric() || c == '-' || c == '_' {
            c
        } else {
            '_'
        };
        out.push(kept);
        i = i + 1;
        assert(sanitized(raw@).take(i as int) =~= sanitized(raw@).take(i - 1).push(kept));
    }
    assert(sanitized(raw@).take(i as int) =~= sanitized(raw@));
    out
}

/// Who a conflict copy is ascribed to: the writer, in a form that can be part of a file name, or
/// nobody known where the writer did not say.
pub open spec fn writer_or_unknown(id: Seq<char>) -> Seq<char> {
    if id.len() == 0 {
        "unknown"@
    } else {
        sanitized(id)
    }
}

fn writer_of(id: &str) -> (r: String)
    ensures
        r@ == writer_or_unknown(id@),
{
    if id.is_empty() {
        "unknown".to_owned()
    } else {
        sanitize_device_id(id)
    }
}

/// The name of the copy that keeps the version of `writer` at second `ts` beside the file `key`.
pub open spec fn conflict_name(key: Seq<char>, writer: Seq<char>, ts: u64) -> Seq<char> {
    key + ".conflict-"@ + writer + "-"@ + decimal(ts as nat)
}

fn conflict_rel(key: &str, writer: &str, ts: u64) -> (r: String)
    ensures
        r@ == conflict_name(key@, writer@, ts),
{
    let mut r: String = key.to_owned();
    r.append(".conflict-");
    r.append(writer);
    r.append("-");
    let digits = render_decimal(ts);
    r.append(digits.as_str());
    r
}

/// A conflict copy never has the name of the file that it stands beside.
pub proof fn law_conflict_copy_is_beside(key: Seq<char>, writer: Seq<char>, ts: u64)
    ensures
        conflict_name(key, writer, ts) != key,
        conflict_name(key, writer, ts).take(key.len() as int) == key,
{
    reveal_strlit(".conflict-");
    assert(conflict_name(key, writer, ts).len() > key.len());
    assert(conflict_name(key, writer, ts).take(key.len() as int) =~= key);
}

proof fn lemma_decimal_has_no_slash(n: nat)
    ensures
        forall|i: int| 0 <= i < decimal(n).len() ==> #[trigger] decimal(n)[i] != '/',
    decreases n,
{
    if n >= 10 {
        lemma_decimal_has_no_slash(n / 10);
        assert(decimal(n) == decimal(n / 10).push(crate::text::digit((n % 10) as int)));
    }
}

/// A conflict copy lies in the directory of the file that it stands beside: whatever the writer is
/// called, nothing that is put behind the name of the file separates paths.
pub proof fn law_conflict_copy_is_a_sibling(key: Seq<char>, id: Seq<char>, ts: u64)
    ensures
        !conflict_name(key, writer_or_unknown(id), ts).skip(key.len() as int).contains('/'),
{
    let writer = writer_or_unknown(id);
    let name = conflict_name(key, writer, ts);
    reveal_strlit(".conflict-");
    reveal_strlit("-");
    reveal_strlit("unknown");
    lemma_decimal_has_no_slash(ts as nat);
    assert forall|i: int| 0 <= i < writer.len() implies #[trigger] writer[i] != '/' by {
        if id.len() > 0 {
            assert(writer[i] == sanitized(id)[i]);
        }
    }
    let tail = ".conflict-"@ + writer + "-"@ + decimal(ts as nat);
    assert(name.skip(key.len() as int) =~= tail);
    assert forall|i: int| 0 <= i < tail.len() implies #[trigger] tail[i] != '/' by {
        let w = ".conflict-"@.len() + writer.len();
        if i >= w + 1 {
            assert(tail[i] == decimal(ts as nat)[i - w - 1]);
        } else if i == w {
            assert(tail[i] == "-"@[0]);
        } else if i >= ".conflict-"@.len() {
            assert(tail[i] == writer[i - ".conflict-"@.len()]);
        } else {
            assert(tail[i] == ".conflict-"@[i]);
        }
    }
}

/// One thing to do for a request.
#[derive(Debug)]
pub enum Step {
    /// Put the content that the request carries at `key`.
    Store { key: String },
    /// Make the directory `key`.
    CreateDir { key: String },
    /// Make `key` an empty file.
    CreateEmpty { key: String },
    /// Remove the file `key`.
    RemoveFile { key: String },
    /// Move the file `from` to `to`, in place of what is there.
    MoveFile { from: String, to: String },
    /// Put a copy of the file `from` at `to`.
    CopyFile { from: String, to: String },
    /// Remember the clock of a live path.
    PutClock { key: String, clock: VectorClock },
    /// Forget the clock of a path that is live no longer.
    DropClock { key: String },
    /// Remember the clock of a deleted path.
    PutTombstone { key: String, clock: VectorClock },
    /// Forget that a path was deleted.
    DropTombstone { key: String },
    /// Forget that a path was deleted; the request does not fail if this cannot be written out.
    ForgetTombstone { key: String },
}

/// A step, as contracts speak of it.
#[verifier::ext_equal]
pub enum StepView {
    Store { key: Seq<char> },
    CreateDir { key: Seq<char> },
    CreateEmpty { key: Seq<char> },
    RemoveFile { key: Seq<char> },
    MoveFile { from: Seq<char>, to: Seq<char> },
    CopyFile { from: Seq<char>, to: Seq<char> },
    PutClock { key: Seq<char>, clock: Counts },
    DropClock { key: Seq<char> },
    PutTombstone { key: Seq<char>, clock: Counts },
    DropTombstone { key: Seq<char> },
    ForgetTombstone { key: Seq<char> },
}

impl View for Step {
    type V = StepView;

    open spec fn view(&self) -> StepView {
        match self {
            Step::Store { key } => StepView::Store { key: key@ },
            Step::CreateDir { key } => StepView::CreateDir { key: key@ },
            Step::CreateEmpty { key } => StepView::CreateEmpty { key: key@ },
            Step::RemoveFile { key } => StepView::RemoveFile { key: key@ },
            Step::MoveFile { from, to } => StepView::MoveFile { from: from@, to: to@ },
            Step::CopyFile { from, to } => StepView::CopyFile { from: from@, to: to@ },
            Step::PutClock { key, clock } => StepView::PutClock { key: key@, clock: clock@ },
            Step::DropClock { key } => StepView::DropClock { key: key@ },
            Step::PutTombstone { key, clock } => StepView::PutTombstone { key: key@, clock: clock@ },
            Step::DropTombstone { key } => StepView::DropTombstone { key: key@ },
            Step::ForgetTombstone { key } => StepView::ForgetTombstone { key: key@ },
        }
    }
}

/// Steps, as contracts speak of them.
pub open spec fn views(steps: Seq<Step>) -> Seq<StepView> {
    steps.map_values(|s: Step| s@)
}

/// The files under the served root by their relative path, and what is remembered of them.
#[verifier::ext_equal]
pub struct World {
    pub disk: Map<Seq<char>, Seq<u8>>,
    pub clocks: Stamps,
    pub tombstones: Stamps,
}

/// The world after a step of a request that carries `data`, performed at second `now`.
pub open spec fn after_step(w: World, s: StepView, data: Seq<u8>, now: u64) -> World {
    match s {
        StepView::Store { key } => World { disk: w.disk.insert(key, data), ..w },
        StepView::CreateDir { key } => w,
        StepView::CreateEmpty { key } => World { disk: w.disk.insert(key, Seq::empty()), ..w },
        StepView::RemoveFile { key } => World { disk: w.disk.remove(key), ..w },
        StepView::MoveFile { from, to } => World {
            disk: w.disk.remove(from).insert(to, w.disk[from]),
            ..w
        },
        StepView::CopyFile { from, to } => World { disk: w.disk.insert(to, w.disk[from]), ..w },
        StepView::PutClock { key, clock } => World {
            clocks: with_clock(w.clocks, key, clock, now),
            ..w
        },
        StepView::DropClock { key } => World { clocks: w.clocks.remove(key), ..w },
        StepView::PutTombstone { key, clock } => World {
            tombstones: with_tombstone(w.tombstones, key, clock, now),
            ..w
        },
        StepView::DropTombstone { key } => World { tombstones: w.tombstones.remove(key), ..w },
        StepView::ForgetTombstone { key } => World { tombstones: w.tombstones.remove(key), ..w },
    }
}

/// The world after the steps of a request that carries `data`, performed at second `now`.
pub open spec fn after_steps(w: World, steps: Seq<StepView>, data: Seq<u8>, now: u64) -> World
    decreases steps.len(),
{
    if steps.len() == 0 {
        w
    } else {
        after_steps(after_step(w, steps[0], data, now), steps.drop_first(), data, now)
    }
}

/// What a write did.
#[derive(Clone, Copy, Debug, PartialEq, Eq, Structural)]
pub enum WriteResult {
    /// The content is at the path.
    Applied,
    /// The host knows something newer; nothing was changed.
    Stale,
    /// The write and something that it had not seen were both kept.
    Conflict,
}

/// What a delete did.
#[derive(Clone, Copy, Debug, PartialEq, Eq, Structural)]
pub enum DeleteResult {
    /// The path is deleted.
    Deleted,
    /// The file has edits that the deleter had not seen in full; it was kept.
    Stale,
    /// The file was edited at the same time; it was kept.
    Conflict,
    /// There was no file.
    NotFound,
}

/// What a rename did.
#[derive(Clone, Copy, Debug, PartialEq, Eq, Structural)]
pub enum RenameResult {
    /// The file is at the new path.
    Renamed,
    /// The host knows something newer; nothing was changed.
    Stale,
    /// The old path was edited or deleted at the same time. An edited file is at the new path and
    /// in a copy beside the old one; for a deleted one an empty file is at the new path.
    Conflict,
    /// There was no file at the old path.
    NotFound,
}

/// The answer to a write.
#[derive(Debug)]
pub struct WriteReply {
    pub result: WriteResult,
    /// What the host has seen of the path.
    pub clock: VectorClock,
    /// Where the written version was kept, if not at the path.
    pub conflict_path: String,
}

/// The answer to a write, as contracts speak of it.
#[verifier::ext_equal]
pub struct WriteReplyView {
    pub result: WriteResult,
    pub clock: Counts,
    pub conflict_path: Seq<char>,
}

impl View for WriteReply {
    type V = WriteReplyView;

    open spec fn view(&self) -> WriteReplyView {
        WriteReplyView {
            result: self.result,
            clock: self.clock@,
            conflict_path: self.conflict_path@,
        }
    }
}

/// The answer to a delete.
#[derive(Debug)]
pub struct DeleteReply {
    pub result: DeleteResult,
    /// What the host has seen of the path.
    pub clock: VectorClock,
}

/// The answer to a rename.
#[derive(Debug)]
pub struct RenameReply {
    pub result: RenameResult,
    /// What the host has seen of the file.
    pub clock: VectorClock,
    /// Where a copy was kept, if one was.
    pub conflict_path: String,
}

/// How a write is to be carried out and answered.
#[derive(Debug)]
pub struct WritePlan {
    pub steps: Vec<Step>,
    pub reply: WriteReply,
}

/// How a delete is to be carried out and answered.
#[derive(Debug)]
pub struct DeletePlan {
    pub steps: Vec<Step>,
    pub reply: DeleteReply,
}

/// How a rename is to be carried out and answered.
#[derive(Debug)]
pub struct RenamePlan {
    pub steps: Vec<Step>,
    pub reply: RenameReply,
}

/// The steps of a write of `key`, where the host holds the tombstone clock `tomb` and the live
/// clock `stored`.
pub open spec fn write_steps(
    tomb: Counts,
    stored: Counts,
    incoming: Counts,
    key: Seq<char>,
    writer: Seq<char>,
    ts: u64,
) -> Seq<StepView> {
    if tomb != Counts::empty() {
        if order(incoming, tomb) == ClockOrder::DominatedBy {
            Seq::empty()
        } else {
            seq![
                StepView::Store { key },
                StepView::DropTombstone { key },
                StepView::PutClock { key, clock: joined(tomb, incoming) },
            ]
        }
    } else {
        match order(incoming, stored) {
            ClockOrder::Dominates | ClockOrder::Equal => seq![
                StepView::Store { key },
                StepView::PutClock { key, clock: joined(stored, incoming) },
            ],
            ClockOrder::DominatedBy => Seq::empty(),
            ClockOrder::Concurrent => seq![
                StepView::Store { key: conflict_name(key, writer, ts) },
                StepView::PutClock { key: conflict_name(key, writer, ts), clock: incoming },
            ],
        }
    }
}

/// The relative path of the directory that the path `key` lies in, unless that is the root.
pub open spec fn parent_of(key: Seq<char>) -> Option<Seq<char>> {
    let k = without_suffixes(key, "/"@);
    match last_index(k, '/') {
        Some(i) => {
            let dir = without_suffixes(k.take(i), "/"@);
            if dir.len() > 0 {
                Some(dir)
            } else {
                None
            }
        },
        None => None,
    }
}

/// The directory that is made again for a write of `key`: the one that the path lies in, where it
/// does not exist because it was deleted. `dest` is what came of locating the path for writing.
pub open spec fn revived_dir(tombstones: Stamps, key: Seq<char>, dest: Result<(), Status>) -> Option<
    Seq<char>,
> {
    match (dest, parent_of(key)) {
        (Err(e), Some(dir)) => if e.code == Code::NotFound && clock_of(tombstones, dir)
            != Counts::empty() {
            Some(dir)
        } else {
            None
        },
        _ => None,
    }
}

/// The steps of a write for which the directory `dir` is made first, if there is one and anything
/// is to be done at all.
pub open spec fn below_dir(dir: Option<Seq<char>>, steps: Seq<StepView>) -> Seq<StepView> {
    match dir {
        Some(key) => if steps.len() > 0 {
            seq![StepView::CreateDir { key }] + steps
        } else {
            steps
        },
        None => steps,
    }
}

/// The steps of a write of `key` by `writer`, which has seen `incoming`, where locating the path for
/// writing has come to `dest`.
pub open spec fn planned_steps(
    tombstones: Stamps,
    clocks: Stamps,
    key: Seq<char>,
    incoming: Counts,
    writer: Seq<char>,
    dest: Result<(), Status>,
    ts: u64,
) -> Seq<StepView> {
    below_dir(
        revived_dir(tombstones, key, dest),
        write_steps(
            clock_of(tombstones, key),
            clock_of(clocks, key),
            incoming,
            key,
            writer,
            ts,
        ),
    )
}

/// Whether `r` is how a write of `key` by `writer`, which has seen `incoming`, is decided.
pub open spec fn is_decided(
    tombstones: Stamps,
    clocks: Stamps,
    key: Seq<char>,
    incoming: Counts,
    writer: Seq<char>,
    dest: Result<(), Status>,
    ts: u64,
    r: Result<WritePlan, Status>,
) -> bool {
    let revived = revived_dir(tombstones, key, dest);
    match r {
        Err(e) => revived is None && (dest matches Err(d) && e@ == d@),
        Ok(plan) => {
            &&& dest is Ok || revived is Some
            &&& views(plan.steps@) == planned_steps(
                tombstones,
                clocks,
                key,
                incoming,
                writer,
                dest,
                ts,
            )
            &&& plan.reply@ == write_reply(
                clock_of(tombstones, key),
                clock_of(clocks, key),
                incoming,
                key,
                writer,
                ts,
            )
        },
    }
}

fn parent_key(key: &str) -> (r: Option<String>)
    ensures
        match r {
            Some(dir) => parent_of(key@) == Some(dir@),
            None => parent_of(key@) is None,
        },
{
    let k = trim_end_matches(key, "/");
    let v = chars_of(k.as_str());
    match find_last(&v, '/') {
        Some(i) => {
            let above = string_of_range(&v, 0, i);
            assert(above@ =~= v@.take(i as int));
            let dir = trim_end_matches(above.as_str(), "/");
            if dir.as_str().is_empty() {
                None
            } else {
                Some(dir)
            }
        },
        None => None,
    }
}

/// The answer to a write of `key`, where the host holds the tombstone clock `tomb` and the live
/// clock `stored`.
pub open spec fn write_reply(
    tomb: Counts,
    stored: Counts,
    incoming: Counts,
    key: Seq<char>,
    writer: Seq<char>,
    ts: u64,
) -> WriteReplyView {
    if tomb != Counts::empty() {
        match order(incoming, tomb) {
            ClockOrder::DominatedBy => WriteReplyView {
                result: WriteResult::Stale,
                clock: tomb,
                conflict_path: Seq::empty(),
            },
            ClockOrder::Concurrent => WriteReplyView {
                result: WriteResult::Conflict,
                clock: joined(tomb, incoming),
                conflict_path: Seq::empty(),
            },
            _ => WriteReplyView {
                result: WriteResult::Applied,
                clock: joined(tomb, incoming),
                conflict_path: Seq::empty(),
            },
        }
    } else {
        match order(incoming, stored) {
            ClockOrder::Dominates | ClockOrder::Equal => WriteReplyView {
                result: WriteResult::Applied,
                clock: joined(stored, incoming),
                conflict_path: Seq::empty(),
            },
            ClockOrder::DominatedBy => WriteReplyView {
                result: WriteResult::Stale,
                clock: stored,
                conflict_path: Seq::empty(),
            },
            ClockOrder::Concurrent => WriteReplyView {
                result: WriteResult::Conflict,
                clock: stored,
                conflict_path: conflict_name(key, writer, ts),
            },
        }
    }
}

/// The steps of a delete of `key`; `missing` says that there is no file.
pub open spec fn delete_steps(
    tomb: Counts,
    stored: Counts,
    incoming: Counts,
    key: Seq<char>,
    missing: bool,
) -> Seq<StepView> {
    if tomb != Counts::empty() {
        seq![StepView::PutTombstone { key, clock: joined(tomb, incoming) }]
    } else if missing {
        Seq::empty()
    } else {
        match order(incoming, stored) {
            ClockOrder::Dominates | ClockOrder::Equal => seq![
                StepView::RemoveFile { key },
                StepView::PutTombstone { key, clock: joined(stored, incoming) },
                StepView::DropClock { key },
            ],
            _ => Seq::empty(),
        }
    }
}

/// What a delete is answered, with what the host has then seen of the path.
pub open spec fn delete_answer(
    tomb: Counts,
    stored: Counts,
    incoming: Counts,
    missing: bool,
) -> (DeleteResult, Counts) {
    if tomb != Counts::empty() {
        (DeleteResult::Deleted, joined(tomb, incoming))
    } else if missing {
        (DeleteResult::NotFound, stored)
    } else {
        match order(incoming, stored) {
            ClockOrder::Dominates | ClockOrder::Equal => (
                DeleteResult::Deleted,
                joined(stored, incoming),
            ),
            ClockOrder::DominatedBy => (DeleteResult::Stale, stored),
            ClockOrder::Concurrent => (DeleteResult::Conflict, stored),
        }
    }
}

/// The steps that move the file `old` to `new`, where it has the clock `clock` from then on.
pub open spec fn moving_steps(old: Seq<char>, new: Seq<char>, clock: Counts) -> Seq<StepView> {
    seq![
        StepView::MoveFile { from: old, to: new },
        StepView::DropClock { key: old },
        StepView::ForgetTombstone { key: new },
        StepView::PutClock { key: new, clock },
    ]
}

/// The steps of a rename from `old` to `new` by `writer`; `missing` says that there is no file at
/// `old`.
pub open spec fn rename_steps(
    tomb: Counts,
    stored: Counts,
    incoming: Counts,
    old: Seq<char>,
    new: Seq<char>,
    writer: Seq<char>,
    ts: u64,
    missing: bool,
) -> Seq<StepView> {
    if tomb != Counts::empty() {
        if order(incoming, tomb) == ClockOrder::DominatedBy {
            Seq::empty()
        } else {
            seq![
                StepView::CreateEmpty { key: new },
                StepView::DropTombstone { key: old },
                StepView::ForgetTombstone { key: new },
                StepView::PutClock { key: new, clock: joined(tomb, incoming) },
            ]
        }
    } else if missing {
        Seq::empty()
    } else {
        match order(incoming, stored) {
            ClockOrder::Dominates | ClockOrder::Equal => moving_steps(
                old,
                new,
                joined(stored, incoming),
            ),
            ClockOrder::DominatedBy => Seq::empty(),
            ClockOrder::Concurrent => seq![
                StepView::CopyFile { from: old, to: conflict_name(old, writer, ts) },
                StepView::PutClock { key: conflict_name(old, writer, ts), clock: incoming },
            ] + moving_steps(old, new, joined(stored, incoming)),
        }
    }
}

/// What a rename is answered, with what the host has then seen of the file.
pub open spec fn rename_answer(
    tomb: Counts,
    stored: Counts,
    incoming: Counts,
    missing: bool,
) -> (RenameResult, Counts) {
    if tomb != Counts::empty() {
        match order(incoming, tomb) {
            ClockOrder::DominatedBy => (RenameResult::Stale, tomb),
            ClockOrder::Concurrent => (RenameResult::Conflict, joined(tomb, incoming)),
            _ => (RenameResult::Renamed, joined(tomb, incoming)),
        }
    } else if missing {
        (RenameResult::NotFound, stored)
    } else {
        match order(incoming, stored) {
            ClockOrder::Dominates | ClockOrder::Equal => (
                RenameResult::Renamed,
                joined(stored, incoming),
            ),
            ClockOrder::DominatedBy => (RenameResult::Stale, stored),
            ClockOrder::Concurrent => (RenameResult::Conflict, joined(stored, incoming)),
        }
    }
}

/// Where a rename of `old` by `writer` keeps a copy: beside the old path, where the file was edited
/// at the same time; else nowhere.
pub open spec fn rename_copy(
    tomb: Counts,
    stored: Counts,
    incoming: Counts,
    old: Seq<char>,
    writer: Seq<char>,
    ts: u64,
    missing: bool,
) -> Seq<char> {
    if tomb == Counts::empty() && !missing && order(incoming, stored) == ClockOrder::Concurrent {
        conflict_name(old, writer, ts)
    } else {
        Seq::empty()
    }
}

/// What the clock of a request says; a request without one has seen nothing.
pub open spec fn seen(clock: Option<VectorClock>) -> Counts {
    match clock {
        Some(c) => c@,
        None => Counts::empty(),
    }
}

fn seen_clock(clock: &Option<VectorClock>) -> (r: VectorClock)
    ensures
        r@ == seen(*clock),
{
    match clock {
        Some(c) => c.duplicate(),
        None => VectorClock::new(),
    }
}

/// A request to write a whole file.
#[derive(Debug)]
pub struct WriteFileRequest {
    pub path: String,
    pub data: Vec<u8>,
    pub clock: Option<VectorClock>,
    pub writer_device_id: String,
}

/// A piece of a file that is written in pieces; the first carries what the others leave empty.
#[derive(Debug)]
pub struct WriteFileChunk {
    pub path: String,
    pub data: Vec<u8>,
    pub clock: Option<VectorClock>,
    pub writer_device_id: String,
}

/// A request to delete a file.
#[derive(Debug)]
pub struct DeleteFileRequest {
    pub path: String,
    pub clock: Option<VectorClock>,
}

/// A request to rename a file.
#[derive(Debug)]
pub struct RenameFileRequest {
    pub old_path: String,
    pub new_path: String,
    pub clock: Option<VectorClock>,
    pub writer_device_id: String,
}

/// Which store a step has changed, and so is to be written out.
#[derive(Clone, Copy, Debug, PartialEq, Eq, Structural)]
pub enum Touched {
    Nothing,
    Clocks,
    Tombstones,
}

/// Which store a step changes.
pub open spec fn touched_by(w: World, s: StepView) -> Touched {
    match s {
        StepView::PutClock { key, clock } => Touched::Clocks,
        StepView::DropClock { key } => if w.clocks.dom().contains(key) {
            Touched::Clocks
        } else {
            Touched::Nothing
        },
        StepView::PutTombstone { key, clock } => Touched::Tombstones,
        StepView::DropTombstone { key } | StepView::ForgetTombstone { key } => if w.tombstones.dom().contains(
            key,
        ) {
            Touched::Tombstones
        } else {
            Touched::Nothing
        },
        _ => Touched::Nothing,
    }
}

/// What the host remembers of its paths: a clock for each live one and a tombstone for each
/// deleted one.
#[derive(Debug)]
pub struct FileServiceImpl {
    pub clocks: ClockStore,
    pub tombstones: TombstoneStore,
}

pub open spec fn refused(code: Code, message: Seq<char>) -> StatusView {
    StatusView { code, message }
}

impl FileServiceImpl {
    /// What the host remembers, beside the files of `disk`.
    pub open spec fn world(&self, disk: Map<Seq<char>, Seq<u8>>) -> World {
        World { disk, clocks: self.clocks@, tombstones: self.tombstones@ }
    }

    /// Performs a step on the stores, at second `now`, and says which of them is to be written
    /// out. A step on files changes nothing here.
    pub fn apply(&mut self, step: &Step, now: u64) -> (r: Touched)
        ensures
            forall|disk: Map<Seq<char>, Seq<u8>>, data: Seq<u8>|
                {
                    let after = #[trigger] after_step(old(self).world(disk), step@, data, now);
                    &&& final(self).clocks@ == after.clocks
                    &&& final(self).tombstones@ == after.tombstones
                },
            forall|disk: Map<Seq<char>, Seq<u8>>|
                r == #[trigger] touched_by(old(self).world(disk), step@),
            ({
                let before = old(self).world(Map::empty());
                let after = after_step(before, step@, Seq::empty(), now);
                &&& final(self).clocks@ == after.clocks
                &&& final(self).tombstones@ == after.tombstones
                &&& r == touched_by(before, step@)
            }),
    {
        match step {
            Step::PutClock { key, clock } => {
                self.clocks.put_at(key.as_str(), clock.duplicate(), now);
                Touched::Clocks
            },
            Step::DropClock { key } => {
                if self.clocks.remove(key.as_str()) {
                    Touched::Clocks
                } else {
                    Touched::Nothing
                }
            },
            Step::PutTombstone { key, clock } => {
                self.tombstones.put_at(key.as_str(), clock.duplicate(), now);
                Touched::Tombstones
            },
            Step::DropTombstone { key } => {
                if self.tombstones.remove(key.as_str()) {
                    Touched::Tombstones
                } else {
                    Touched::Nothing
                }
            },
            Step::ForgetTombstone { key } => {
                if self.tombstones.remove(key.as_str()) {
                    Touched::Tombstones
                } else {
                    Touched::Nothing
                }
            },
            _ => Touched::Nothing,
        }
    }

    /// Decides a write of `key` by `writer`, which has seen `incoming`.
    fn decide_write(&self, key: &str, incoming: &VectorClock, writer: &str, ts: u64) -> (r: WritePlan)
        ensures
            views(r.steps@) == write_steps(
                clock_of(self.tombstones@, key@),
                clock_of(self.clocks@, key@),
                incoming@,
                key@,
                writer@,
                ts,
            ),
            r.reply@ == write_reply(
                clock_of(self.tombstones@, key@),
                clock_of(self.clocks@, key@),
                incoming@,
                key@,
                writer@,
                ts,
            ),
    {
        let tombstone = self.tombstones.get(key);
        if !tombstone.is_empty() {
            let result = match incoming.compare(&tombstone) {
                ClockOrder::DominatedBy => {
                    let steps: Vec<Step> = Vec::new();
                    assert(views(steps@) =~= Seq::empty());
                    return WritePlan {
                        steps,
                        reply: WriteReply {
                            result: WriteResult::Stale,
                            clock: tombstone,
                            conflict_path: String::new(),
                        },
                    };
                },
                ClockOrder::Concurrent => WriteResult::Conflict,
                _ => WriteResult::Applied,
            };
            let merged = tombstone.merge(incoming);
            let mut steps: Vec<Step> = Vec::new();
            steps.push(Step::Store { key: key.to_owned() });
            steps.push(Step::DropTombstone { key: key.to_owned() });
            steps.push(Step::PutClock { key: key.to_owned(), clock: merged.duplicate() });
            assert(views(steps@) =~= seq![
                StepView::Store { key: key@ },
                StepView::DropTombstone { key: key@ },
                StepView::PutClock { key: key@, clock: merged@ },
            ]);
            return WritePlan {
                steps,
                reply: WriteReply { result, clock: merged, conflict_path: String::new() },
            };
        }
        let stored = self.clocks.get(key);
        match incoming.compare(&stored) {
            ClockOrder::Dominates | ClockOrder::Equal => {
                let merged = stored.merge(incoming);
                let mut steps: Vec<Step> = Vec::new();
                steps.push(Step::Store { key: key.to_owned() });
                steps.push(Step::PutClock { key: key.to_owned(), clock: merged.duplicate() });
                assert(views(steps@) =~= seq![
                    StepView::Store { key: key@ },
                    StepView::PutClock { key: key@, clock: merged@ },
                ]);
                WritePlan {
                    steps,
                    reply: WriteReply {
                        result: WriteResult::Applied,
                        clock: merged,
                        conflict_path: String::new(),
                    },
                }
            },
            ClockOrder::DominatedBy => {
                let steps: Vec<Step> = Vec::new();
                assert(views(steps@) =~= Seq::empty());
                WritePlan {
                    steps,
                    reply: WriteReply {
                        result: WriteResult::Stale,
                        clock: stored,
                        conflict_path: String::new(),
                    },
                }
            },
            ClockOrder::Concurrent => {
                let copy = conflict_rel(key, writer, ts);
                let mut steps: Vec<Step> = Vec::new();
                steps.push(Step::Store { key: copy.clone() });
                steps.push(Step::PutClock { key: copy.clone(), clock: incoming.duplicate() });
                assert(views(steps@) =~= seq![
                    StepView::Store { key: copy@ },
                    StepView::PutClock { key: copy@, clock: incoming@ },
                ]);
                WritePlan {
                    steps,
                    reply: WriteReply {
                        result: WriteResult::Conflict,
                        clock: stored,
                        conflict_path: copy,
                    },
                }
            },
        }
    }

    /// The directory that is made again for a write of `key`, if one is.
    fn find_revived_dir(&self, key: &str, dest: &Result<(), Status>) -> (r: Option<String>)
        ensures
            match r {
                Some(dir) => revived_dir(self.tombstones@, key@, *dest) == Some(dir@),
                None => revived_dir(self.tombstones@, key@, *dest) is None,
            },
    {
        match dest {
            Ok(_) => None,
            Err(e) => match e.code {
                Code::NotFound => match parent_key(key) {
                    Some(dir) => {
                        if self.tombstones.get(dir.as_str()).is_empty() {
                            None
                        } else {
                            Some(dir)
                        }
                    },
                    None => None,
                },
                _ => None,
            },
        }
    }

    /// Decides a write of `key` where locating the path has come to `dest`.
    fn decide_write_at(
        &self,
        key: &str,
        incoming: &VectorClock,
        writer: &str,
        dest: &Result<(), Status>,
        ts: u64,
    ) -> (r: Result<WritePlan, Status>)
        ensures
            is_decided(
                self.tombstones@,
                self.clocks@,
                key@,
                incoming@,
                writer@,
                *dest,
                ts,
                r,
            ),
    {
        let revived = self.find_revived_dir(key, dest);
        if revived.is_none() {
            if let Err(e) = dest {
                return Err(e.duplicate());
            }
        }
        let plan = self.decide_write(key, incoming, writer, ts);
        match revived {
            None => Ok(plan),
            Some(dir) => {
                let ghost planned = views(plan.steps@);
                let mut steps = plan.steps;
                if steps.len() > 0 {
                    steps.insert(0, Step::CreateDir { key: dir });
                    assert(views(steps@) =~= seq![StepView::CreateDir { key: dir@ }] + planned);
                }
                Ok(WritePlan { steps, reply: plan.reply })
            },
        }
    }

    /// Decides a write of a whole file at second `ts`. `dest` is what came of locating the path
    /// for writing.
    pub fn write_file(&self, request: &WriteFileRequest, dest: &Result<(), Status>, ts: u64) -> (r: Result<
        WritePlan,
        Status,
    >)
        ensures
            if key_of(request.path@).len() == 0 {
                r matches Err(e) && e@ == refused(
                    Code::InvalidArgument,
                    "cannot write the root path"@,
                )
            } else {
                is_decided(
                    self.tombstones@,
                    self.clocks@,
                    key_of(request.path@),
                    seen(request.clock),
                    writer_or_unknown(request.writer_device_id@),
                    *dest,
                    ts,
                    r,
                )
            },
    {
        let key = clock_key(request.path.as_str());
        if key.as_str().is_empty() {
            return Err(Status::new(Code::InvalidArgument, "cannot write the root path"));
        }
        let incoming = seen_clock(&request.clock);
        let writer = writer_of(request.writer_device_id.as_str());
        self.decide_write_at(key.as_str(), &incoming, writer.as_str(), dest, ts)
    }

    /// Decides, at second `ts`, a write that came in pieces and has been received in full. `dest`
    /// is what came of locating the path for writing.
    pub fn write_file_stream(&self, target: &StreamTarget, dest: &Result<(), Status>, ts: u64) -> (r:
        Result<WritePlan, Status>)
        ensures
            is_decided(
                self.tombstones@,
                self.clocks@,
                target.key@,
                target.incoming@,
                target.writer@,
                *dest,
                ts,
                r,
            ),
    {
        self.decide_write_at(
            target.key.as_str(),
            &target.incoming,
            target.writer.as_str(),
            dest,
            ts,
        )
    }

    /// Decides a delete. `found` is what came of locating the file.
    pub fn delete_file(&self, request: &DeleteFileRequest, found: &Result<(), Status>) -> (r: Result<
        DeletePlan,
        Status,
    >)
        ensures
            ({
                let key = key_of(request.path@);
                let tomb = clock_of(self.tombstones@, key);
                let stored = clock_of(self.clocks@, key);
                let incoming = seen(request.clock);
                let missing = found matches Err(e) && e.code == Code::NotFound;
                match r {
                    Err(e) => if key.len() == 0 {
                        e@ == refused(Code::InvalidArgument, "cannot delete the root path"@)
                    } else {
                        &&& tomb == Counts::empty()
                        &&& found matches Err(d) && d.code != Code::NotFound && e@ == d@
                    },
                    Ok(plan) => {
                        &&& key.len() > 0
                        &&& tomb != Counts::empty() || missing || found is Ok
                        &&& views(plan.steps@) == delete_steps(tomb, stored, incoming, key, missing)
                        &&& (plan.reply.result, plan.reply.clock@) == delete_answer(
                            tomb,
                            stored,
                            incoming,
                            missing,
                        )
                    },
                }
            }),
    {
        let key = clock_key(request.path.as_str());
        if key.as_str().is_empty() {
            return Err(Status::new(Code::InvalidArgument, "cannot delete the root path"));
        }
        let incoming = seen_clock(&request.clock);
        let mut steps: Vec<Step> = Vec::new();
        assert(views(steps@) =~= Seq::empty());
        let tombstone = self.tombstones.get(key.as_str());
        if !tombstone.is_empty() {
            let merged = tombstone.merge(&incoming);
            steps.push(Step::PutTombstone { key: key.clone(), clock: merged.duplicate() });
            assert(views(steps@) =~= seq![
                StepView::PutTombstone { key: key@, clock: merged@ },
            ]);
            return Ok(
                DeletePlan {
                    steps,
                    reply: DeleteReply { result: DeleteResult::Deleted, clock: merged },
                },
            );
        }
        let stored = self.clocks.get(key.as_str());
        match found {
            Err(e) => {
                if e.code == Code::NotFound {
                    return Ok(
                        DeletePlan {
                            steps,
                            reply: DeleteReply { result: DeleteResult::NotFound, clock: stored },
                        },
                    );
                }
                return Err(e.duplicate());
            },
            Ok(_) => {},
        }
        match incoming.compare(&stored) {
            ClockOrder::Dominates | ClockOrder::Equal => {
                let merged = stored.merge(&incoming);
                steps.push(Step::RemoveFile { key: key.clone() });
                steps.push(Step::PutTombstone { key: key.clone(), clock: merged.duplicate() });
                steps.push(Step::DropClock { key: key.clone() });
                assert(views(steps@) =~= seq![
                    StepView::RemoveFile { key: key@ },
                    StepView::PutTombstone { key: key@, clock: merged@ },
                    StepView::DropClock { key: key@ },
                ]);
                Ok(
                    DeletePlan {
                        steps,
                        reply: DeleteReply { result: DeleteResult::Deleted, clock: merged },
                    },
                )
            },
            ClockOrder::DominatedBy => Ok(
                DeletePlan {
                    steps,
                    reply: DeleteReply { result: DeleteResult::Stale, clock: stored },
                },
            ),
            ClockOrder::Concurrent => Ok(
                DeletePlan {
                    steps,
                    reply: DeleteReply { result: DeleteResult::Conflict, clock: stored },
                },
            ),
        }
    }

    /// Decides a rename at second `ts`. `found` is what came of locating the file at the old path,
    /// `dest` of locating the new path for writing.
    pub fn rename_file(
        &self,
        request: &RenameFileRequest,
        found: &Result<(), Status>,
        dest: &Result<(), Status>,
        ts: u64,
    ) -> (r: Result<RenamePlan, Status>)
        ensures
            ({
                let old_key = key_of(request.old_path@);
                let new_key = key_of(request.new_path@);
                let tomb = clock_of(self.tombstones@, old_key);
                let stored = clock_of(self.clocks@, old_key);
                let incoming = seen(request.clock);
                let writer = writer_or_unknown(request.writer_device_id@);
                let missing = found matches Err(e) && e.code == Code::NotFound;
                let stale_tomb = tomb != Counts::empty() && order(incoming, tomb)
                    == ClockOrder::DominatedBy;
                let needs_old = tomb == Counts::empty();
                let needs_new = !stale_tomb && !(needs_old && found is Err);
                match r {
                    Err(e) => if old_key.len() == 0 || new_key.len() == 0 {
                        e@ == refused(Code::InvalidArgument, "cannot rename root path"@)
                    } else if needs_old && found is Err {
                        found matches Err(d) && d.code != Code::NotFound && e@ == d@
                    } else {
                        needs_new && (dest matches Err(d) && e@ == d@)
                    },
                    Ok(plan) => {
                        &&& old_key.len() > 0
                        &&& new_key.len() > 0
                        &&& needs_old ==> missing || found is Ok
                        &&& needs_new ==> dest is Ok
                        &&& views(plan.steps@) == rename_steps(
                            tomb,
                            stored,
                            incoming,
                            old_key,
                            new_key,
                            writer,
                            ts,
                            missing,
                        )
                        &&& (plan.reply.result, plan.reply.clock@) == rename_answer(
                            tomb,
                            stored,
                            incoming,
                            missing,
                        )
                        &&& plan.reply.conflict_path@ == rename_copy(
                            tomb,
                            stored,
                            incoming,
                            old_key,
                            writer,
                            ts,
                            missing,
                        )
                    },
                }
            }),
    {
        let old_key = clock_key(request.old_path.as_str());
        let new_key = clock_key(request.new_path.as_str());
        if old_key.as_str().is_empty() || new_key.as_str().is_empty() {
            return Err(Status::new(Code::InvalidArgument, "cannot rename root path"));
        }
        let incoming = seen_clock(&request.clock);
        let mut steps: Vec<Step> = Vec::new();
        assert(views(steps@) =~= Seq::empty());
        let tombstone = self.tombstones.get(old_key.as_str());
        if !tombstone.is_empty() {
            let result = match incoming.compare(&tombstone) {
                ClockOrder::DominatedBy => {
                    return Ok(
                        RenamePlan {
                            steps,
                            reply: RenameReply {
                                result: RenameResult::Stale,
                                clock: tombstone,
                                conflict_path: String::new(),
                            },
                        },
                    );
                },
                ClockOrder::Concurrent => RenameResult::Conflict,
                _ => RenameResult::Renamed,
            };
            if let Err(e) = dest {
                return Err(e.duplicate());
            }
            let merged = tombstone.merge(&incoming);
            steps.push(Step::CreateEmpty { key: new_key.clone() });
            steps.push(Step::DropTombstone { key: old_key.clone() });
            steps.push(Step::ForgetTombstone { key: new_key.clone() });
            steps.push(Step::PutClock { key: new_key.clone(), clock: merged.duplicate() });
            assert(views(steps@) =~= seq![
                StepView::CreateEmpty { key: new_key@ },
                StepView::DropTombstone { key: old_key@ },
                StepView::ForgetTombstone { key: new_key@ },
                StepView::PutClock { key: new_key@, clock: merged@ },
            ]);
            return Ok(
                RenamePlan {
                    steps,
                    reply: RenameReply { result, clock: merged, conflict_path: String::new() },
                },
            );
        }
        let stored = self.clocks.get(old_key.as_str());
        if let Err(e) = found {
            if e.code == Code::NotFound {
                return Ok(
                    RenamePlan {
                        steps,
                        reply: RenameReply {
                            result: RenameResult::NotFound,
                            clock: stored,
                            conflict_path: String::new(),
                        },
                    },
                );
            }
            return Err(e.duplicate());
        }
        if let Err(e) = dest {
            return Err(e.duplicate());
        }
        let result = match incoming.compare(&stored) {
            ClockOrder::DominatedBy => {
                return Ok(
                    RenamePlan {
                        steps,
                        reply: RenameReply {
                            result: RenameResult::Stale,
                            clock: stored,
                            conflict_path: String::new(),
                        },
                    },
                );
            },
            ClockOrder::Concurrent => RenameResult::Conflict,
            _ => RenameResult::Renamed,
        };
        let merged = stored.merge(&incoming);
        let mut conflict_path = String::new();
        if result == RenameResult::Conflict {
            let writer = writer_of(request.writer_device_id.as_str());
            conflict_path = conflict_rel(old_key.as_str(), writer.as_str(), ts);
            steps.push(Step::CopyFile { from: old_key.clone(), to: conflict_path.clone() });
            steps.push(
                Step::PutClock { key: conflict_path.clone(), clock: incoming.duplicate() },
            );
            assert(views(steps@) =~= seq![
                StepView::CopyFile { from: old_key@, to: conflict_path@ },
                StepView::PutClock { key: conflict_path@, clock: incoming@ },
            ]);
        }
        let ghost before = views(steps@);
        steps.push(Step::MoveFile { from: old_key.clone(), to: new_key.clone() });
        steps.push(Step::DropClock { key: old_key.clone() });
        steps.push(Step::ForgetTombstone { key: new_key.clone() });
        steps.push(Step::PutClock { key: new_key.clone(), clock: merged.duplicate() });
        assert(views(steps@) =~= before + moving_steps(old_key@, new_key@, merged@));
        assert(result == RenameResult::Renamed ==> views(steps@) =~= moving_steps(
            old_key@,
            new_key@,
            merged@,
        ));
        Ok(RenamePlan { steps, reply: RenameReply { result, clock: merged, conflict_path } })
    }
}

/// Where a write that comes in pieces goes, as its first piece says.
#[derive(Debug)]
pub struct StreamTarget {
    pub path: String,
    pub key: String,
    pub incoming: VectorClock,
    pub writer: String,
}

/// Whether a first piece says that a write goes to `t`.
pub open spec fn opens(first: WriteFileChunk, t: StreamTarget) -> bool {
    &&& key_of(first.path@).len() > 0
    &&& t.path@ == first.path@
    &&& t.key@ == key_of(first.path@)
    &&& t.incoming@ == seen(first.clock)
    &&& t.writer@ == writer_or_unknown(first.writer_device_id@)
}

/// Reads the first piece of a write that comes in pieces; none came where the stream was empty.
pub fn open_write_stream(first: Option<&WriteFileChunk>) -> (r: Result<StreamTarget, Status>)
    ensures
        match (first, r) {
            (None, Err(e)) => e@ == refused(Code::InvalidArgument, "empty write stream"@),
            (Some(c), Err(e)) => if c.path@.len() == 0 {
                e@ == refused(Code::InvalidArgument, "first chunk must set path"@)
            } else {
                key_of(c.path@).len() == 0 && e@ == refused(
                    Code::InvalidArgument,
                    "cannot write the root path"@,
                )
            },
            (Some(c), Ok(t)) => opens(*c, t),
            (None, Ok(_)) => false,
        },
{
    match first {
        None => Err(Status::new(Code::InvalidArgument, "empty write stream")),
        Some(c) => {
            if c.path.as_str().is_empty() {
                return Err(Status::new(Code::InvalidArgument, "first chunk must set path"));
            }
            let incoming = seen_clock(&c.clock);
            let writer = writer_of(c.writer_device_id.as_str());
            let key = clock_key(c.path.as_str());
            if key.as_str().is_empty() {
                return Err(Status::new(Code::InvalidArgument, "cannot write the root path"));
            }
            Ok(StreamTarget { path: c.path.clone(), key, incoming, writer })
        },
    }
}

/// The content that pieces bring.
pub open spec fn chunk_content(chunks: Seq<WriteFileChunk>) -> Seq<u8>
    decreases chunks.len(),
{
    if chunks.len() == 0 {
        Seq::empty()
    } else {
        chunk_content(chunks.drop_last()) + chunks.last().data@
    }
}

/// Whether a piece carries data only.
pub open spec fn is_continuation(c: WriteFileChunk) -> bool {
    c.path@.len() == 0 && c.clock is None && c.writer_device_id@.len() == 0
}

/// The piece of `data` from `from` on, as long as a piece may be.
fn piece(data: &Vec<u8>, from: usize) -> (r: Vec<u8>)
    requires
        from <= data@.len(),
    ensures
        r@ == data@.subrange(
            from as int,
            if data@.len() - from <= CHUNK_SIZE {
                data@.len() as int
            } else {
                from + CHUNK_SIZE
            },
        ),
{
    let end: usize = if data.len() - from <= CHUNK_SIZE {
        data.len()
    } else {
        from + CHUNK_SIZE
    };
    let mut r: Vec<u8> = Vec::new();
    let mut i: usize = from;
    while i < end
        invariant
            from <= i <= end,
            end <= data@.len(),
            r@ == data@.subrange(from as int, i as int),
        decreases end - i,
    {
        r.push(data[i]);
        i = i + 1;
        assert(r@ =~= data@.subrange(from as int, i as int));
    }
    r
}

/// The pieces in which a client sends a file: full ones, and a last one with what is left. The
/// first says where the content goes, also where there is none.
pub fn write_chunks(path: &str, data: &Vec<u8>, clock: &VectorClock, writer_device_id: &str) -> (r: Vec<
    WriteFileChunk,
>)
    ensures
        r@.len() > 0,
        chunk_content(r@) == data@,
        r@[0].path@ == path@,
        seen(r@[0].clock) == clock@ && r@[0].clock is Some,
        r@[0].writer_device_id@ == writer_device_id@,
        forall|i: int| 0 < i < r@.len() ==> is_continuation(#[trigger] r@[i]),
        forall|i: int| 0 <= i < r@.len() - 1 ==> (#[trigger] r@[i]).data@.len() == CHUNK_SIZE,
        r@.last().data@.len() <= CHUNK_SIZE,
        data@.len() > 0 ==> r@.last().data@.len() > 0,
{
    let first = WriteFileChunk {
        path: path.to_owned(),
        data: piece(data, 0),
        clock: Some(clock.duplicate()),
        writer_device_id: writer_device_id.to_owned(),
    };
    let mut at: usize = first.data.len();
    let mut r: Vec<WriteFileChunk> = Vec::new();
    r.push(first);
    proof {
        reveal_with_fuel(chunk_content, 2);
        assert(r@.drop_last() =~= Seq::empty());
        assert(chunk_content(r@) =~= data@.take(at as int));
    }
    while at < data.len()
        invariant
            at <= data@.len(),
            r@.len() > 0,
            chunk_content(r@) == data@.take(at as int),
            r@[0].path@ == path@,
            seen(r@[0].clock) == clock@ && r@[0].clock is Some,
            r@[0].writer_device_id@ == writer_device_id@,
            forall|i: int| 0 < i < r@.len() ==> is_continuation(#[trigger] r@[i]),
            forall|i: int| 0 <= i < r@.len() - 1 ==> (#[trigger] r@[i]).data@.len() == CHUNK_SIZE,
            at < data@.len() ==> r@.last().data@.len() == CHUNK_SIZE,
            r@.last().data@.len() <= CHUNK_SIZE,
            data@.len() > 0 ==> r@.last().data@.len() > 0,
        decreases data@.len() - at,
    {
        let next = WriteFileChunk {
            path: String::new(),
            data: piece(data, at),
            clock: None,
            writer_device_id: String::new(),
        };
        let ghost was = r@;
        let ghost before = at;
        at = at + next.data.len();
        r.push(next);
        proof {
            assert(r@.drop_last() =~= was);
            assert(data@.take(before as int) + data@.subrange(before as int, at as int)
                =~= data@.take(at as int));
        }
    }
    assert(data@.take(at as int) =~= data@);
    r
}

} // verus!
