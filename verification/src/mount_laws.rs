//! What the mounted client answers and remembers, operation by operation.
use vstd::prelude::*;
use vstd::string::*;

use crate::clock::{Counts, VectorClock};
use crate::clock_laws::{lemma_unites, unites, writes};
use crate::files::FileEntry;
use crate::fuse::{
    attr_from_host, child, child_path, children, entry_to_attr, load_size, rename_result, Attr,
    AttrStep, DirItem, Errno, FuseView, LoadStep, NexusFuse,
};
use crate::host::{RenameResult, WriteResult};
use crate::inode::{
    asked_for, looked_up, number_of, number_when_asked, path_of, root_path, sound, InodeTable,
    TableView,
};
use crate::inode_laws::{
    keeps, lemma_asked, lemma_asked_with_room, lemma_keeps, lemma_looked_up, lemma_no_path,
    lemma_renamed, lemma_unknown,
};
use crate::store::ClockStore;

verus! {

broadcast use vstd::seq_lib::group_seq_properties;

/// Whether `path` is that of `name` in the directory `dir`.
pub open spec fn lies_in(path: Seq<char>, dir: Seq<char>, name: Seq<char>) -> bool {
    path == (if dir == "/"@ {
        seq!['/']
    } else {
        dir.push('/')
    }) + name
}

/// Whether `n` is the least number of blocks of 512 bytes that hold `size` bytes.
pub open spec fn holds_blocks(n: int, size: int) -> bool {
    size <= n * 512 < size + 512
}

/// Whether attributes tell of the file or directory `e` of the host.
pub open spec fn tells_of_entry(a: Attr, e: FileEntry) -> bool {
    &&& a.size == e.size_bytes
    &&& holds_blocks(a.blocks as int, a.size as int)
    &&& a.is_dir == e.is_dir
    &&& a.perm == (if e.is_dir {
        0o755u16
    } else {
        0o644u16
    })
    &&& a.nlink == 1
    &&& e.modified_unix >= 0 ==> a.mtime == Some(e.modified_unix as u64)
    &&& e.modified_unix < 0 ==> a.mtime == Some(0u64)
}

/// Whether attributes tell of a file that is open for writing, with `len` bytes.
pub open spec fn tells_of_buffer(a: Attr, ino: u64, len: nat) -> bool {
    &&& a.ino == ino
    &&& a.size == len as u64
    &&& holds_blocks(a.blocks as int, a.size as int)
    &&& !a.is_dir
    &&& a.perm == 0o644u16
    &&& a.nlink == 1
    &&& a.mtime is None
}

/// Whether two states of the client differ in nothing but which numbers were used last.
pub open spec fn only_used(a: FuseView, b: FuseView) -> bool {
    &&& b.buffers == a.buffers
    &&& b.clocks == a.clocks
    &&& b.device == a.device
    &&& b.table.next == a.table.next
    &&& b.table.dirs == a.table.dirs
    &&& forall|n: u64, p: Seq<char>| #[trigger] keeps(b.table, n, p) <==> keeps(a.table, n, p)
}

/// Whether two states of the client differ in nothing but its numbers.
pub open spec fn only_numbers(a: FuseView, b: FuseView) -> bool {
    &&& b.buffers == a.buffers
    &&& b.clocks == a.clocks
    &&& b.device == a.device
}

/// Whether two states of the client differ in nothing but the file `ino` that is open for writing.
pub open spec fn only_file(a: FuseView, b: FuseView, ino: u64) -> bool {
    &&& b.table == a.table
    &&& b.clocks == a.clocks
    &&& b.device == a.device
    &&& b.buffers.remove(ino) == a.buffers.remove(ino)
}

/// Whether two states of the client differ in nothing but what was seen of a path.
pub open spec fn only_clock(a: FuseView, b: FuseView, path: Seq<char>) -> bool {
    &&& b.table == a.table
    &&& b.buffers == a.buffers
    &&& b.device == a.device
    &&& b.clocks.remove(path) == a.clocks.remove(path)
}

/// The bytes of a file that is open for writing; none where it is not.
pub open spec fn bytes_in(s: FuseView, ino: u64) -> Seq<u8> {
    if s.buffers.dom().contains(ino) {
        s.buffers[ino].data
    } else {
        Seq::empty()
    }
}

/// What was seen of a path.
pub open spec fn seen_of(s: FuseView, path: Seq<char>) -> Counts {
    if s.clocks.dom().contains(path) {
        s.clocks[path].clock
    } else {
        Counts::empty()
    }
}

/// Whether `clock` is what the client has seen of a path, and one more edit of its own.
pub open spec fn is_next_edit(clock: Counts, s: FuseView, path: Seq<char>) -> bool {
    &&& writes(clock, s.device) == writes(seen_of(s, path), s.device) + 1
    &&& forall|d: Seq<char>|
        d != s.device ==> #[trigger] writes(clock, d) == writes(seen_of(s, path), d)
}

proof fn lemma_lies_in(dir: Seq<char>, name: Seq<char>)
    ensures
        lies_in(child(dir, name), dir, name),
        forall|p: Seq<char>| #[trigger] lies_in(p, dir, name) ==> p == child(dir, name),
{
    reveal_strlit("/");
    assert("/"@ =~= seq!['/']);
    assert(dir + "/"@ =~= dir.push('/'));
}

proof fn lemma_only_used(s: &NexusFuse, t: TableView, ino: u64)
    requires
        s.inodes.wf(),
        t == looked_up(s@.table, ino),
    ensures
        only_used(s@, (FuseView { table: t, ..s@ })),
        sound(s@.table),
        sound(t),
{
    s.inodes.law_table_is_sound();
    let o = s@.table;
    assert forall|n: u64, p: Seq<char>| #[trigger] keeps(t, n, p) <==> keeps(o, n, p) by {
        lemma_looked_up(o, ino, n, p);
    }
    lemma_looked_up(o, ino, ino, root_path());
    lemma_sound_used(o, ino);
}

proof fn lemma_sound_used(t: TableView, ino: u64)
    requires
        sound(t),
    ensures
        sound(looked_up(t, ino)),
{
    let u = looked_up(t, ino);
    crate::inode::lemma_ino_at(t.entries, ino);
    if ino != 1 && crate::inode::knows_ino(t, ino) {
        let i = crate::inode::ino_at(t.entries, ino);
        let back = |j: int|
            if j == u.entries.len() - 1 {
                i
            } else if j < i {
                j
            } else {
                j + 1
            };
        assert forall|j: int| 0 <= j < u.entries.len() implies #[trigger] u.entries[j]
            == t.entries[back(j)] by {}
        assert forall|j: int| 0 <= j < u.entries.len() implies 2 <= (#[trigger] u.entries[j]).0
            < u.next && u.entries[j].1 != root_path() by {
            assert(u.entries[j] == t.entries[back(j)]);
        }
        assert forall|j: int, k: int| 0 <= j < k < u.entries.len() implies (
        #[trigger] u.entries[j]).0 != (#[trigger] u.entries[k]).0 && u.entries[j].1
            != u.entries[k].1 by {
            assert(u.entries[j] == t.entries[back(j)]);
            assert(u.entries[k] == t.entries[back(k)]);
            let (a, b) = (back(j), back(k));
            if a < b {
                assert(t.entries[a].0 != t.entries[b].0);
            } else {
                assert(t.entries[b].0 != t.entries[a].0);
            }
        }
    }
}

/// What the kernel is told of an entry of the host is what the host said: its size, in blocks too,
/// whether it is a directory, and when it was changed.
pub proof fn law_attributes_tell_of_the_entry(ino: u64, e: &FileEntry, r: Attr)
    requires
        call_ensures(entry_to_attr, (ino, e), r),
    ensures
        r.ino == ino,
        tells_of_entry(r, *e),
{
}

/// The kernel is told of an entry where the host has one, that there is none where the host has none,
/// and of a failure where the host could not be asked.
pub proof fn law_reply_of_the_host_decides(
    ino: u64,
    reply: Option<Option<FileEntry>>,
    r: Result<Attr, Errno>,
)
    requires
        call_ensures(attr_from_host, (ino, reply), r),
    ensures
        reply is None <==> r == Err::<Attr, Errno>(Errno::Io),
        reply == Some(None::<FileEntry>) <==> r == Err::<Attr, Errno>(Errno::NotFound),
        reply matches Some(Some(e)) ==> (r matches Ok(a) && a.ino == ino && tells_of_entry(a, e)),
{
}

/// The path of a child is that of its directory and its name, with one slash between them.
pub proof fn law_child_lies_in_its_directory(dir: &str, name: &str, r: String)
    requires
        call_ensures(child_path, (dir, name), r),
    ensures
        lies_in(r@, dir@, name@),
{
    lemma_lies_in(dir@, name@);
}

/// A file that is open for writing is told of by what was written to it.
pub proof fn law_open_file_tells_its_own_size(s: &NexusFuse, ino: u64, r: Option<Attr>)
    requires
        call_ensures(NexusFuse::buffer_attr, (s, ino), r),
    ensures
        r is Some <==> s@.buffers.dom().contains(ino),
        r matches Some(a) ==> tells_of_buffer(a, ino, bytes_in(s@, ino).len()),
{
}

/// A lookup below a number that has no path fails. Else the host is asked for the path of the child,
/// unless that has a number under which it is open for writing: then it is told of at once. Nothing is
/// changed by it.
pub proof fn law_lookup(s: &mut NexusFuse, parent: u64, name: &str, r: AttrStep, dir: Seq<char>, path: Seq<char>)
    requires
        old(s).inodes.wf(),
        call_ensures(NexusFuse::lookup, (s, parent, name), r),
        lies_in(path, dir, name@),
    ensures
        only_used(old(s)@, final(s)@),
        (forall|p: Seq<char>| !#[trigger] keeps(old(s)@.table, parent, p)) <==> r
            == AttrStep::Fail(Errno::NotFound),
        r matches AttrStep::Fail(e) ==> e == Errno::NotFound,
        keeps(old(s)@.table, parent, dir) ==> {
            let open = exists|n: u64| #[trigger]
                keeps(old(s)@.table, n, path) && old(s)@.buffers.dom().contains(n);
            &&& open ==> (r matches AttrStep::Known(a) && keeps(old(s)@.table, a.ino, path)
                && tells_of_buffer(a, a.ino, bytes_in(old(s)@, a.ino).len()))
            &&& !open ==> (r matches AttrStep::Ask(p) && p@ == path)
        },
{
    let o = old(s)@;
    let t = looked_up(o.table, parent);
    lemma_only_used(old(s), t, parent);
    lemma_no_path(o.table, parent);
    if keeps(o.table, parent, dir) {
        lemma_keeps(o.table, parent, dir);
        lemma_lies_in(dir, name@);
        lemma_unknown(t, path);
        if exists|n: u64| #[trigger] keeps(o.table, n, path) && o.buffers.dom().contains(n) {
            let n = choose|n: u64| #[trigger] keeps(o.table, n, path) && o.buffers.dom().contains(n);
            assert(keeps(t, n, path));
            lemma_keeps(t, n, path);
        } else if number_of(t, path) is Some {
            let n = number_of(t, path)->0;
            lemma_keeps(t, n, path);
            assert(keeps(o.table, n, path));
        }
    }
}

/// What the host replies to a lookup is what the kernel is told; an entry has from then on a number
/// that is kept for its path, the one that it had if it had one, and is remembered as a directory if
/// it is one. Without an entry nothing is changed.
pub proof fn law_lookup_reply(
    s: &mut NexusFuse,
    path: &str,
    reply: Option<Option<FileEntry>>,
    r: Result<Attr, Errno>,
)
    requires
        old(s).inodes.wf(),
        old(s)@.table.next < u64::MAX,
        call_ensures(NexusFuse::lookup_reply, (s, path, reply), r),
    ensures
        only_numbers(old(s)@, final(s)@),
        reply is None ==> r == Err::<Attr, Errno>(Errno::Io) && final(s)@ == old(s)@,
        reply == Some(None::<FileEntry>) ==> r == Err::<Attr, Errno>(Errno::NotFound) && final(s)@
            == old(s)@,
        reply matches Some(Some(e)) ==> {
            &&& r matches Ok(a) && tells_of_entry(a, e) && keeps(final(s)@.table, a.ino, path@)
                && forall|n: u64| #[trigger] keeps(old(s)@.table, n, path@) ==> a.ino == n
            &&& forall|p: Seq<char>| #[trigger]
                final(s)@.table.dirs.contains(p) <==> old(s)@.table.dirs.contains(p) || (e.is_dir && p
                    == path@)
            &&& old(s)@.table.entries.len() < old(s)@.table.cap ==> forall|n: u64, p: Seq<char>| #[trigger]
                keeps(old(s)@.table, n, p) ==> keeps(final(s)@.table, n, p)
        },
{
    old(s).inodes.law_table_is_sound();
    if reply is Some && reply->0 is Some {
        let e = (reply->0)->0;
        let o = old(s)@.table;
        let t = if e.is_dir {
            TableView { dirs: o.dirs.insert(path@), ..o }
        } else {
            o
        };
        assert(sound(t));
        lemma_asked(t, path@);
        assert forall|n: u64| #[trigger] keeps(o, n, path@) implies number_when_asked(t, path@) == n by {
            assert(keeps(t, n, path@));
        }
        if t.entries.len() < t.cap {
            lemma_asked_with_room(t, path@);
            assert forall|n: u64, p: Seq<char>| #[trigger] keeps(o, n, p) implies keeps(
                final(s)@.table,
                n,
                p,
            ) by {
                assert(keeps(t, n, p));
            }
        }
    }
}

/// The root is a directory of its own. A number that has no path fails. A file that is open for
/// writing is told of at once, and of all else the host is asked for the path. Nothing is changed by
/// it.
pub proof fn law_getattr(s: &mut NexusFuse, ino: u64, r: AttrStep)
    requires
        old(s).inodes.wf(),
        call_ensures(NexusFuse::getattr, (s, ino), r),
    ensures
        only_used(old(s)@, final(s)@),
        ino == 1 ==> (r matches AttrStep::Known(a) && a.ino == 1 && a.is_dir && a.perm == 0o755u16
            && a.nlink == 2 && a.size == 0 && a.blocks == 0),
        (forall|p: Seq<char>| !#[trigger] keeps(old(s)@.table, ino, p)) <==> r == AttrStep::Fail(
            Errno::NotFound,
        ),
        r matches AttrStep::Fail(e) ==> e == Errno::NotFound,
        r matches AttrStep::Known(a) ==> ino == 1 || (old(s)@.buffers.dom().contains(ino)
            && tells_of_buffer(a, ino, bytes_in(old(s)@, ino).len())),
        r matches AttrStep::Ask(p) ==> ino != 1 && !old(s)@.buffers.dom().contains(ino) && keeps(
            old(s)@.table,
            ino,
            p@,
        ),
{
    let o = old(s)@;
    lemma_only_used(old(s), looked_up(o.table, ino), ino);
    lemma_no_path(o.table, ino);
    if path_of(o.table, ino) is Some {
        lemma_keeps(o.table, ino, path_of(o.table, ino)->0);
    }
}

/// An operation on a number is about the path that it is kept for.
pub proof fn law_operation_is_about_the_path(s: &mut NexusFuse, ino: u64, r: Result<String, Errno>)
    requires
        old(s).inodes.wf(),
        call_ensures(NexusFuse::path_of_ino, (s, ino), r),
    ensures
        only_used(old(s)@, final(s)@),
        r matches Ok(p) ==> keeps(old(s)@.table, ino, p@),
        r matches Err(e) ==> e == Errno::NotFound && forall|p: Seq<char>| !#[trigger]
            keeps(old(s)@.table, ino, p),
{
    let o = old(s)@;
    lemma_only_used(old(s), looked_up(o.table, ino), ino);
    lemma_no_path(o.table, ino);
    if r is Ok {
        lemma_keeps(o.table, ino, r->Ok_0@);
    }
}

proof fn lemma_children(t: TableView, path: Seq<char>, entries: Seq<FileEntry>)
    ensures
        children(t, path, entries).1.len() == entries.len(),
        forall|i: int|
            0 <= i < entries.len() ==> (#[trigger] children(t, path, entries).1[i]).name
                == entries[i].name@ && children(t, path, entries).1[i].is_dir == entries[i].is_dir,
    decreases entries.len(),
{
    if entries.len() > 0 {
        lemma_children(t, path, entries.drop_last());
    }
}

proof fn lemma_children_kept(t: TableView, path: Seq<char>, entries: Seq<FileEntry>)
    requires
        sound(t),
        t.next + entries.len() <= u64::MAX,
        t.entries.len() + entries.len() <= t.cap,
    ensures
        ({
            let (u, items) = children(t, path, entries);
            &&& sound(u)
            &&& u.cap == t.cap
            &&& u.dirs == t.dirs
            &&& u.next <= t.next + entries.len()
            &&& u.entries.len() <= t.entries.len() + entries.len()
            &&& items.len() == entries.len()
            &&& forall|n: u64, p: Seq<char>| #[trigger] keeps(t, n, p) ==> keeps(u, n, p)
            &&& forall|i: int|
                0 <= i < items.len() ==> keeps(
                    u,
                    (#[trigger] items[i]).ino,
                    child(path, entries[i].name@),
                )
        }),
    decreases entries.len(),
{
    if entries.len() > 0 {
        let less = entries.drop_last();
        lemma_children_kept(t, path, less);
        let (b, before) = children(t, path, less);
        let (u, items) = children(t, path, entries);
        let p = child(path, entries.last().name@);
        lemma_asked(b, p);
        let r = number_when_asked(b, p);
        assert forall|n: u64, q: Seq<char>| #[trigger] keeps(b, n, q) implies keeps(u, n, q) by {
            if forall|m: u64| !#[trigger] keeps(b, m, p) {
                if n != 1 {
                    let k = choose|k: int|
                        0 <= k < b.entries.len() && #[trigger] b.entries[k] == (n, q);
                    assert(u.entries == b.entries.push((r, p)));
                    assert(u.entries[k] == (n, q));
                }
            }
        }
        assert forall|i: int| 0 <= i < items.len() implies keeps(
            u,
            (#[trigger] items[i]).ino,
            child(path, entries[i].name@),
        ) by {
            if i < before.len() {
                assert(items[i] == before[i]);
                assert(less[i] == entries[i]);
                assert(keeps(b, before[i].ino, child(path, less[i].name@)));
            }
        }
        assert(u.entries.len() <= b.entries.len() + 1);
        assert(u.next <= b.next + 1);
    }
}

/// A directory that is read from its start is told as itself, what stands for its parent, and then
/// each entry that the host has listed, once and in the order of the host, under its name and as a
/// directory where it is one. Each item says where reading goes on after it.
pub proof fn law_listing_tells_every_entry(
    s: &mut NexusFuse,
    ino: u64,
    path: &str,
    entries: &Vec<FileEntry>,
    r: Vec<DirItem>,
)
    requires
        call_ensures(NexusFuse::readdir, (s, ino, path, entries, 0i64), r),
    ensures
        r@.len() == entries@.len() + 2,
        r@[0].name@ == "."@ && r@[0].is_dir && r@[0].ino == ino,
        r@[1].name@ == ".."@ && r@[1].is_dir && r@[1].ino == ino,
        forall|i: int|
            0 <= i < entries@.len() ==> (#[trigger] r@[i + 2]).name@ == entries@[i].name@
                && r@[i + 2].is_dir == entries@[i].is_dir,
        forall|i: int| 0 <= i < r@.len() ==> (#[trigger] r@[i]).next_offset == i + 1,
        only_numbers(old(s)@, final(s)@),
{
    let t = old(s)@.table;
    lemma_children(t, path@, entries@);
    let all = crate::fuse::all_items(t, ino, path@, entries@);
    assert forall|i: int| 0 <= i < entries@.len() implies (#[trigger] r@[i + 2]).name@
        == entries@[i].name@ && r@[i + 2].is_dir == entries@[i].is_dir by {
        assert(all[i + 2] == children(t, path@, entries@).1[i]);
        assert(r@[i + 2].name@ == all[0 + (i + 2)].name);
    }
    assert(r@[0].name@ == all[0].name);
    assert(r@[1].name@ == all[1].name);
}

/// Reading a directory from an offset gives what is left of reading it from the start: the same items
/// with the same numbers and names. A negative offset, or one past the end, gives nothing.
pub proof fn law_listing_goes_on_where_it_stopped(
    s: &mut NexusFuse,
    s2: &mut NexusFuse,
    ino: u64,
    path: &str,
    entries: &Vec<FileEntry>,
    offset: i64,
    whole: Vec<DirItem>,
    rest: Vec<DirItem>,
)
    requires
        old(s)@ == old(s2)@,
        call_ensures(NexusFuse::readdir, (s, ino, path, entries, 0i64), whole),
        call_ensures(NexusFuse::readdir, (s2, ino, path, entries, offset), rest),
    ensures
        offset < 0 || offset >= whole@.len() ==> rest@.len() == 0,
        0 <= offset < whole@.len() ==> rest@.len() == whole@.len() - offset,
        forall|i: int|
            0 <= i < rest@.len() ==> {
                &&& (#[trigger] rest@[i]).name@ == whole@[offset + i].name@
                &&& rest@[i].ino == whole@[offset + i].ino
                &&& rest@[i].is_dir == whole@[offset + i].is_dir
                &&& rest@[i].next_offset == whole@[offset + i].next_offset
            },
{
    let all = crate::fuse::all_items(old(s)@.table, ino, path@, entries@);
    assert forall|i: int| 0 <= i < rest@.len() implies ({
        &&& (#[trigger] rest@[i]).name@ == whole@[offset + i].name@
        &&& rest@[i].ino == whole@[offset + i].ino
        &&& rest@[i].is_dir == whole@[offset + i].is_dir
        &&& rest@[i].next_offset == whole@[offset + i].next_offset
    }) by {
        let w = whole@[offset + i];
        assert(w.name@ == all[0 + (offset + i)].name);
    }
}

/// Where there is room for them, the number that each item of a directory is told with is kept for
/// its path, and no number that was kept before is lost.
pub proof fn law_listed_numbers_are_kept(
    s: &mut NexusFuse,
    ino: u64,
    path: &str,
    entries: &Vec<FileEntry>,
    r: Vec<DirItem>,
)
    requires
        old(s).inodes.wf(),
        old(s)@.table.next + entries@.len() <= u64::MAX,
        old(s)@.table.entries.len() + entries@.len() <= old(s)@.table.cap,
        call_ensures(NexusFuse::readdir, (s, ino, path, entries, 0i64), r),
    ensures
        forall|i: int, p: Seq<char>|
            0 <= i < entries@.len() && #[trigger] lies_in(p, path@, entries@[i].name@) ==> keeps(
                final(s)@.table,
                (#[trigger] r@[i + 2]).ino,
                p,
            ),
        forall|n: u64, p: Seq<char>| #[trigger]
            keeps(old(s)@.table, n, p) ==> keeps(final(s)@.table, n, p),
{
    let t = old(s)@.table;
    old(s).inodes.law_table_is_sound();
    lemma_children_kept(t, path@, entries@);
    let all = crate::fuse::all_items(t, ino, path@, entries@);
    assert forall|i: int, p: Seq<char>|
        0 <= i < entries@.len() && #[trigger] lies_in(p, path@, entries@[i].name@) implies keeps(
        final(s)@.table,
        (#[trigger] r@[i + 2]).ino,
        p,
    ) by {
        lemma_lies_in(path@, entries@[i].name@);
        assert(all[i + 2] == children(t, path@, entries@).1[i]);
        assert(r@[i + 2].ino == all[0 + (i + 2)].ino);
    }
}

/// A file that is opened to be read, or to be read and written, has the host asked for the path of its
/// number; one that is opened to be written only has not. Nothing is changed by it.
pub proof fn law_open_to_read_asks_the_host(s: &mut NexusFuse, ino: u64, flags: i32, r: Option<String>)
    requires
        old(s).inodes.wf(),
        call_ensures(NexusFuse::open, (s, ino, flags), r),
    ensures
        only_used(old(s)@, final(s)@),
        r matches Some(p) ==> keeps(old(s)@.table, ino, p@) && (flags & 3i32 == 0i32 || flags & 3i32
            == 2i32),
        flags & 3i32 == 0i32 || flags & 3i32 == 2i32 ==> forall|p: Seq<char>| #[trigger]
            keeps(old(s)@.table, ino, p) ==> r is Some,
{
    let o = old(s)@;
    lemma_only_used(old(s), looked_up(o.table, ino), ino);
    lemma_no_path(o.table, ino);
    if path_of(o.table, ino) is Some {
        lemma_keeps(o.table, ino, path_of(o.table, ino)->0);
    }
}

/// Once a file was opened to be read, the client has seen what it and the host have seen of it, and
/// nothing else has changed.
pub proof fn law_reading_takes_over_what_the_host_has_seen(
    s: &mut NexusFuse,
    path: &str,
    host: &VectorClock,
    now: u64,
)
    requires
        call_ensures(NexusFuse::open_reply, (s, path, host, now), ()),
    ensures
        only_clock(old(s)@, final(s)@, path@),
        unites(seen_of(final(s)@, path@), seen_of(old(s)@, path@), host@),
        final(s)@.clocks.dom().contains(path@),
        final(s)@.clocks[path@].at == now,
{
    lemma_unites(seen_of(old(s)@, path@), host@);
    assert(final(s)@.clocks.remove(path@) =~= old(s)@.clocks.remove(path@));
}

/// A file that is made is open for writing, empty, and to be sent to the host, under a number that is
/// kept for its path; it takes the place of what was open under that number. No other file is touched.
/// Below a number that has no path nothing is made.
pub proof fn law_create(
    s: &mut NexusFuse,
    parent: u64,
    name: &str,
    r: Result<Attr, Errno>,
    dir: Seq<char>,
    path: Seq<char>,
)
    requires
        old(s).inodes.wf(),
        old(s)@.table.next < u64::MAX,
        call_ensures(NexusFuse::create, (s, parent, name), r),
        lies_in(path, dir, name@),
    ensures
        r matches Err(e) ==> e == Errno::NotFound && only_used(old(s)@, final(s)@),
        r is Err <==> forall|p: Seq<char>| !#[trigger] keeps(old(s)@.table, parent, p),
        keeps(old(s)@.table, parent, dir) ==> (r matches Ok(a) && {
            &&& tells_of_buffer(a, a.ino, 0)
            &&& keeps(final(s)@.table, a.ino, path)
            &&& forall|n: u64| #[trigger] keeps(old(s)@.table, n, path) ==> a.ino == n
            &&& final(s)@.buffers.dom().contains(a.ino)
            &&& final(s)@.buffers[a.ino].data.len() == 0
            &&& final(s)@.buffers[a.ino].dirty
            &&& final(s)@.buffers[a.ino].loaded
            &&& final(s)@.buffers.remove(a.ino) == old(s)@.buffers.remove(a.ino)
            &&& final(s)@.clocks == old(s)@.clocks
            &&& final(s)@.device == old(s)@.device
            &&& old(s)@.table.entries.len() < old(s)@.table.cap ==> forall|n: u64, p: Seq<char>| #[trigger]
                keeps(old(s)@.table, n, p) ==> keeps(final(s)@.table, n, p)
        }),
{
    let o = old(s)@;
    let t = looked_up(o.table, parent);
    lemma_only_used(old(s), t, parent);
    lemma_no_path(o.table, parent);
    if keeps(o.table, parent, dir) {
        lemma_keeps(o.table, parent, dir);
        lemma_lies_in(dir, name@);
        lemma_asked(t, path);
        assert(path_of(o.table, parent) == Some(dir));
        let ino = number_when_asked(t, path);
        assert(final(s)@.buffers.remove(ino) =~= o.buffers.remove(ino));
        assert forall|n: u64| #[trigger] keeps(o.table, n, path) implies ino == n by {
            assert(keeps(t, n, path));
        }
        lemma_looked_up(o.table, parent, parent, dir);
        if t.entries.len() < t.cap {
            lemma_asked_with_room(t, path);
            assert forall|n: u64, p: Seq<char>| #[trigger] keeps(o.table, n, p) implies keeps(
                final(s)@.table,
                n,
                p,
            ) by {
                assert(keeps(t, n, p));
            }
        }
    }
}

/// Before a file is written to, its content is fetched from the host, unless it was fetched before or
/// the file was made here. Nothing is changed by it.
pub proof fn law_content_is_fetched_once(s: &mut NexusFuse, ino: u64, r: LoadStep)
    requires
        old(s).inodes.wf(),
        call_ensures(NexusFuse::prepare, (s, ino), r),
    ensures
        only_used(old(s)@, final(s)@),
        r is Fail <==> forall|p: Seq<char>| !#[trigger] keeps(old(s)@.table, ino, p),
        r matches LoadStep::Fail(e) ==> e == Errno::NotFound,
        r is Ready ==> old(s)@.buffers.dom().contains(ino) && old(s)@.buffers[ino].loaded,
        r matches LoadStep::Load(p) ==> keeps(old(s)@.table, ino, p@) && !(old(
            s,
        )@.buffers.dom().contains(ino) && old(s)@.buffers[ino].loaded),
{
    let o = old(s)@;
    lemma_only_used(old(s), looked_up(o.table, ino), ino);
    lemma_no_path(o.table, ino);
    if path_of(o.table, ino) is Some {
        lemma_keeps(o.table, ino, path_of(o.table, ino)->0);
    }
}

/// What was fetched becomes the content of the file, and whether there is something to be sent stays
/// as it was; what was fetched or made before is not replaced. No other file is touched.
pub proof fn law_fetched_becomes_the_content(s: &mut NexusFuse, ino: u64, data: Vec<u8>)
    requires
        call_ensures(NexusFuse::ensure_loaded, (s, ino, data), ()),
    ensures
        only_file(old(s)@, final(s)@, ino),
        final(s)@.buffers.dom().contains(ino) && final(s)@.buffers[ino].loaded,
        ({
            let had = old(s)@.buffers.dom().contains(ino);
            &&& had && old(s)@.buffers[ino].loaded ==> final(s)@ == old(s)@
            &&& !(had && old(s)@.buffers[ino].loaded) ==> final(s)@.buffers[ino].data == data@
            &&& had ==> final(s)@.buffers[ino].dirty == old(s)@.buffers[ino].dirty
            &&& !had ==> !final(s)@.buffers[ino].dirty
        }),
{
    assert(final(s)@.buffers.remove(ino) =~= old(s)@.buffers.remove(ino));
}

/// What is written stands from the offset on, what was there before and after it stays, what lies
/// between the old end and the offset is zero, and the file is no longer than that takes. It is then
/// to be sent. All bytes are written. No other file is touched.
pub proof fn law_write_into_the_file(s: &mut NexusFuse, ino: u64, offset: i64, data: &[u8], r: u32)
    requires
        call_ensures(NexusFuse::write, (s, ino, offset, data), r),
        0 <= offset,
        offset + data@.len() <= isize::MAX,
    ensures
        only_file(old(s)@, final(s)@, ino),
        final(s)@.buffers.dom().contains(ino),
        final(s)@.buffers[ino].dirty,
        old(s)@.buffers.dom().contains(ino) ==> final(s)@.buffers[ino].loaded == old(
            s,
        )@.buffers[ino].loaded,
        !old(s)@.buffers.dom().contains(ino) ==> final(s)@.buffers[ino].loaded,
        data@.len() <= u32::MAX ==> r == data@.len(),
        ({
            let was = bytes_in(old(s)@, ino);
            let is = bytes_in(final(s)@, ino);
            &&& is.len() >= was.len()
            &&& is.len() >= offset + data@.len()
            &&& is.len() == was.len() || is.len() == offset + data@.len()
            &&& forall|i: int| 0 <= i < data@.len() ==> #[trigger] is[offset + i] == data@[i]
            &&& forall|i: int|
                0 <= i < was.len() && !(offset <= i < offset + data@.len()) ==> #[trigger] is[i]
                    == was[i]
            &&& forall|i: int| was.len() <= i < offset && i < is.len() ==> #[trigger] is[i] == 0
        }),
{
    assert(final(s)@.buffers.remove(ino) =~= old(s)@.buffers.remove(ino));
}

/// A change of attributes without a size changes nothing. Cutting a file to nothing makes it empty and
/// to be sent, without asking the host. Any other size has the content fetched first, unless it was.
pub proof fn law_cutting_to_nothing_asks_nothing(s: &mut NexusFuse, ino: u64, size: Option<u64>, r: LoadStep)
    requires
        old(s).inodes.wf(),
        call_ensures(NexusFuse::setattr, (s, ino, size), r),
    ensures
        r is Fail <==> forall|p: Seq<char>| !#[trigger] keeps(old(s)@.table, ino, p),
        r matches LoadStep::Fail(e) ==> e == Errno::NotFound,
        r is Fail || size is None || size->0 > 0 ==> only_used(old(s)@, final(s)@),
        !(r is Fail) && size is None ==> r is Ready,
        !(r is Fail) && size == Some(0u64) ==> {
            &&& r is Ready
            &&& final(s)@.buffers.dom().contains(ino)
            &&& final(s)@.buffers[ino].data.len() == 0
            &&& final(s)@.buffers[ino].dirty
            &&& final(s)@.buffers[ino].loaded
            &&& final(s)@.buffers.remove(ino) == old(s)@.buffers.remove(ino)
            &&& final(s)@.clocks == old(s)@.clocks
        },
        !(r is Fail) && (size matches Some(n) && n > 0) ==> (r is Ready <==> old(
            s,
        )@.buffers.dom().contains(ino) && old(s)@.buffers[ino].loaded),
        r matches LoadStep::Load(p) ==> keeps(old(s)@.table, ino, p@),
{
    let o = old(s)@;
    lemma_only_used(old(s), looked_up(o.table, ino), ino);
    lemma_no_path(o.table, ino);
    if path_of(o.table, ino) is Some {
        lemma_keeps(o.table, ino, path_of(o.table, ino)->0);
    }
    assert(o.buffers.insert(ino, crate::fuse::fresh()).remove(ino) =~= o.buffers.remove(ino));
}

/// A file that is cut or filled up has the new size; the bytes that it had stay up to there, and the
/// others are zero. It is then to be sent. A file that is not open stays so, and no other is touched.
pub proof fn law_truncate(s: &mut NexusFuse, ino: u64, size: u64)
    requires
        call_ensures(NexusFuse::truncate, (s, ino, size), ()),
        size <= isize::MAX,
    ensures
        only_file(old(s)@, final(s)@, ino),
        !old(s)@.buffers.dom().contains(ino) ==> final(s)@ == old(s)@,
        old(s)@.buffers.dom().contains(ino) ==> {
            let was = old(s)@.buffers[ino].data;
            let is = final(s)@.buffers[ino].data;
            &&& final(s)@.buffers.dom().contains(ino)
            &&& final(s)@.buffers[ino].dirty
            &&& final(s)@.buffers[ino].loaded == old(s)@.buffers[ino].loaded
            &&& is.len() == size
            &&& forall|i: int| 0 <= i < is.len() && i < was.len() ==> #[trigger] is[i] == was[i]
            &&& forall|i: int| was.len() <= i < is.len() ==> #[trigger] is[i] == 0
        },
{
    assert(final(s)@.buffers.remove(ino) =~= old(s)@.buffers.remove(ino));
}

/// A file that has something to be sent is sent whole, with what the client has seen of its path and
/// one more edit of its own; one that has nothing is not sent.
pub proof fn law_flush_sends_the_file(
    s: &NexusFuse,
    ino: u64,
    path: &str,
    r: Option<(Vec<u8>, VectorClock)>,
)
    requires
        call_ensures(NexusFuse::flush_buffer, (s, ino, path), r),
        writes(seen_of(s@, path@), s@.device) < u64::MAX,
    ensures
        r is Some <==> s@.buffers.dom().contains(ino) && s@.buffers[ino].dirty,
        r matches Some((data, clock)) ==> data@ == bytes_in(s@, ino) && is_next_edit(
            clock@,
            s@,
            path@,
        ),
{
}

/// Once the host has replied to what was sent, there is nothing left to be sent of the file, its
/// content stays, and the client has seen of its path what was sent and what the host has seen. Only a
/// conflict is told as one. No other file and no other path is touched.
pub proof fn law_flushed_is_clean(
    s: &mut NexusFuse,
    ino: u64,
    path: &str,
    sent: &VectorClock,
    result: WriteResult,
    host: &VectorClock,
    now: u64,
    r: bool,
)
    requires
        call_ensures(NexusFuse::flush_reply, (s, ino, path, sent, result, host, now), r),
    ensures
        r <==> result == WriteResult::Conflict,
        final(s)@.table == old(s)@.table,
        final(s)@.device == old(s)@.device,
        final(s)@.clocks.dom().contains(path@),
        unites(seen_of(final(s)@, path@), sent@, host@),
        final(s)@.clocks.remove(path@) == old(s)@.clocks.remove(path@),
        final(s)@.buffers.remove(ino) == old(s)@.buffers.remove(ino),
        final(s)@.buffers.dom().contains(ino) <==> old(s)@.buffers.dom().contains(ino),
        old(s)@.buffers.dom().contains(ino) ==> {
            &&& !final(s)@.buffers[ino].dirty
            &&& final(s)@.buffers[ino].data == old(s)@.buffers[ino].data
            &&& final(s)@.buffers[ino].loaded == old(s)@.buffers[ino].loaded
        },
{
    lemma_unites(sent@, host@);
    assert(final(s)@.clocks.remove(path@) =~= old(s)@.clocks.remove(path@));
    assert(final(s)@.buffers.remove(ino) =~= old(s)@.buffers.remove(ino));
}

/// A file that is closed for good is no longer open, and no other is touched.
pub proof fn law_released_is_closed(s: &mut NexusFuse, ino: u64)
    requires
        call_ensures(NexusFuse::release, (s, ino), ()),
    ensures
        only_file(old(s)@, final(s)@, ino),
        !final(s)@.buffers.dom().contains(ino),
{
    assert(final(s)@.buffers.remove(ino) =~= old(s)@.buffers.remove(ino));
}

/// A delete is sent for the path of the child, with what the client has seen of that path and one more
/// edit of its own. Below a number that has no path nothing is sent. Nothing is changed by it.
pub proof fn law_unlink_sends_the_delete(
    s: &mut NexusFuse,
    parent: u64,
    name: &str,
    r: Result<(String, VectorClock), Errno>,
    dir: Seq<char>,
    path: Seq<char>,
)
    requires
        old(s).inodes.wf(),
        call_ensures(NexusFuse::unlink, (s, parent, name), r),
        lies_in(path, dir, name@),
        writes(seen_of(old(s)@, path), old(s)@.device) < u64::MAX,
    ensures
        only_used(old(s)@, final(s)@),
        r is Err <==> forall|p: Seq<char>| !#[trigger] keeps(old(s)@.table, parent, p),
        r matches Err(e) ==> e == Errno::NotFound,
        keeps(old(s)@.table, parent, dir) ==> (r matches Ok((p, clock)) && p@ == path
            && is_next_edit(clock@, old(s)@, path)),
{
    let o = old(s)@;
    lemma_only_used(old(s), looked_up(o.table, parent), parent);
    lemma_no_path(o.table, parent);
    if keeps(o.table, parent, dir) {
        lemma_keeps(o.table, parent, dir);
        lemma_lies_in(dir, name@);
    }
}

/// Once the host has replied to a delete, what was open under the number of the path is dropped, and
/// the client has seen of the path what was sent and what the host has seen. No other file and no other
/// path is touched.
pub proof fn law_unlinked_is_dropped(
    s: &mut NexusFuse,
    path: &str,
    sent: &VectorClock,
    host: &VectorClock,
    now: u64,
)
    requires
        old(s).inodes.wf(),
        call_ensures(NexusFuse::unlink_reply, (s, path, sent, host, now), ()),
    ensures
        final(s)@.table == old(s)@.table,
        final(s)@.device == old(s)@.device,
        final(s)@.clocks.dom().contains(path@),
        unites(seen_of(final(s)@, path@), sent@, host@),
        final(s)@.clocks.remove(path@) == old(s)@.clocks.remove(path@),
        forall|n: u64| #[trigger]
            final(s)@.buffers.dom().contains(n) <==> old(s)@.buffers.dom().contains(n) && !keeps(
                old(s)@.table,
                n,
                path@,
            ),
        forall|n: u64| #[trigger]
            final(s)@.buffers.dom().contains(n) ==> final(s)@.buffers[n] == old(s)@.buffers[n],
{
    lemma_unites(sent@, host@);
    let o = old(s)@;
    old(s).inodes.law_table_is_sound();
    assert(final(s)@.clocks.remove(path@) =~= o.clocks.remove(path@));
    assert forall|n: u64| #[trigger]
        final(s)@.buffers.dom().contains(n) <==> o.buffers.dom().contains(n) && !keeps(
            o.table,
            n,
            path@,
        ) by {
        lemma_keeps(o.table, n, path@);
    }
}

/// A rename is sent for the paths of both names, with what the client has seen of the old path and one
/// more edit of its own. Special ways of renaming are refused, so is a path that is known to be a
/// directory, and below a number that has no path nothing is sent. Nothing is changed by it.
pub proof fn law_rename_sends_both_paths(
    s: &mut NexusFuse,
    parent: u64,
    name: &str,
    newparent: u64,
    newname: &str,
    flags: u32,
    r: Result<(String, String, VectorClock), Errno>,
    dir: Seq<char>,
    path: Seq<char>,
    newdir: Seq<char>,
    newpath: Seq<char>,
)
    requires
        old(s).inodes.wf(),
        call_ensures(NexusFuse::rename, (s, parent, name, newparent, newname, flags), r),
        lies_in(path, dir, name@),
        lies_in(newpath, newdir, newname@),
        writes(seen_of(old(s)@, path), old(s)@.device) < u64::MAX,
    ensures
        only_used(old(s)@, final(s)@),
        flags != 0 ==> (r matches Err(e) && e == Errno::Invalid),
        flags == 0 && ((forall|p: Seq<char>| !#[trigger] keeps(old(s)@.table, parent, p)) || (forall|
            p: Seq<char>,
        | !#[trigger] keeps(old(s)@.table, newparent, p))) ==> (r matches Err(e) && e
            == Errno::NotFound),
        flags == 0 && keeps(old(s)@.table, parent, dir) && keeps(old(s)@.table, newparent, newdir)
            ==> {
            &&& old(s)@.table.dirs.contains(path) ==> (r matches Err(e) && e == Errno::IsDirectory)
            &&& !old(s)@.table.dirs.contains(path) ==> (r matches Ok((a, b, clock)) && a@ == path && b@
                == newpath && is_next_edit(clock@, old(s)@, path))
        },
{
    let o = old(s)@;
    let t1 = looked_up(o.table, parent);
    lemma_only_used(old(s), t1, parent);
    lemma_no_path(o.table, parent);
    lemma_no_path(o.table, newparent);
    lemma_no_path(t1, newparent);
    let t2 = looked_up(t1, newparent);
    assert forall|n: u64, p: Seq<char>| #[trigger] keeps(t2, n, p) <==> keeps(o.table, n, p) by {
        lemma_looked_up(t1, newparent, n, p);
        assert(keeps(t1, n, p) <==> keeps(o.table, n, p));
    }
    lemma_looked_up(t1, newparent, parent, root_path());
    if forall|p: Seq<char>| !#[trigger] keeps(o.table, newparent, p) {
        assert forall|p: Seq<char>| !#[trigger] keeps(t1, newparent, p) by {}
    }
    if keeps(o.table, parent, dir) {
        lemma_keeps(o.table, parent, dir);
        lemma_lies_in(dir, name@);
    }
    if keeps(o.table, newparent, newdir) {
        assert(keeps(t1, newparent, newdir));
        lemma_keeps(t1, newparent, newdir);
        lemma_lies_in(newdir, newname@);
    }
}

/// A rename that the host has carried out, or answered with a conflict, gives the number of the old
/// path to the new one, moves what the client has seen along with it, and forgets it of the old path.
/// A rename that came too late is an error, after which the client has seen what the host has seen of
/// the old path. One that found nothing, or was not answered with a known result, is an error that
/// changes nothing. No file that is open for writing is touched.
pub proof fn law_rename_reply(
    s: &mut NexusFuse,
    a: &str,
    b: &str,
    sent: &VectorClock,
    result: Option<RenameResult>,
    host: &VectorClock,
    copy: &str,
    now: u64,
    r: Result<(), Errno>,
)
    requires
        old(s).inodes.wf(),
        call_ensures(NexusFuse::rename_reply, (s, a, b, sent, result, host, copy, now), r),
    ensures
        final(s)@.buffers == old(s)@.buffers,
        final(s)@.device == old(s)@.device,
        result is None ==> r == Err::<(), Errno>(Errno::Io) && final(s)@ == old(s)@,
        result == Some(RenameResult::NotFound) ==> r == Err::<(), Errno>(Errno::NotFound)
            && final(s)@ == old(s)@,
        result == Some(RenameResult::Stale) ==> {
            &&& r == Err::<(), Errno>(Errno::Stale)
            &&& final(s)@.table == old(s)@.table
            &&& final(s)@.clocks.dom().contains(a@)
            &&& unites(seen_of(final(s)@, a@), sent@, host@)
            &&& final(s)@.clocks.remove(a@) == old(s)@.clocks.remove(a@)
        },
        result == Some(RenameResult::Renamed) || result == Some(RenameResult::Conflict) ==> {
            &&& r is Ok
            &&& final(s)@.clocks.dom().contains(b@)
            &&& unites(seen_of(final(s)@, b@), sent@, host@)
            &&& a@ != b@ ==> !final(s)@.clocks.dom().contains(a@)
            &&& final(s)@.clocks.remove(a@).remove(b@) == old(s)@.clocks.remove(a@).remove(b@)
        },
        result == Some(RenameResult::Renamed) || (result == Some(RenameResult::Conflict) && copy@.len()
            == 0) ==> {
            let known = exists|n: u64| #[trigger] keeps(old(s)@.table, n, a@);
            &&& final(s)@.table.next == old(s)@.table.next
            &&& final(s)@.table.dirs == old(s)@.table.dirs
            &&& a@ == "/"@ || b@ == "/"@ || !known ==> final(s)@.table == old(s)@.table
            &&& a@ != "/"@ && b@ != "/"@ && known ==> {
                &&& forall|n: u64| #[trigger]
                    keeps(old(s)@.table, n, a@) ==> keeps(final(s)@.table, n, b@)
                &&& a@ != b@ ==> forall|n: u64| !#[trigger] keeps(final(s)@.table, n, a@)
                &&& forall|n: u64, p: Seq<char>|
                    p != a@ && p != b@ ==> (#[trigger] keeps(final(s)@.table, n, p) <==> keeps(
                        old(s)@.table,
                        n,
                        p,
                    ))
            }
        },
{
    lemma_unites(sent@, host@);
    let o = old(s)@;
    let u = final(s)@;
    assert(u.clocks.remove(a@) =~= o.clocks.remove(a@) || result != Some(RenameResult::Stale));
    if result == Some(RenameResult::Renamed) || result == Some(RenameResult::Conflict) {
        assert(u.clocks.remove(a@).remove(b@) =~= o.clocks.remove(a@).remove(b@));
    }
    old(s).inodes.law_table_is_sound();
    if result == Some(RenameResult::Renamed) || (result == Some(RenameResult::Conflict) && copy@.len()
        == 0) {
        final(s).inodes.law_table_is_sound();
        lemma_unknown(o.table, a@);
        if a@ != "/"@ && b@ != "/"@ && exists|n: u64| #[trigger] keeps(o.table, n, a@) {
            let ino = choose|n: u64| #[trigger] keeps(o.table, n, a@);
            lemma_renamed(o.table, u.table, a@, b@, ino);
            assert forall|n: u64| #[trigger] keeps(o.table, n, a@) implies keeps(u.table, n, b@) by {
                lemma_keeps(o.table, n, a@);
                lemma_keeps(o.table, ino, a@);
            }
        }
    }
}

/// The copy that a conflicting rename has left has from then on a number, kept for its path below the
/// root. As long as there is room, it changes nothing for the paths that the table has after the rename.
pub proof fn law_copy_of_a_rename_gets_a_number(
    s: &mut NexusFuse,
    a: &str,
    b: &str,
    sent: &VectorClock,
    host: &VectorClock,
    copy: &str,
    now: u64,
    r: Result<(), Errno>,
    t: &mut InodeTable,
    ino: Option<u64>,
)
    requires
        old(s).inodes.wf(),
        old(s)@.table.next < u64::MAX,
        copy@.len() > 0,
        call_ensures(
            NexusFuse::rename_reply,
            (s, a, b, sent, Some(RenameResult::Conflict), host, copy, now),
            r,
        ),
        *old(t) == old(s).inodes,
        call_ensures(InodeTable::rename_path, (t, a, b), ino),
    ensures
        exists|n: u64| #[trigger] keeps(final(s)@.table, n, seq!['/'] + copy@),
        final(t)@.entries.len() < final(t)@.cap ==> forall|n: u64, p: Seq<char>| #[trigger]
            keeps(final(t)@, n, p) ==> keeps(final(s)@.table, n, p),
        final(s)@.table.dirs == old(s)@.table.dirs,
{
    lemma_lies_in(root_path(), copy@);
    let u = final(t)@;
    let p = child(root_path(), copy@);
    assert(p == seq!['/'] + copy@);
    old(s).inodes.law_table_is_sound();
    final(s).inodes.law_table_is_sound();
    final(t).law_table_is_sound();
    lemma_asked(u, p);
    let w = final(s)@.table;
    assert(w == asked_for(u, p));
    lemma_asked_is_kept(u, p);
    lemma_keeps(w, number_of(w, p)->0, p);
    if u.entries.len() < u.cap {
        lemma_asked_with_room(u, p);
    }
}

proof fn lemma_asked_is_kept(t: TableView, p: Seq<char>)
    ensures
        number_of(asked_for(t, p), p) is Some,
{
    let u = asked_for(t, p);
    crate::inode::lemma_path_at(t.entries, p);
    crate::inode::lemma_path_at(u.entries, p);
    if p != root_path() {
        assert(u.entries[u.entries.len() - 1].1 == p);
    }
}

/// The numbers by which the host tells the result of a rename.
pub proof fn law_numbers_of_rename_results(n: i32, m: i32, a: Option<RenameResult>, b: Option<RenameResult>)
    requires
        call_ensures(rename_result, (n,), a),
        call_ensures(rename_result, (m,), b),
    ensures
        a is Some <==> 0 <= n <= 3,
        a is Some && n != m ==> a != b,
        a == Some(RenameResult::Renamed) <==> n == 0,
        a == Some(RenameResult::Stale) <==> n == 1,
        a == Some(RenameResult::Conflict) <==> n == 2,
        a == Some(RenameResult::NotFound) <==> n == 3,
{
}

/// As many bytes are fetched as the host has of the file.
pub proof fn law_whole_file_is_fetched(status: &Option<FileEntry>, r: u64)
    requires
        call_ensures(load_size, (status,), r),
    ensures
        *status is None ==> r == 0,
        *status matches Some(e) ==> r == e.size_bytes,
{
}

/// A client starts with nothing open and with no number but that of the root, as the device that it is,
/// having seen what it kept.
pub proof fn law_client_starts_with_what_it_has_seen(
    id: String,
    clocks: ClockStore,
    r: NexusFuse,
    n: u64,
    p: Seq<char>,
)
    requires
        call_ensures(NexusFuse::new, (id, clocks), r),
    ensures
        r.inodes.wf(),
        keeps(r@.table, n, p) <==> n == 1 && p == "/"@,
        r@.table.cap == 10000,
        r@.table.next == 2,
        !r@.buffers.dom().contains(n),
        r@.device == id@,
        r@.clocks == clocks@,
{
}

} // verus!
