//! The mounted client: what the kernel is answered, what the host is asked, and what is kept of a
//! file while it is open for writing.
//!
//! An operation that needs the host comes in two parts. The first says what to ask the host, or
//! answers at once; the second takes the host's reply.
use std::collections::HashMap;
use vstd::prelude::*;
use vstd::string::*;

use crate::clock::{
    count, covers, joined, law_increment_dominates, law_merge_is_least_upper_bound, order, ticked,
    ClockOrder, Counts, VectorClock,
};
use crate::files::FileEntry;
use crate::host::{RenameResult, WriteResult};
use crate::inode::{
    asked_for, looked_up, number_of, number_when_asked, path_of, renamed, root_path, InodeTable,
    TableView, ROOT_INO,
};
use crate::keymap::Duplicate;
use crate::store::{clock_of, with_clock, ClockStore, Stamps};
use crate::text::same;

verus! {

broadcast use {vstd::std_specs::hash::group_hash_axioms, vstd::seq_lib::group_seq_properties};

/// Why the kernel is answered with an error.
#[derive(Clone, Copy, Debug, PartialEq, Eq, Structural)]
pub enum Errno {
    NotFound,
    Io,
    Invalid,
    IsDirectory,
    Stale,
}

/// What the kernel is told of a file or directory.
#[derive(Clone, Copy, Debug, PartialEq, Eq, Structural)]
pub struct Attr {
    pub ino: u64,
    pub size: u64,
    /// Blocks of 512 bytes.
    pub blocks: u64,
    pub is_dir: bool,
    pub perm: u16,
    pub nlink: u32,
    /// Seconds since the Unix epoch; the present where there are none.
    pub mtime: Option<u64>,
}

/// The permissions of a directory.
pub const DIR_PERM: u16 = 0o755;

/// The permissions of a file.
pub const FILE_PERM: u16 = 0o644;

/// The block size that the kernel is told.
pub const BLOCK_SIZE: u32 = 65536;

/// Seconds for which the kernel may keep what it is told.
pub const TTL_SECS: u64 = 2;

/// How many blocks of 512 bytes a size takes.
pub open spec fn blocks_for(size: u64) -> u64 {
    ((size + 511) / 512) as u64
}

fn blocks(size: u64) -> (r: u64)
    ensures
        r == blocks_for(size),
{
    let whole: u64 = size / 512;
    if size % 512 > 0 {
        whole + 1
    } else {
        whole
    }
}

/// What the kernel is told of a file that is open for writing.
pub open spec fn buffer_attributes(ino: u64, size: u64) -> Attr {
    Attr {
        ino,
        size,
        blocks: blocks_for(size),
        is_dir: false,
        perm: FILE_PERM,
        nlink: 1,
        mtime: None,
    }
}

/// What the kernel is told of the root directory.
pub open spec fn root_attributes() -> Attr {
    Attr {
        ino: ROOT_INO,
        size: 0,
        blocks: 0,
        is_dir: true,
        perm: DIR_PERM,
        nlink: 2,
        mtime: None,
    }
}

/// What the kernel is told of a file or directory of the host.
pub open spec fn entry_attributes(ino: u64, e: FileEntry) -> Attr {
    Attr {
        ino,
        size: e.size_bytes,
        blocks: blocks_for(e.size_bytes),
        is_dir: e.is_dir,
        perm: if e.is_dir {
            DIR_PERM
        } else {
            FILE_PERM
        },
        nlink: 1,
        mtime: Some(
            if e.modified_unix > 0 {
                e.modified_unix as u64
            } else {
                0
            },
        ),
    }
}

/// What the kernel is told of a file or directory of the host.
pub fn entry_to_attr(ino: u64, entry: &FileEntry) -> (r: Attr)
    ensures
        r == entry_attributes(ino, *entry),
{
    let seconds: u64 = if entry.modified_unix > 0 {
        entry.modified_unix as u64
    } else {
        0
    };
    Attr {
        ino,
        size: entry.size_bytes,
        blocks: blocks(entry.size_bytes),
        is_dir: entry.is_dir,
        perm: if entry.is_dir {
            DIR_PERM
        } else {
            FILE_PERM
        },
        nlink: 1,
        mtime: Some(seconds),
    }
}

/// The path of `name` in the directory `parent`.
pub open spec fn child(parent: Seq<char>, name: Seq<char>) -> Seq<char> {
    if parent == root_path() {
        "/"@ + name
    } else {
        parent + "/"@ + name
    }
}

/// The path of `name` in the directory `parent`.
pub fn child_path(parent: &str, name: &str) -> (r: String)
    ensures
        r@ == child(parent@, name@),
{
    let mut r: String = if same(parent, "/") {
        String::new()
    } else {
        parent.to_owned()
    };
    r.append("/");
    r.append(name);
    assert(Seq::<char>::empty() + "/"@ =~= "/"@);
    r
}

/// The content of a file that is open for writing, as contracts speak of it.
#[verifier::ext_equal]
pub struct BufView {
    pub data: Seq<u8>,
    pub dirty: bool,
    pub loaded: bool,
}

/// The content of a file that is open for writing.
#[derive(Debug)]
pub struct FileBuf {
    pub data: Vec<u8>,
    /// Whether there is something that the host has not been sent.
    pub dirty: bool,
    /// Whether the content that the host has was taken over.
    pub loaded: bool,
}

impl View for FileBuf {
    type V = BufView;

    open spec fn view(&self) -> BufView {
        BufView { data: self.data@, dirty: self.dirty, loaded: self.loaded }
    }
}

/// A new, empty file: it is sent to the host even if nothing is written.
pub open spec fn fresh() -> BufView {
    BufView { data: Seq::empty(), dirty: true, loaded: true }
}

fn fresh_buf() -> (r: FileBuf)
    ensures
        r@ == fresh(),
{
    let r = FileBuf { data: Vec::new(), dirty: true, loaded: true };
    assert(r@ =~= fresh());
    r
}

/// `content` with `data` written over it from `off`, with zeros in what lies between.
pub open spec fn overwritten(content: Seq<u8>, off: int, data: Seq<u8>) -> Seq<u8> {
    Seq::new(
        if content.len() < off + data.len() {
            (off + data.len()) as nat
        } else {
            content.len()
        },
        |i: int|
            if off <= i < off + data.len() {
                data[i - off]
            } else if i < content.len() {
                content[i]
            } else {
                0u8
            },
    )
}

/// `content` cut or filled up with zeros to `size` bytes.
pub open spec fn resized(content: Seq<u8>, size: nat) -> Seq<u8> {
    Seq::new(
        size,
        |i: int|
            if i < content.len() {
                content[i]
            } else {
                0u8
            },
    )
}

fn resize_bytes(data: &mut Vec<u8>, size: usize)
    ensures
        final(data)@ == resized(old(data)@, size as nat),
{
    let ghost before = data@;
    if size <= data.len() {
        data.truncate(size);
        assert(data@ =~= resized(before, size as nat));
    } else {
        while data.len() < size
            invariant
                before.len() <= data@.len() <= size,
                data@ == resized(before, data@.len()),
            decreases size - data@.len(),
        {
            let ghost was = data@;
            data.push(0);
            assert(data@ =~= resized(before, was.len() + 1));
        }
    }
}

/// Writes `data` over the content from `off`.
fn write_bytes(content: &mut Vec<u8>, off: usize, data: &[u8])
    requires
        off + data@.len() <= usize::MAX,
    ensures
        final(content)@ == overwritten(old(content)@, off as int, data@),
{
    let ghost before = content@;
    let end = off + data.len();
    if content.len() < end {
        resize_bytes(content, end);
    }
    let ghost wide = content@;
    let mut i: usize = 0;
    while i < data.len()
        invariant
            i <= data@.len(),
            off + data@.len() == end,
            end <= wide.len(),
            content@.len() == wide.len(),
            forall|j: int|
                0 <= j < wide.len() ==> #[trigger] content@[j] == (if off <= j < off + i {
                    data@[j - off]
                } else {
                    wide[j]
                }),
        decreases data@.len() - i,
    {
        content.set(off + i, data[i]);
        i = i + 1;
    }
    assert(content@ =~= overwritten(before, off as int, data@));
}

/// The client, as contracts speak of it.
#[verifier::ext_equal]
pub struct FuseView {
    pub table: TableView,
    pub buffers: Map<u64, BufView>,
    pub device: Seq<char>,
    pub clocks: Stamps,
}

/// The client: its inode numbers, the files that are open for writing, and what it has seen of each
/// path.
pub struct NexusFuse {
    pub inodes: InodeTable,
    pub write_buffers: HashMap<u64, FileBuf>,
    pub device_id: String,
    pub client_clocks: ClockStore,
}

impl View for NexusFuse {
    type V = FuseView;

    open spec fn view(&self) -> FuseView {
        FuseView {
            table: self.inodes@,
            buffers: self.write_buffers@.map_values(|b: FileBuf| b@),
            device: self.device_id@,
            clocks: self.client_clocks@,
        }
    }
}

/// What the kernel is told of a file that is open for writing, if it is.
pub open spec fn buffered(s: FuseView, ino: u64) -> Option<Attr> {
    if s.buffers.dom().contains(ino) {
        Some(buffer_attributes(ino, s.buffers[ino].data.len() as u64))
    } else {
        None
    }
}

/// Whether a file is open for writing and what the host has of it was taken over.
pub open spec fn is_loaded(s: FuseView, ino: u64) -> bool {
    s.buffers.dom().contains(ino) && s.buffers[ino].loaded
}

/// What comes first when the kernel asks for attributes.
#[derive(Debug)]
pub enum AttrStep {
    Fail(Errno),
    Known(Attr),
    /// The host is asked for the status of the path.
    Ask(String),
}

/// What comes first when a file is written to or cut.
#[derive(Debug)]
pub enum LoadStep {
    Fail(Errno),
    /// The host is asked for the content of the path.
    Load(String),
    Ready,
}

/// An item of a directory as the kernel is told of it.
#[derive(Debug)]
pub struct DirItem {
    pub ino: u64,
    /// Where reading the directory goes on after this item.
    pub next_offset: i64,
    pub is_dir: bool,
    pub name: String,
}

/// An item of a directory, as contracts speak of it.
pub struct ItemView {
    pub ino: u64,
    pub is_dir: bool,
    pub name: Seq<char>,
}

/// What a directory's children are told as, and the table once each has a number.
pub open spec fn children(t: TableView, path: Seq<char>, entries: Seq<FileEntry>) -> (
    TableView,
    Seq<ItemView>,
)
    decreases entries.len(),
{
    if entries.len() == 0 {
        (t, Seq::empty())
    } else {
        let (before, items) = children(t, path, entries.drop_last());
        let e = entries.last();
        let p = child(path, e.name@);
        (
            asked_for(before, p),
            items.push(
                ItemView { ino: number_when_asked(before, p), is_dir: e.is_dir, name: e.name@ },
            ),
        )
    }
}

/// All items of a directory: itself, what stands for its parent, and its children.
pub open spec fn all_items(t: TableView, ino: u64, path: Seq<char>, entries: Seq<FileEntry>) -> Seq<
    ItemView,
> {
    seq![
        ItemView { ino, is_dir: true, name: "."@ },
        ItemView { ino, is_dir: true, name: ".."@ },
    ] + children(t, path, entries).1
}

/// Whether `items` are those of `all` from `offset` on.
pub open spec fn items_from(items: Seq<DirItem>, all: Seq<ItemView>, offset: i64) -> bool {
    &&& items.len() == (if 0 <= offset <= all.len() {
        all.len() - offset
    } else {
        0
    })
    &&& forall|i: int|
        0 <= i < items.len() ==> {
            let item = #[trigger] items[i];
            let whole = all[offset + i];
            item.ino == whole.ino && item.is_dir == whole.is_dir && item.name@ == whole.name
                && item.next_offset == offset + i + 1
        }
}

/// The part of the flags of an open that says how the file is accessed.
pub const O_ACCMODE: i32 = 3;

/// Reading only.
pub const O_RDONLY: i32 = 0;

/// Reading and writing.
pub const O_RDWR: i32 = 2;

/// Whether a file is opened to be read, so that what the host has seen of it is taken over.
pub open spec fn read_intent(flags: i32) -> bool {
    (flags & O_ACCMODE) == O_RDONLY || (flags & O_ACCMODE) == O_RDWR
}

/// What the client sends with an edit of `path`: what it has seen of it, and the edit.
pub open spec fn edit_clock(s: FuseView, path: Seq<char>) -> Counts {
    ticked(clock_of(s.clocks, path), s.device)
}

/// The client after the host has replied to what was written back with `sent`.
pub open spec fn flushed(
    s: FuseView,
    ino: u64,
    path: Seq<char>,
    sent: Counts,
    host_clock: Counts,
    now: u64,
) -> FuseView {
    FuseView {
        clocks: with_clock(s.clocks, path, joined(sent, host_clock), now),
        buffers: if s.buffers.dom().contains(ino) {
            s.buffers.insert(ino, BufView { dirty: false, ..s.buffers[ino] })
        } else {
            s.buffers
        },
        ..s
    }
}

/// Whether the client can count one more edit of `path`.
pub open spec fn countable(s: FuseView, path: Seq<char>) -> bool {
    count(clock_of(s.clocks, path), s.device) < u64::MAX
}

/// The table after a rename with this result, where `conflict_path` is the path of a copy relative
/// to the root: the copy of a conflict was asked for, if one was kept.
pub open spec fn with_copy(t: TableView, result: Option<RenameResult>, conflict_path: Seq<char>) -> TableView {
    if result == Some(RenameResult::Conflict) && conflict_path.len() > 0 {
        asked_for(t, child(root_path(), conflict_path))
    } else {
        t
    }
}

/// The result of a rename that stands behind a number, if one does.
pub fn rename_result(n: i32) -> (r: Option<RenameResult>)
    ensures
        r == (if n == 0 {
            Some(RenameResult::Renamed)
        } else if n == 1 {
            Some(RenameResult::Stale)
        } else if n == 2 {
            Some(RenameResult::Conflict)
        } else if n == 3 {
            Some(RenameResult::NotFound)
        } else {
            None
        }),
{
    match n {
        0 => Some(RenameResult::Renamed),
        1 => Some(RenameResult::Stale),
        2 => Some(RenameResult::Conflict),
        3 => Some(RenameResult::NotFound),
        _ => None,
    }
}

/// What the kernel is told where the host was asked for the status of a path: `reply` is nothing
/// where the host could not be asked.
pub fn attr_from_host(ino: u64, reply: Option<Option<FileEntry>>) -> (r: Result<Attr, Errno>)
    ensures
        r == (match reply {
            Some(Some(e)) => Ok::<Attr, Errno>(entry_attributes(ino, e)),
            Some(None) => Err(Errno::NotFound),
            None => Err(Errno::Io),
        }),
{
    match reply {
        Some(Some(e)) => Ok(entry_to_attr(ino, &e)),
        Some(None) => Err(Errno::NotFound),
        None => Err(Errno::Io),
    }
}

/// How many bytes of a file are fetched from the host: none where it has no such file.
pub fn load_size(status: &Option<FileEntry>) -> (r: u64)
    ensures
        r == (match status {
            Some(e) => e.size_bytes,
            None => 0,
        }),
{
    match status {
        Some(e) => e.size_bytes,
        None => 0,
    }
}

impl NexusFuse {
    /// The client of a device that has opened nothing yet.
    pub fn new(device_id: String, client_clocks: ClockStore) -> (r: NexusFuse)
        ensures
            r.inodes.wf(),
            r@ == (FuseView {
                table: crate::inode::empty_table(crate::inode::DEFAULT_INODE_CAP as nat),
                buffers: Map::empty(),
                device: device_id@,
                clocks: client_clocks@,
            }),
    {
        let r = NexusFuse {
            inodes: InodeTable::new(),
            write_buffers: HashMap::new(),
            device_id,
            client_clocks,
        };
        assert(r@.buffers =~= Map::empty());
        r
    }

    /// What the kernel is told of a file that is open for writing, if it is.
    pub fn buffer_attr(&self, ino: u64) -> (r: Option<Attr>)
        ensures
            r == buffered(self@, ino),
    {
        match self.write_buffers.get(&ino) {
            Some(b) => {
                let size = b.data.len() as u64;
                assert(b@ == self@.buffers[ino]);
                Some(
                    Attr {
                        ino,
                        size,
                        blocks: blocks(size),
                        is_dir: false,
                        perm: FILE_PERM,
                        nlink: 1,
                        mtime: None,
                    },
                )
            },
            None => None,
        }
    }

    /// The kernel looks for `name` in a directory. A file that is open for writing need not be
    /// known to the host yet.
    pub fn lookup(&mut self, parent: u64, name: &str) -> (r: AttrStep)
        requires
            old(self).inodes.wf(),
        ensures
            final(self).inodes.wf(),
            final(self)@ == (FuseView { table: looked_up(old(self)@.table, parent), ..old(self)@ }),
            match path_of(old(self)@.table, parent) {
                None => r matches AttrStep::Fail(e) && e == Errno::NotFound,
                Some(dir) => {
                    let path = child(dir, name@);
                    match number_of(final(self)@.table, path) {
                        Some(ino) => match buffered(old(self)@, ino) {
                            Some(a) => r matches AttrStep::Known(b) && a == b,
                            None => r matches AttrStep::Ask(p) && p@ == path,
                        },
                        None => r matches AttrStep::Ask(p) && p@ == path,
                    }
                },
            },
    {
        let dir = match self.inodes.path_for_ino(parent) {
            Some(p) => p,
            None => {
                return AttrStep::Fail(Errno::NotFound);
            },
        };
        let path = child_path(dir.as_str(), name);
        if let Some(ino) = self.inodes.peek_ino(path.as_str()) {
            if let Some(attr) = self.buffer_attr(ino) {
                return AttrStep::Known(attr);
            }
        }
        AttrStep::Ask(path)
    }

    /// The host has replied to the lookup of `path`; nothing where it could not be asked. What it
    /// has is given a number, and a directory is remembered as one.
    pub fn lookup_reply(&mut self, path: &str, reply: Option<Option<FileEntry>>) -> (r: Result<
        Attr,
        Errno,
    >)
        requires
            old(self).inodes.wf(),
            old(self)@.table.next < u64::MAX,
        ensures
            final(self).inodes.wf(),
            match reply {
                Some(Some(e)) => {
                    let t = if e.is_dir {
                        TableView {
                            dirs: old(self)@.table.dirs.insert(path@),
                            ..old(self)@.table
                        }
                    } else {
                        old(self)@.table
                    };
                    &&& final(self)@ == (FuseView { table: asked_for(t, path@), ..old(self)@ })
                    &&& r == Ok::<Attr, Errno>(entry_attributes(number_when_asked(t, path@), e))
                },
                Some(None) => final(self)@ == old(self)@ && r == Err::<Attr, Errno>(
                    Errno::NotFound,
                ),
                None => final(self)@ == old(self)@ && r == Err::<Attr, Errno>(Errno::Io),
            },
    {
        match reply {
            Some(Some(e)) => {
                if e.is_dir {
                    self.inodes.track_dir(path);
                }
                let ino = self.inodes.ino_for_path(path);
                Ok(entry_to_attr(ino, &e))
            },
            Some(None) => Err(Errno::NotFound),
            None => Err(Errno::Io),
        }
    }

    /// The kernel asks for the attributes of a number. The host's reply is turned into attributes
    /// by [`attr_from_host`].
    pub fn getattr(&mut self, ino: u64) -> (r: AttrStep)
        requires
            old(self).inodes.wf(),
        ensures
            final(self).inodes.wf(),
            final(self)@ == (FuseView { table: looked_up(old(self)@.table, ino), ..old(self)@ }),
            match path_of(old(self)@.table, ino) {
                None => r matches AttrStep::Fail(e) && e == Errno::NotFound,
                Some(path) => if ino == ROOT_INO {
                    r matches AttrStep::Known(a) && a == root_attributes()
                } else {
                    match buffered(old(self)@, ino) {
                        Some(a) => r matches AttrStep::Known(b) && a == b,
                        None => r matches AttrStep::Ask(p) && p@ == path,
                    }
                },
            },
    {
        let path = match self.inodes.path_for_ino(ino) {
            Some(p) => p,
            None => {
                return AttrStep::Fail(Errno::NotFound);
            },
        };
        if ino == ROOT_INO {
            return AttrStep::Known(
                Attr {
                    ino: ROOT_INO,
                    size: 0,
                    blocks: 0,
                    is_dir: true,
                    perm: DIR_PERM,
                    nlink: 2,
                    mtime: None,
                },
            );
        }
        match self.buffer_attr(ino) {
            Some(a) => AttrStep::Known(a),
            None => AttrStep::Ask(path),
        }
    }

    /// The path that an operation on a number is about: reading a file or a directory, or sending
    /// it to the host.
    pub fn path_of_ino(&mut self, ino: u64) -> (r: Result<String, Errno>)
        requires
            old(self).inodes.wf(),
        ensures
            final(self).inodes.wf(),
            final(self)@ == (FuseView { table: looked_up(old(self)@.table, ino), ..old(self)@ }),
            match r {
                Ok(p) => path_of(old(self)@.table, ino) == Some(p@),
                Err(e) => path_of(old(self)@.table, ino) is None && e == Errno::NotFound,
            },
    {
        match self.inodes.path_for_ino(ino) {
            Some(p) => Ok(p),
            None => Err(Errno::NotFound),
        }
    }

    /// The host has listed the directory `path`. Every child is given a number; the kernel is told
    /// the items from `offset` on.
    pub fn readdir(&mut self, ino: u64, path: &str, entries: &Vec<FileEntry>, offset: i64) -> (r: Vec<
        DirItem,
    >)
        requires
            old(self).inodes.wf(),
            old(self)@.table.next + entries@.len() <= u64::MAX,
            entries@.len() + 3 <= i64::MAX,
        ensures
            final(self).inodes.wf(),
            final(self)@ == (FuseView {
                table: children(old(self)@.table, path@, entries@).0,
                ..old(self)@
            }),
            items_from(r@, all_items(old(self)@.table, ino, path@, entries@), offset),
    {
        let ghost t = self@.table;
        let mut all: Vec<(u64, bool, String)> = Vec::new();
        all.push((ino, true, ".".to_owned()));
        all.push((ino, true, "..".to_owned()));
        let mut i: usize = 0;
        while i < entries.len()
            invariant
                i <= entries@.len(),
                self.inodes.wf(),
                t.next + entries@.len() <= u64::MAX,
                self@.table.next <= t.next + i,
                self@ == (FuseView {
                    table: children(t, path@, entries@.take(i as int)).0,
                    ..old(self)@
                }),
                all@.len() == i + 2,
                children(t, path@, entries@.take(i as int)).1.len() == i,
                forall|j: int|
                    0 <= j < all@.len() ==> ({
                        let item = #[trigger] all@[j];
                        let whole = all_items(t, ino, path@, entries@.take(i as int))[j];
                        item.0 == whole.ino && item.1 == whole.is_dir && item.2@ == whole.name
                    }),
            decreases entries@.len() - i,
        {
            let ghost was = all@;
            let ghost before = entries@.take(i as int);
            let e = &entries[i];
            let p = child_path(path, e.name.as_str());
            let child_ino = self.inodes.ino_for_path(p.as_str());
            all.push((child_ino, e.is_dir, e.name.clone()));
            i = i + 1;
            proof {
                let now = entries@.take(i as int);
                assert(now.drop_last() =~= before);
                assert(now.last() == entries@[i - 1]);
                assert forall|j: int| 0 <= j < all@.len() implies ({
                    let item = #[trigger] all@[j];
                    let whole = all_items(t, ino, path@, now)[j];
                    item.0 == whole.ino && item.1 == whole.is_dir && item.2@ == whole.name
                }) by {
                    if j < was.len() {
                        assert(was[j] == all@[j]);
                        assert(all_items(t, ino, path@, now)[j] == all_items(
                            t,
                            ino,
                            path@,
                            before,
                        )[j]);
                    }
                }
            }
        }
        assert(entries@.take(i as int) =~= entries@);
        let ghost whole = all_items(t, ino, path@, entries@);
        let mut out: Vec<DirItem> = Vec::new();
        let n = all.len();
        if offset < 0 {
            return out;
        }
        let start: u64 = offset as u64;
        if start >= n as u64 {
            return out;
        }
        let mut j: usize = start as usize;
        while j < n
            invariant
                start <= j <= n,
                start == offset,
                n == all@.len(),
                n == whole.len(),
                n + 1 <= i64::MAX,
                out@.len() == j - start,
                forall|k: int|
                    0 <= k < n ==> ({
                        let item = #[trigger] all@[k];
                        item.0 == whole[k].ino && item.1 == whole[k].is_dir && item.2@
                            == whole[k].name
                    }),
                forall|k: int|
                    0 <= k < out@.len() ==> ({
                        let item = #[trigger] out@[k];
                        item.ino == whole[offset + k].ino && item.is_dir == whole[offset + k].is_dir
                            && item.name@ == whole[offset + k].name && item.next_offset == offset + k
                            + 1
                    }),
            decreases n - j,
        {
            assert(all@[j as int].0 == whole[j as int].ino);
            out.push(
                DirItem {
                    ino: all[j].0,
                    next_offset: (j + 1) as i64,
                    is_dir: all[j].1,
                    name: all[j].2.clone(),
                },
            );
            j = j + 1;
        }
        out
    }

    /// A file is opened. Where it is opened to be read, the host is asked what it has seen of the
    /// path; a file that is opened only to be written is not, so that overwriting what changed
    /// underneath is found out.
    pub fn open(&mut self, ino: u64, flags: i32) -> (r: Option<String>)
        requires
            old(self).inodes.wf(),
        ensures
            final(self).inodes.wf(),
            final(self)@ == (if read_intent(flags) {
                FuseView { table: looked_up(old(self)@.table, ino), ..old(self)@ }
            } else {
                old(self)@
            }),
            match r {
                Some(p) => read_intent(flags) && path_of(old(self)@.table, ino) == Some(p@),
                None => !read_intent(flags) || path_of(old(self)@.table, ino) is None,
            },
    {
        let access = flags & O_ACCMODE;
        if access == O_RDONLY || access == O_RDWR {
            self.inodes.path_for_ino(ino)
        } else {
            None
        }
    }

    /// The host has told what it has seen of a path that was opened to be read: the client has seen
    /// it too from now on.
    pub fn open_reply(&mut self, path: &str, host_clock: &VectorClock, now: u64)
        ensures
            final(self).inodes == old(self).inodes,
            final(self)@ == (FuseView {
                clocks: with_clock(
                    old(self)@.clocks,
                    path@,
                    joined(clock_of(old(self)@.clocks, path@), host_clock@),
                    now,
                ),
                ..old(self)@
            }),
    {
        let known = self.client_clocks.get(path);
        let merged = known.merge(host_clock);
        self.client_clocks.put_at(path, merged, now);
    }

    /// A file is made: it is open for writing, and empty.
    pub fn create(&mut self, parent: u64, name: &str) -> (r: Result<Attr, Errno>)
        requires
            old(self).inodes.wf(),
            old(self)@.table.next < u64::MAX,
        ensures
            final(self).inodes.wf(),
            match path_of(old(self)@.table, parent) {
                None => r == Err::<Attr, Errno>(Errno::NotFound) && final(self)@ == (FuseView {
                    table: looked_up(old(self)@.table, parent),
                    ..old(self)@
                }),
                Some(dir) => {
                    let t = looked_up(old(self)@.table, parent);
                    let path = child(dir, name@);
                    let ino = number_when_asked(t, path);
                    &&& final(self)@ == (FuseView {
                        table: asked_for(t, path),
                        buffers: old(self)@.buffers.insert(ino, fresh()),
                        ..old(self)@
                    })
                    &&& r == Ok::<Attr, Errno>(buffer_attributes(ino, 0))
                },
            },
    {
        let dir = match self.inodes.path_for_ino(parent) {
            Some(p) => p,
            None => {
                return Err(Errno::NotFound);
            },
        };
        let path = child_path(dir.as_str(), name);
        let ino = self.inodes.ino_for_path(path.as_str());
        self.write_buffers.insert(ino, fresh_buf());
        assert(self@.buffers =~= old(self)@.buffers.insert(ino, fresh()));
        Ok(
            Attr {
                ino,
                size: 0,
                blocks: blocks(0),
                is_dir: false,
                perm: FILE_PERM,
                nlink: 1,
                mtime: None,
            },
        )
    }

    /// A file is about to be written to: what the host has of it is taken over first, unless that
    /// has been done.
    pub fn prepare(&mut self, ino: u64) -> (r: LoadStep)
        requires
            old(self).inodes.wf(),
        ensures
            final(self).inodes.wf(),
            final(self)@ == (FuseView { table: looked_up(old(self)@.table, ino), ..old(self)@ }),
            match path_of(old(self)@.table, ino) {
                None => r matches LoadStep::Fail(e) && e == Errno::NotFound,
                Some(path) => if is_loaded(old(self)@, ino) {
                    r is Ready
                } else {
                    r matches LoadStep::Load(p) && p@ == path
                },
            },
    {
        let path = match self.inodes.path_for_ino(ino) {
            Some(p) => p,
            None => {
                return LoadStep::Fail(Errno::NotFound);
            },
        };
        let loaded = match self.write_buffers.get(&ino) {
            Some(b) => b.loaded,
            None => false,
        };
        if loaded {
            LoadStep::Ready
        } else {
            LoadStep::Load(path)
        }
    }

    /// Takes over the content that the host has of a file, unless that has been done.
    pub fn ensure_loaded(&mut self, ino: u64, data: Vec<u8>)
        ensures
            final(self).inodes == old(self).inodes,
            final(self)@ == (if is_loaded(old(self)@, ino) {
                old(self)@
            } else {
                FuseView {
                    buffers: old(self)@.buffers.insert(
                        ino,
                        BufView {
                            data: data@,
                            dirty: old(self)@.buffers.dom().contains(ino)
                                && old(self)@.buffers[ino].dirty,
                            loaded: true,
                        },
                    ),
                    ..old(self)@
                }
            }),
    {
        let (loaded, dirty) = match self.write_buffers.get(&ino) {
            Some(b) => (b.loaded, b.dirty),
            None => (false, false),
        };
        if !loaded {
            let b = FileBuf { data, dirty, loaded: true };
            self.write_buffers.insert(ino, b);
            assert(self@.buffers =~= old(self)@.buffers.insert(ino, b@));
        }
    }

    /// Writes into a file that is open for writing, from `offset` on; what lies between its end and
    /// `offset` is filled with zeros. Says how many bytes were written.
    pub fn write(&mut self, ino: u64, offset: i64, data: &[u8]) -> (r: u32)
        requires
            0 <= offset,
            offset + data@.len() <= isize::MAX,
        ensures
            final(self).inodes == old(self).inodes,
            final(self)@ == (FuseView {
                buffers: old(self)@.buffers.insert(
                    ino,
                    BufView {
                        data: overwritten(
                            if old(self)@.buffers.dom().contains(ino) {
                                old(self)@.buffers[ino].data
                            } else {
                                Seq::empty()
                            },
                            offset as int,
                            data@,
                        ),
                        dirty: true,
                        loaded: old(self)@.buffers.dom().contains(ino)
                            ==> old(self)@.buffers[ino].loaded,
                    },
                ),
                ..old(self)@
            }),
            r == data@.len() as u32,
    {
        let mut b = match self.write_buffers.remove(&ino) {
            Some(b) => b,
            None => FileBuf { data: Vec::new(), dirty: false, loaded: true },
        };
        let off = offset as usize;
        write_bytes(&mut b.data, off, data);
        b.dirty = true;
        self.write_buffers.insert(ino, b);
        assert(self@.buffers =~= old(self)@.buffers.insert(ino, b@));
        #[verifier::truncate]
        (data.len() as u32)
    }

    /// A file is to be cut or filled up to `size`, if a size is given. Cutting it to nothing needs
    /// nothing of the host.
    pub fn setattr(&mut self, ino: u64, size: Option<u64>) -> (r: LoadStep)
        requires
            old(self).inodes.wf(),
        ensures
            final(self).inodes.wf(),
            ({
                let s = FuseView { table: looked_up(old(self)@.table, ino), ..old(self)@ };
                match path_of(old(self)@.table, ino) {
                    None => final(self)@ == s && (r matches LoadStep::Fail(e) && e
                        == Errno::NotFound),
                    Some(path) => match size {
                        None => final(self)@ == s && r is Ready,
                        Some(n) => if n == 0 {
                            &&& final(self)@ == (FuseView {
                                buffers: s.buffers.insert(ino, fresh()),
                                ..s
                            })
                            &&& r is Ready
                        } else {
                            &&& final(self)@ == s
                            &&& if is_loaded(s, ino) {
                                r is Ready
                            } else {
                                r matches LoadStep::Load(p) && p@ == path
                            }
                        },
                    },
                }
            }),
    {
        let path = match self.inodes.path_for_ino(ino) {
            Some(p) => p,
            None => {
                return LoadStep::Fail(Errno::NotFound);
            },
        };
        match size {
            None => LoadStep::Ready,
            Some(n) => {
                if n == 0 {
                    self.write_buffers.insert(ino, fresh_buf());
                    assert(self@.buffers =~= old(self)@.buffers.insert(ino, fresh()));
                    return LoadStep::Ready;
                }
                let loaded = match self.write_buffers.get(&ino) {
                    Some(b) => b.loaded,
                    None => false,
                };
                if loaded {
                    LoadStep::Ready
                } else {
                    LoadStep::Load(path)
                }
            },
        }
    }

    /// Cuts or fills up a file that is open for writing to a size that is not zero; a file that is
    /// not open is left alone.
    pub fn truncate(&mut self, ino: u64, size: u64)
        requires
            size <= isize::MAX,
        ensures
            final(self).inodes == old(self).inodes,
            final(self)@ == (if old(self)@.buffers.dom().contains(ino) {
                FuseView {
                    buffers: old(self)@.buffers.insert(
                        ino,
                        BufView {
                            data: resized(old(self)@.buffers[ino].data, size as nat),
                            dirty: true,
                            ..old(self)@.buffers[ino]
                        },
                    ),
                    ..old(self)@
                }
            } else {
                old(self)@
            }),
    {
        match self.write_buffers.remove(&ino) {
            Some(b) => {
                let mut b = b;
                resize_bytes(&mut b.data, size as usize);
                b.dirty = true;
                self.write_buffers.insert(ino, b);
                assert(self@.buffers =~= old(self)@.buffers.insert(ino, b@));
            },
            None => {
                assert(self@.buffers =~= old(self)@.buffers);
            },
        }
    }

    /// What is sent to the host when a file is written back: its content and the clock of the edit.
    /// Nothing where the host has it all.
    pub fn flush_buffer(&self, ino: u64, path: &str) -> (r: Option<(Vec<u8>, VectorClock)>)
        requires
            countable(self@, path@),
        ensures
            match r {
                Some((data, clock)) => {
                    &&& self@.buffers.dom().contains(ino)
                    &&& self@.buffers[ino].dirty
                    &&& data@ == self@.buffers[ino].data
                    &&& clock@ == edit_clock(self@, path@)
                },
                None => !self@.buffers.dom().contains(ino) || !self@.buffers[ino].dirty,
            },
    {
        match self.write_buffers.get(&ino) {
            Some(b) => {
                if !b.dirty {
                    return None;
                }
                let mut clock = self.client_clocks.get(path);
                clock.increment(self.device_id.as_str());
                Some((b.data.duplicate(), clock))
            },
            None => None,
        }
    }

    /// The host has replied to what was written back with `sent`: the client has now seen what the
    /// host has seen, and the host has it all. Says whether there was a conflict.
    pub fn flush_reply(
        &mut self,
        ino: u64,
        path: &str,
        sent: &VectorClock,
        result: WriteResult,
        host_clock: &VectorClock,
        now: u64,
    ) -> (r: bool)
        ensures
            final(self).inodes == old(self).inodes,
            final(self)@ == flushed(old(self)@, ino, path@, sent@, host_clock@, now),
            r == (result == WriteResult::Conflict),
    {
        let merged = sent.merge(host_clock);
        self.client_clocks.put_at(path, merged, now);
        match self.write_buffers.remove(&ino) {
            Some(b) => {
                let mut b = b;
                b.dirty = false;
                self.write_buffers.insert(ino, b);
                assert(self@.buffers =~= old(self)@.buffers.insert(ino, b@));
            },
            None => {
                assert(self@.buffers =~= old(self)@.buffers);
            },
        }
        match result {
            WriteResult::Conflict => true,
            _ => false,
        }
    }

    /// A file is closed for good: what was kept of it is dropped.
    pub fn release(&mut self, ino: u64)
        ensures
            final(self).inodes == old(self).inodes,
            final(self)@ == (FuseView { buffers: old(self)@.buffers.remove(ino), ..old(self)@ }),
    {
        self.write_buffers.remove(&ino);
        assert(self@.buffers =~= old(self)@.buffers.remove(ino));
    }

    /// A file is to be deleted: the path that the host is asked to delete, and the clock of the
    /// delete.
    pub fn unlink(&mut self, parent: u64, name: &str) -> (r: Result<(String, VectorClock), Errno>)
        requires
            old(self).inodes.wf(),
            path_of(old(self)@.table, parent) matches Some(dir) ==> countable(
                old(self)@,
                child(dir, name@),
            ),
        ensures
            final(self).inodes.wf(),
            final(self)@ == (FuseView { table: looked_up(old(self)@.table, parent), ..old(self)@ }),
            match (path_of(old(self)@.table, parent), r) {
                (None, Err(e)) => e == Errno::NotFound,
                (Some(dir), Ok((path, clock))) => path@ == child(dir, name@) && clock@ == edit_clock(
                    old(self)@,
                    child(dir, name@),
                ),
                _ => false,
            },
    {
        let dir = match self.inodes.path_for_ino(parent) {
            Some(p) => p,
            None => {
                return Err(Errno::NotFound);
            },
        };
        let path = child_path(dir.as_str(), name);
        let mut clock = self.client_clocks.get(path.as_str());
        clock.increment(self.device_id.as_str());
        Ok((path, clock))
    }

    /// The host has replied to a delete that was sent with `sent`, whatever it did: the client has
    /// now seen what the host has seen, and drops what it kept of the file.
    pub fn unlink_reply(
        &mut self,
        path: &str,
        sent: &VectorClock,
        host_clock: &VectorClock,
        now: u64,
    )
        requires
            old(self).inodes.wf(),
        ensures
            final(self).inodes == old(self).inodes,
            final(self)@ == (FuseView {
                clocks: with_clock(old(self)@.clocks, path@, joined(sent@, host_clock@), now),
                buffers: match number_of(old(self)@.table, path@) {
                    Some(ino) => old(self)@.buffers.remove(ino),
                    None => old(self)@.buffers,
                },
                ..old(self)@
            }),
    {
        let merged = sent.merge(host_clock);
        self.client_clocks.put_at(path, merged, now);
        if let Some(ino) = self.inodes.peek_ino(path) {
            self.write_buffers.remove(&ino);
            assert(self@.buffers =~= old(self)@.buffers.remove(ino));
        }
    }

    /// A file is to be renamed: the paths that the host is told, and the clock of the rename.
    /// Special ways of renaming are refused, and so is renaming what is known to be a directory.
    pub fn rename(&mut self, parent: u64, name: &str, newparent: u64, newname: &str, flags: u32) -> (r:
        Result<(String, String, VectorClock), Errno>)
        requires
            old(self).inodes.wf(),
            path_of(old(self)@.table, parent) matches Some(dir) ==> countable(
                old(self)@,
                child(dir, name@),
            ),
        ensures
            final(self).inodes.wf(),
            ({
                let t0 = old(self)@.table;
                let t1 = looked_up(t0, parent);
                let t2 = looked_up(t1, newparent);
                let s = old(self)@;
                if flags != 0 {
                    final(self)@ == s && (r matches Err(e) && e == Errno::Invalid)
                } else {
                    match (path_of(t0, parent), path_of(t1, newparent)) {
                        (None, _) => final(self)@ == (FuseView { table: t1, ..s }) && (r matches Err(
                            e,
                        ) && e == Errno::NotFound),
                        (Some(dir), None) => final(self)@ == (FuseView { table: t2, ..s }) && (
                        r matches Err(e) && e == Errno::NotFound),
                        (Some(dir), Some(newdir)) => final(self)@ == (FuseView { table: t2, ..s })
                            && if t2.dirs.contains(child(dir, name@)) {
                            r matches Err(e) && e == Errno::IsDirectory
                        } else {
                            r matches Ok((old_path, new_path, clock)) && old_path@ == child(
                                dir,
                                name@,
                            ) && new_path@ == child(newdir, newname@) && clock@ == edit_clock(
                                s,
                                child(dir, name@),
                            )
                        },
                    }
                }
            }),
    {
        if flags != 0 {
            return Err(Errno::Invalid);
        }
        let dir = match self.inodes.path_for_ino(parent) {
            Some(p) => p,
            None => {
                return Err(Errno::NotFound);
            },
        };
        let newdir = match self.inodes.path_for_ino(newparent) {
            Some(p) => p,
            None => {
                return Err(Errno::NotFound);
            },
        };
        let old_path = child_path(dir.as_str(), name);
        let new_path = child_path(newdir.as_str(), newname);
        if self.inodes.is_dir(old_path.as_str()) {
            return Err(Errno::IsDirectory);
        }
        let mut clock = self.client_clocks.get(old_path.as_str());
        clock.increment(self.device_id.as_str());
        Ok((old_path, new_path, clock))
    }

    /// The host has replied to a rename that was sent with `sent`; a result that is not known is an
    /// error. What was renamed keeps its number, and what the client has seen of it moves along; the
    /// copy that a conflict has left at `conflict_path`, relative to the root, gets a number of its
    /// own. A rename that came too late is an error too, but the client has now seen what the host
    /// has seen.
    pub fn rename_reply(
        &mut self,
        old_path: &str,
        new_path: &str,
        sent: &VectorClock,
        result: Option<RenameResult>,
        host_clock: &VectorClock,
        conflict_path: &str,
        now: u64,
    ) -> (r: Result<(), Errno>)
        requires
            old(self).inodes.wf(),
            result == Some(RenameResult::Conflict) && conflict_path@.len() > 0 ==> old(
                self,
            )@.table.next < u64::MAX,
        ensures
            final(self).inodes.wf(),
            ({
                let s = old(self)@;
                let merged = joined(sent@, host_clock@);
                match result {
                    Some(RenameResult::Renamed) | Some(RenameResult::Conflict) => {
                        &&& r is Ok
                        &&& final(self)@ == (FuseView {
                            table: with_copy(
                                renamed(s.table, old_path@, new_path@),
                                result,
                                conflict_path@,
                            ),
                            clocks: with_clock(s.clocks.remove(old_path@), new_path@, merged, now),
                            ..s
                        })
                    },
                    Some(RenameResult::Stale) => {
                        &&& r matches Err(e) && e == Errno::Stale
                        &&& final(self)@ == (FuseView {
                            clocks: with_clock(s.clocks, old_path@, merged, now),
                            ..s
                        })
                    },
                    Some(RenameResult::NotFound) => final(self)@ == s && (r matches Err(e) && e
                        == Errno::NotFound),
                    None => final(self)@ == s && (r matches Err(e) && e == Errno::Io),
                }
            }),
    {
        let merged = sent.merge(host_clock);
        match result {
            Some(RenameResult::Renamed) | Some(RenameResult::Conflict) => {
                self.inodes.rename_path(old_path, new_path);
                if result == Some(RenameResult::Conflict) && !conflict_path.is_empty() {
                    let copy = child_path("/", conflict_path);
                    self.inodes.ino_for_path(copy.as_str());
                }
                self.client_clocks.remove(old_path);
                self.client_clocks.put_at(new_path, merged, now);
                Ok(())
            },
            Some(RenameResult::Stale) => {
                self.client_clocks.put_at(old_path, merged, now);
                Err(Errno::Stale)
            },
            Some(RenameResult::NotFound) => Err(Errno::NotFound),
            None => Err(Errno::Io),
        }
    }
}

/// Reading back what was written gives what was written, and everything else is as it was.
pub proof fn law_written_is_read_back(content: Seq<u8>, off: int, data: Seq<u8>)
    requires
        0 <= off,
    ensures
        overwritten(content, off, data).subrange(off, off + data.len()) == data,
        forall|i: int|
            0 <= i < content.len() && !(off <= i < off + data.len()) ==> #[trigger] overwritten(
                content,
                off,
                data,
            )[i] == content[i],
        overwritten(content, off, data).len() >= content.len(),
{
    assert(overwritten(content, off, data).subrange(off, off + data.len()) =~= data);
}

/// Writing the pieces of a content one after the other, each where the one before ended, makes the
/// content.
pub proof fn law_pieces_make_the_content(a: Seq<u8>, b: Seq<u8>)
    ensures
        overwritten(Seq::empty(), 0, a) == a,
        overwritten(a, a.len() as int, b) == a + b,
{
    assert(overwritten(Seq::empty(), 0, a) =~= a);
    assert(overwritten(a, a.len() as int, b) =~= a + b);
}

/// Who reads a file before editing it does not conflict with the version that was read: the clock
/// that is sent with the edit dominates what the host had seen.
pub proof fn law_read_then_edit_dominates(
    s: FuseView,
    path: Seq<char>,
    host_clock: Counts,
    now: u64,
)
    requires
        count(joined(clock_of(s.clocks, path), host_clock), s.device) < u64::MAX,
    ensures
        order(
            edit_clock(
                FuseView {
                    clocks: with_clock(
                        s.clocks,
                        path,
                        joined(clock_of(s.clocks, path), host_clock),
                        now,
                    ),
                    ..s
                },
                path,
            ),
            host_clock,
        ) == ClockOrder::Dominates,
{
    let known = joined(clock_of(s.clocks, path), host_clock);
    law_merge_is_least_upper_bound(clock_of(s.clocks, path), host_clock, host_clock);
    law_increment_dominates(known, s.device);
    let sent = ticked(known, s.device);
    assert forall|d: Seq<char>| #[trigger] count(sent, d) >= count(host_clock, d) by {
        assert(count(sent, d) >= count(known, d));
        assert(count(known, d) >= count(host_clock, d));
    }
    assert(count(sent, s.device) > count(host_clock, s.device)) by {
        assert(count(known, s.device) >= count(host_clock, s.device));
    }
    assert(!covers(host_clock, sent)) by {
        assert(count(host_clock, s.device) < count(sent, s.device));
    }
}

/// Who edits a file without having read it conflicts with what another device wrote meanwhile: the
/// clock that is sent does not cover a write of another device that the client has not seen.
pub proof fn law_blind_edit_is_found_out(
    s: FuseView,
    path: Seq<char>,
    host_clock: Counts,
    other: Seq<char>,
)
    requires
        other != s.device,
        countable(s, path),
        count(host_clock, other) > count(clock_of(s.clocks, path), other),
        count(host_clock, s.device) <= count(clock_of(s.clocks, path), s.device),
    ensures
        order(edit_clock(s, path), host_clock) == ClockOrder::Concurrent,
{
    let known = clock_of(s.clocks, path);
    law_increment_dominates(known, s.device);
    let sent = ticked(known, s.device);
    assert(count(sent, other) == count(known, other));
    assert(count(sent, s.device) > count(host_clock, s.device));
}

/// What was written back is not sent again, so that an edit is counted once; and the next edit
/// builds on the answer: the clock that is sent with it dominates what the host had seen.
pub proof fn law_written_back_once(
    s: FuseView,
    ino: u64,
    path: Seq<char>,
    sent: Counts,
    host_clock: Counts,
    now: u64,
)
    requires
        count(joined(sent, host_clock), s.device) < u64::MAX,
    ensures
        ({
            let after = flushed(s, ino, path, sent, host_clock, now);
            &&& !(after.buffers.dom().contains(ino) && after.buffers[ino].dirty)
            &&& order(edit_clock(after, path), host_clock) == ClockOrder::Dominates
        }),
{
    let after = flushed(s, ino, path, sent, host_clock, now);
    let before = FuseView { clocks: with_clock(s.clocks, path, sent, now), ..s };
    law_read_then_edit_dominates(before, path, host_clock, now);
    let a = with_clock(before.clocks, path, joined(sent, host_clock), now);
    assert(clock_of(a, path) == clock_of(after.clocks, path));
}

} // verus!
