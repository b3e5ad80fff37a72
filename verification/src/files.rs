//! Around the served files: which located paths lie inside the served root, how a file is read in
//! pieces, what a status request is answered, and which temporary files are to be cleaned up.
use vstd::prelude::*;
use vstd::string::*;

use crate::clock::VectorClock;
use crate::host::key_of;
use crate::status::{Code, Status, StatusView};
use crate::store::{clock_of, ClockStore};

verus! {

/// Whether two byte strings are the same.
pub fn same_bytes(a: &[u8], b: &[u8]) -> (r: bool)
    ensures
        r == (a@ == b@),
{
    if a.len() != b.len() {
        return false;
    }
    let mut i: usize = 0;
    while i < a.len()
        invariant
            i <= a@.len(),
            a@.len() == b@.len(),
            forall|j: int| 0 <= j < i ==> a@[j] == b@[j],
        decreases a@.len() - i,
    {
        if a[i] != b[i] {
            return false;
        }
        i = i + 1;
    }
    assert(a@ =~= b@);
    true
}

/// The components of a path.
pub open spec fn components(path: Seq<Vec<u8>>) -> Seq<Seq<u8>> {
    path.map_values(|c: Vec<u8>| c@)
}

/// Whether a path with the components `path` is `root` or lies below it: whole components count,
/// so that a sibling whose name merely begins like the root does not.
pub open spec fn within(root: Seq<Seq<u8>>, path: Seq<Seq<u8>>) -> bool {
    root.len() <= path.len() && path.take(root.len() as int) == root
}

/// Whether a path lies inside the served root.
pub fn starts_with(path: &Vec<Vec<u8>>, root: &Vec<Vec<u8>>) -> (r: bool)
    ensures
        r == within(components(root@), components(path@)),
{
    if root.len() > path.len() {
        return false;
    }
    let ghost rc = components(root@);
    let ghost pc = components(path@);
    let mut i: usize = 0;
    while i < root.len()
        invariant
            i <= root@.len(),
            root@.len() <= path@.len(),
            rc == components(root@),
            pc == components(path@),
            forall|j: int| 0 <= j < i ==> rc[j] == pc[j],
        decreases root@.len() - i,
    {
        if !same_bytes(root[i].as_slice(), path[i].as_slice()) {
            assert(pc.take(rc.len() as int)[i as int] != rc[i as int]);
            return false;
        }
        assert(rc[i as int] == pc[i as int]);
        i = i + 1;
    }
    assert(pc.take(rc.len() as int) =~= rc);
    true
}

/// What comes of locating an existing file: `canonical` is the path with every link and `..`
/// resolved, if there is one.
pub fn resolve(root: &Vec<Vec<u8>>, canonical: Option<&Vec<Vec<u8>>>) -> (r: Result<(), Status>)
    ensures
        match (canonical, r) {
            (None, Err(e)) => e@ == (StatusView {
                code: Code::NotFound,
                message: "path not found"@,
            }),
            (None, Ok(_)) => false,
            (Some(p), Ok(_)) => within(components(root@), components(p@)),
            (Some(p), Err(e)) => !within(components(root@), components(p@)) && e@ == (StatusView {
                code: Code::PermissionDenied,
                message: "path escapes served root"@,
            }),
        },
{
    match canonical {
        None => Err(Status::new(Code::NotFound, "path not found")),
        Some(p) => if starts_with(p, root) {
            Ok(())
        } else {
            Err(Status::new(Code::PermissionDenied, "path escapes served root"))
        },
    }
}

/// What comes of locating a path that is to be written and may not exist yet: its parent must
/// exist inside the root, and it must end in a name. `has_parent` and `has_name` say whether the
/// path has them, `parent` is the parent with every link and `..` resolved.
pub fn resolve_for_write(
    root: &Vec<Vec<u8>>,
    has_parent: bool,
    parent: Option<&Vec<Vec<u8>>>,
    has_name: bool,
) -> (r: Result<(), Status>)
    ensures
        ({
            let outcome: Option<(Code, Seq<char>)> = if !has_parent {
                Some((Code::InvalidArgument, "path has no parent"@))
            } else if parent is None {
                Some((Code::NotFound, "parent directory not found"@))
            } else if !within(components(root@), components(parent->0@)) {
                Some((Code::PermissionDenied, "path escapes served root"@))
            } else if !has_name {
                Some((Code::InvalidArgument, "path has no file name"@))
            } else {
                None
            };
            match r {
                Ok(_) => outcome is None,
                Err(e) => outcome == Some((e.code, e.message@)),
            }
        }),
{
    if !has_parent {
        return Err(Status::new(Code::InvalidArgument, "path has no parent"));
    }
    match parent {
        None => Err(Status::new(Code::NotFound, "parent directory not found")),
        Some(p) => if !starts_with(p, root) {
            Err(Status::new(Code::PermissionDenied, "path escapes served root"))
        } else if !has_name {
            Err(Status::new(Code::InvalidArgument, "path has no file name"))
        } else {
            Ok(())
        },
    }
}

/// A path below the root stays below it whatever is appended, and a located path that is accepted
/// begins with every component of the root.
pub proof fn law_within_is_closed_below(root: Seq<Seq<u8>>, path: Seq<Seq<u8>>, rest: Seq<Seq<u8>>)
    requires
        within(root, path),
    ensures
        within(root, path + rest),
{
    assert((path + rest).take(root.len() as int) =~= path.take(root.len() as int));
}

/// The most bytes that one piece of a file carries.
pub const CHUNK_SIZE: usize = 65536;

/// The most bytes that one piece brings where `left` are still to be read.
pub open spec fn wanted(left: nat) -> nat {
    if left <= CHUNK_SIZE {
        left
    } else {
        CHUNK_SIZE as nat
    }
}

/// How many bytes to ask for next, where `left` are still to be read.
pub fn read_want(left: u64) -> (n: usize)
    ensures
        n == wanted(left as nat),
{
    if left <= CHUNK_SIZE as u64 {
        left as usize
    } else {
        CHUNK_SIZE
    }
}

/// How many bytes are left after `n` came where `left` were; none where reading is over, because
/// the file ended or all have come.
pub open spec fn left_after(left: nat, n: nat) -> Option<nat> {
    if n == 0 || n >= left {
        None
    } else {
        Some((left - n) as nat)
    }
}

/// How many bytes are left after `n` came where `left` were; none where reading is over, because
/// the file ended or all have come.
pub fn after_read(left: u64, n: usize) -> (r: Option<u64>)
    requires
        n <= left,
    ensures
        left_after(left as nat, n as nat) == (match r {
            Some(rest) => Some(rest as nat),
            None => None,
        }),
{
    if n == 0 {
        return None;
    }
    let rest = left - n as u64;
    if rest == 0 {
        None
    } else {
        Some(rest)
    }
}

/// The bytes that reading `length` from `offset` of `content` brings.
pub open spec fn read_range(content: Seq<u8>, offset: nat, length: nat) -> Seq<u8> {
    if offset >= content.len() {
        Seq::empty()
    } else if offset + length <= content.len() {
        content.subrange(offset as int, (offset + length) as int)
    } else {
        content.skip(offset as int)
    }
}

/// Whether `pieces` are what reading `left` bytes from `offset` of `content` brings, one after the
/// other: each is what the file has there and no longer than was asked for, and reading goes on
/// until all have come or the file ends.
pub open spec fn is_read_in_pieces(
    content: Seq<u8>,
    offset: nat,
    left: nat,
    pieces: Seq<Seq<u8>>,
) -> bool
    decreases pieces.len(),
{
    if pieces.len() == 0 {
        left == 0 || offset >= content.len()
    } else {
        let n = pieces[0].len();
        &&& 0 < n <= wanted(left)
        &&& offset + n <= content.len()
        &&& pieces[0] == content.subrange(offset as int, (offset + n) as int)
        &&& is_read_in_pieces(content, offset + n, (left - n) as nat, pieces.drop_first())
    }
}

/// Pieces put together.
pub open spec fn put_together(pieces: Seq<Seq<u8>>) -> Seq<u8>
    decreases pieces.len(),
{
    if pieces.len() == 0 {
        Seq::empty()
    } else {
        pieces[0] + put_together(pieces.drop_first())
    }
}

/// Reading in pieces brings the whole range, however long the pieces come out: put together they
/// are the bytes that the file has there, up to its end.
pub proof fn law_pieces_make_the_range(
    content: Seq<u8>,
    offset: nat,
    length: nat,
    pieces: Seq<Seq<u8>>,
)
    requires
        is_read_in_pieces(content, offset, length, pieces),
    ensures
        put_together(pieces) == read_range(content, offset, length),
    decreases pieces.len(),
{
    if pieces.len() == 0 {
        assert(read_range(content, offset, length) =~= Seq::<u8>::empty());
    } else {
        let n = pieces[0].len();
        let rest = (length - n) as nat;
        law_pieces_make_the_range(content, offset + n, rest, pieces.drop_first());
        assert(read_range(content, offset, length) =~= pieces[0] + read_range(
            content,
            offset + n,
            rest,
        ));
    }
}

/// Whether a file system may bring `piece` where `want` bytes were asked for at `offset` of
/// `content`: what the file has there, no longer than was asked for, and nothing only at its end.
pub open spec fn may_bring(content: Seq<u8>, offset: nat, want: nat, piece: Seq<u8>) -> bool {
    if piece.len() == 0 {
        want == 0 || offset >= content.len()
    } else {
        &&& piece.len() <= want
        &&& offset + piece.len() <= content.len()
        &&& piece == content.subrange(offset as int, (offset + piece.len()) as int)
    }
}

/// Whether `reads` are what a loop gets that reads `left` bytes from `offset` of `content`: as long
/// as any are left it asks for as many as are wanted, and goes on with what is then left.
pub open spec fn is_loop(content: Seq<u8>, offset: nat, left: nat, reads: Seq<Seq<u8>>) -> bool
    decreases reads.len(),
{
    if left == 0 {
        reads.len() == 0
    } else {
        &&& reads.len() > 0
        &&& may_bring(content, offset, wanted(left), reads[0])
        &&& match left_after(left, reads[0].len()) {
            Some(rest) => is_loop(content, offset + reads[0].len(), rest, reads.drop_first()),
            None => reads.len() == 1,
        }
    }
}

/// The pieces that a loop hands on: what it got, but for the read that found the end of the file.
pub open spec fn handed_on(reads: Seq<Seq<u8>>) -> Seq<Seq<u8>> {
    if reads.len() > 0 && reads.last().len() == 0 {
        reads.drop_last()
    } else {
        reads
    }
}

/// A loop that asks for what is wanted and goes by what is left reads in pieces. Put together, what
/// it hands on is the whole range.
pub proof fn law_loop_reads_in_pieces(
    content: Seq<u8>,
    offset: nat,
    left: nat,
    reads: Seq<Seq<u8>>,
)
    requires
        is_loop(content, offset, left, reads),
    ensures
        is_read_in_pieces(content, offset, left, handed_on(reads)),
        put_together(handed_on(reads)) == read_range(content, offset, left),
    decreases reads.len(),
{
    reveal_with_fuel(is_read_in_pieces, 2);
    if left > 0 {
        let n = reads[0].len();
        match left_after(left, n) {
            Some(rest) => {
                law_loop_reads_in_pieces(content, offset + n, rest, reads.drop_first());
                assert(reads.drop_first().len() > 0);
                assert(reads.last() == reads.drop_first().last());
                assert(handed_on(reads).drop_first() =~= handed_on(reads.drop_first()));
                assert(handed_on(reads)[0] == reads[0]);
            },
            None => {
                if n > 0 {
                    assert(handed_on(reads).drop_first() =~= Seq::<Seq<u8>>::empty());
                } else {
                    assert(handed_on(reads) =~= Seq::<Seq<u8>>::empty());
                }
            },
        }
    }
    law_pieces_make_the_range(content, offset, left, handed_on(reads));
}

/// A file or directory, as clients see it.
#[derive(Debug)]
pub struct FileEntry {
    pub name: String,
    pub is_dir: bool,
    pub size_bytes: u64,
    pub modified_unix: i64,
}

/// What the file system says of a file or directory.
#[derive(Clone, Copy, Debug)]
pub struct FileMeta {
    pub is_dir: bool,
    pub size_bytes: u64,
    /// Seconds since the Unix epoch, where the file system tells them.
    pub modified_unix: Option<i64>,
}

/// The entry that describes a file by its name and what the file system says of it.
pub fn file_entry(name: String, meta: FileMeta) -> (r: FileEntry)
    ensures
        r.name@ == name@,
        r.is_dir == meta.is_dir,
        r.size_bytes == meta.size_bytes,
        r.modified_unix == (match meta.modified_unix {
            Some(t) => t,
            None => 0,
        }),
{
    let modified_unix = match meta.modified_unix {
        Some(t) => t,
        None => 0,
    };
    FileEntry { name, is_dir: meta.is_dir, size_bytes: meta.size_bytes, modified_unix }
}

/// The answer to a status request.
#[derive(Debug)]
pub struct StatReply {
    pub entry: Option<FileEntry>,
    pub found: bool,
    /// What the host has seen of the file, for the client to take over before it edits.
    pub clock: Option<VectorClock>,
}

/// Answers a status request for `path`. `located` is the last component of the path and what the
/// file system says of the file, where the path was located inside the root.
pub fn stat(clocks: &ClockStore, path: &str, located: Option<(Option<String>, FileMeta)>) -> (r:
    StatReply)
    ensures
        match located {
            None => r.entry is None && !r.found && r.clock is None,
            Some((name, meta)) => {
                &&& r.found
                &&& r.clock matches Some(c) && c@ == clock_of(clocks@, key_of(path@))
                &&& r.entry matches Some(e) && e.name@ == (match name {
                    Some(n) => n@,
                    None => Seq::empty(),
                }) && e.is_dir == meta.is_dir && e.size_bytes == meta.size_bytes && e.modified_unix
                    == (match meta.modified_unix {
                    Some(t) => t,
                    None => 0,
                })
            },
        },
{
    match located {
        None => StatReply { entry: None, found: false, clock: None },
        Some((name, meta)) => {
            let name = match name {
                Some(n) => n,
                None => String::new(),
            };
            let key = crate::host::clock_key(path);
            let clock = clocks.get(key.as_str());
            StatReply { entry: Some(file_entry(name, meta)), found: true, clock: Some(clock) }
        },
    }
}

/// What a client makes of the answer to a status request: the entry and what the host has seen of
/// the file, where there is an entry.
pub fn stat_full(reply: StatReply) -> (r: Option<(FileEntry, VectorClock)>)
    ensures
        match r {
            Some((e, c)) => reply.found && reply.entry == Some(e) && c@ == (match reply.clock {
                Some(k) => k@,
                None => Map::empty(),
            }),
            None => !reply.found || reply.entry is None,
        },
{
    if !reply.found {
        return None;
    }
    match reply.entry {
        None => None,
        Some(entry) => {
            let clock = match reply.clock {
                Some(c) => c,
                None => VectorClock::new(),
            };
            Some((entry, clock))
        },
    }
}

/// A temporary file that is to be removed unless it was moved to its place.
#[derive(Debug)]
pub struct TempFile {
    path: String,
    committed: bool,
}

impl TempFile {
    /// The path of the file.
    pub closed spec fn at(&self) -> Seq<char> {
        self.path@
    }

    /// Whether the file is to be removed in the end.
    pub closed spec fn is_leftover(&self) -> bool {
        !self.committed
    }

    /// A temporary file that is still to be moved to its place.
    pub fn new(path: String) -> (r: TempFile)
        ensures
            r.at() == path@,
            r.is_leftover(),
    {
        TempFile { path, committed: false }
    }

    /// The file has been moved to its place.
    pub fn mark_committed(&mut self)
        ensures
            final(self).at() == old(self).at(),
            !final(self).is_leftover(),
    {
        self.committed = true;
    }

    /// The path of the file.
    pub fn path(&self) -> (r: &str)
        ensures
            r@ == self.at(),
    {
        self.path.as_str()
    }

    /// Whether the file is to be removed, now that the request is over.
    pub fn leftover(&self) -> (r: bool)
        ensures
            r == self.is_leftover(),
    {
        !self.committed
    }
}

} // verus!
