//! Inode numbers for remote paths, with a bound on how many are kept: the one that was used longest
//! ago gives way.
use vstd::prelude::*;
use vstd::string::*;

use crate::keymap::{KeyMap, KeySet};
use crate::text::same;

verus! {

broadcast use vstd::seq_lib::group_seq_properties;

/// The number of the root directory.
pub const ROOT_INO: u64 = 1;

/// How many numbers a table keeps unless it is told otherwise.
pub const DEFAULT_INODE_CAP: usize = 10000;

/// Numbers with their paths, the one that was used longest ago first.
pub type Recency = Seq<(u64, Seq<char>)>;

/// The cache of the crate lru, which is not looked into.
#[verifier::external_type_specification]
#[verifier::external_body]
#[verifier::reject_recursive_types(K)]
#[verifier::reject_recursive_types(V)]
#[verifier::reject_recursive_types(S)]
pub struct ExLruCache<K, V, S>(lru::LruCache<K, V, S>);

/// How that cache hashes its keys, which is not looked into.
#[verifier::external_type_specification]
#[verifier::external_body]
pub struct ExDefaultHasher(lru::DefaultHasher);

/// What a cache holds, the entry that was used longest ago first.
pub uninterp spec fn recency(c: lru::LruCache<u64, String>) -> Seq<(u64, Seq<char>)>;

/// How many entries a cache was made for.
pub uninterp spec fn capacity(c: lru::LruCache<u64, String>) -> nat;

/// The position of the entry of a number, the length where there is none.
pub open spec fn ino_at(s: Recency, ino: u64) -> int
    decreases s.len(),
{
    if s.len() == 0 {
        0
    } else if s[0].0 == ino {
        0
    } else {
        1 + ino_at(s.drop_first(), ino)
    }
}

/// The position of the entry of a path, the length where there is none.
pub open spec fn path_at(s: Recency, path: Seq<char>) -> int
    decreases s.len(),
{
    if s.len() == 0 {
        0
    } else if s[0].1 == path {
        0
    } else {
        1 + path_at(s.drop_first(), path)
    }
}

/// The entries after the one at `i` was used.
pub open spec fn used(s: Recency, i: int) -> Recency {
    s.remove(i).push(s[i])
}

/// `LruCache::new` of the crate lru: an empty cache for the given number of entries, which must not
/// be zero. A table for all of them is laid out at once, and the call panics where that exceeds what
/// can be addressed: such numbers are left out.
#[verifier::external_body]
fn lru_new(cap: usize) -> (r: lru::LruCache<u64, String>)
    requires
        0 < cap <= usize::MAX / 128,
    ensures
        recency(r) == Seq::<(u64, Seq<char>)>::empty(),
        capacity(r) == cap,
{
    lru::LruCache::new(std::num::NonZeroUsize::new(cap).unwrap())
}

/// `LruCache::get` of the crate lru: the value of a key, which makes its entry the one that was used
/// last.
#[verifier::external_body]
fn lru_get(c: &mut lru::LruCache<u64, String>, ino: u64) -> (r: Option<String>)
    ensures
        capacity(*final(c)) == capacity(*old(c)),
        ino_at(recency(*old(c)), ino) < recency(*old(c)).len() ==> r is Some && r->0@ == recency(
            *old(c),
        )[ino_at(recency(*old(c)), ino)].1 && recency(*final(c)) == used(
            recency(*old(c)),
            ino_at(recency(*old(c)), ino),
        ),
        ino_at(recency(*old(c)), ino) >= recency(*old(c)).len() ==> r is None && recency(*final(c))
            == recency(*old(c)),
{
    c.get(&ino).cloned()
}

/// `LruCache::push` of the crate lru: puts a value for a key, as the entry that was used last. An
/// entry of the same key is replaced and handed back; else, where the cache is full, the entry that
/// was used longest ago is dropped and handed back.
#[verifier::external_body]
fn lru_push(c: &mut lru::LruCache<u64, String>, ino: u64, path: String) -> (r: Option<(u64, String)>)
    ensures
        capacity(*final(c)) == capacity(*old(c)),
        ino_at(recency(*old(c)), ino) < recency(*old(c)).len() ==> r is Some && (r->0).0 == ino
            && (r->0).1@ == recency(*old(c))[ino_at(recency(*old(c)), ino)].1 && recency(*final(c))
            == recency(*old(c)).remove(ino_at(recency(*old(c)), ino)).push((ino, path@)),
        ino_at(recency(*old(c)), ino) >= recency(*old(c)).len() && recency(*old(c)).len() == capacity(
            *old(c),
        ) ==> r is Some && (r->0).0 == recency(*old(c))[0].0 && (r->0).1@ == recency(*old(c))[0].1
            && recency(*final(c)) == recency(*old(c)).drop_first().push((ino, path@)),
        ino_at(recency(*old(c)), ino) >= recency(*old(c)).len() && recency(*old(c)).len() != capacity(
            *old(c),
        ) ==> r is None && recency(*final(c)) == recency(*old(c)).push((ino, path@)),
{
    c.push(ino, path)
}

/// `LruCache::pop` of the crate lru: drops the entry of a key, and hands its value back.
#[verifier::external_body]
fn lru_pop(c: &mut lru::LruCache<u64, String>, ino: u64) -> (r: Option<String>)
    ensures
        capacity(*final(c)) == capacity(*old(c)),
        ino_at(recency(*old(c)), ino) < recency(*old(c)).len() ==> r is Some && r->0@ == recency(
            *old(c),
        )[ino_at(recency(*old(c)), ino)].1 && recency(*final(c)) == recency(*old(c)).remove(
            ino_at(recency(*old(c)), ino),
        ),
        ino_at(recency(*old(c)), ino) >= recency(*old(c)).len() ==> r is None && recency(*final(c))
            == recency(*old(c)),
{
    c.pop(&ino)
}

/// A table, as contracts speak of it.
#[verifier::ext_equal]
pub struct TableView {
    /// The number that is given out next.
    pub next: u64,
    /// The numbers that are kept, the one that was used longest ago first.
    pub entries: Recency,
    /// How many are kept at most.
    pub cap: nat,
    /// The paths that are known to be directories.
    pub dirs: Set<Seq<char>>,
}

/// The path of the root directory.
pub open spec fn root_path() -> Seq<char> {
    "/"@
}

/// Whether a number is kept for a path.
pub open spec fn knows_path(t: TableView, path: Seq<char>) -> bool {
    path_at(t.entries, path) < t.entries.len()
}

/// Whether a path is kept for a number.
pub open spec fn knows_ino(t: TableView, ino: u64) -> bool {
    ino_at(t.entries, ino) < t.entries.len()
}

/// The number of a path, if one is kept; that of the root is always known.
pub open spec fn number_of(t: TableView, path: Seq<char>) -> Option<u64> {
    if path == root_path() {
        Some(ROOT_INO)
    } else if knows_path(t, path) {
        Some(t.entries[path_at(t.entries, path)].0)
    } else {
        None
    }
}

/// The path of a number, if one is kept; that of the root is always known.
pub open spec fn path_of(t: TableView, ino: u64) -> Option<Seq<char>> {
    if ino == ROOT_INO {
        Some(root_path())
    } else if knows_ino(t, ino) {
        Some(t.entries[ino_at(t.entries, ino)].1)
    } else {
        None
    }
}

/// Whether a table is sound: no number and no path is kept twice, the root is not among them, every
/// number has been given out, and there are no more than are kept at most.
pub open spec fn sound(t: TableView) -> bool {
    &&& 0 < t.cap
    &&& t.entries.len() <= t.cap
    &&& 2 <= t.next
    &&& forall|i: int|
        0 <= i < t.entries.len() ==> 2 <= (#[trigger] t.entries[i]).0 < t.next && t.entries[i].1
            != root_path()
    &&& forall|i: int, j: int|
        0 <= i < j < t.entries.len() ==> (#[trigger] t.entries[i]).0 != (#[trigger] t.entries[j]).0
            && t.entries[i].1 != t.entries[j].1
}

/// The table after a path was asked for: its entry is the one that was used last. Where there was
/// none, one is made with the next number, and gives the place of the one that was used longest ago
/// to it if the table is full.
pub open spec fn asked_for(t: TableView, path: Seq<char>) -> TableView {
    if path == root_path() {
        t
    } else if knows_path(t, path) {
        TableView { entries: used(t.entries, path_at(t.entries, path)), ..t }
    } else {
        TableView {
            next: (t.next + 1) as u64,
            entries: (if t.entries.len() == t.cap {
                t.entries.drop_first()
            } else {
                t.entries
            }).push((t.next, path)),
            ..t
        }
    }
}

/// The number that a path has once it was asked for.
pub open spec fn number_when_asked(t: TableView, path: Seq<char>) -> u64 {
    match number_of(t, path) {
        Some(ino) => ino,
        None => t.next,
    }
}

/// The table after a number was looked up.
pub open spec fn looked_up(t: TableView, ino: u64) -> TableView {
    if ino != ROOT_INO && knows_ino(t, ino) {
        TableView { entries: used(t.entries, ino_at(t.entries, ino)), ..t }
    } else {
        t
    }
}

/// The entries without that of a path.
pub open spec fn without_path(s: Recency, path: Seq<char>) -> Recency {
    if path_at(s, path) < s.len() {
        s.remove(path_at(s, path))
    } else {
        s
    }
}

/// Whether a path can be renamed: neither path is the root, and a number is kept for the old one.
pub open spec fn can_rename(t: TableView, old_path: Seq<char>, new_path: Seq<char>) -> bool {
    old_path != root_path() && new_path != root_path() && knows_path(t, old_path)
}

/// The table after a path was renamed: the new path has the number of the old one, and what the new
/// path had before is dropped.
pub open spec fn renamed(t: TableView, old_path: Seq<char>, new_path: Seq<char>) -> TableView {
    if can_rename(t, old_path, new_path) {
        TableView {
            entries: without_path(without_path(t.entries, old_path), new_path).push(
                (t.entries[path_at(t.entries, old_path)].0, new_path),
            ),
            ..t
        }
    } else {
        t
    }
}

pub proof fn lemma_ino_at(s: Recency, ino: u64)
    ensures
        0 <= ino_at(s, ino) <= s.len(),
        ino_at(s, ino) < s.len() ==> s[ino_at(s, ino)].0 == ino,
        forall|i: int| 0 <= i < ino_at(s, ino) ==> (#[trigger] s[i]).0 != ino,
    decreases s.len(),
{
    if s.len() > 0 && s[0].0 != ino {
        lemma_ino_at(s.drop_first(), ino);
        assert forall|i: int| 0 <= i < ino_at(s, ino) implies (#[trigger] s[i]).0 != ino by {
            if i > 0 {
                assert(s.drop_first()[i - 1].0 != ino);
            }
        }
    }
}

pub proof fn lemma_path_at(s: Recency, path: Seq<char>)
    ensures
        0 <= path_at(s, path) <= s.len(),
        path_at(s, path) < s.len() ==> s[path_at(s, path)].1 == path,
        forall|i: int| 0 <= i < path_at(s, path) ==> (#[trigger] s[i]).1 != path,
    decreases s.len(),
{
    if s.len() > 0 && s[0].1 != path {
        lemma_path_at(s.drop_first(), path);
        assert forall|i: int| 0 <= i < path_at(s, path) implies (#[trigger] s[i]).1 != path by {
            if i > 0 {
                assert(s.drop_first()[i - 1].1 != path);
            }
        }
    }
}

/// In a sound table, an entry is found by its number and by its path.
proof fn lemma_found(t: TableView, i: int)
    requires
        sound(t),
        0 <= i < t.entries.len(),
    ensures
        ino_at(t.entries, t.entries[i].0) == i,
        path_at(t.entries, t.entries[i].1) == i,
{
    lemma_ino_at(t.entries, t.entries[i].0);
    lemma_path_at(t.entries, t.entries[i].1);
    let j = ino_at(t.entries, t.entries[i].0);
    let k = path_at(t.entries, t.entries[i].1);
    assert(t.entries[i].0 == t.entries[j].0);
    assert(t.entries[i].1 == t.entries[k].1);
}

/// Whether the index holds the number of every path that is kept, and nothing else.
spec fn indexes(index: Map<Seq<char>, u64>, s: Recency) -> bool {
    &&& forall|p: Seq<char>| #[trigger] index.dom().contains(p) <==> path_at(s, p) < s.len()
    &&& forall|p: Seq<char>| #[trigger]
        index.dom().contains(p) ==> index[p] == s[path_at(s, p)].0
}

/// Inode numbers and the remote paths that they stand for.
pub struct InodeTable {
    next_ino: u64,
    path_by_ino: lru::LruCache<u64, String>,
    ino_by_path: KeyMap<u64>,
    dirs: KeySet,
}

impl View for InodeTable {
    type V = TableView;

    closed spec fn view(&self) -> TableView {
        TableView {
            next: self.next_ino,
            entries: recency(self.path_by_ino),
            cap: capacity(self.path_by_ino),
            dirs: self.dirs@,
        }
    }
}

/// Moving an entry to the end keeps a table sound and its index right.
proof fn lemma_used(t: TableView, i: int, index: Map<Seq<char>, u64>)
    requires
        sound(t),
        0 <= i < t.entries.len(),
        indexes(index, t.entries),
    ensures
        sound(TableView { entries: used(t.entries, i), ..t }),
        indexes(index, used(t.entries, i)),
{
    let s = t.entries;
    let u = used(s, i);
    let t2 = TableView { entries: u, ..t };
    let back = |j: int|
        if j == u.len() - 1 {
            i
        } else if j < i {
            j
        } else {
            j + 1
        };
    assert forall|j: int| 0 <= j < u.len() implies (#[trigger] u[j]) == s[back(j)] by {}
    assert forall|a: int, b: int| 0 <= a < b < u.len() implies (#[trigger] u[a]).0 != (
    #[trigger] u[b]).0 && u[a].1 != u[b].1 by {
        let (x, y) = (back(a), back(b));
        assert(x != y);
        if x < y {
            assert(s[x].0 != s[y].0);
        } else {
            assert(s[y].0 != s[x].0);
        }
    }
    assert forall|j: int| 0 <= j < u.len() implies 2 <= (#[trigger] u[j]).0 < t2.next && u[j].1
        != root_path() by {
        assert(s[back(j)] == u[j]);
    }
    assert(sound(t2));
    lemma_same_index(t, t2, index);
}

/// Two sound tables with the same entries, in whatever order, have the same index.
proof fn lemma_same_index(t: TableView, u: TableView, index: Map<Seq<char>, u64>)
    requires
        sound(t),
        sound(u),
        indexes(index, t.entries),
        forall|i: int| 0 <= i < u.entries.len() ==> t.entries.contains(#[trigger] u.entries[i]),
        forall|i: int| 0 <= i < t.entries.len() ==> u.entries.contains(#[trigger] t.entries[i]),
    ensures
        indexes(index, u.entries),
{
    assert forall|p: Seq<char>| #[trigger]
        index.dom().contains(p) <==> path_at(u.entries, p) < u.entries.len() by {
        lemma_path_at(t.entries, p);
        lemma_path_at(u.entries, p);
        if path_at(t.entries, p) < t.entries.len() {
            let e = t.entries[path_at(t.entries, p)];
            assert(u.entries.contains(e));
            let j = choose|j: int| 0 <= j < u.entries.len() && u.entries[j] == e;
            lemma_found(u, j);
        }
        if path_at(u.entries, p) < u.entries.len() {
            let e = u.entries[path_at(u.entries, p)];
            assert(t.entries.contains(e));
            let j = choose|j: int| 0 <= j < t.entries.len() && t.entries[j] == e;
            lemma_found(t, j);
        }
    }
    assert forall|p: Seq<char>| #[trigger] index.dom().contains(p) implies index[p]
        == u.entries[path_at(u.entries, p)].0 by {
        lemma_path_at(t.entries, p);
        let e = t.entries[path_at(t.entries, p)];
        assert(u.entries.contains(e));
        let j = choose|j: int| 0 <= j < u.entries.len() && u.entries[j] == e;
        lemma_found(u, j);
    }
}

/// Dropping an entry keeps a table sound, and its index right once the path is dropped from it.
proof fn lemma_dropped(t: TableView, i: int, index: Map<Seq<char>, u64>)
    requires
        sound(t),
        0 <= i < t.entries.len(),
        indexes(index, t.entries),
    ensures
        sound(TableView { entries: t.entries.remove(i), ..t }),
        indexes(index.remove(t.entries[i].1), t.entries.remove(i)),
        ino_at(t.entries.remove(i), t.entries[i].0) == t.entries.len() - 1,
        path_at(t.entries.remove(i), t.entries[i].1) == t.entries.len() - 1,
{
    let s = t.entries;
    let u = s.remove(i);
    let t2 = TableView { entries: u, ..t };
    let gone = s[i].1;
    let index2 = index.remove(gone);
    let back = |j: int|
        if j < i {
            j
        } else {
            j + 1
        };
    assert forall|j: int| 0 <= j < u.len() implies (#[trigger] u[j]) == s[back(j)] && u[j].1 != gone
        && u[j].0 != s[i].0 by {
        if back(j) < i {
            assert(s[back(j)].1 != s[i].1);
        } else {
            assert(s[i].1 != s[back(j)].1);
        }
    }
    assert forall|a: int, b: int| 0 <= a < b < u.len() implies (#[trigger] u[a]).0 != (
    #[trigger] u[b]).0 && u[a].1 != u[b].1 by {
        assert(s[back(a)].0 != s[back(b)].0);
    }
    assert(sound(t2));
    lemma_ino_at(u, s[i].0);
    lemma_path_at(u, gone);
    assert forall|p: Seq<char>| #[trigger]
        index2.dom().contains(p) <==> path_at(u, p) < u.len() by {
        lemma_path_at(s, p);
        lemma_path_at(u, p);
        if p != gone && path_at(s, p) < s.len() {
            let k = path_at(s, p);
            let j = if k < i { k } else { k - 1 };
            assert(u[j] == s[k]);
            lemma_found(t2, j);
        }
        if path_at(u, p) < u.len() {
            let j = path_at(u, p);
            lemma_found(t, back(j));
        }
    }
    assert forall|p: Seq<char>| #[trigger] index2.dom().contains(p) implies index2[p] == u[path_at(
        u,
        p,
    )].0 by {
        lemma_path_at(u, p);
        let j = path_at(u, p);
        lemma_found(t, back(j));
        assert(index.dom().contains(p));
    }
}

/// Adding an entry with a number and a path that are not kept keeps a table sound, and its index
/// right once the path is added to it.
proof fn lemma_added(t: TableView, ino: u64, path: Seq<char>, next: u64, index: Map<Seq<char>, u64>)
    requires
        sound(t),
        indexes(index, t.entries),
        t.entries.len() < t.cap,
        t.next <= next,
        2 <= ino < next,
        path != root_path(),
        ino_at(t.entries, ino) >= t.entries.len(),
        path_at(t.entries, path) >= t.entries.len(),
    ensures
        sound(TableView { entries: t.entries.push((ino, path)), next, ..t }),
        indexes(index.insert(path, ino), t.entries.push((ino, path))),
{
    let s = t.entries;
    let u = s.push((ino, path));
    let t2 = TableView { entries: u, next, ..t };
    let index2 = index.insert(path, ino);
    lemma_ino_at(s, ino);
    lemma_path_at(s, path);
    assert forall|a: int, b: int| 0 <= a < b < u.len() implies (#[trigger] u[a]).0 != (
    #[trigger] u[b]).0 && u[a].1 != u[b].1 by {
        if b < s.len() {
            assert(s[a].0 != s[b].0);
        } else {
            assert(s[a].0 != ino);
            assert(s[a].1 != path);
        }
    }
    assert(sound(t2));
    assert forall|p: Seq<char>| #[trigger]
        index2.dom().contains(p) <==> path_at(u, p) < u.len() by {
        lemma_path_at(s, p);
        lemma_path_at(u, p);
        if p == path {
            lemma_found(t2, s.len() as int);
        } else if path_at(s, p) < s.len() {
            lemma_found(t2, path_at(s, p));
        }
        if path_at(u, p) < u.len() && p != path {
            lemma_found(t, path_at(u, p));
        }
    }
    assert forall|p: Seq<char>| #[trigger] index2.dom().contains(p) implies index2[p] == u[path_at(
        u,
        p,
    )].0 by {
        lemma_path_at(s, p);
        if p == path {
            lemma_found(t2, s.len() as int);
        } else {
            assert(index.dom().contains(p));
            lemma_found(t2, path_at(s, p));
        }
    }
}

impl InodeTable {
    /// Whether the table is sound, and its index by path is right.
    pub closed spec fn wf(&self) -> bool {
        sound(self@) && indexes(self.ino_by_path@, self@.entries)
    }

    /// A sound table keeps no number and no path twice, and no more than it is made for.
    pub proof fn law_table_is_sound(&self)
        requires
            self.wf(),
        ensures
            sound(self@),
    {
    }

    /// An empty table with the usual bound.
    pub fn new() -> (r: InodeTable)
        ensures
            r.wf(),
            r@ == empty_table(DEFAULT_INODE_CAP as nat),
    {
        InodeTable::with_capacity(DEFAULT_INODE_CAP)
    }

    /// An empty table that keeps at most `cap` numbers. There must be at least one, and no more than
    /// can be addressed.
    pub fn with_capacity(cap: usize) -> (r: InodeTable)
        requires
            0 < cap <= usize::MAX / 128,
        ensures
            r.wf(),
            r@ == empty_table(cap as nat),
    {
        let r = InodeTable {
            next_ino: 2,
            path_by_ino: lru_new(cap),
            ino_by_path: KeyMap::new(),
            dirs: KeySet::new(),
        };
        assert forall|p: Seq<char>| path_at(r@.entries, p) >= r@.entries.len() by {}
        r
    }

    /// The number of a path: the one that is kept for it, else the next one, which is then kept.
    pub fn ino_for_path(&mut self, path: &str) -> (r: u64)
        requires
            old(self).wf(),
            old(self)@.next < u64::MAX,
        ensures
            final(self).wf(),
            final(self)@ == asked_for(old(self)@, path@),
            r == number_when_asked(old(self)@, path@),
    {
        if same(path, "/") {
            return ROOT_INO;
        }
        let ghost t = self@;
        let ghost index = self.ino_by_path@;
        proof {
            lemma_path_at(t.entries, path@);
        }
        let known = match self.ino_by_path.get(path) {
            Some(ino) => Some(*ino),
            None => None,
        };
        if let Some(ino) = known {
            proof {
                let i = path_at(t.entries, path@);
                lemma_found(t, i);
                lemma_used(t, i, index);
            }
            let _path = lru_get(&mut self.path_by_ino, ino);
            return ino;
        }
        let ino = self.next_ino;
        self.next_ino = self.next_ino + 1;
        proof {
            lemma_ino_at(t.entries, ino);
        }
        self.insert(ino, path.to_owned());
        ino
    }

    /// Keeps a new number for a new path. Where the table is full, the entry that was used longest
    /// ago is dropped, from the index too.
    fn insert(&mut self, ino: u64, path: String)
        requires
            sound(TableView { next: ino, ..old(self)@ }),
            indexes(old(self).ino_by_path@, old(self)@.entries),
            old(self)@.next == ino + 1,
            path@ != root_path(),
            path_at(old(self)@.entries, path@) >= old(self)@.entries.len(),
        ensures
            final(self).wf(),
            final(self)@.next == old(self)@.next,
            final(self)@.cap == old(self)@.cap,
            final(self)@.dirs == old(self)@.dirs,
            final(self)@.entries == (if old(self)@.entries.len() == old(self)@.cap {
                old(self)@.entries.drop_first()
            } else {
                old(self)@.entries
            }).push((ino, path@)),
    {
        let ghost t = TableView { next: ino, ..self@ };
        let ghost index = self.ino_by_path@;
        let ghost p = path@;
        proof {
            lemma_ino_at(t.entries, ino);
            if t.entries.len() == t.cap {
                lemma_dropped(t, 0, index);
                assert(t.entries.remove(0) =~= t.entries.drop_first());
                let t1 = TableView { entries: t.entries.remove(0), ..t };
                lemma_ino_at(t1.entries, ino);
                lemma_path_at(t1.entries, p);
                lemma_path_at(t.entries, p);
                if path_at(t1.entries, p) < t1.entries.len() {
                    assert(t.entries[path_at(t1.entries, p) + 1].1 == p);
                    lemma_found(t, path_at(t1.entries, p) + 1);
                }
                lemma_added(t1, ino, p, (ino + 1) as u64, index.remove(t.entries[0].1));
                lemma_path_at(t.entries, t.entries[0].1);
                lemma_found(t, 0);
            } else {
                lemma_added(t, ino, p, (ino + 1) as u64, index);
            }
        }
        self.ino_by_path.insert(path.clone(), ino);
        if let Some((evicted_ino, evicted_path)) = lru_push(&mut self.path_by_ino, ino, path) {
            if evicted_ino != ino {
                let still = match self.ino_by_path.get(evicted_path.as_str()) {
                    Some(n) => *n == evicted_ino,
                    None => false,
                };
                if still {
                    self.ino_by_path.remove(evicted_path.as_str());
                }
            }
        }
        proof {
            if t.entries.len() == t.cap {
                let gone = t.entries[0].1;
                assert(gone != p);
                assert(self.ino_by_path@ =~= index.remove(gone).insert(p, ino));
            }
        }
    }

    /// The path of a number, if it is kept.
    pub fn path_for_ino(&mut self, ino: u64) -> (r: Option<String>)
        requires
            old(self).wf(),
        ensures
            final(self).wf(),
            final(self)@ == looked_up(old(self)@, ino),
            match r {
                Some(p) => path_of(old(self)@, ino) == Some(p@),
                None => path_of(old(self)@, ino) is None,
            },
    {
        if ino == ROOT_INO {
            return Some("/".to_owned());
        }
        proof {
            lemma_ino_at(self@.entries, ino);
            if knows_ino(self@, ino) {
                lemma_used(self@, ino_at(self@.entries, ino), self.ino_by_path@);
            }
        }
        lru_get(&mut self.path_by_ino, ino)
    }

    /// Remembers that a path is a directory.
    pub fn track_dir(&mut self, path: &str)
        requires
            old(self).wf(),
        ensures
            final(self).wf(),
            final(self)@ == (TableView { dirs: old(self)@.dirs.insert(path@), ..old(self)@ }),
    {
        self.dirs.insert(path);
    }

    /// Whether a path is known to be a directory.
    pub fn is_dir(&self, path: &str) -> (r: bool)
        ensures
            r == self@.dirs.contains(path@),
    {
        self.dirs.contains(path)
    }

    /// The number of a path, if one is kept. This does not count as using it.
    pub fn peek_ino(&self, path: &str) -> (r: Option<u64>)
        requires
            self.wf(),
        ensures
            r == number_of(self@, path@),
    {
        if same(path, "/") {
            return Some(ROOT_INO);
        }
        match self.ino_by_path.get(path) {
            Some(ino) => Some(*ino),
            None => None,
        }
    }

    /// Gives the number of one path to another. Nothing happens where no number is kept for the
    /// first, or where either is the root.
    pub fn rename_path(&mut self, old_path: &str, new_path: &str) -> (r: Option<u64>)
        requires
            old(self).wf(),
        ensures
            final(self).wf(),
            final(self)@ == renamed(old(self)@, old_path@, new_path@),
            r == (if can_rename(old(self)@, old_path@, new_path@) {
                number_of(old(self)@, old_path@)
            } else {
                None
            }),
    {
        if same(old_path, "/") || same(new_path, "/") {
            return None;
        }
        let ghost t = self@;
        let ghost index = self.ino_by_path@;
        proof {
            lemma_path_at(t.entries, old_path@);
        }
        let ino = match self.ino_by_path.remove(old_path) {
            Some(ino) => ino,
            None => {
                assert(index.remove(old_path@) =~= index);
                return None;
            },
        };
        let ghost i = path_at(t.entries, old_path@);
        let ghost t1 = TableView { entries: t.entries.remove(i), ..t };
        let ghost index1 = index.remove(old_path@);
        proof {
            lemma_found(t, i);
            lemma_dropped(t, i, index);
            lemma_path_at(t1.entries, new_path@);
        }
        let dest = self.ino_by_path.remove(new_path);
        let ghost t2 = TableView { entries: without_path(t1.entries, new_path@), ..t };
        let ghost index2 = index1.remove(new_path@);
        proof {
            if path_at(t1.entries, new_path@) < t1.entries.len() {
                let j = path_at(t1.entries, new_path@);
                lemma_found(t1, j);
                lemma_dropped(t1, j, index1);
                let k = if j < i { j } else { j + 1 };
                assert(t.entries[k] == t1.entries[j]);
                lemma_found(t, k);
                // The number that is dropped is not the one that is kept.
                assert(t1.entries[j].0 != ino) by {
                    if k < i {
                        assert(t.entries[k].0 != t.entries[i].0);
                    } else {
                        assert(t.entries[i].0 != t.entries[k].0);
                    }
                }
                lemma_remove_other(t.entries, i, k);
            } else {
                assert(index1.remove(new_path@) =~= index1);
                lemma_path_at(t2.entries, new_path@);
            }
            lemma_ino_at(t2.entries, ino);
            lemma_path_at(t2.entries, new_path@);
            lemma_ino_at(t1.entries, ino);
            if ino_at(t2.entries, ino) < t2.entries.len() {
                let e = t2.entries[ino_at(t2.entries, ino)];
                let j = path_at(t1.entries, new_path@);
                let q = ino_at(t2.entries, ino);
                let b = if j < t1.entries.len() && q >= j { q + 1 } else { q };
                assert(t1.entries[b] == e);
                lemma_found(t1, b);
            }
            lemma_added(t2, ino, new_path@, t.next, index2);
        }
        if let Some(dest_ino) = dest {
            let _path = lru_pop(&mut self.path_by_ino, dest_ino);
        }
        self.ino_by_path.insert(new_path.to_owned(), ino);
        let ghost before = recency(self.path_by_ino);
        let _replaced = lru_push(&mut self.path_by_ino, ino, new_path.to_owned());
        proof {
            // What the cache held before the last step: the entry of the old path among the others.
            let j = path_at(t1.entries, new_path@);
            if j < t1.entries.len() {
                let k = if j < i { j } else { j + 1 };
                let i2 = if k < i { i - 1 } else { i };
                assert(before == t.entries.remove(k));
                lemma_ino_at(before, ino);
                assert(before[i2] == t.entries[i]);
                lemma_dropped(t, k, index);
                lemma_found(TableView { entries: before, ..t }, i2);
                assert(before.remove(i2) =~= t2.entries);
            } else {
                assert(before == t.entries);
                lemma_found(t, i);
            }
        }
        Some(ino)
    }
}

/// An empty table that keeps at most `cap` numbers.
pub open spec fn empty_table(cap: nat) -> TableView {
    TableView { next: 2, entries: Seq::empty(), cap, dirs: Set::empty() }
}

/// Removing two entries in either order is the same.
proof fn lemma_remove_other(s: Recency, i: int, k: int)
    requires
        0 <= i < s.len(),
        0 <= k < s.len(),
        i != k,
    ensures
        s.remove(k).remove(if k < i {
            i - 1
        } else {
            i
        }) == s.remove(i).remove(if i < k {
            k - 1
        } else {
            k
        }),
{
    assert(s.remove(k).remove(if k < i {
        i - 1
    } else {
        i
    }) =~= s.remove(i).remove(if i < k {
        k - 1
    } else {
        k
    }));
}

/// The root is always there: it has its number and its path whatever the table keeps.
pub proof fn law_root_is_pinned(t: TableView)
    ensures
        number_of(t, root_path()) == Some(ROOT_INO),
        path_of(t, ROOT_INO) == Some(root_path()),
        asked_for(t, root_path()) == t,
{
}

/// A path that was asked for is found by its number, and asking for it again gives the same number.
pub proof fn law_number_leads_back(t: TableView, path: Seq<char>)
    requires
        sound(t),
        t.next < u64::MAX,
    ensures
        path_of(asked_for(t, path), number_when_asked(t, path)) == Some(path),
        number_when_asked(asked_for(t, path), path) == number_when_asked(t, path),
        sound(asked_for(t, path)),
{
    lemma_path_at(t.entries, path);
    if path != root_path() {
        let u = asked_for(t, path);
        let last = u.entries.len() - 1;
        if knows_path(t, path) {
            let index = Map::new(
                |p: Seq<char>| path_at(t.entries, p) < t.entries.len(),
                |p: Seq<char>| t.entries[path_at(t.entries, p)].0,
            );
            assert(indexes(index, t.entries));
            lemma_used(t, path_at(t.entries, path), index);
        } else {
            lemma_asked_new_is_sound(t, path);
        }
        lemma_found(u, last);
        assert(u.entries[last] == (number_when_asked(t, path), path));
    }
}

proof fn lemma_asked_new_is_sound(t: TableView, path: Seq<char>)
    requires
        sound(t),
        t.next < u64::MAX,
        path != root_path(),
        !knows_path(t, path),
    ensures
        sound(asked_for(t, path)),
{
    let u = asked_for(t, path);
    lemma_path_at(t.entries, path);
    let shift: int = if t.entries.len() == t.cap { 1 } else { 0 };
    assert forall|j: int| 0 <= j < u.entries.len() - 1 implies (#[trigger] u.entries[j])
        == t.entries[j + shift] by {}
    assert forall|i: int| 0 <= i < u.entries.len() implies 2 <= (#[trigger] u.entries[i]).0 < u.next
        && u.entries[i].1 != root_path() by {
        if i < u.entries.len() - 1 {
            assert(t.entries[i + shift] == u.entries[i]);
        }
    }
    assert forall|a: int, b: int| 0 <= a < b < u.entries.len() implies (#[trigger] u.entries[a]).0
        != (#[trigger] u.entries[b]).0 && u.entries[a].1 != u.entries[b].1 by {
        assert(t.entries[a + shift] == u.entries[a]);
        if b < u.entries.len() - 1 {
            assert(t.entries[b + shift] == u.entries[b]);
        } else if t.entries[a + shift].1 == path {
            assert(path_at(t.entries, path) == t.entries.len());
            assert(a + shift < path_at(t.entries, path));
        }
    }
}

/// Two paths never have the same number.
pub proof fn law_numbers_tell_paths_apart(t: TableView, a: Seq<char>, b: Seq<char>)
    requires
        sound(t),
        number_of(t, a) is Some,
        number_of(t, a) == number_of(t, b),
    ensures
        a == b,
{
    lemma_path_at(t.entries, a);
    lemma_path_at(t.entries, b);
    if a != root_path() && b != root_path() {
        let (i, j) = (path_at(t.entries, a), path_at(t.entries, b));
        lemma_found(t, i);
        lemma_found(t, j);
    }
}

/// Asking for a new path makes at most the path forgotten that was used longest ago.
pub proof fn law_only_the_oldest_gives_way(t: TableView, path: Seq<char>, other: Seq<char>)
    requires
        sound(t),
        t.next < u64::MAX,
        knows_path(t, other),
        other != t.entries[0].1,
    ensures
        number_of(asked_for(t, path), other) == number_of(t, other),
{
    law_number_leads_back(t, path);
    let u = asked_for(t, path);
    lemma_path_at(t.entries, other);
    lemma_path_at(t.entries, path);
    let k = path_at(t.entries, other);
    if path != root_path() {
        let j = if knows_path(t, path) {
            let i = path_at(t.entries, path);
            if k == i {
                u.entries.len() - 1
            } else if k < i {
                k
            } else {
                k - 1
            }
        } else if t.entries.len() == t.cap {
            k - 1
        } else {
            k
        };
        assert(u.entries[j] == t.entries[k]);
        lemma_found(u, j);
        lemma_found(t, k);
    }
}

/// A number that was given out stands for one path as long as the table keeps it: whatever is
/// asked for or looked up, it never stands for another.
pub proof fn law_numbers_are_not_reused(t: TableView, path: Seq<char>, ino: u64)
    requires
        sound(t),
        t.next < u64::MAX,
        ino < t.next,
        path_of(asked_for(t, path), ino) is Some,
    ensures
        path_of(t, ino) == path_of(asked_for(t, path), ino),
{
    law_number_leads_back(t, path);
    let u = asked_for(t, path);
    lemma_ino_at(u.entries, ino);
    lemma_path_at(t.entries, path);
    if ino != ROOT_INO && path != root_path() {
        let j = ino_at(u.entries, ino);
        let k = if knows_path(t, path) {
            let i = path_at(t.entries, path);
            if j == u.entries.len() - 1 {
                i
            } else if j < i {
                j
            } else {
                j + 1
            }
        } else if t.entries.len() == t.cap {
            j + 1
        } else {
            j
        };
        assert(t.entries[k] == u.entries[j]);
        lemma_found(t, k);
    }
}

/// A renamed path keeps its number: the new path has it, its number leads to the new path, and the
/// old path has none.
pub proof fn law_rename_keeps_the_number(t: TableView, old_path: Seq<char>, new_path: Seq<char>)
    requires
        sound(t),
        can_rename(t, old_path, new_path),
        old_path != new_path,
    ensures
        number_of(renamed(t, old_path, new_path), new_path) == number_of(t, old_path),
        path_of(renamed(t, old_path, new_path), number_of(t, old_path)->0) == Some(new_path),
        number_of(renamed(t, old_path, new_path), old_path) is None,
{
    let u = renamed(t, old_path, new_path);
    let i = path_at(t.entries, old_path);
    lemma_path_at(t.entries, old_path);
    let s1 = without_path(t.entries, old_path);
    lemma_path_at(s1, new_path);
    let s2 = without_path(s1, new_path);
    let j = path_at(s1, new_path);
    let ino = t.entries[i].0;
    let from1 = |a: int|
        if a < i {
            a
        } else {
            a + 1
        };
    let from2 = |a: int|
        if j < s1.len() && a >= j {
            a + 1
        } else {
            a
        };
    assert forall|a: int| 0 <= a < s1.len() implies (#[trigger] s1[a]) == t.entries[from1(a)] && s1[a].1
        != old_path && s1[a].0 != ino by {
        if from1(a) < i {
            assert(t.entries[from1(a)].0 != t.entries[i].0);
        } else {
            assert(t.entries[i].0 != t.entries[from1(a)].0);
        }
    }
    assert forall|a: int| 0 <= a < s2.len() implies (#[trigger] s2[a]) == s1[from2(a)] && s2[a].1
        != old_path && s2[a].0 != ino && s2[a].1 != new_path by {
        assert(s1[from2(a)].0 != ino);
        if s1[from2(a)].1 == new_path {
            let x = from1(from2(a));
            let y = from1(j);
            assert(t.entries[x].1 == t.entries[y].1);
        }
    }
    lemma_path_at(u.entries, new_path);
    lemma_path_at(u.entries, old_path);
    lemma_ino_at(u.entries, ino);
    let last = u.entries.len() - 1;
    assert(u.entries[last] == (ino, new_path));
    if path_at(u.entries, new_path) < last {
        assert(s2[path_at(u.entries, new_path)].1 == new_path);
    }
    if ino_at(u.entries, ino) < last {
        assert(s2[ino_at(u.entries, ino)].0 == ino);
    }
    if path_at(u.entries, old_path) < u.entries.len() {
        if path_at(u.entries, old_path) < last {
            assert(s2[path_at(u.entries, old_path)].1 == old_path);
        }
    }
}

} // verus!
