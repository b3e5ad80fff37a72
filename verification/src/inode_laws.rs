//! What holds of the inode numbers, number by number and path by path.
use vstd::prelude::*;
use vstd::string::*;

use crate::inode::{
    asked_for, knows_ino, knows_path, law_rename_keeps_the_number, lemma_ino_at, lemma_path_at,
    looked_up, number_of, number_when_asked, path_of, renamed, root_path, sound, InodeTable,
    TableView,
};

verus! {

broadcast use vstd::seq_lib::group_seq_properties;

/// Whether a table keeps the number `ino` for the path `path`; the root has the first number at all
/// times.
pub open spec fn keeps(t: TableView, ino: u64, path: Seq<char>) -> bool {
    ||| ino == 1 && path == "/"@
    ||| ino != 1 && path != "/"@ && exists|i: int|
        0 <= i < t.entries.len() && #[trigger] t.entries[i] == (ino, path)
}

pub proof fn lemma_keeps(t: TableView, ino: u64, path: Seq<char>)
    requires
        sound(t),
    ensures
        keeps(t, ino, path) <==> number_of(t, path) == Some(ino),
        keeps(t, ino, path) <==> path_of(t, ino) == Some(path),
{
    lemma_path_at(t.entries, path);
    lemma_ino_at(t.entries, ino);
    if keeps(t, ino, path) && ino != 1 {
        let i = choose|i: int| 0 <= i < t.entries.len() && #[trigger] t.entries[i] == (ino, path);
        assert(t.entries[i].1 == path && t.entries[i].0 == ino);
        assert(knows_path(t, path) && knows_ino(t, ino));
        let j = crate::inode::path_at(t.entries, path);
        let k = crate::inode::ino_at(t.entries, ino);
        assert(i == j && i == k);
    }
    if number_of(t, path) == Some(ino) && path != root_path() {
        let j = crate::inode::path_at(t.entries, path);
        assert(t.entries[j] == (ino, path));
    }
    if path_of(t, ino) == Some(path) && ino != 1 {
        let k = crate::inode::ino_at(t.entries, ino);
        assert(t.entries[k] == (ino, path));
    }
}

/// A path that was not asked for before and is new to the table.
pub proof fn lemma_unknown(t: TableView, path: Seq<char>)
    requires
        sound(t),
    ensures
        number_of(t, path) is None <==> forall|n: u64| !#[trigger] keeps(t, n, path),
{
    if number_of(t, path) is None {
        assert forall|n: u64| !#[trigger] keeps(t, n, path) by {
            lemma_keeps(t, n, path);
        }
    } else {
        lemma_keeps(t, number_of(t, path)->0, path);
        assert(keeps(t, number_of(t, path)->0, path));
    }
}

pub proof fn lemma_no_path(t: TableView, ino: u64)
    requires
        sound(t),
    ensures
        path_of(t, ino) is None <==> forall|p: Seq<char>| !#[trigger] keeps(t, ino, p),
{
    if path_of(t, ino) is None {
        assert forall|p: Seq<char>| !#[trigger] keeps(t, ino, p) by {
            lemma_keeps(t, ino, p);
        }
    } else {
        lemma_keeps(t, ino, path_of(t, ino)->0);
        assert(keeps(t, ino, path_of(t, ino)->0));
    }
}

/// Using an entry keeps all numbers.
pub proof fn lemma_looked_up(t: TableView, ino: u64, n: u64, path: Seq<char>)
    requires
        sound(t),
    ensures
        keeps(looked_up(t, ino), n, path) <==> keeps(t, n, path),
        looked_up(t, ino).next == t.next,
        looked_up(t, ino).dirs == t.dirs,
        looked_up(t, ino).entries.len() == t.entries.len(),
{
    lemma_ino_at(t.entries, ino);
    if ino != 1 && knows_ino(t, ino) {
        let i = crate::inode::ino_at(t.entries, ino);
        lemma_moved_to_the_end(t, looked_up(t, ino), i, n, path);
    }
}

proof fn lemma_moved_to_the_end(t: TableView, u: TableView, i: int, n: u64, path: Seq<char>)
    requires
        0 <= i < t.entries.len(),
        u.entries == t.entries.remove(i).push(t.entries[i]),
    ensures
        keeps(u, n, path) <==> keeps(t, n, path),
{
    if exists|j: int| 0 <= j < t.entries.len() && #[trigger] t.entries[j] == (n, path) {
        let j = choose|j: int| 0 <= j < t.entries.len() && #[trigger] t.entries[j] == (n, path);
        if j < i {
            assert(u.entries[j] == (n, path));
        } else if j > i {
            assert(u.entries[j - 1] == (n, path));
        } else {
            assert(u.entries[u.entries.len() - 1] == (n, path));
        }
    }
    if exists|j: int| 0 <= j < u.entries.len() && #[trigger] u.entries[j] == (n, path) {
        let j = choose|j: int| 0 <= j < u.entries.len() && #[trigger] u.entries[j] == (n, path);
        if j == u.entries.len() - 1 {
            assert(t.entries[i] == (n, path));
        } else if j < i {
            assert(t.entries[j] == (n, path));
        } else {
            assert(t.entries[j + 1] == (n, path));
        }
    }
}

/// Asking for a path keeps every number but, where the table is full and the path is new, the one
/// that was used longest ago.
pub proof fn lemma_asked(t: TableView, path: Seq<char>)
    requires
        sound(t),
        t.next < u64::MAX,
    ensures
        ({
            let u = asked_for(t, path);
            let r = number_when_asked(t, path);
            &&& sound(u)
            &&& keeps(u, r, path)
            &&& forall|n: u64| #[trigger] keeps(t, n, path) ==> r == n
            &&& (exists|n: u64| #[trigger] keeps(t, n, path)) ==> u.next == t.next && u.entries.len()
                == t.entries.len() && forall|n: u64, p: Seq<char>| #[trigger]
                keeps(u, n, p) <==> keeps(t, n, p)
            &&& (forall|n: u64| !#[trigger] keeps(t, n, path)) ==> {
                &&& r == t.next
                &&& u.next == t.next + 1
                &&& t.entries.len() < t.cap ==> u.entries == t.entries.push((r, path))
                &&& t.entries.len() == t.cap ==> u.entries == t.entries.drop_first().push((r, path))
            }
            &&& u.dirs == t.dirs
            &&& u.cap == t.cap
        }),
{
    crate::inode::law_number_leads_back(t, path);
    let u = asked_for(t, path);
    let r = number_when_asked(t, path);
    lemma_keeps(u, r, path);
    lemma_unknown(t, path);
    assert forall|n: u64| #[trigger] keeps(t, n, path) implies r == n by {
        lemma_keeps(t, n, path);
    }
    lemma_path_at(t.entries, path);
    if exists|n: u64| #[trigger] keeps(t, n, path) {
        assert forall|n: u64, p: Seq<char>| #[trigger] keeps(u, n, p) <==> keeps(t, n, p) by {
            if path != root_path() {
                lemma_moved_to_the_end(t, u, crate::inode::path_at(t.entries, path), n, p);
            }
        }
    }
}

/// While there is room, asking for a path forgets nothing.
pub proof fn lemma_asked_with_room(t: TableView, path: Seq<char>)
    requires
        sound(t),
        t.next < u64::MAX,
        t.entries.len() < t.cap,
    ensures
        forall|n: u64, p: Seq<char>| #[trigger] keeps(t, n, p) ==> keeps(asked_for(t, path), n, p),
{
    lemma_asked(t, path);
    let u = asked_for(t, path);
    assert forall|n: u64, p: Seq<char>| #[trigger] keeps(t, n, p) implies keeps(u, n, p) by {
        if forall|m: u64| !#[trigger] keeps(t, m, path) {
            if n != 1 {
                let k = choose|k: int| 0 <= k < t.entries.len() && #[trigger] t.entries[k] == (n, p);
                assert(u.entries[k] == (n, p));
            }
        }
    }
}

/// The number of a path is the one that is kept for it; a path that has none gets a number that was
/// never given out, and that number is kept for it. What is kept for other paths stays, except that a
/// new path takes the place of the one that was used longest ago where there is no room; the path is
/// from then on the one that was used last.
pub proof fn law_number_is_kept(t: &mut InodeTable, path: &str, r: u64)
    requires
        old(t).wf(),
        old(t)@.next < u64::MAX,
        call_ensures(InodeTable::ino_for_path, (t, path), r),
    ensures
        final(t).wf(),
        keeps(final(t)@, r, path@),
        forall|n: u64| #[trigger] keeps(old(t)@, n, path@) ==> r == n,
        path@ != "/"@ ==> final(t)@.entries.len() > 0 && final(t)@.entries.last() == (r, path@),
        (exists|n: u64| #[trigger] keeps(old(t)@, n, path@)) ==> {
            &&& final(t)@.next == old(t)@.next
            &&& forall|n: u64, p: Seq<char>| #[trigger]
                keeps(final(t)@, n, p) <==> keeps(old(t)@, n, p)
        },
        (forall|n: u64| !#[trigger] keeps(old(t)@, n, path@)) ==> {
            &&& r == old(t)@.next
            &&& final(t)@.next == r + 1
            &&& old(t)@.entries.len() < old(t)@.cap ==> final(t)@.entries == old(t)@.entries.push(
                (r, path@),
            )
            &&& old(t)@.entries.len() == old(t)@.cap ==> final(t)@.entries
                == old(t)@.entries.drop_first().push((r, path@))
        },
        final(t)@.dirs == old(t)@.dirs,
        final(t)@.cap == old(t)@.cap,
{
    old(t).law_table_is_sound();
    lemma_asked(old(t)@, path@);
    lemma_path_at(old(t)@.entries, path@);
}

/// The path of a number is the one that it is kept for; a number that is not kept has none. Looking
/// it up makes it the one that was used last, and changes nothing else.
pub proof fn law_path_is_the_one_kept(t: &mut InodeTable, ino: u64, r: Option<String>)
    requires
        old(t).wf(),
        call_ensures(InodeTable::path_for_ino, (t, ino), r),
    ensures
        final(t).wf(),
        r matches Some(p) ==> keeps(old(t)@, ino, p@),
        r is None ==> forall|p: Seq<char>| !#[trigger] keeps(old(t)@, ino, p),
        forall|n: u64, p: Seq<char>| #[trigger] keeps(final(t)@, n, p) <==> keeps(old(t)@, n, p),
        ino != 1 && r is Some ==> final(t)@.entries.len() > 0 && final(t)@.entries.last() == (
            ino,
            (r->0)@,
        ),
        final(t)@.next == old(t)@.next,
        final(t)@.dirs == old(t)@.dirs,
{
    let o = old(t)@;
    old(t).law_table_is_sound();
    lemma_no_path(o, ino);
    lemma_ino_at(o.entries, ino);
    if r is Some {
        lemma_keeps(o, ino, (r->0)@);
    }
    assert forall|n: u64, p: Seq<char>| #[trigger] keeps(final(t)@, n, p) <==> keeps(o, n, p) by {
        lemma_looked_up(o, ino, n, p);
    }
    lemma_looked_up(o, ino, ino, o.entries[0].1);
}

/// Looking at the number of a path gives the one that is kept for it, if one is.
pub proof fn law_peek_is_the_number_kept(t: &InodeTable, path: &str, r: Option<u64>)
    requires
        t.wf(),
        call_ensures(InodeTable::peek_ino, (t, path), r),
    ensures
        r matches Some(n) ==> keeps(t@, n, path@),
        r is None ==> forall|n: u64| !#[trigger] keeps(t@, n, path@),
{
    t.law_table_is_sound();
    lemma_unknown(t@, path@);
    if r is Some {
        lemma_keeps(t@, r->0, path@);
    }
}

/// A rename of a path gives its number to the new path and leaves the old one with none; what the new
/// path had is forgotten, and every other path keeps its number. Without a number for the old path,
/// or with the root on either side, nothing changes.
pub proof fn law_rename_gives_the_number(
    t: &mut InodeTable,
    old_path: &str,
    new_path: &str,
    r: Option<u64>,
)
    requires
        old(t).wf(),
        call_ensures(InodeTable::rename_path, (t, old_path, new_path), r),
    ensures
        final(t).wf(),
        ({
            let goes = old_path@ != "/"@ && new_path@ != "/"@ && exists|n: u64| #[trigger]
                keeps(old(t)@, n, old_path@);
            &&& r is Some <==> goes
            &&& !goes ==> final(t)@ == old(t)@
            &&& goes ==> keeps(old(t)@, r->0, old_path@) && keeps(final(t)@, r->0, new_path@)
            &&& goes && old_path@ != new_path@ ==> forall|n: u64| !#[trigger]
                keeps(final(t)@, n, old_path@)
            &&& goes ==> forall|n: u64, p: Seq<char>|
                p != old_path@ && p != new_path@ ==> (#[trigger] keeps(final(t)@, n, p) <==> keeps(
                    old(t)@,
                    n,
                    p,
                ))
        }),
        final(t)@.next == old(t)@.next,
        final(t)@.dirs == old(t)@.dirs,
{
    let o = old(t)@;
    old(t).law_table_is_sound();
    final(t).law_table_is_sound();
    lemma_unknown(o, old_path@);
    lemma_path_at(o.entries, old_path@);
    if r is Some {
        lemma_keeps(o, r->0, old_path@);
        assert(keeps(o, r->0, old_path@));
        lemma_renamed(o, final(t)@, old_path@, new_path@, r->0);
    }
}

/// Where the number `ino` goes from `a` to `b`, every other path keeps its number.
pub proof fn lemma_renamed(o: TableView, u: TableView, a: Seq<char>, b: Seq<char>, ino: u64)
    requires
        sound(o),
        sound(u),
        u == renamed(o, a, b),
        a != "/"@,
        b != "/"@,
        keeps(o, ino, a),
    ensures
        keeps(u, ino, b),
        a != b ==> forall|n: u64| !#[trigger] keeps(u, n, a),
        forall|n: u64, p: Seq<char>|
            p != a && p != b ==> (#[trigger] keeps(u, n, p) <==> keeps(o, n, p)),
{
    lemma_keeps(o, ino, a);
    lemma_path_at(o.entries, a);
    let i = crate::inode::path_at(o.entries, a);
    let s1 = o.entries.remove(i);
    lemma_path_at(s1, b);
    let j = crate::inode::path_at(s1, b);
    let s2 = if j < s1.len() {
        s1.remove(j)
    } else {
        s1
    };
    assert(u.entries == s2.push((ino, b)));
    assert(u.entries[u.entries.len() - 1] == (ino, b));
    assert(keeps(u, ino, b));
    assert forall|n: u64, p: Seq<char>| p != a && p != b implies (#[trigger] keeps(u, n, p)
        <==> keeps(o, n, p)) by {
        if keeps(u, n, p) && n != 1 {
            let k = choose|k: int| 0 <= k < u.entries.len() && #[trigger] u.entries[k] == (n, p);
            assert(s2[k] == (n, p));
            let k1 = if j < s1.len() && k >= j {
                k + 1
            } else {
                k
            };
            assert(s1[k1] == (n, p));
            let k2 = if k1 >= i {
                k1 + 1
            } else {
                k1
            };
            assert(o.entries[k2] == (n, p));
        }
        if keeps(o, n, p) && n != 1 {
            let k = choose|k: int| 0 <= k < o.entries.len() && #[trigger] o.entries[k] == (n, p);
            let k1 = if k > i {
                k - 1
            } else {
                k
            };
            assert(s1[k1] == (n, p));
            let k2 = if j < s1.len() && k1 > j {
                k1 - 1
            } else {
                k1
            };
            assert(s2[k2] == (n, p));
            assert(u.entries[k2] == (n, p));
        }
    }
    if a != b {
        law_rename_keeps_the_number(o, a, b);
        lemma_unknown(u, a);
    }
}

/// A path is known to be a directory once it was remembered as one, and not before.
pub proof fn law_tracked_is_a_directory(
    t: &mut InodeTable,
    path: &str,
    other: &str,
    before: bool,
    after: bool,
)
    requires
        old(t).wf(),
        call_ensures(InodeTable::is_dir, (&*old(t), other), before),
        call_ensures(InodeTable::track_dir, (t, path), ()),
        call_ensures(InodeTable::is_dir, (&*final(t), other), after),
    ensures
        after <==> before || other@ == path@,
        final(t)@.entries == old(t)@.entries,
        final(t)@.next == old(t)@.next,
{
}

/// No number and no path is kept twice, there are never more than the table is made for, and no number
/// is kept that was not given out.
pub proof fn law_numbers_and_paths_are_paired(t: &InodeTable)
    requires
        t.wf(),
    ensures
        t@.entries.len() <= t@.cap,
        forall|n: u64, m: u64, p: Seq<char>|
            #[trigger] keeps(t@, n, p) && #[trigger] keeps(t@, m, p) ==> n == m,
        forall|n: u64, p: Seq<char>, q: Seq<char>|
            #[trigger] keeps(t@, n, p) && #[trigger] keeps(t@, n, q) ==> p == q,
        forall|n: u64, p: Seq<char>| #[trigger] keeps(t@, n, p) ==> 1 <= n < t@.next,
{
    t.law_table_is_sound();
    assert forall|n: u64, m: u64, p: Seq<char>|
        #[trigger] keeps(t@, n, p) && #[trigger] keeps(t@, m, p) implies n == m by {
        lemma_keeps(t@, n, p);
        lemma_keeps(t@, m, p);
    }
    assert forall|n: u64, p: Seq<char>, q: Seq<char>|
        #[trigger] keeps(t@, n, p) && #[trigger] keeps(t@, n, q) implies p == q by {
        lemma_keeps(t@, n, p);
        lemma_keeps(t@, n, q);
    }
}

/// A new table keeps nothing but the root, gives out the second number first, and keeps as many as it
/// is made for.
pub proof fn law_new_table_is_empty(cap: usize, r: InodeTable, n: u64, p: Seq<char>)
    requires
        call_ensures(InodeTable::with_capacity, (cap,), r),
    ensures
        keeps(r@, n, p) <==> n == 1 && p == "/"@,
        r@.next == 2,
        r@.cap == cap,
        r@.dirs == Set::<Seq<char>>::empty(),
{
}

} // verus!
