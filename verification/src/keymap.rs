//! A map with string keys, kept as a vector of entries in key order.
use vstd::prelude::*;

use crate::text::{place, Placement};

verus! {

broadcast use vstd::seq_lib::group_seq_properties;

/// A value that can be duplicated without changing what it stands for.
pub trait Duplicate: View + Sized {
    fn duplicate(&self) -> (r: Self)
        ensures
            r@ == self@,
    ;
}

impl Duplicate for u64 {
    fn duplicate(&self) -> (r: Self) {
        *self
    }
}

impl Duplicate for bool {
    fn duplicate(&self) -> (r: Self) {
        *self
    }
}

impl Duplicate for String {
    fn duplicate(&self) -> (r: Self) {
        self.clone()
    }
}

impl Duplicate for Vec<u8> {
    fn duplicate(&self) -> (r: Self) {
        let r = self.clone();
        assert(r@ =~= self@);
        r
    }
}

/// Whether `keys` are in strictly ascending order.
pub open spec fn ascending(keys: Seq<Seq<char>>) -> bool {
    forall|i: int, j: int| 0 <= i < j < keys.len() ==> precedes_at(keys, i, j)
}

/// Whether the key at `i` comes before the key at `j`.
pub open spec fn precedes_at(keys: Seq<Seq<char>>, i: int, j: int) -> bool {
    crate::text::precedes(keys[i], keys[j])
}

/// Keys in strictly ascending order are distinct.
pub proof fn lemma_ascending_distinct(keys: Seq<Seq<char>>)
    requires
        ascending(keys),
    ensures
        keys.no_duplicates(),
{
    assert forall|i: int, j: int| 0 <= i < keys.len() && 0 <= j < keys.len() && i != j implies keys[i]
        != keys[j] by {
        if i < j {
            assert(precedes_at(keys, i, j));
            crate::text::lemma_precedes_asymmetric(keys[i], keys[j]);
        } else {
            assert(precedes_at(keys, j, i));
            crate::text::lemma_precedes_asymmetric(keys[j], keys[i]);
        }
    }
}

/// Whether `entries` are the entries of `m`, each once, in ascending order of the keys.
pub open spec fn lists<T>(entries: Seq<(Seq<char>, T)>, m: Map<Seq<char>, T>) -> bool {
    &&& ascending(entries.map_values(|e: (Seq<char>, T)| e.0))
    &&& forall|i: int| 0 <= i < entries.len() ==> #[trigger] m.dom().contains(entries[i].0)
        && m[entries[i].0] == entries[i].1
    &&& forall|k: Seq<char>| #[trigger] m.dom().contains(k) ==> exists|i: int|
        0 <= i < entries.len() && #[trigger] entries[i].0 == k
}

/// The map that a sequence of entries with distinct keys stands for.
pub open spec fn map_of<T>(entries: Seq<(Seq<char>, T)>) -> Map<Seq<char>, T> {
    Map::new(
        |k: Seq<char>| exists|i: int| 0 <= i < entries.len() && #[trigger] entries[i].0 == k,
        |k: Seq<char>|
            entries[choose|i: int| 0 <= i < entries.len() && #[trigger] entries[i].0 == k].1,
    )
}

proof fn lemma_distinct<T>(entries: Seq<(Seq<char>, T)>, i: int, j: int)
    requires
        ascending(entries.map_values(|e: (Seq<char>, T)| e.0)),
        0 <= i < entries.len(),
        0 <= j < entries.len(),
        entries[i].0 == entries[j].0,
    ensures
        i == j,
{
    let keys = entries.map_values(|e: (Seq<char>, T)| e.0);
    if i < j {
        assert(precedes_at(keys, i, j));
        crate::text::lemma_precedes_asymmetric(keys[i], keys[j]);
    } else if j < i {
        assert(precedes_at(keys, j, i));
        crate::text::lemma_precedes_asymmetric(keys[j], keys[i]);
    }
}

/// Entries in ascending order list the map that they stand for.
pub proof fn lemma_map_of<T>(entries: Seq<(Seq<char>, T)>)
    requires
        ascending(entries.map_values(|e: (Seq<char>, T)| e.0)),
    ensures
        lists(entries, map_of(entries)),
        map_of(entries).dom().finite(),
        map_of(entries).dom().len() == entries.len(),
{
    let m = map_of(entries);
    let keys = entries.map_values(|e: (Seq<char>, T)| e.0);
    assert forall|i: int| 0 <= i < entries.len() implies #[trigger] m.dom().contains(entries[i].0)
        && m[entries[i].0] == entries[i].1 by {
        let j = choose|j: int| 0 <= j < entries.len() && #[trigger] entries[j].0 == entries[i].0;
        lemma_distinct(entries, i, j);
    }
    assert(keys.no_duplicates()) by {
        assert forall|i: int, j: int| 0 <= i < keys.len() && 0 <= j < keys.len() && i != j implies keys[i]
            != keys[j] by {
            if keys[i] == keys[j] {
                assert(entries[i].0 == entries[j].0);
                lemma_distinct(entries, i, j);
            }
        }
    }
    keys.unique_seq_to_set();
    assert(keys.to_set() =~= m.dom()) by {
        assert forall|k: Seq<char>| keys.to_set().contains(k) <==> m.dom().contains(k) by {
            if keys.to_set().contains(k) {
                let i = choose|i: int| 0 <= i < keys.len() && keys[i] == k;
                assert(entries[i].0 == k);
            }
            if m.dom().contains(k) {
                let i = choose|i: int| 0 <= i < entries.len() && #[trigger] entries[i].0 == k;
                assert(keys[i] == k);
            }
        }
    }
}

/// A list of a map's entries holds each key once.
pub proof fn lemma_listed_once<T>(l: Seq<(Seq<char>, T)>, m: Map<Seq<char>, T>, i: int, j: int)
    requires
        lists(l, m),
        0 <= i < j < l.len(),
    ensures
        l[i].0 != l[j].0,
{
    let keys = l.map_values(|e: (Seq<char>, T)| e.0);
    assert(precedes_at(keys, i, j));
    crate::text::lemma_precedes_asymmetric(keys[i], keys[j]);
}

/// The part of a map whose entries `keep` holds of.
pub open spec fn part<T>(m: Map<Seq<char>, T>, keep: spec_fn((Seq<char>, T)) -> bool) -> Map<
    Seq<char>,
    T,
> {
    Map::new(|k: Seq<char>| m.dom().contains(k) && keep((k, m[k])), |k: Seq<char>| m[k])
}

/// One more entry is looked at when filtering a list.
pub proof fn lemma_filter_step<E>(l: Seq<E>, n: int, keep: spec_fn(E) -> bool)
    requires
        0 <= n < l.len(),
    ensures
        l.take(n + 1).filter(keep) == (if keep(l[n]) {
            l.take(n).filter(keep).push(l[n])
        } else {
            l.take(n).filter(keep)
        }),
{
    reveal(Seq::filter);
    assert(l.take(n + 1).drop_last() =~= l.take(n));
}

proof fn lemma_filter_from<E>(l: Seq<E>, keep: spec_fn(E) -> bool)
    ensures
        forall|i: int|
            0 <= i < l.filter(keep).len() ==> l.contains(#[trigger] l.filter(keep)[i]) && keep(
                l.filter(keep)[i],
            ),
        forall|e: E| #[trigger] l.contains(e) && keep(e) ==> l.filter(keep).contains(e),
    decreases l.len(),
{
    reveal(Seq::filter);
    if l.len() > 0 {
        let rest = l.drop_last();
        lemma_filter_from(rest, keep);
        assert forall|i: int| 0 <= i < l.filter(keep).len() implies l.contains(
            #[trigger] l.filter(keep)[i],
        ) && keep(l.filter(keep)[i]) by {
            if i < rest.filter(keep).len() {
                assert(rest.contains(rest.filter(keep)[i]));
                let j = choose|j: int| 0 <= j < rest.len() && rest[j] == rest.filter(keep)[i];
                assert(l[j] == l.filter(keep)[i]);
            } else {
                assert(l[l.len() - 1] == l.filter(keep)[i]);
            }
        }
        assert forall|e: E| #[trigger] l.contains(e) && keep(e) implies l.filter(keep).contains(e) by {
            let j = choose|j: int| 0 <= j < l.len() && l[j] == e;
            if j < rest.len() {
                assert(rest[j] == e);
                assert(rest.contains(e));
                let i = choose|i: int| 0 <= i < rest.filter(keep).len() && rest.filter(keep)[i] == e;
                assert(l.filter(keep)[i] == e);
            } else {
                assert(l.filter(keep)[l.filter(keep).len() - 1] == e);
            }
        }
    }
}

proof fn lemma_filter_ascending<T>(l: Seq<(Seq<char>, T)>, keep: spec_fn((Seq<char>, T)) -> bool)
    requires
        ascending(l.map_values(|e: (Seq<char>, T)| e.0)),
    ensures
        ascending(l.filter(keep).map_values(|e: (Seq<char>, T)| e.0)),
    decreases l.len(),
{
    reveal(Seq::filter);
    if l.len() > 0 {
        let rest = l.drop_last();
        let kl = l.map_values(|e: (Seq<char>, T)| e.0);
        let kr = rest.map_values(|e: (Seq<char>, T)| e.0);
        assert forall|i: int, j: int| 0 <= i < j < kr.len() implies precedes_at(kr, i, j) by {
            assert(precedes_at(kl, i, j));
        }
        lemma_filter_ascending(rest, keep);
        lemma_filter_from(rest, keep);
        let kf = l.filter(keep).map_values(|e: (Seq<char>, T)| e.0);
        let kg = rest.filter(keep).map_values(|e: (Seq<char>, T)| e.0);
        assert forall|i: int, j: int| 0 <= i < j < kf.len() implies precedes_at(kf, i, j) by {
            if j < kg.len() {
                assert(precedes_at(kg, i, j));
            } else {
                assert(rest.contains(rest.filter(keep)[i]));
                let p = choose|p: int| 0 <= p < rest.len() && rest[p] == rest.filter(keep)[i];
                assert(precedes_at(kl, p, l.len() - 1));
            }
        }
    }
}

/// Filtering the list of a map's entries lists the part of the map that the filter keeps.
pub proof fn lemma_filter_lists<T>(
    l: Seq<(Seq<char>, T)>,
    m: Map<Seq<char>, T>,
    keep: spec_fn((Seq<char>, T)) -> bool,
)
    requires
        lists(l, m),
    ensures
        lists(l.filter(keep), part(m, keep)),
{
    lemma_filter_ascending(l, keep);
    lemma_filter_from(l, keep);
    let f = l.filter(keep);
    let p = part(m, keep);
    assert forall|i: int| 0 <= i < f.len() implies #[trigger] p.dom().contains(f[i].0) && p[f[i].0]
        == f[i].1 by {
        assert(l.contains(f[i]));
        let j = choose|j: int| 0 <= j < l.len() && l[j] == f[i];
        assert(m.dom().contains(l[j].0));
    }
    assert forall|k: Seq<char>| #[trigger] p.dom().contains(k) implies exists|i: int|
        0 <= i < f.len() && #[trigger] f[i].0 == k by {
        let j = choose|j: int| 0 <= j < l.len() && #[trigger] l[j].0 == k;
        assert(m.dom().contains(l[j].0));
        assert(l.contains(l[j]));
        let i = choose|i: int| 0 <= i < f.len() && f[i] == l[j];
        assert(f[i].0 == k);
    }
}

/// The map that a list of entries fills, where a later entry takes the place of an earlier one of
/// the same key.
pub open spec fn filled<T>(l: Seq<(Seq<char>, T)>) -> Map<Seq<char>, T>
    decreases l.len(),
{
    if l.len() == 0 {
        Map::empty()
    } else {
        filled(l.drop_last()).insert(l.last().0, l.last().1)
    }
}

proof fn lemma_filled_from<T>(l: Seq<(Seq<char>, T)>)
    ensures
        forall|k: Seq<char>| #[trigger]
            filled(l).dom().contains(k) ==> exists|i: int|
                0 <= i < l.len() && #[trigger] l[i].0 == k && filled(l)[k] == l[i].1,
        forall|i: int| 0 <= i < l.len() ==> filled(l).dom().contains(#[trigger] l[i].0),
    decreases l.len(),
{
    if l.len() > 0 {
        let rest = l.drop_last();
        lemma_filled_from(rest);
        assert forall|k: Seq<char>| #[trigger] filled(l).dom().contains(k) implies exists|i: int|
            0 <= i < l.len() && #[trigger] l[i].0 == k && filled(l)[k] == l[i].1 by {
            if k == l.last().0 {
                assert(l[l.len() - 1].0 == k);
            } else {
                assert(filled(rest).dom().contains(k));
                let i = choose|i: int|
                    0 <= i < rest.len() && #[trigger] rest[i].0 == k && filled(rest)[k] == rest[i].1;
                assert(l[i].0 == k);
            }
        }
        assert forall|i: int| 0 <= i < l.len() implies filled(l).dom().contains(#[trigger] l[i].0) by {
            if i < rest.len() {
                assert(rest[i].0 == l[i].0);
            }
        }
    }
}

/// What a map lists fills the map again: written out entry by entry and read back, it is as it was.
pub proof fn law_filled_from_its_list<T>(l: Seq<(Seq<char>, T)>, m: Map<Seq<char>, T>)
    requires
        lists(l, m),
    ensures
        filled(l) == m,
{
    lemma_filled_from(l);
    assert forall|k: Seq<char>| #[trigger] filled(l).dom().contains(k) <==> m.dom().contains(k) by {
        if filled(l).dom().contains(k) {
            let i = choose|i: int| 0 <= i < l.len() && #[trigger] l[i].0 == k && filled(l)[k] == l[i].1;
            assert(m.dom().contains(l[i].0));
        }
        if m.dom().contains(k) {
            let i = choose|i: int| 0 <= i < l.len() && #[trigger] l[i].0 == k;
            assert(filled(l).dom().contains(l[i].0));
        }
    }
    assert forall|k: Seq<char>| #[trigger] filled(l).dom().contains(k) implies filled(l)[k] == m[k] by {
        let i = choose|i: int| 0 <= i < l.len() && #[trigger] l[i].0 == k && filled(l)[k] == l[i].1;
        assert(m.dom().contains(l[i].0));
    }
    assert(filled(l) =~= m);
}

/// A map from strings to `V`.
#[derive(Debug, PartialEq, Eq)]
pub struct KeyMap<V: View> {
    entries: Vec<(String, V)>,
}

impl<V: View> View for KeyMap<V> {
    type V = Map<Seq<char>, V::V>;

    closed spec fn view(&self) -> Map<Seq<char>, V::V> {
        map_of(self.listing())
    }
}

pub open spec fn entry_views<V: View>(entries: Seq<(String, V)>) -> Seq<(Seq<char>, V::V)> {
    entries.map_values(|e: (String, V)| (e.0@, e.1@))
}

impl<V: View> KeyMap<V> {
    /// The entries, in the order in which they are kept.
    pub closed spec fn listing(&self) -> Seq<(Seq<char>, V::V)> {
        entry_views(self.entries@)
    }

    #[verifier::type_invariant]
    spec fn in_order(self) -> bool {
        ascending(self.listing().map_values(|e: (Seq<char>, V::V)| e.0))
    }

    /// The map without entries.
    pub fn new() -> (r: Self)
        ensures
            r@ == Map::<Seq<char>, V::V>::empty(),
    {
        let r = KeyMap { entries: Vec::new() };
        assert(r@ =~= Map::<Seq<char>, V::V>::empty());
        r
    }

    /// The number of entries.
    pub fn len(&self) -> (n: usize)
        ensures
            n == self@.dom().len(),
            n == self.listing().len(),
            self@.dom().finite(),
            lists(self.listing(), self@),
    {
        proof {
            use_type_invariant(self);
            lemma_map_of(self.listing());
        }
        self.entries.len()
    }

    /// Whether there is no entry.
    pub fn is_empty(&self) -> (r: bool)
        ensures
            r == (self@ == Map::<Seq<char>, V::V>::empty()),
            r == (self@.dom().len() == 0),
    {
        let n = self.len();
        proof {
            if n == 0 {
                assert(self@ =~= Map::<Seq<char>, V::V>::empty());
            } else {
                assert(self@.dom().contains(self.listing()[0].0));
            }
        }
        n == 0
    }

    /// The key of the entry at position `i`.
    pub fn key_at(&self, i: usize) -> (k: &String)
        requires
            i < self.listing().len(),
        ensures
            k@ == self.listing()[i as int].0,
    {
        &self.entries[i].0
    }

    /// The value of the entry at position `i`.
    pub fn value_at(&self, i: usize) -> (v: &V)
        requires
            i < self.listing().len(),
        ensures
            v@ == self.listing()[i as int].1,
    {
        &self.entries[i].1
    }

    /// The position of the first entry whose key does not come before `key`, and whether it is
    /// the entry of `key`.
    fn find(&self, key: &str) -> (r: (usize, bool))
        ensures
            r.0 <= self.listing().len(),
            r.1 ==> r.0 < self.listing().len() && self.listing()[r.0 as int].0 == key@,
            r.1 == self@.dom().contains(key@),
            forall|i: int|
                0 <= i < r.0 ==> crate::text::precedes(#[trigger] self.listing()[i].0, key@),
            forall|i: int|
                r.0 <= i < self.listing().len() && !(r.1 && i == r.0) ==> crate::text::precedes(
                    key@,
                    #[trigger] self.listing()[i].0,
                ),
    {
        let ghost l = self.listing();
        let ghost keys = l.map_values(|e: (Seq<char>, V::V)| e.0);
        proof {
            use_type_invariant(self);
            lemma_map_of(l);
        }
        let n = self.entries.len();
        let mut i: usize = 0;
        while i < n
            invariant
                i <= n,
                n == l.len(),
                n == self.entries.len(),
                l == self.listing(),
                keys == l.map_values(|e: (Seq<char>, V::V)| e.0),
                ascending(keys),
                lists(l, self@),
                forall|j: int| 0 <= j < i ==> crate::text::precedes(#[trigger] l[j].0, key@),
            decreases n - i,
        {
            let p = place(self.entries[i].0.as_str(), key);
            if let Placement::Same = p {
                proof {
                    assert(l[i as int].0 == key@);
                    assert(self@.dom().contains(l[i as int].0));
                    assert forall|j: int| i < j < l.len() implies crate::text::precedes(
                        key@,
                        #[trigger] l[j].0,
                    ) by {
                        assert(precedes_at(keys, i as int, j));
                    }
                }
                return (i, true);
            }
            if let Placement::After = p {
                proof {
                    assert forall|j: int| i <= j < l.len() implies crate::text::precedes(
                        key@,
                        #[trigger] l[j].0,
                    ) by {
                        if i < j {
                            assert(precedes_at(keys, i as int, j));
                            crate::text::lemma_precedes_transitive(key@, keys[i as int], keys[j]);
                        }
                    }
                    if self@.dom().contains(key@) {
                        let j = choose|j: int| 0 <= j < l.len() && #[trigger] l[j].0 == key@;
                        if j < i {
                            crate::text::lemma_precedes_asymmetric(l[j].0, key@);
                        } else {
                            crate::text::lemma_precedes_asymmetric(key@, l[j].0);
                        }
                    }
                }
                return (i, false);
            }
            i = i + 1;
        }
        proof {
            if self@.dom().contains(key@) {
                let j = choose|j: int| 0 <= j < l.len() && #[trigger] l[j].0 == key@;
                crate::text::lemma_precedes_asymmetric(l[j].0, key@);
            }
        }
        (i, false)
    }

    /// The value kept for `key`.
    pub fn get(&self, key: &str) -> (r: Option<&V>)
        ensures
            match r {
                Some(v) => self@.dom().contains(key@) && v@ == self@[key@],
                None => !self@.dom().contains(key@),
            },
    {
        let (i, found) = self.find(key);
        if found {
            proof {
                use_type_invariant(self);
                lemma_map_of(self.listing());
                assert(self@.dom().contains(self.listing()[i as int].0));
            }
            Some(&self.entries[i].1)
        } else {
            None
        }
    }

    /// Whether a value is kept for `key`.
    pub fn contains_key(&self, key: &str) -> (r: bool)
        ensures
            r == self@.dom().contains(key@),
    {
        let (i, found) = self.find(key);
        found
    }

    /// Keeps `value` for `key`, in place of what was kept for it.
    pub fn insert(&mut self, key: String, value: V)
        ensures
            final(self)@ == old(self)@.insert(key@, value@),
    {
        let (i, found) = self.find(key.as_str());
        let ghost before = self.listing();
        proof {
            use_type_invariant(&*self);
            lemma_map_of(before);
        }
        let ghost entry = (key@, value@);
        let mut entries: Vec<(String, V)> = Vec::new();
        std::mem::swap(&mut entries, &mut self.entries);
        if found {
            let _old = entries.remove(i);
        }
        entries.insert(i, (key, value));
        proof {
            let after = entry_views(entries@);
            if found {
                assert(after =~= before.update(i as int, entry));
            } else {
                assert(after =~= before.insert(i as int, entry));
            }
            lemma_inserted(before, i as int, found, entry);
        }
        self.entries = entries;
    }

    /// Drops what is kept for `key` and hands it back.
    pub fn remove(&mut self, key: &str) -> (r: Option<V>)
        ensures
            final(self)@ == old(self)@.remove(key@),
            match r {
                Some(v) => old(self)@.dom().contains(key@) && v@ == old(self)@[key@],
                None => !old(self)@.dom().contains(key@),
            },
    {
        let (i, found) = self.find(key);
        if found {
            let ghost before = self.listing();
            proof {
                use_type_invariant(&*self);
                lemma_map_of(before);
                assert(self@.dom().contains(before[i as int].0));
            }
            let mut entries: Vec<(String, V)> = Vec::new();
            std::mem::swap(&mut entries, &mut self.entries);
            let (_key, value) = entries.remove(i);
            proof {
                assert(entry_views(entries@) =~= before.remove(i as int));
                lemma_removed(before, i as int);
            }
            self.entries = entries;
            Some(value)
        } else {
            assert(self@.remove(key@) =~= self@);
            None
        }
    }
}

/// A list with `entry` at the position `i`: in place of what stands there, or before it.
spec fn with_entry<T>(
    before: Seq<(Seq<char>, T)>,
    i: int,
    found: bool,
    entry: (Seq<char>, T),
) -> Seq<(Seq<char>, T)> {
    if found {
        before.update(i, entry)
    } else {
        before.insert(i, entry)
    }
}

/// Whether `entry` belongs at the position `i` of an ascending list.
spec fn belongs_at<T>(
    before: Seq<(Seq<char>, T)>,
    i: int,
    found: bool,
    entry: (Seq<char>, T),
) -> bool {
    &&& ascending(before.map_values(|e: (Seq<char>, T)| e.0))
    &&& 0 <= i <= before.len()
    &&& found ==> i < before.len() && before[i].0 == entry.0
    &&& forall|j: int| 0 <= j < i ==> crate::text::precedes(#[trigger] before[j].0, entry.0)
    &&& forall|j: int|
        i <= j < before.len() && !(found && i == j) ==> crate::text::precedes(
            entry.0,
            #[trigger] before[j].0,
        )
}

#[verifier::spinoff_prover]
proof fn lemma_inserted_ascends<T>(
    before: Seq<(Seq<char>, T)>,
    i: int,
    found: bool,
    entry: (Seq<char>, T),
)
    requires
        belongs_at(before, i, found, entry),
    ensures
        ascending(with_entry(before, i, found, entry).map_values(|e: (Seq<char>, T)| e.0)),
{
    let after = with_entry(before, i, found, entry);
    let kb = before.map_values(|e: (Seq<char>, T)| e.0);
    let ka = after.map_values(|e: (Seq<char>, T)| e.0);
    let step: int = if found { 0 } else { 1 };
    assert forall|a: int, b: int| 0 <= a < b < ka.len() implies precedes_at(ka, a, b) by {
        let pa = if a < i { a } else { a - step };
        let pb = if b < i { b } else { b - step };
        if a != i && b != i {
            assert(precedes_at(kb, pa, pb));
        } else if a == i {
            assert(before[pb].0 == ka[b]);
        } else {
            assert(before[pa].0 == ka[a]);
        }
    }
}

#[verifier::spinoff_prover]
proof fn lemma_inserted<T>(before: Seq<(Seq<char>, T)>, i: int, found: bool, entry: (Seq<char>, T))
    requires
        belongs_at(before, i, found, entry),
    ensures
        ascending(with_entry(before, i, found, entry).map_values(|e: (Seq<char>, T)| e.0)),
        map_of(with_entry(before, i, found, entry)) == map_of(before).insert(entry.0, entry.1),
{
    let after = with_entry(before, i, found, entry);
    let step: int = if found { 0 } else { 1 };
    lemma_inserted_ascends(before, i, found, entry);
    lemma_map_of(before);
    lemma_map_of(after);
    let m = map_of(before).insert(entry.0, entry.1);
    assert forall|k: Seq<char>| #[trigger] map_of(after).dom().contains(k) implies m.dom().contains(
        k,
    ) && map_of(after)[k] == m[k] by {
        let a = choose|a: int| 0 <= a < after.len() && #[trigger] after[a].0 == k;
        assert(map_of(after).dom().contains(after[a].0));
        if a != i {
            let p = if a < i { a } else { a - step };
            assert(before[p] == after[a]);
            assert(map_of(before).dom().contains(before[p].0));
            if k == entry.0 {
                if p < i {
                    crate::text::lemma_precedes_asymmetric(before[p].0, entry.0);
                } else {
                    crate::text::lemma_precedes_asymmetric(entry.0, before[p].0);
                }
            }
        }
    }
    assert forall|k: Seq<char>| #[trigger] m.dom().contains(k) implies map_of(after).dom().contains(
        k,
    ) by {
        if k == entry.0 {
            assert(after[i].0 == k);
        } else {
            let p = choose|p: int| 0 <= p < before.len() && #[trigger] before[p].0 == k;
            let a = if p < i { p } else { p + step };
            assert(after[a].0 == k);
        }
    }
    assert(map_of(after).dom() =~= m.dom());
    assert(map_of(after) =~= m);
}

#[verifier::spinoff_prover]
proof fn lemma_removed<T>(before: Seq<(Seq<char>, T)>, i: int)
    requires
        ascending(before.map_values(|e: (Seq<char>, T)| e.0)),
        0 <= i < before.len(),
    ensures
        ascending(before.remove(i).map_values(|e: (Seq<char>, T)| e.0)),
        map_of(before.remove(i)) == map_of(before).remove(before[i].0),
{
    let after = before.remove(i);
    assert(ascending(after.map_values(|e: (Seq<char>, T)| e.0))) by {
        let kb = before.map_values(|e: (Seq<char>, T)| e.0);
        let ka = after.map_values(|e: (Seq<char>, T)| e.0);
        assert forall|a: int, b: int| 0 <= a < b < ka.len() implies precedes_at(ka, a, b) by {
            let pa = if a < i { a } else { a + 1 };
            let pb = if b < i { b } else { b + 1 };
            assert(precedes_at(kb, pa, pb));
        }
    }
    lemma_map_of(before);
    lemma_map_of(after);
    let m = map_of(before).remove(before[i].0);
    assert forall|k: Seq<char>| #[trigger] map_of(after).dom().contains(k) implies m.dom().contains(
        k,
    ) && map_of(after)[k] == m[k] by {
        let a = choose|a: int| 0 <= a < after.len() && #[trigger] after[a].0 == k;
        assert(map_of(after).dom().contains(after[a].0));
        let p = if a < i { a } else { a + 1 };
        assert(before[p] == after[a]);
        assert(map_of(before).dom().contains(before[p].0));
        if k == before[i].0 {
            lemma_distinct(before, p, i);
        }
    }
    assert forall|k: Seq<char>| #[trigger] m.dom().contains(k) implies map_of(after).dom().contains(
        k,
    ) by {
        let p = choose|p: int| 0 <= p < before.len() && #[trigger] before[p].0 == k;
        let a = if p < i { p } else { p - 1 };
        assert(after[a].0 == k);
    }
    assert(map_of(after).dom() =~= m.dom());
    assert(map_of(after) =~= m);
}

impl<V: Duplicate> Duplicate for KeyMap<V> {
    fn duplicate(&self) -> (r: Self) {
        proof {
            use_type_invariant(self);
        }
        let mut entries: Vec<(String, V)> = Vec::new();
        let mut i: usize = 0;
        while i < self.entries.len()
            invariant
                i <= self.entries@.len(),
                entry_views(entries@) == self.listing().take(i as int),
            decreases self.entries@.len() - i,
        {
            let ghost was = entries@;
            let e = (self.entries[i].0.clone(), self.entries[i].1.duplicate());
            assert((e.0@, e.1@) == self.listing()[i as int]);
            entries.push(e);
            assert(entry_views(entries@) =~= entry_views(was).push((e.0@, e.1@)));
            i = i + 1;
            assert(self.listing().take(i as int) =~= self.listing().take(i - 1).push(
                self.listing()[i - 1],
            ));
        }
        assert(self.listing().take(i as int) =~= self.listing());
        KeyMap { entries }
    }
}

impl<V: Duplicate> Clone for KeyMap<V> {
    fn clone(&self) -> (r: Self)
        ensures
            r@ == self@,
    {
        self.duplicate()
    }
}

/// A set of strings.
#[derive(Debug, PartialEq, Eq)]
pub struct KeySet {
    members: KeyMap<bool>,
}

impl View for KeySet {
    type V = Set<Seq<char>>;

    closed spec fn view(&self) -> Set<Seq<char>> {
        self.members@.dom()
    }
}

impl KeySet {
    /// The set without members.
    pub fn new() -> (r: KeySet)
        ensures
            r@ == Set::<Seq<char>>::empty(),
    {
        let r = KeySet { members: KeyMap::new() };
        assert(r@ =~= Set::<Seq<char>>::empty());
        r
    }

    /// Makes `key` a member, and says whether it was none before.
    pub fn insert(&mut self, key: &str) -> (r: bool)
        ensures
            final(self)@ == old(self)@.insert(key@),
            r == !old(self)@.contains(key@),
    {
        let fresh = !self.members.contains_key(key);
        self.members.insert(key.to_owned(), true);
        assert(self@ =~= old(self)@.insert(key@));
        fresh
    }

    /// Drops `key`, and says whether it was a member.
    pub fn remove(&mut self, key: &str) -> (r: bool)
        ensures
            final(self)@ == old(self)@.remove(key@),
            r == old(self)@.contains(key@),
    {
        let r = match self.members.remove(key) {
            Some(_) => true,
            None => false,
        };
        assert(self@ =~= old(self)@.remove(key@));
        r
    }

    /// Whether `key` is a member.
    pub fn contains(&self, key: &str) -> (r: bool)
        ensures
            r == self@.contains(key@),
    {
        self.members.contains_key(key)
    }
}

} // verus!
