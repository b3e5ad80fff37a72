//! Keys in the order of their age.
use vstd::prelude::*;
use vstd::string::*;

use crate::text::{
    lemma_precedes_asymmetric, lemma_precedes_total, lemma_precedes_transitive, place, precedes,
    Placement,
};

verus! {

broadcast use vstd::seq_lib::group_seq_properties;

/// The second that goes with each key.
pub type Ages = Map<Seq<char>, u64>;

/// The keys of a list.
pub open spec fn keys_of(keys: Seq<String>) -> Seq<Seq<char>> {
    keys.map_values(|k: String| k@)
}

/// Whether the entry of `a` is to go before that of `b`: it is older, or as old and earlier in the
/// order of the keys.
pub open spec fn older(m: Ages, a: Seq<char>, b: Seq<char>) -> bool {
    m[a] < m[b] || (m[a] == m[b] && precedes(a, b))
}

/// Whether `keys` are the oldest `n` of `among`, the oldest first.
pub open spec fn oldest(m: Ages, among: Set<Seq<char>>, keys: Seq<Seq<char>>, n: nat) -> bool {
    &&& keys.len() == (if n <= among.len() {
        n
    } else {
        among.len()
    })
    &&& forall|i: int, j: int| 0 <= i < j < keys.len() ==> older(m, #[trigger] keys[i], #[trigger] keys[j])
    &&& forall|i: int| 0 <= i < keys.len() ==> among.contains(#[trigger] keys[i])
    &&& forall|i: int, k: Seq<char>|
        0 <= i < keys.len() && among.contains(k) && !keys.contains(k) ==> older(
            m,
            #[trigger] keys[i],
            k,
        ) && #[trigger] among.contains(k)
}

pub proof fn lemma_older_total(m: Ages, a: Seq<char>, b: Seq<char>)
    requires
        a != b,
    ensures
        older(m, a, b) || older(m, b, a),
        older(m, a, b) ==> !older(m, b, a),
{
    lemma_precedes_total(a, b);
    if precedes(a, b) {
        lemma_precedes_asymmetric(a, b);
    }
    if precedes(b, a) {
        lemma_precedes_asymmetric(b, a);
    }
}

pub proof fn lemma_older_transitive(m: Ages, a: Seq<char>, b: Seq<char>, c: Seq<char>)
    requires
        older(m, a, b),
        older(m, b, c),
    ensures
        older(m, a, c),
{
    if m[a] == m[b] && m[b] == m[c] {
        lemma_precedes_transitive(a, b, c);
    }
}

/// Whether `keys` are in the order of age.
pub open spec fn in_age_order(m: Ages, keys: Seq<Seq<char>>) -> bool {
    forall|i: int, j: int| 0 <= i < j < keys.len() ==> older(m, #[trigger] keys[i], #[trigger] keys[j])
}

/// The keys of a list of keys with their seconds.
pub open spec fn aged_keys(v: Seq<(String, u64)>) -> Seq<Seq<char>> {
    v.map_values(|e: (String, u64)| e.0@)
}

/// Whether the seconds of a list are those of the entries.
pub open spec fn ages_match(m: Ages, v: Seq<(String, u64)>) -> bool {
    forall|i: int| 0 <= i < v.len() ==> (#[trigger] v[i]).1 == m[v[i].0@]
}

/// Puts a key with its second where it belongs in a list that is in the order of age.
pub fn insert_by_age(m: Ghost<Ages>, sorted: &mut Vec<(String, u64)>, key: String, at: u64)
    requires
        in_age_order(m@, aged_keys(old(sorted)@)),
        ages_match(m@, old(sorted)@),
        at == m@[key@],
        !aged_keys(old(sorted)@).contains(key@),
    ensures
        in_age_order(m@, aged_keys(final(sorted)@)),
        ages_match(m@, final(sorted)@),
        final(sorted)@.len() == old(sorted)@.len() + 1,
        forall|k: Seq<char>| #[trigger]
            aged_keys(final(sorted)@).contains(k) <==> k == key@ || aged_keys(
                old(sorted)@,
            ).contains(k),
{
    let ghost ks = aged_keys(sorted@);
    let n = sorted.len();
    let mut i: usize = 0;
    let mut go: bool = true;
    while i < n && go
        invariant
            i <= n,
            n == sorted@.len(),
            sorted@ == old(sorted)@,
            ks == aged_keys(sorted@),
            ages_match(m@, sorted@),
            at == m@[key@],
            !ks.contains(key@),
            forall|j: int| 0 <= j < i ==> older(m@, #[trigger] ks[j], key@),
            !go ==> i < n && !older(m@, ks[i as int], key@),
        decreases n - i, (if go { 1int } else { 0int }),
    {
        let before = if sorted[i].1 < at {
            true
        } else if sorted[i].1 > at {
            false
        } else {
            match place(sorted[i].0.as_str(), key.as_str()) {
                Placement::Before => true,
                _ => false,
            }
        };
        assert(ks[i as int] == sorted@[i as int].0@);
        assert(sorted@[i as int].1 == m@[sorted@[i as int].0@]);
        assert(before == older(m@, ks[i as int], key@));
        if before {
            i = i + 1;
        } else {
            go = false;
        }
    }
    let ghost k = key@;
    proof {
        assert forall|j: int| i <= j < ks.len() implies older(m@, k, #[trigger] ks[j]) by {
            assert(ks[i as int] != k);
            lemma_older_total(m@, k, ks[i as int]);
            if j > i {
                lemma_older_transitive(m@, k, ks[i as int], ks[j]);
            }
        }
    }
    sorted.insert(i, (key, at));
    proof {
        let after = aged_keys(sorted@);
        assert(after =~= ks.insert(i as int, k));
        assert forall|a: int, b: int| 0 <= a < b < after.len() implies older(
            m@,
            #[trigger] after[a],
            #[trigger] after[b],
        ) by {
            let pa = if a < i { a } else { a - 1 };
            let pb = if b < i { b } else { b - 1 };
            if a == i {
                assert(after[b] == ks[pb]);
            } else if b == i {
                assert(after[a] == ks[pa]);
            } else {
                assert(after[a] == ks[pa] && after[b] == ks[pb]);
            }
        }
        assert forall|x: Seq<char>| #[trigger] after.contains(x) <==> x == k || ks.contains(x) by {
            if after.contains(x) {
                let a = choose|a: int| 0 <= a < after.len() && after[a] == x;
                if a != i {
                    let p = if a < i { a } else { a - 1 };
                    assert(ks[p] == x);
                }
            }
            if x == k {
                assert(after[i as int] == x);
            }
            if ks.contains(x) {
                let p = choose|p: int| 0 <= p < ks.len() && ks[p] == x;
                let a = if p < i { p } else { p + 1 };
                assert(after[a] == x);
            }
        }
    }
}

/// The first `n` keys of a list in the order of age are the oldest `n` of its members.
pub proof fn lemma_take_oldest(m: Ages, among: Set<Seq<char>>, all: Seq<Seq<char>>, n: nat)
    requires
        in_age_order(m, all),
        forall|k: Seq<char>| all.contains(k) <==> among.contains(k),
    ensures
        among.finite(),
        among.len() == all.len(),
        n <= all.len() ==> oldest(m, among, all.take(n as int), n),
        n > all.len() ==> oldest(m, among, all, n),
{
    assert(all.no_duplicates()) by {
        assert forall|i: int, j: int| 0 <= i < all.len() && 0 <= j < all.len() && i != j implies all[i]
            != all[j] by {
            if i < j {
                assert(older(m, all[i], all[j]));
            } else {
                assert(older(m, all[j], all[i]));
            }
            if all[i] == all[j] && precedes(all[i], all[i]) {
                lemma_precedes_asymmetric(all[i], all[i]);
            }
        }
    }
    all.unique_seq_to_set();
    assert(all.to_set() =~= among);
    let first = if n <= all.len() {
        all.take(n as int)
    } else {
        all
    };
    assert forall|i: int, k: Seq<char>|
        0 <= i < first.len() && among.contains(k) && !first.contains(k) implies older(
        m,
        #[trigger] first[i],
        k,
    ) && #[trigger] among.contains(k) by {
        assert(all.contains(k));
        let j = choose|j: int| 0 <= j < all.len() && all[j] == k;
        if j < first.len() {
            assert(first[j] == k);
        }
        assert(older(m, all[i], all[j]));
    }
    assert forall|i: int| 0 <= i < first.len() implies among.contains(#[trigger] first[i]) by {
        assert(all.contains(all[i]));
    }
}

/// The keys of the first `n` entries.
pub fn first_keys(sorted: &Vec<(String, u64)>, n: usize) -> (r: Vec<String>)
    requires
        n <= sorted@.len(),
    ensures
        keys_of(r@) == aged_keys(sorted@).take(n as int),
{
    let mut r: Vec<String> = Vec::new();
    let mut i: usize = 0;
    while i < n
        invariant
            i <= n <= sorted@.len(),
            keys_of(r@) == aged_keys(sorted@).take(i as int),
        decreases n - i,
    {
        let ghost was = keys_of(r@);
        r.push(sorted[i].0.clone());
        assert(keys_of(r@) =~= was.push(sorted@[i as int].0@));
        i = i + 1;
        assert(aged_keys(sorted@).take(i as int) =~= aged_keys(sorted@).take(i - 1).push(
            aged_keys(sorted@)[i - 1],
        ));
    }
    r
}

} // verus!
