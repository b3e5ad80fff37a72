//! Keeping what a host remembers from growing without bound: old tombstones, clocks of files that
//! are gone, and a cap on both.
//!
//! Each pass of a sweep first picks candidates. A candidate is then removed unless its file turns
//! out to exist or a request holds the lock for too long; both are only known as the sweep goes.
use vstd::prelude::*;
use vstd::string::*;

use crate::age::{
    aged_keys, ages_match, first_keys, in_age_order, insert_by_age, keys_of, lemma_take_oldest, older,
    oldest, Ages,
};
use crate::clock::Counts;
use crate::host::FileServiceImpl;
use crate::keymap::{lemma_listed_once, lists, KeySet};
use crate::store::{clock_of, stamps_of, ClockStore, Stamped, Stamps, TombstoneStore};
use crate::text::{lemma_precedes_asymmetric, precedes};

verus! {

broadcast use vstd::seq_lib::group_seq_properties;

/// How a host cleans up.
#[derive(Clone, Copy, Debug, PartialEq, Eq)]
pub struct GcConfig {
    /// Seconds from one sweep to the next.
    pub interval: u64,
    /// Seconds after which a tombstone, or the clock of a file that is gone, is old.
    pub tombstone_ttl: u64,
    /// How many entries a store may hold.
    pub max_entries: usize,
}

impl GcConfig {
    /// A configuration in hours, as it is given on the command line.
    pub fn from_hours(interval: u64, tombstone_ttl: u64, max_entries: usize) -> (r: GcConfig)
        requires
            interval * 3600 <= u64::MAX,
            tombstone_ttl * 3600 <= u64::MAX,
        ensures
            r.interval == interval * 3600,
            r.tombstone_ttl == tombstone_ttl * 3600,
            r.max_entries == max_entries,
    {
        GcConfig { interval: interval * 3600, tombstone_ttl: tombstone_ttl * 3600, max_entries }
    }
}

/// Whether an entry of second `created_at` is old at second `now`. One without a second never is.
pub open spec fn expired(created_at: u64, ttl: u64, now: u64) -> bool {
    created_at > 0 && (if now >= created_at {
        now - created_at
    } else {
        0
    }) >= ttl
}

/// The second of each entry.
pub open spec fn ages(m: Stamps) -> Ages {
    m.map_values(|s: Stamped| s.at)
}

/// Whether the clock of `key` is of no use: the file is gone and there is no tombstone.
pub open spec fn orphaned(tombstones: Stamps, key: Seq<char>, live: Set<Seq<char>>) -> bool {
    !live.contains(key) && clock_of(tombstones, key) == Counts::empty()
}

/// The tombstones that are old at second `now`, in the order of their paths.
pub fn expired_tombstones(tombstones: &TombstoneStore, ttl: u64, now: u64) -> (r: Vec<String>)
    ensures
        forall|k: Seq<char>| #[trigger]
            keys_of(r@).contains(k) <==> tombstones@.dom().contains(k) && expired(
                tombstones@[k].at,
                ttl,
                now,
            ),
        keys_of(r@).no_duplicates(),
{
    let entries = tombstones.entries();
    let ghost l = stamps_of(entries@);
    let mut out: Vec<String> = Vec::new();
    let mut i: usize = 0;
    while i < entries.len()
        invariant
            i <= entries@.len(),
            l == stamps_of(entries@),
            lists(l, tombstones@),
            forall|k: Seq<char>| #[trigger]
                keys_of(out@).contains(k) <==> exists|j: int|
                    0 <= j < i && #[trigger] l[j].0 == k && expired(l[j].1.at, ttl, now),
            keys_of(out@).no_duplicates(),
        decreases entries@.len() - i,
    {
        let created_at = entries[i].1.created_at;
        let age = now.saturating_sub(created_at);
        let old_enough = created_at > 0 && age >= ttl;
        let ghost was = keys_of(out@);
        let ghost key = l[i as int].0;
        proof {
            assert(entries@[i as int].0@ == key);
            assert(l[i as int].1.at == created_at);
            assert(old_enough == expired(created_at, ttl, now));
            if was.contains(key) {
                let j = choose|j: int|
                    0 <= j < i && #[trigger] l[j].0 == key && expired(l[j].1.at, ttl, now);
                lemma_listed_once(l, tombstones@, j, i as int);
            }
        }
        if old_enough {
            out.push(entries[i].0.clone());
            assert(keys_of(out@) =~= was.push(key));
        }
        proof {
            assert forall|k: Seq<char>| #[trigger]
                keys_of(out@).contains(k) <==> exists|j: int|
                    0 <= j < i + 1 && #[trigger] l[j].0 == k && expired(l[j].1.at, ttl, now) by {
                if keys_of(out@).contains(k) {
                    if was.contains(k) {
                        let j = choose|j: int|
                            0 <= j < i && #[trigger] l[j].0 == k && expired(l[j].1.at, ttl, now);
                        assert(l[j].0 == k);
                    } else {
                        assert(l[i as int].0 == k);
                    }
                }
                if exists|j: int|
                    0 <= j < i + 1 && #[trigger] l[j].0 == k && expired(l[j].1.at, ttl, now) {
                    let j = choose|j: int|
                        0 <= j < i + 1 && #[trigger] l[j].0 == k && expired(l[j].1.at, ttl, now);
                    if j < i {
                        assert(was.contains(k));
                        let p = choose|p: int| 0 <= p < was.len() && was[p] == k;
                        assert(keys_of(out@)[p] == k);
                    } else {
                        assert(keys_of(out@)[was.len() as int] == k);
                    }
                }
            }
        }
        i = i + 1;
    }
    proof {
        assert forall|k: Seq<char>| #[trigger]
            keys_of(out@).contains(k) <==> tombstones@.dom().contains(k) && expired(
                tombstones@[k].at,
                ttl,
                now,
            ) by {
            if keys_of(out@).contains(k) {
                let j = choose|j: int|
                    0 <= j < i && #[trigger] l[j].0 == k && expired(l[j].1.at, ttl, now);
                assert(tombstones@.dom().contains(l[j].0));
            }
            if tombstones@.dom().contains(k) {
                let j = choose|j: int| 0 <= j < l.len() && #[trigger] l[j].0 == k;
                assert(tombstones@.dom().contains(l[j].0));
            }
        }
    }
    out
}

/// Whether the clock of a path is of no use, where `exists` says whether the file does.
pub fn is_orphaned(tombstones: &TombstoneStore, key: &str, exists: bool) -> (r: bool)
    ensures
        r == (!exists && clock_of(tombstones@, key@) == Counts::empty()),
{
    if exists {
        return false;
    }
    let tombstone = tombstones.get(key);
    tombstone.is_empty()
}

/// The oldest tombstones that a store holds over its cap, the oldest first.
pub fn excess_tombstones(tombstones: &TombstoneStore, max_entries: usize) -> (r: Vec<String>)
    ensures
        ({
            let n = tombstones@.dom().len();
            oldest(
                ages(tombstones@),
                tombstones@.dom(),
                keys_of(r@),
                if n > max_entries {
                    (n - max_entries) as nat
                } else {
                    0
                },
            )
        }),
{
    let n = tombstones.len();
    let entries = tombstones.entries();
    let ghost l = stamps_of(entries@);
    let ghost m = tombstones@;
    let mut sorted: Vec<(String, u64)> = Vec::new();
    let mut i: usize = 0;
    while i < entries.len()
        invariant
            i <= entries@.len(),
            l == stamps_of(entries@),
            m == tombstones@,
            lists(l, m),
            sorted@.len() == i,
            in_age_order(ages(m), aged_keys(sorted@)),
            ages_match(ages(m), sorted@),
            forall|k: Seq<char>| #[trigger]
                aged_keys(sorted@).contains(k) <==> exists|j: int|
                    0 <= j < i && #[trigger] l[j].0 == k,
        decreases entries@.len() - i,
    {
        let ghost was = aged_keys(sorted@);
        proof {
            assert(m.dom().contains(l[i as int].0));
            assert(entries@[i as int].0@ == l[i as int].0);
            assert(entries@[i as int].1@ == l[i as int].1);
            if was.contains(l[i as int].0) {
                let j = choose|j: int| 0 <= j < i && #[trigger] l[j].0 == l[i as int].0;
                lemma_listed_once(l, m, j, i as int);
            }
        }
        insert_by_age(Ghost(ages(m)), &mut sorted, entries[i].0.clone(), entries[i].1.created_at);
        proof {
            assert forall|k: Seq<char>| #[trigger]
                aged_keys(sorted@).contains(k) <==> exists|j: int|
                    0 <= j < i + 1 && #[trigger] l[j].0 == k by {
                if aged_keys(sorted@).contains(k) {
                    if was.contains(k) {
                        let j = choose|j: int| 0 <= j < i && #[trigger] l[j].0 == k;
                        assert(l[j].0 == k);
                    } else {
                        assert(l[i as int].0 == k);
                    }
                }
                if exists|j: int| 0 <= j < i + 1 && #[trigger] l[j].0 == k {
                    let j = choose|j: int| 0 <= j < i + 1 && #[trigger] l[j].0 == k;
                    if j < i {
                        assert(was.contains(k));
                    }
                }
            }
        }
        i = i + 1;
    }
    let ghost all = aged_keys(sorted@);
    let excess: usize = if n > max_entries {
        n - max_entries
    } else {
        0
    };
    proof {
        assert forall|k: Seq<char>| all.contains(k) <==> m.dom().contains(k) by {
            if all.contains(k) {
                let j = choose|j: int| 0 <= j < i && #[trigger] l[j].0 == k;
                assert(m.dom().contains(l[j].0));
            }
            if m.dom().contains(k) {
                let j = choose|j: int| 0 <= j < l.len() && #[trigger] l[j].0 == k;
                assert(l[j].0 == k);
            }
        }
        lemma_take_oldest(ages(m), m.dom(), all, excess as nat);
    }
    let r = first_keys(&sorted, excess);
    assert(all.take(excess as int) =~= keys_of(r@));
    r
}

/// The paths whose clocks are of no use.
pub open spec fn orphans(clocks: Stamps, tombstones: Stamps, live: Set<Seq<char>>) -> Set<Seq<char>> {
    clocks.dom().filter(|k: Seq<char>| orphaned(tombstones, k, live))
}

/// The oldest clocks of no use that a store holding `count` clocks gives up to come down to its
/// cap, the oldest first. Clocks of the files in `live` are never among them.
pub fn excess_clocks(
    clocks: &ClockStore,
    tombstones: &TombstoneStore,
    live: &KeySet,
    count: usize,
    max_entries: usize,
) -> (r: Vec<String>)
    ensures
        oldest(
            ages(clocks@),
            orphans(clocks@, tombstones@, live@),
            keys_of(r@),
            if count > max_entries {
                (count - max_entries) as nat
            } else {
                0
            },
        ),
        forall|i: int|
            0 <= i < r@.len() ==> orphaned(tombstones@, #[trigger] keys_of(r@)[i], live@)
                && clocks@.dom().contains(keys_of(r@)[i]),
{
    let entries = clocks.entries();
    let ghost l = stamps_of(entries@);
    let ghost m = clocks@;
    let ghost among = orphans(m, tombstones@, live@);
    let mut sorted: Vec<(String, u64)> = Vec::new();
    let mut i: usize = 0;
    while i < entries.len()
        invariant
            i <= entries@.len(),
            l == stamps_of(entries@),
            m == clocks@,
            among == orphans(m, tombstones@, live@),
            lists(l, m),
            in_age_order(ages(m), aged_keys(sorted@)),
            ages_match(ages(m), sorted@),
            forall|k: Seq<char>| #[trigger]
                aged_keys(sorted@).contains(k) <==> exists|j: int|
                    0 <= j < i && #[trigger] l[j].0 == k && among.contains(k),
        decreases entries@.len() - i,
    {
        let ghost was = aged_keys(sorted@);
        let ghost key = l[i as int].0;
        let exists_file = live.contains(entries[i].0.as_str());
        let useless = is_orphaned(tombstones, entries[i].0.as_str(), exists_file);
        proof {
            assert(m.dom().contains(l[i as int].0));
            assert(entries@[i as int].0@ == key);
            assert(entries@[i as int].1@ == l[i as int].1);
            assert(useless == among.contains(key));
            if was.contains(key) {
                let j = choose|j: int| 0 <= j < i && #[trigger] l[j].0 == key && among.contains(key);
                lemma_listed_once(l, m, j, i as int);
            }
        }
        if useless {
            insert_by_age(Ghost(ages(m)), &mut sorted, entries[i].0.clone(), entries[i].1.last_updated_at);
        }
        proof {
            assert forall|k: Seq<char>| #[trigger]
                aged_keys(sorted@).contains(k) <==> exists|j: int|
                    0 <= j < i + 1 && #[trigger] l[j].0 == k && among.contains(k) by {
                if aged_keys(sorted@).contains(k) {
                    if was.contains(k) {
                        let j = choose|j: int|
                            0 <= j < i && #[trigger] l[j].0 == k && among.contains(k);
                        assert(l[j].0 == k);
                    } else {
                        assert(l[i as int].0 == k);
                    }
                }
                if exists|j: int| 0 <= j < i + 1 && #[trigger] l[j].0 == k && among.contains(k) {
                    let j = choose|j: int|
                        0 <= j < i + 1 && #[trigger] l[j].0 == k && among.contains(k);
                    if j < i {
                        assert(was.contains(k));
                    }
                }
            }
        }
        i = i + 1;
    }
    let ghost all = aged_keys(sorted@);
    let over: usize = if count > max_entries {
        count - max_entries
    } else {
        0
    };
    let take = if over <= sorted.len() {
        over
    } else {
        sorted.len()
    };
    proof {
        assert forall|k: Seq<char>| all.contains(k) <==> among.contains(k) by {
            if among.contains(k) {
                let j = choose|j: int| 0 <= j < l.len() && #[trigger] l[j].0 == k;
                assert(l[j].0 == k);
            }
        }
        lemma_take_oldest(ages(m), among, all, over as nat);
        assert(all.take(all.len() as int) =~= all);
    }
    let r = first_keys(&sorted, take);
    assert(oldest(ages(m), among, keys_of(r@), over as nat));
    assert forall|i: int| 0 <= i < r@.len() implies orphaned(
        tombstones@,
        #[trigger] keys_of(r@)[i],
        live@,
    ) && clocks@.dom().contains(keys_of(r@)[i]) by {
        assert(among.contains(keys_of(r@)[i]));
    }
    r
}

/// What a pass of a sweep came upon: the files that existed, and the paths whose lock was held.
#[derive(Debug)]
pub struct Observed {
    pub live: KeySet,
    pub contested: KeySet,
}

/// The paths that a sweep has forgotten, by pass.
#[derive(Debug)]
pub struct GcReport {
    /// Tombstones that were old.
    pub expired: Vec<String>,
    /// Old clocks of no use.
    pub orphaned: Vec<String>,
    /// Tombstones over the cap.
    pub capped_tombstones: Vec<String>,
    /// Clocks of no use over the cap.
    pub capped_clocks: Vec<String>,
}

/// The entries that are left once those of `gone` are forgotten.
pub open spec fn without(m: Stamps, gone: Seq<Seq<char>>) -> Stamps {
    m.remove_keys(gone.to_set())
}

/// Removes the tombstones of those `keys` that are neither live nor contested, and says which.
fn forget_tombstones(tombstones: &mut TombstoneStore, keys: &Vec<String>, live: &KeySet, contested: &KeySet) -> (r:
    Vec<String>)
    ensures
        final(tombstones)@ == without(old(tombstones)@, keys_of(r@)),
        forall|k: Seq<char>| #[trigger]
            keys_of(r@).contains(k) <==> keys_of(keys@).contains(k) && !live@.contains(k)
                && !contested@.contains(k),
{
    let mut gone: Vec<String> = Vec::new();
    let mut i: usize = 0;
    assert(without(tombstones@, keys_of(gone@)) =~= tombstones@);
    while i < keys.len()
        invariant
            i <= keys@.len(),
            tombstones@ == without(old(tombstones)@, keys_of(gone@)),
            forall|k: Seq<char>| #[trigger]
                keys_of(gone@).contains(k) <==> keys_of(keys@).take(i as int).contains(k)
                    && !live@.contains(k) && !contested@.contains(k),
        decreases keys@.len() - i,
    {
        let ghost was = keys_of(gone@);
        let ghost ks = keys_of(keys@);
        if !live.contains(keys[i].as_str()) && !contested.contains(keys[i].as_str()) {
            tombstones.remove(keys[i].as_str());
            gone.push(keys[i].clone());
            assert(keys_of(gone@) =~= was.push(ks[i as int]));
            assert(without(old(tombstones)@, keys_of(gone@)) =~= without(
                old(tombstones)@,
                was,
            ).remove(ks[i as int]));
        }
        i = i + 1;
        assert(ks.take(i as int) =~= ks.take(i - 1).push(ks[i - 1]));
    }
    assert(keys_of(keys@).take(i as int) =~= keys_of(keys@));
    gone
}

/// Removes the clocks of those `keys` that are not contested, and says which.
fn forget_clocks(clocks: &mut ClockStore, keys: &Vec<String>, contested: &KeySet) -> (r: Vec<String>)
    ensures
        final(clocks)@ == without(old(clocks)@, keys_of(r@)),
        forall|k: Seq<char>| #[trigger]
            keys_of(r@).contains(k) <==> keys_of(keys@).contains(k) && !contested@.contains(k),
{
    let mut gone: Vec<String> = Vec::new();
    let mut i: usize = 0;
    assert(without(clocks@, keys_of(gone@)) =~= clocks@);
    while i < keys.len()
        invariant
            i <= keys@.len(),
            clocks@ == without(old(clocks)@, keys_of(gone@)),
            forall|k: Seq<char>| #[trigger]
                keys_of(gone@).contains(k) <==> keys_of(keys@).take(i as int).contains(k)
                    && !contested@.contains(k),
        decreases keys@.len() - i,
    {
        let ghost was = keys_of(gone@);
        let ghost ks = keys_of(keys@);
        if !contested.contains(keys[i].as_str()) {
            clocks.remove(keys[i].as_str());
            gone.push(keys[i].clone());
            assert(keys_of(gone@) =~= was.push(ks[i as int]));
            assert(without(old(clocks)@, keys_of(gone@)) =~= without(old(clocks)@, was).remove(
                ks[i as int],
            ));
        }
        i = i + 1;
        assert(ks.take(i as int) =~= ks.take(i - 1).push(ks[i - 1]));
    }
    assert(keys_of(keys@).take(i as int) =~= keys_of(keys@));
    gone
}

/// The paths whose clocks are of no use and old at second `now`, where the files in `live` exist.
pub fn orphaned_clocks(
    clocks: &ClockStore,
    tombstones: &TombstoneStore,
    live: &KeySet,
    ttl: u64,
    now: u64,
) -> (r: Vec<String>)
    ensures
        forall|k: Seq<char>| #[trigger]
            keys_of(r@).contains(k) <==> clocks@.dom().contains(k) && orphaned(tombstones@, k, live@)
                && expired(clocks@[k].at, ttl, now),
{
    let entries = clocks.entries();
    let ghost l = stamps_of(entries@);
    let ghost m = clocks@;
    let mut out: Vec<String> = Vec::new();
    let mut i: usize = 0;
    while i < entries.len()
        invariant
            i <= entries@.len(),
            l == stamps_of(entries@),
            m == clocks@,
            lists(l, m),
            forall|k: Seq<char>| #[trigger]
                keys_of(out@).contains(k) <==> exists|j: int|
                    0 <= j < i && #[trigger] l[j].0 == k && orphaned(tombstones@, k, live@)
                        && expired(m[k].at, ttl, now),
        decreases entries@.len() - i,
    {
        let ghost was = keys_of(out@);
        let ghost key = l[i as int].0;
        let exists_file = live.contains(entries[i].0.as_str());
        let useless = is_orphaned(tombstones, entries[i].0.as_str(), exists_file);
        let at = entries[i].1.last_updated_at;
        let age = now.saturating_sub(at);
        let old_enough = at > 0 && age >= ttl;
        proof {
            assert(m.dom().contains(l[i as int].0));
            assert(entries@[i as int].0@ == key);
            assert(entries@[i as int].1@ == l[i as int].1);
            assert(old_enough == expired(m[key].at, ttl, now));
            assert(useless == orphaned(tombstones@, key, live@));
        }
        if useless && old_enough {
            out.push(entries[i].0.clone());
            assert(keys_of(out@) =~= was.push(key));
        }
        proof {
            assert forall|k: Seq<char>| #[trigger]
                keys_of(out@).contains(k) <==> exists|j: int|
                    0 <= j < i + 1 && #[trigger] l[j].0 == k && orphaned(tombstones@, k, live@)
                        && expired(m[k].at, ttl, now) by {
                if keys_of(out@).contains(k) {
                    if was.contains(k) {
                        let j = choose|j: int|
                            0 <= j < i && #[trigger] l[j].0 == k && orphaned(tombstones@, k, live@)
                                && expired(m[k].at, ttl, now);
                        assert(l[j].0 == k);
                    } else {
                        assert(l[i as int].0 == k);
                    }
                }
                if exists|j: int|
                    0 <= j < i + 1 && #[trigger] l[j].0 == k && orphaned(tombstones@, k, live@)
                        && expired(m[k].at, ttl, now) {
                    let j = choose|j: int|
                        0 <= j < i + 1 && #[trigger] l[j].0 == k && orphaned(tombstones@, k, live@)
                            && expired(m[k].at, ttl, now);
                    if j < i {
                        assert(was.contains(k));
                        let p = choose|p: int| 0 <= p < was.len() && was[p] == k;
                        assert(keys_of(out@)[p] == k);
                    } else {
                        assert(keys_of(out@)[was.len() as int] == k);
                    }
                }
            }
        }
        i = i + 1;
    }
    proof {
        assert forall|k: Seq<char>| #[trigger]
            keys_of(out@).contains(k) <==> m.dom().contains(k) && orphaned(tombstones@, k, live@)
                && expired(m[k].at, ttl, now) by {
            if keys_of(out@).contains(k) {
                let j = choose|j: int|
                    0 <= j < i && #[trigger] l[j].0 == k && orphaned(tombstones@, k, live@)
                        && expired(m[k].at, ttl, now);
                assert(m.dom().contains(l[j].0));
            }
            if m.dom().contains(k) {
                let j = choose|j: int| 0 <= j < l.len() && #[trigger] l[j].0 == k;
                assert(m.dom().contains(l[j].0));
            }
        }
    }
    out
}

/// Forgetting distinct entries leaves that many fewer.
proof fn lemma_without_len(m: Stamps, gone: Seq<Seq<char>>)
    requires
        m.dom().finite(),
        gone.no_duplicates(),
        forall|i: int| 0 <= i < gone.len() ==> m.dom().contains(#[trigger] gone[i]),
    ensures
        without(m, gone).dom().finite(),
        without(m, gone).dom().len() == m.dom().len() - gone.len(),
    decreases gone.len(),
{
    if gone.len() == 0 {
        assert(without(m, gone) =~= m);
    } else {
        let rest = gone.drop_last();
        assert forall|i: int| 0 <= i < rest.len() implies m.dom().contains(#[trigger] rest[i]) by {
            assert(rest[i] == gone[i]);
        }
        lemma_without_len(m, rest);
        assert(!rest.contains(gone.last()));
        assert(gone =~= rest.push(gone.last()));
        assert(without(m, gone) =~= without(m, rest).remove(gone.last()));
        assert(without(m, rest).dom().contains(gone.last())) by {
            assert(m.dom().contains(gone[gone.len() - 1]));
        }
    }
}

/// Whether `gone` are those of the oldest `n` of `among` that are not contested.
pub open spec fn capped(
    m: Stamps,
    among: Set<Seq<char>>,
    n: nat,
    contested: Set<Seq<char>>,
    gone: Seq<Seq<char>>,
) -> bool {
    exists|picked: Seq<Seq<char>>| #[trigger]
        oldest(ages(m), among, picked, n) && (forall|k: Seq<char>| #[trigger]
            gone.contains(k) <==> picked.contains(k) && !contested.contains(k))
}

/// How many entries a store holds over its cap.
pub open spec fn over(m: Stamps, max_entries: usize) -> nat {
    if m.dom().len() > max_entries {
        (m.dom().len() - max_entries) as nat
    } else {
        0
    }
}

/// One sweep at second `now`. The arguments after it say what each pass came upon: the passes that
/// forget old tombstones and useless clocks, then those that enforce the cap on tombstones and on
/// clocks.
pub fn gc_sweep(
    service: &mut FileServiceImpl,
    config: &GcConfig,
    now: u64,
    ttl_pass: &Observed,
    orphan_pass: &Observed,
    tombstone_cap: &KeySet,
    clock_cap: &Observed,
) -> (r: GcReport)
    ensures
        ({
            let t0 = old(service).tombstones@;
            let c0 = old(service).clocks@;
            let t1 = without(t0, keys_of(r.expired@));
            let c1 = without(c0, keys_of(r.orphaned@));
            let t2 = without(t1, keys_of(r.capped_tombstones@));
            let c2 = without(c1, keys_of(r.capped_clocks@));
            &&& final(service).tombstones@ == t2
            &&& final(service).clocks@ == c2
            // Old tombstones whose file is gone are forgotten.
            &&& forall|k: Seq<char>| #[trigger]
                keys_of(r.expired@).contains(k) <==> t0.dom().contains(k) && expired(
                    t0[k].at,
                    config.tombstone_ttl,
                    now,
                ) && !ttl_pass.live@.contains(k) && !ttl_pass.contested@.contains(k)
            // Old clocks of no use are forgotten.
            &&& forall|k: Seq<char>| #[trigger]
                keys_of(r.orphaned@).contains(k) <==> c0.dom().contains(k) && orphaned(
                    t1,
                    k,
                    orphan_pass.live@,
                ) && expired(c0[k].at, config.tombstone_ttl, now) && !orphan_pass.contested@.contains(k)
            // What is then over the cap goes, the oldest first.
            &&& capped(
                t1,
                t1.dom(),
                over(t1, config.max_entries),
                tombstone_cap@,
                keys_of(r.capped_tombstones@),
            )
            &&& capped(
                c1,
                orphans(c1, t2, clock_cap.live@),
                over(c1, config.max_entries),
                clock_cap.contested@,
                keys_of(r.capped_clocks@),
            )
            // The clock of a file that exists is never forgotten.
            &&& forall|k: Seq<char>|
                c0.dom().contains(k) && orphan_pass.live@.contains(k) && clock_cap.live@.contains(k)
                    ==> #[trigger] c2.dom().contains(k) && c2[k] == c0[k]
            // A tombstone without a second of its creation only goes when the cap is exceeded.
            &&& forall|k: Seq<char>|
                t0.dom().contains(k) && t0[k].at == 0 && t0.dom().len() <= config.max_entries
                    ==> #[trigger] t2.dom().contains(k) && t2[k] == t0[k]
            // Where no lock was held, the tombstones are down to the cap.
            &&& tombstone_cap@ == Set::<Seq<char>>::empty() ==> t2.dom().len() <= config.max_entries
        }),
{
    let ghost t0 = service.tombstones@;
    let ghost c0 = service.clocks@;
    let _at_start = service.tombstones.len();
    let old_ones = expired_tombstones(&service.tombstones, config.tombstone_ttl, now);
    let gone_old = forget_tombstones(
        &mut service.tombstones,
        &old_ones,
        &ttl_pass.live,
        &ttl_pass.contested,
    );
    let ghost t1 = service.tombstones@;
    let useless = orphaned_clocks(
        &service.clocks,
        &service.tombstones,
        &orphan_pass.live,
        config.tombstone_ttl,
        now,
    );
    let gone_useless = forget_clocks(&mut service.clocks, &useless, &orphan_pass.contested);
    let ghost c1 = service.clocks@;
    let clock_count = service.clocks.len();
    let _tombstone_count = service.tombstones.len();
    let too_many = excess_tombstones(&service.tombstones, config.max_entries);
    let nothing = KeySet::new();
    let capped_tombstones = forget_tombstones(
        &mut service.tombstones,
        &too_many,
        &nothing,
        tombstone_cap,
    );
    let ghost t2 = service.tombstones@;
    let surplus = excess_clocks(
        &service.clocks,
        &service.tombstones,
        &clock_cap.live,
        clock_count,
        config.max_entries,
    );
    let capped_clocks = forget_clocks(&mut service.clocks, &surplus, &clock_cap.contested);
    proof {
        let c2 = service.clocks@;
        let picked = keys_of(too_many@);
        assert(oldest(ages(t1), t1.dom(), picked, over(t1, config.max_entries)));
        assert forall|k: Seq<char>| #[trigger]
            keys_of(capped_tombstones@).contains(k) <==> picked.contains(k)
                && !tombstone_cap@.contains(k) by {}
        assert(oldest(
            ages(c1),
            orphans(c1, t2, clock_cap.live@),
            keys_of(surplus@),
            over(c1, config.max_entries),
        ));
        assert forall|k: Seq<char>|
            c0.dom().contains(k) && orphan_pass.live@.contains(k) && clock_cap.live@.contains(
                k,
            ) implies #[trigger] c2.dom().contains(k) && c2[k] == c0[k] by {
            assert(!keys_of(gone_useless@).contains(k));
            if keys_of(capped_clocks@).contains(k) {
                assert(keys_of(surplus@).contains(k));
                let i = choose|i: int| 0 <= i < keys_of(surplus@).len() && keys_of(surplus@)[i] == k;
                assert(orphaned(t2, keys_of(surplus@)[i], clock_cap.live@));
            }
        }
        assert(t1.dom().subset_of(t0.dom()));
        vstd::set_lib::lemma_len_subset(t1.dom(), t0.dom());
        assert forall|k: Seq<char>|
            t0.dom().contains(k) && t0[k].at == 0 && t0.dom().len()
                <= config.max_entries implies #[trigger] t2.dom().contains(k) && t2[k] == t0[k] by {
            assert(!keys_of(gone_old@).contains(k));
            assert(picked.len() == 0);
            assert(!keys_of(capped_tombstones@).contains(k));
        }
        if tombstone_cap@ == Set::<Seq<char>>::empty() {
            assert(picked.no_duplicates()) by {
                assert forall|i: int, j: int|
                    0 <= i < picked.len() && 0 <= j < picked.len() && i != j implies picked[i]
                    != picked[j] by {
                    if i < j {
                        assert(older(ages(t1), picked[i], picked[j]));
                    } else {
                        assert(older(ages(t1), picked[j], picked[i]));
                    }
                    if picked[i] == picked[j] && precedes(picked[i], picked[i]) {
                        lemma_precedes_asymmetric(picked[i], picked[i]);
                    }
                }
            }
            lemma_without_len(t1, picked);
            assert(without(t1, picked) =~= t2) by {
                assert forall|k: Seq<char>| keys_of(capped_tombstones@).contains(k)
                    == picked.contains(k) by {}
            }
        }
    }
    GcReport {
        expired: gone_old,
        orphaned: gone_useless,
        capped_tombstones,
        capped_clocks,
    }
}

} // verus!
