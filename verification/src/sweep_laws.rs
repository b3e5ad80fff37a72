//! What a sweep forgets and what it keeps, path by path.
use vstd::prelude::*;

use crate::age::{keys_of, older, oldest};
use crate::gc::{
    ages, excess_clocks, excess_tombstones, expired_tombstones, gc_sweep, is_orphaned,
    orphaned_clocks, orphans, over, without, GcConfig, GcReport, Observed,
};
use crate::host::FileServiceImpl;
use crate::keymap::KeySet;
use crate::request_laws::{holds, lemma_held};
use crate::store::{ClockStore, Stamps, TombstoneStore};
use crate::text::{lemma_precedes_asymmetric, precedes};
use crate::text_laws::{is_before, lemma_is_before};

verus! {

/// Whether a path is in a list.
pub open spec fn named(l: Seq<String>, k: Seq<char>) -> bool {
    exists|i: int| 0 <= i < l.len() && (#[trigger] l[i])@ == k
}

/// Whether an entry that was made at second `at` has reached the age `ttl` at second `now`. One
/// without a second never does, and an age of nothing is reached at once.
pub open spec fn is_old(at: int, ttl: int, now: int) -> bool {
    at > 0 && (ttl == 0 || at + ttl <= now)
}

/// Whether the entry of `a` goes before that of `b`: it is older, or as old and earlier in the order of
/// the paths.
pub open spec fn comes_first(m: Stamps, a: Seq<char>, b: Seq<char>) -> bool {
    m[a].at < m[b].at || (m[a].at == m[b].at && is_before(a, b))
}

proof fn lemma_named(l: Seq<String>)
    ensures
        forall|k: Seq<char>| #[trigger] keys_of(l).contains(k) <==> named(l, k),
{
    let ks = keys_of(l);
    assert forall|k: Seq<char>| #[trigger] ks.contains(k) <==> named(l, k) by {
        if ks.contains(k) {
            let i = choose|i: int| 0 <= i < ks.len() && ks[i] == k;
            assert(l[i]@ == k);
        }
        if named(l, k) {
            let i = choose|i: int| 0 <= i < l.len() && (#[trigger] l[i])@ == k;
            assert(ks[i] == k);
        }
    }
}

/// A tombstone is old from the second on in which it has reached the age, and not before.
pub proof fn law_old_tombstones(s: &TombstoneStore, ttl: u64, now: u64, r: Vec<String>)
    requires
        call_ensures(expired_tombstones, (s, ttl, now), r),
    ensures
        forall|k: Seq<char>| #[trigger]
            named(r@, k) <==> s@.dom().contains(k) && is_old(
                s@[k].at as int,
                ttl as int,
                now as int,
            ),
{
    lemma_named(r@);
    assert forall|k: Seq<char>| #[trigger]
        named(r@, k) <==> s@.dom().contains(k) && is_old(s@[k].at as int, ttl as int, now as int) by {
        assert(keys_of(r@).contains(k) <==> named(r@, k));
    }
}

/// A tombstone that is old stays old: at every later second, and for every shorter age.
pub proof fn law_old_stays_old(
    s: &TombstoneStore,
    ttl: u64,
    now: u64,
    r: Vec<String>,
    shorter: u64,
    later: u64,
    q: Vec<String>,
    k: Seq<char>,
)
    requires
        call_ensures(expired_tombstones, (s, ttl, now), r),
        call_ensures(expired_tombstones, (s, shorter, later), q),
        shorter <= ttl,
        now <= later,
        named(r@, k),
    ensures
        named(q@, k),
{
    law_old_tombstones(s, ttl, now, r);
    law_old_tombstones(s, shorter, later, q);
    assert(named(r@, k));
}

/// A clock is of no use where its file is gone and no deletion of it is remembered.
pub proof fn law_clock_of_no_use(s: &TombstoneStore, key: &str, exists_file: bool, r: bool)
    requires
        call_ensures(is_orphaned, (s, key, exists_file), r),
    ensures
        r <==> !exists_file && !holds(s@, key@),
{
    lemma_held(s@, key@);
}

/// The clocks of no use that are old are those that have reached the age, of files that are gone and
/// whose deletion is not remembered.
pub proof fn law_old_clocks_of_no_use(
    c: &ClockStore,
    t: &TombstoneStore,
    live: &KeySet,
    ttl: u64,
    now: u64,
    r: Vec<String>,
)
    requires
        call_ensures(orphaned_clocks, (c, t, live, ttl, now), r),
    ensures
        forall|k: Seq<char>| #[trigger]
            named(r@, k) <==> c@.dom().contains(k) && !live@.contains(k) && !holds(t@, k) && is_old(
                c@[k].at as int,
                ttl as int,
                now as int,
            ),
{
    lemma_named(r@);
    assert forall|k: Seq<char>| #[trigger]
        named(r@, k) <==> c@.dom().contains(k) && !live@.contains(k) && !holds(t@, k) && is_old(
            c@[k].at as int,
            ttl as int,
            now as int,
        ) by {
        assert(keys_of(r@).contains(k) <==> named(r@, k));
        lemma_held(t@, k);
    }
}

/// The tombstones over a cap are as many as there are too many. They are in the store, each once, none
/// of them is younger than one that stays, and they come in the order of their seconds and paths.
pub proof fn law_oldest_tombstones_give_way(s: &TombstoneStore, max: usize, r: Vec<String>)
    requires
        call_ensures(excess_tombstones, (s, max), r),
    ensures
        s@.dom().len() > max ==> r@.len() == s@.dom().len() - max,
        s@.dom().len() <= max ==> r@.len() == 0,
        forall|i: int| 0 <= i < r@.len() ==> s@.dom().contains((#[trigger] r@[i])@),
        forall|i: int, j: int|
            0 <= i < j < r@.len() ==> (#[trigger] r@[i])@ != (#[trigger] r@[j])@ && comes_first(
                s@,
                r@[i]@,
                r@[j]@,
            ),
        forall|i: int, k: Seq<char>|
            0 <= i < r@.len() && #[trigger] s@.dom().contains(k) && !named(r@, k) ==> comes_first(
                s@,
                (#[trigger] r@[i])@,
                k,
            ),
{
    lemma_oldest_listed(s@, s@.dom(), r@, over(s@, max));
}

proof fn lemma_oldest_listed(m: Stamps, among: Set<Seq<char>>, r: Seq<String>, n: nat)
    requires
        oldest(ages(m), among, keys_of(r), n),
        among.subset_of(m.dom()),
    ensures
        r.len() == (if n <= among.len() {
            n
        } else {
            among.len()
        }),
        forall|i: int| 0 <= i < r.len() ==> among.contains((#[trigger] r[i])@),
        forall|i: int, j: int|
            0 <= i < j < r.len() ==> (#[trigger] r[i])@ != (#[trigger] r[j])@ && comes_first(
                m,
                r[i]@,
                r[j]@,
            ),
        forall|i: int, k: Seq<char>|
            0 <= i < r.len() && #[trigger] among.contains(k) && !named(r, k) ==> comes_first(
                m,
                (#[trigger] r[i])@,
                k,
            ),
{
    lemma_named(r);
    let ks = keys_of(r);
    assert forall|i: int| 0 <= i < r.len() implies among.contains((#[trigger] r[i])@) by {
        assert(among.contains(ks[i]));
    }
    assert forall|i: int, j: int| 0 <= i < j < r.len() implies (#[trigger] r[i])@ != (
    #[trigger] r[j])@ && comes_first(m, r[i]@, r[j]@) by {
        lemma_is_before(r[i]@, r[j]@);
        assert(older(ages(m), ks[i], ks[j]));
        assert(among.contains(ks[i]) && among.contains(ks[j]));
        if ks[i] == ks[j] && precedes(ks[i], ks[j]) {
            lemma_precedes_asymmetric(ks[i], ks[i]);
        }
    }
    assert forall|i: int, k: Seq<char>|
        0 <= i < r.len() && #[trigger] among.contains(k) && !named(r, k) implies comes_first(
        m,
        (#[trigger] r[i])@,
        k,
    ) by {
        lemma_is_before(r[i]@, k);
        assert(!ks.contains(k));
        assert(older(ages(m), ks[i], k));
        assert(among.contains(ks[i]));
    }
}

/// The clocks over a cap are of no use: their files are gone, and no deletion of them is remembered.
/// There are as many as there are too many, or all of no use where those are fewer. Each comes once,
/// none of them is younger than one of no use that stays, and they come in the order of their seconds and paths.
pub proof fn law_oldest_clocks_of_no_use_give_way(
    c: &ClockStore,
    t: &TombstoneStore,
    live: &KeySet,
    held: usize,
    count: usize,
    max: usize,
    r: Vec<String>,
)
    requires
        call_ensures(ClockStore::len, (c,), held),
        call_ensures(excess_clocks, (c, t, live, count, max), r),
    ensures
        count <= max ==> r@.len() == 0,
        count > max ==> r@.len() <= count - max,
        forall|i: int|
            0 <= i < r@.len() ==> {
                let k = (#[trigger] r@[i])@;
                &&& c@.dom().contains(k)
                &&& !live@.contains(k)
                &&& !holds(t@, k)
            },
        forall|i: int, j: int|
            0 <= i < j < r@.len() ==> (#[trigger] r@[i])@ != (#[trigger] r@[j])@ && comes_first(
                c@,
                r@[i]@,
                r@[j]@,
            ),
        forall|k: Seq<char>|
            #[trigger] c@.dom().contains(k) && !live@.contains(k) && !holds(t@, k) && !named(r@, k)
                ==> (count > max ==> r@.len() == count - max) && forall|i: int|
                0 <= i < r@.len() ==> comes_first(c@, (#[trigger] r@[i])@, k),
{
    let among = orphans(c@, t@, live@);
    let n: nat = if count > max {
        (count - max) as nat
    } else {
        0
    };
    lemma_oldest_listed(c@, among, r@, n);
    lemma_named(r@);
    assert forall|i: int| 0 <= i < r@.len() implies ({
        let k = (#[trigger] r@[i])@;
        &&& c@.dom().contains(k)
        &&& !live@.contains(k)
        &&& !holds(t@, k)
    }) by {
        assert(among.contains(r@[i]@));
        lemma_held(t@, r@[i]@);
    }
    assert forall|k: Seq<char>|
        #[trigger] c@.dom().contains(k) && !live@.contains(k) && !holds(t@, k) && !named(
            r@,
            k,
        ) implies (count > max ==> r@.len() == count - max) && forall|i: int|
        0 <= i < r@.len() ==> comes_first(c@, (#[trigger] r@[i])@, k) by {
        lemma_held(t@, k);
        assert(among.contains(k));
        if n > among.len() {
            lemma_all_listed(among, r@, k);
        }
    }
}

/// As many distinct members as a set has are all of them.
proof fn lemma_all_listed(among: Set<Seq<char>>, r: Seq<String>, k: Seq<char>)
    requires
        among.finite(),
        among.contains(k),
        r.len() == among.len(),
        forall|i: int| 0 <= i < r.len() ==> among.contains((#[trigger] r[i])@),
        forall|i: int, j: int| 0 <= i < j < r.len() ==> (#[trigger] r[i])@ != (#[trigger] r[j])@,
    ensures
        named(r, k),
{
    let ks = keys_of(r);
    lemma_named(r);
    assert(ks.no_duplicates()) by {
        assert forall|i: int, j: int| 0 <= i < ks.len() && 0 <= j < ks.len() && i != j implies ks[i]
            != ks[j] by {
            if i < j {
                assert(r[i]@ != r[j]@);
            } else {
                assert(r[j]@ != r[i]@);
            }
        }
    }
    ks.unique_seq_to_set();
    let s = ks.to_set();
    assert(s.subset_of(among)) by {
        assert forall|x: Seq<char>| s.contains(x) implies among.contains(x) by {
            let i = choose|i: int| 0 <= i < ks.len() && ks[i] == x;
            assert(among.contains(r[i]@));
        }
    }
    vstd::set_lib::lemma_subset_equality(s, among);
    assert(s.contains(k));
}

/// What a sweep reports as forgotten is what it has forgotten: everything else is held as before, with
/// its clock and its second.
pub proof fn law_sweep_reports_what_it_forgets(
    s: &mut FileServiceImpl,
    config: &GcConfig,
    now: u64,
    ttl_pass: &Observed,
    orphan_pass: &Observed,
    tombstone_cap: &KeySet,
    clock_cap: &Observed,
    r: GcReport,
    k: Seq<char>,
)
    requires
        call_ensures(
            gc_sweep,
            (s, config, now, ttl_pass, orphan_pass, tombstone_cap, clock_cap),
            r,
        ),
    ensures
        final(s).tombstones@.dom().contains(k) <==> old(s).tombstones@.dom().contains(k) && !named(
            r.expired@,
            k,
        ) && !named(r.capped_tombstones@, k),
        final(s).tombstones@.dom().contains(k) ==> final(s).tombstones@[k] == old(s).tombstones@[k],
        final(s).clocks@.dom().contains(k) <==> old(s).clocks@.dom().contains(k) && !named(
            r.orphaned@,
            k,
        ) && !named(r.capped_clocks@, k),
        final(s).clocks@.dom().contains(k) ==> final(s).clocks@[k] == old(s).clocks@[k],
{
    lemma_named(r.expired@);
    lemma_named(r.capped_tombstones@);
    lemma_named(r.orphaned@);
    lemma_named(r.capped_clocks@);
    assert(keys_of(r.expired@).contains(k) <==> named(r.expired@, k));
    assert(keys_of(r.capped_tombstones@).contains(k) <==> named(r.capped_tombstones@, k));
    assert(keys_of(r.orphaned@).contains(k) <==> named(r.orphaned@, k));
    assert(keys_of(r.capped_clocks@).contains(k) <==> named(r.capped_clocks@, k));
}

/// A sweep forgets a tombstone for its age where it is old, its file does not exist and no request
/// holds it; and it forgets a clock for its age where it is old, its file does not exist, no deletion
/// of it is remembered by then and no request holds it.
pub proof fn law_sweep_forgets_the_old(
    s: &mut FileServiceImpl,
    config: &GcConfig,
    now: u64,
    ttl_pass: &Observed,
    orphan_pass: &Observed,
    tombstone_cap: &KeySet,
    clock_cap: &Observed,
    r: GcReport,
    k: Seq<char>,
)
    requires
        call_ensures(
            gc_sweep,
            (s, config, now, ttl_pass, orphan_pass, tombstone_cap, clock_cap),
            r,
        ),
    ensures
        named(r.expired@, k) <==> {
            &&& old(s).tombstones@.dom().contains(k)
            &&& is_old(old(s).tombstones@[k].at as int, config.tombstone_ttl as int, now as int)
            &&& !ttl_pass.live@.contains(k)
            &&& !ttl_pass.contested@.contains(k)
        },
        named(r.orphaned@, k) <==> {
            &&& old(s).clocks@.dom().contains(k)
            &&& is_old(old(s).clocks@[k].at as int, config.tombstone_ttl as int, now as int)
            &&& !orphan_pass.live@.contains(k)
            &&& !orphan_pass.contested@.contains(k)
            &&& !holds(old(s).tombstones@, k) || named(r.expired@, k)
        },
{
    lemma_named(r.expired@);
    lemma_named(r.orphaned@);
    assert(keys_of(r.expired@).contains(k) <==> named(r.expired@, k));
    assert(keys_of(r.orphaned@).contains(k) <==> named(r.orphaned@, k));
    let t0 = old(s).tombstones@;
    let t1 = without(t0, keys_of(r.expired@));
    lemma_held(t0, k);
    lemma_held(t1, k);
}

/// The cap takes what is over it and no more: where no more are held than it allows, nothing is taken
/// by it. A tombstone that it takes is no younger than one that stays, unless a request holds that
/// one. A clock that it takes is of no use, and no younger than one of no use that stays, unless a
/// request holds that one.
pub proof fn law_cap_takes_the_oldest(
    s: &mut FileServiceImpl,
    config: &GcConfig,
    now: u64,
    ttl_pass: &Observed,
    orphan_pass: &Observed,
    tombstone_cap: &KeySet,
    clock_cap: &Observed,
    r: GcReport,
    k: Seq<char>,
    other: Seq<char>,
)
    requires
        call_ensures(
            gc_sweep,
            (s, config, now, ttl_pass, orphan_pass, tombstone_cap, clock_cap),
            r,
        ),
    ensures
        named(r.capped_tombstones@, k) ==> {
            &&& old(s).tombstones@.dom().contains(k)
            &&& !named(r.expired@, k)
            &&& !tombstone_cap@.contains(k)
            &&& old(s).tombstones@.remove_keys(keys_of(r.expired@).to_set()).dom().len()
                > config.max_entries
            &&& final(s).tombstones@.dom().contains(other) && !tombstone_cap@.contains(other)
                ==> old(s).tombstones@[k].at <= old(s).tombstones@[other].at
        },
        named(r.capped_clocks@, k) ==> {
            &&& old(s).clocks@.dom().contains(k)
            &&& !named(r.orphaned@, k)
            &&& !clock_cap.live@.contains(k)
            &&& !clock_cap.contested@.contains(k)
            &&& !holds(final(s).tombstones@, k)
            &&& old(s).clocks@.remove_keys(keys_of(r.orphaned@).to_set()).dom().len()
                > config.max_entries
            &&& final(s).clocks@.dom().contains(other) && !clock_cap.contested@.contains(other)
                && !clock_cap.live@.contains(other) && !holds(final(s).tombstones@, other)
                ==> old(s).clocks@[k].at <= old(s).clocks@[other].at
        },
{
    lemma_named(r.expired@);
    lemma_named(r.capped_tombstones@);
    lemma_named(r.orphaned@);
    lemma_named(r.capped_clocks@);
    let t0 = old(s).tombstones@;
    let c0 = old(s).clocks@;
    let t1 = without(t0, keys_of(r.expired@));
    let c1 = without(c0, keys_of(r.orphaned@));
    let t2 = final(s).tombstones@;
    assert(keys_of(r.expired@).contains(k) <==> named(r.expired@, k));
    assert(keys_of(r.orphaned@).contains(k) <==> named(r.orphaned@, k));
    assert(keys_of(r.capped_tombstones@).contains(k) <==> named(r.capped_tombstones@, k));
    assert(keys_of(r.capped_clocks@).contains(k) <==> named(r.capped_clocks@, k));
    if named(r.capped_tombstones@, k) {
        let n = over(t1, config.max_entries);
        let gone = keys_of(r.capped_tombstones@);
        let picked = choose|picked: Seq<Seq<char>>| #[trigger]
            oldest(ages(t1), t1.dom(), picked, n) && (forall|x: Seq<char>| #[trigger]
                gone.contains(x) <==> picked.contains(x) && !tombstone_cap@.contains(x));
        assert(picked.contains(k));
        let i = choose|i: int| 0 <= i < picked.len() && picked[i] == k;
        assert(t1.dom().contains(picked[i]));
        if t2.dom().contains(other) && !tombstone_cap@.contains(other) {
            assert(!gone.contains(other));
            assert(!picked.contains(other));
            assert(t1.dom().contains(other));
            assert(older(ages(t1), picked[i], other));
        }
    }
    if named(r.capped_clocks@, k) {
        let n = over(c1, config.max_entries);
        let among = orphans(c1, t2, clock_cap.live@);
        let gone = keys_of(r.capped_clocks@);
        let picked = choose|picked: Seq<Seq<char>>| #[trigger]
            oldest(ages(c1), among, picked, n) && (forall|x: Seq<char>| #[trigger]
                gone.contains(x) <==> picked.contains(x) && !clock_cap.contested@.contains(x));
        assert(picked.contains(k));
        let i = choose|i: int| 0 <= i < picked.len() && picked[i] == k;
        assert(among.contains(picked[i]));
        lemma_held(t2, k);
        lemma_held(t2, other);
        if final(s).clocks@.dom().contains(other) && !clock_cap.contested@.contains(other)
            && !clock_cap.live@.contains(other) && !holds(t2, other) {
            assert(!gone.contains(other));
            assert(!picked.contains(other));
            assert(among.contains(other));
            assert(older(ages(c1), picked[i], other));
        }
    }
}

/// Where no request holds a tombstone, no more are left than the cap allows; and the clock of a file
/// that exists, or whose deletion is remembered, is never forgotten.
pub proof fn law_sweep_keeps_what_is_in_use(
    s: &mut FileServiceImpl,
    config: &GcConfig,
    now: u64,
    ttl_pass: &Observed,
    orphan_pass: &Observed,
    tombstone_cap: &KeySet,
    clock_cap: &Observed,
    r: GcReport,
    k: Seq<char>,
)
    requires
        call_ensures(
            gc_sweep,
            (s, config, now, ttl_pass, orphan_pass, tombstone_cap, clock_cap),
            r,
        ),
    ensures
        tombstone_cap@ == Set::<Seq<char>>::empty() ==> final(s).tombstones@.dom().len()
            <= config.max_entries,
        old(s).clocks@.dom().contains(k) && orphan_pass.live@.contains(k) && clock_cap.live@.contains(
            k,
        ) ==> final(s).clocks@.dom().contains(k),
        old(s).clocks@.dom().contains(k) && holds(final(s).tombstones@, k)
            ==> final(s).clocks@.dom().contains(k),
{
    law_sweep_reports_what_it_forgets(
        s,
        config,
        now,
        ttl_pass,
        orphan_pass,
        tombstone_cap,
        clock_cap,
        r,
        k,
    );
    law_sweep_forgets_the_old(
        s,
        config,
        now,
        ttl_pass,
        orphan_pass,
        tombstone_cap,
        clock_cap,
        r,
        k,
    );
    law_cap_takes_the_oldest(
        s,
        config,
        now,
        ttl_pass,
        orphan_pass,
        tombstone_cap,
        clock_cap,
        r,
        k,
        k,
    );
}

proof fn lemma_at_most_picked(
    before: Stamps,
    after: Stamps,
    picked: Seq<Seq<char>>,
    n: nat,
    max: nat,
)
    requires
        before.dom().finite(),
        after.dom().subset_of(before.dom()),
        forall|k: Seq<char>| #[trigger]
            before.dom().contains(k) && !picked.contains(k) ==> after.dom().contains(k),
        picked.len() <= n,
        before.dom().len() >= max + n,
    ensures
        after.dom().len() >= max,
{
    let gone = picked.to_set();
    picked.lemma_cardinality_of_set();
    vstd::set_lib::lemma_len_difference(before.dom(), gone);
    let rest = before.dom().difference(gone);
    assert(rest.subset_of(after.dom())) by {
        assert forall|k: Seq<char>| rest.contains(k) implies after.dom().contains(k) by {
            assert(before.dom().contains(k) && !picked.contains(k));
        }
    }
    vstd::set_lib::lemma_len_subset(after.dom(), before.dom());
    vstd::set_lib::lemma_len_subset(rest, after.dom());
    assert(before.dom() =~= rest.union(before.dom().intersect(gone)));
    vstd::set_lib::lemma_len_intersect(gone, before.dom());
    assert(before.dom().intersect(gone) =~= gone.intersect(before.dom()));
    vstd::set_lib::lemma_set_disjoint_lens(rest, before.dom().intersect(gone));
}

/// The cap takes no more than are too many: where it takes any, as many are left as it allows.
pub proof fn law_cap_leaves_what_it_allows(
    s: &mut FileServiceImpl,
    config: &GcConfig,
    now: u64,
    ttl_pass: &Observed,
    orphan_pass: &Observed,
    tombstone_cap: &KeySet,
    clock_cap: &Observed,
    r: GcReport,
    tombstones: usize,
    clocks: usize,
)
    requires
        call_ensures(TombstoneStore::len, (&old(s).tombstones,), tombstones),
        call_ensures(ClockStore::len, (&old(s).clocks,), clocks),
        call_ensures(
            gc_sweep,
            (s, config, now, ttl_pass, orphan_pass, tombstone_cap, clock_cap),
            r,
        ),
    ensures
        r.capped_tombstones@.len() > 0 ==> final(s).tombstones@.dom().len() >= config.max_entries,
        r.capped_clocks@.len() > 0 ==> final(s).clocks@.dom().len() >= config.max_entries,
{
    let t1 = without(old(s).tombstones@, keys_of(r.expired@));
    let c1 = without(old(s).clocks@, keys_of(r.orphaned@));
    let t2 = final(s).tombstones@;
    let c2 = final(s).clocks@;
    vstd::set_lib::lemma_len_subset(t1.dom(), old(s).tombstones@.dom());
    vstd::set_lib::lemma_len_subset(c1.dom(), old(s).clocks@.dom());
    if r.capped_tombstones@.len() > 0 {
        let n = over(t1, config.max_entries);
        let gone = keys_of(r.capped_tombstones@);
        let picked = choose|picked: Seq<Seq<char>>| #[trigger]
            oldest(ages(t1), t1.dom(), picked, n) && (forall|x: Seq<char>| #[trigger]
                gone.contains(x) <==> picked.contains(x) && !tombstone_cap@.contains(x));
        assert(gone.contains(gone[0]));
        assert(picked.contains(gone[0]));
        assert forall|k: Seq<char>| #[trigger] t1.dom().contains(k) && !picked.contains(
            k,
        ) implies t2.dom().contains(k) by {
            assert(!gone.contains(k));
        }
        lemma_at_most_picked(t1, t2, picked, n, config.max_entries as nat);
    }
    if r.capped_clocks@.len() > 0 {
        let n = over(c1, config.max_entries);
        let among = orphans(c1, t2, clock_cap.live@);
        let gone = keys_of(r.capped_clocks@);
        let picked = choose|picked: Seq<Seq<char>>| #[trigger]
            oldest(ages(c1), among, picked, n) && (forall|x: Seq<char>| #[trigger]
                gone.contains(x) <==> picked.contains(x) && !clock_cap.contested@.contains(x));
        assert(gone.contains(gone[0]));
        assert(picked.contains(gone[0]));
        assert forall|k: Seq<char>| #[trigger] c1.dom().contains(k) && !picked.contains(
            k,
        ) implies c2.dom().contains(k) by {
            assert(!gone.contains(k));
        }
        lemma_at_most_picked(c1, c2, picked, n, config.max_entries as nat);
    }
}

/// Where no request holds a clock and there are still more clocks than the cap allows, each that is left
/// is in use: its file exists, or its deletion is remembered.
pub proof fn law_cap_takes_all_of_no_use_if_it_must(
    s: &mut FileServiceImpl,
    config: &GcConfig,
    now: u64,
    ttl_pass: &Observed,
    orphan_pass: &Observed,
    tombstone_cap: &KeySet,
    clock_cap: &Observed,
    r: GcReport,
    clocks: usize,
    k: Seq<char>,
)
    requires
        call_ensures(ClockStore::len, (&old(s).clocks,), clocks),
        call_ensures(
            gc_sweep,
            (s, config, now, ttl_pass, orphan_pass, tombstone_cap, clock_cap),
            r,
        ),
        clock_cap.contested@ == Set::<Seq<char>>::empty(),
        final(s).clocks@.dom().len() > config.max_entries,
        final(s).clocks@.dom().contains(k),
    ensures
        clock_cap.live@.contains(k) || holds(final(s).tombstones@, k),
{
    let c1 = without(old(s).clocks@, keys_of(r.orphaned@));
    let t2 = final(s).tombstones@;
    let c2 = final(s).clocks@;
    vstd::set_lib::lemma_len_subset(c1.dom(), old(s).clocks@.dom());
    let n = over(c1, config.max_entries);
    let among = orphans(c1, t2, clock_cap.live@);
    let gone = keys_of(r.capped_clocks@);
    let picked = choose|picked: Seq<Seq<char>>| #[trigger]
        oldest(ages(c1), among, picked, n) && (forall|x: Seq<char>| #[trigger]
            gone.contains(x) <==> picked.contains(x) && !clock_cap.contested@.contains(x));
    lemma_held(t2, k);
    if !clock_cap.live@.contains(k) && !holds(t2, k) {
        assert(!gone.contains(k));
        assert(!picked.contains(k));
        assert(among.contains(k));
        assert(picked.no_duplicates()) by {
            assert forall|i: int, j: int|
                0 <= i < picked.len() && 0 <= j < picked.len() && i != j implies picked[i]
                != picked[j] by {
                if i < j {
                    assert(older(ages(c1), picked[i], picked[j]));
                } else {
                    assert(older(ages(c1), picked[j], picked[i]));
                }
                if picked[i] == picked[j] && precedes(picked[i], picked[i]) {
                    lemma_precedes_asymmetric(picked[i], picked[i]);
                }
            }
        }
        picked.unique_seq_to_set();
        let set = picked.to_set();
        assert(set.subset_of(among)) by {
            assert forall|x: Seq<char>| set.contains(x) implies among.contains(x) by {
                let i = choose|i: int| 0 <= i < picked.len() && picked[i] == x;
                assert(among.contains(picked[i]));
            }
        }
        vstd::set_lib::lemma_len_subset(among, c1.dom());
        if n > among.len() {
            vstd::set_lib::lemma_subset_equality(set, among);
            assert(set.contains(k));
        } else {
            assert(c2.dom().disjoint(set)) by {
                assert forall|x: Seq<char>| !(c2.dom().contains(x) && set.contains(x)) by {
                    assert(gone.contains(x) <==> picked.contains(x));
                }
            }
            assert(c2.dom() + set =~= c1.dom()) by {
                assert forall|x: Seq<char>| (c2.dom() + set).contains(x) == c1.dom().contains(x) by {
                    assert(gone.contains(x) <==> picked.contains(x));
                }
            }
            vstd::set_lib::lemma_len_subset(c2.dom(), c1.dom());
            vstd::set_lib::lemma_set_disjoint_lens(c2.dom(), set);
        }
    }
}

/// Hours are so many seconds, and the cap is taken as it is given.
pub proof fn law_hours_are_seconds(interval: u64, ttl: u64, max: usize, r: GcConfig)
    requires
        call_ensures(GcConfig::from_hours, (interval, ttl, max), r),
    ensures
        r.interval == interval * 60 * 60,
        r.tombstone_ttl == ttl * 60 * 60,
        r.max_entries == max,
{
}

} // verus!
