//! What holds of the clocks, device by device.
use vstd::prelude::*;

use crate::clock::{count, covers, ClockOrder, Counts, VectorClock};

verus! {

/// How many writes of device `d` a clock has seen.
pub open spec fn writes(m: Counts, d: Seq<char>) -> int {
    if m.dom().contains(d) {
        m[d] as int
    } else {
        0
    }
}

/// Whether every write that `b` has seen was seen by `a`.
pub open spec fn has_seen(a: Counts, b: Counts) -> bool {
    forall|d: Seq<char>| b.dom().contains(d) ==> writes(a, d) >= #[trigger] b[d]
}

/// Whether `m` has seen what `a` and `b` have seen, and nothing else.
pub open spec fn unites(m: Counts, a: Counts, b: Counts) -> bool {
    &&& has_seen(m, a)
    &&& has_seen(m, b)
    &&& forall|d: Seq<char>|
        m.dom().contains(d) ==> {
            ||| a.dom().contains(d) && a[d] == #[trigger] m[d]
            ||| b.dom().contains(d) && b[d] == m[d]
        }
    &&& forall|d: Seq<char>| a.dom().contains(d) || b.dom().contains(d) ==> #[trigger] m.dom().contains(d)
}

/// Seeing what another has seen, stated over the counts of all devices.
pub proof fn lemma_has_seen(a: Counts, b: Counts)
    ensures
        has_seen(a, b) == covers(a, b),
{
    if has_seen(a, b) {
        assert forall|d: Seq<char>| #[trigger] count(a, d) >= count(b, d) by {
            if b.dom().contains(d) {
                assert(writes(a, d) >= b[d]);
            }
        }
    }
    if covers(a, b) {
        assert forall|d: Seq<char>| b.dom().contains(d) implies writes(a, d) >= #[trigger] b[d] by {
            assert(count(a, d) >= count(b, d));
        }
    }
}

/// The greater count of each device is the union of two histories.
pub proof fn lemma_unites(a: Counts, b: Counts)
    ensures
        unites(crate::clock::joined(a, b), a, b),
        unites(crate::clock::joined(b, a), a, b),
{
    let m = crate::clock::joined(a, b);
    let n = crate::clock::joined(b, a);
    assert forall|d: Seq<char>| a.dom().contains(d) implies writes(m, d) >= #[trigger] a[d] && writes(
        n,
        d,
    ) >= a[d] by {
        assert(m.dom().contains(d) && n.dom().contains(d));
    }
    assert forall|d: Seq<char>| b.dom().contains(d) implies writes(m, d) >= #[trigger] b[d] && writes(
        n,
        d,
    ) >= b[d] by {
        assert(m.dom().contains(d) && n.dom().contains(d));
    }
}

/// Two clocks compare as equal where they have seen the same, as dominating or dominated where one
/// of them has seen all that the other has and more, and as concurrent where each has seen a write
/// that the other has not.
pub proof fn law_comparison_goes_by_each_device(a: &VectorClock, b: &VectorClock, r: ClockOrder)
    requires
        call_ensures(VectorClock::compare, (a, b), r),
    ensures
        r == ClockOrder::Equal <==> has_seen(a@, b@) && has_seen(b@, a@),
        r == ClockOrder::Dominates <==> has_seen(a@, b@) && !has_seen(b@, a@),
        r == ClockOrder::DominatedBy <==> !has_seen(a@, b@) && has_seen(b@, a@),
        r == ClockOrder::Concurrent <==> !has_seen(a@, b@) && !has_seen(b@, a@),
        r == ClockOrder::Equal ==> forall|d: Seq<char>| #[trigger] writes(a@, d) == writes(b@, d),
{
    lemma_has_seen(a@, b@);
    lemma_has_seen(b@, a@);
    if r == ClockOrder::Equal {
        assert forall|d: Seq<char>| #[trigger] writes(a@, d) == writes(b@, d) by {
            assert(count(a@, d) >= count(b@, d));
            assert(count(b@, d) >= count(a@, d));
        }
    }
}

/// Merging two clocks gives one that has seen what both have seen, and no write that neither has
/// seen.
pub proof fn law_merge_unites(a: &VectorClock, b: &VectorClock, r: VectorClock)
    requires
        call_ensures(VectorClock::merge, (a, b), r),
    ensures
        unites(r@, a@, b@),
        forall|d: Seq<char>| #[trigger]
            writes(r@, d) == if writes(a@, d) >= writes(b@, d) {
                writes(a@, d)
            } else {
                writes(b@, d)
            },
{
    lemma_unites(a@, b@);
}

/// Counting a write adds one to the count of the device that made it, and touches no other.
pub proof fn law_increment_counts_one_write(c: &mut VectorClock, device: &str)
    requires
        call_ensures(VectorClock::increment, (c, device), ()),
        writes(old(c)@, device@) < u64::MAX,
    ensures
        writes(final(c)@, device@) == writes(old(c)@, device@) + 1,
        forall|d: Seq<char>|
            d != device@ ==> #[trigger] writes(final(c)@, d) == writes(old(c)@, d)
                && final(c)@.dom().contains(d) == old(c)@.dom().contains(d),
{
}

/// What is set for a device is what is read for it, and no other device is touched.
pub proof fn law_set_is_read(c: &mut VectorClock, device: &str, n: u64, other: &str, before: u64)
    requires
        call_ensures(VectorClock::set, (c, device, n), ()),
        call_ensures(VectorClock::get, (&*old(c), other), before),
    ensures
        writes(final(c)@, device@) == n,
        before == writes(old(c)@, other@),
        other@ != device@ ==> writes(final(c)@, other@) == before,
{
}

/// A clock is empty where it lists no device; a new one is, and has seen nothing.
pub proof fn law_empty_clock(made: VectorClock, c: &VectorClock, empty: bool)
    requires
        call_ensures(VectorClock::new, (), made),
        call_ensures(VectorClock::is_empty, (c,), empty),
    ensures
        forall|d: Seq<char>| #[trigger] writes(made@, d) == 0 && !made@.dom().contains(d),
        empty <==> forall|d: Seq<char>| !#[trigger] c@.dom().contains(d),
{
    if forall|d: Seq<char>| !#[trigger] c@.dom().contains(d) {
        assert(c@ =~= Counts::empty());
    }
}

} // verus!
