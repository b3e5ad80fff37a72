//! Vector clocks: which device has written a path how often, and how two such histories relate.
use vstd::prelude::*;

use crate::keymap::{lists, Duplicate, KeyMap};

verus! {

/// What a clock counts: the number of writes that each device is known to have made.
pub type Counts = Map<Seq<char>, u64>;

/// The count of device `d`; a device that is not listed has written nothing.
pub open spec fn count(m: Counts, d: Seq<char>) -> u64 {
    if m.dom().contains(d) {
        m[d]
    } else {
        0
    }
}

/// Whether `a` has seen at least what `b` has seen of every device.
pub open spec fn covers(a: Counts, b: Counts) -> bool {
    forall|d: Seq<char>| #[trigger] count(a, d) >= count(b, d)
}

/// How `a` stands to `b`.
pub open spec fn order(a: Counts, b: Counts) -> ClockOrder {
    if covers(a, b) && covers(b, a) {
        ClockOrder::Equal
    } else if covers(a, b) {
        ClockOrder::Dominates
    } else if covers(b, a) {
        ClockOrder::DominatedBy
    } else {
        ClockOrder::Concurrent
    }
}

/// The greater of two counts.
pub open spec fn greater(x: u64, y: u64) -> u64 {
    if x >= y {
        x
    } else {
        y
    }
}

/// The history that holds what `a` and what `b` have seen: the greater count of every device that
/// either of them lists.
pub open spec fn joined(a: Counts, b: Counts) -> Counts {
    Map::new(
        |d: Seq<char>| a.dom().contains(d) || b.dom().contains(d),
        |d: Seq<char>| greater(count(a, d), count(b, d)),
    )
}

/// The history after one more write by device `d`.
pub open spec fn ticked(a: Counts, d: Seq<char>) -> Counts {
    a.insert(d, (count(a, d) + 1) as u64)
}

/// Whether one of the first `n` entries is that of `d`.
spec fn listed(entries: Seq<(Seq<char>, u64)>, n: int, d: Seq<char>) -> bool {
    exists|j: int| 0 <= j < n && #[trigger] entries[j].0 == d
}

/// The outcome of comparing two clocks.
#[derive(Clone, Copy, Debug, PartialEq, Eq, Structural)]
pub enum ClockOrder {
    /// Both have seen the same.
    Equal,
    /// The first has seen all that the second has, and more.
    Dominates,
    /// The second has seen all that the first has, and more.
    DominatedBy,
    /// Each has seen something that the other has not: a conflict.
    Concurrent,
}

/// Per-device write counters.
#[derive(Debug, PartialEq, Eq)]
pub struct VectorClock(pub KeyMap<u64>);

impl View for VectorClock {
    type V = Counts;

    open spec fn view(&self) -> Counts {
        self.0@
    }
}

impl Duplicate for VectorClock {
    fn duplicate(&self) -> (r: Self) {
        VectorClock(self.0.duplicate())
    }
}

impl Clone for VectorClock {
    fn clone(&self) -> (r: Self)
        ensures
            r@ == self@,
    {
        self.duplicate()
    }
}

impl Default for VectorClock {
    fn default() -> (r: Self)
        ensures
            r@ == Counts::empty(),
    {
        VectorClock::new()
    }
}

impl VectorClock {
    /// The clock of a path that nobody has written.
    pub fn new() -> (r: Self)
        ensures
            r@ == Counts::empty(),
    {
        VectorClock(KeyMap::new())
    }

    /// Whether the clock lists no device.
    pub fn is_empty(&self) -> (r: bool)
        ensures
            r == (self@ == Counts::empty()),
    {
        self.0.is_empty()
    }

    /// The count of one device.
    pub fn get(&self, device: &str) -> (r: u64)
        ensures
            r == count(self@, device@),
    {
        match self.0.get(device) {
            Some(n) => *n,
            None => 0,
        }
    }

    /// Sets the count of one device.
    pub fn set(&mut self, device: &str, n: u64)
        ensures
            final(self)@ == old(self)@.insert(device@, n),
    {
        self.0.insert(device.to_owned(), n);
    }

    /// Counts one more write by a device.
    pub fn increment(&mut self, device: &str)
        requires
            count(old(self)@, device@) < u64::MAX,
        ensures
            final(self)@ == ticked(old(self)@, device@),
    {
        let n = self.get(device);
        self.0.insert(device.to_owned(), n + 1);
    }

    /// How this clock stands to another.
    pub fn compare(&self, other: &VectorClock) -> (r: ClockOrder)
        ensures
            r == order(self@, other@),
    {
        let ghost a = self@;
        let ghost b = other@;
        let mut ahead: bool = false;
        let mut behind: bool = false;
        let n = self.0.len();
        let mut i: usize = 0;
        while i < n
            invariant
                i <= n,
                n == self.0.listing().len(),
                a == self@,
                b == other@,
                lists(self.0.listing(), a),
                ahead ==> !covers(b, a),
                behind ==> !covers(a, b),
                forall|j: int|
                    0 <= j < i ==> (!ahead ==> count(a, #[trigger] self.0.listing()[j].0) <= count(
                        b,
                        self.0.listing()[j].0,
                    )) && (!behind ==> count(a, self.0.listing()[j].0) >= count(
                        b,
                        self.0.listing()[j].0,
                    )),
            decreases n - i,
        {
            let mine = *self.0.value_at(i);
            let theirs = other.get(self.0.key_at(i).as_str());
            proof {
                let k = self.0.listing()[i as int].0;
                assert(a.dom().contains(k));
                assert(mine == count(a, k));
                assert(theirs == count(b, k));
            }
            if mine > theirs {
                ahead = true;
            }
            if mine < theirs {
                behind = true;
            }
            i = i + 1;
        }
        let m = other.0.len();
        let mut i: usize = 0;
        while i < m
            invariant
                i <= m,
                m == other.0.listing().len(),
                n == self.0.listing().len(),
                a == self@,
                b == other@,
                lists(self.0.listing(), a),
                lists(other.0.listing(), b),
                ahead ==> !covers(b, a),
                behind ==> !covers(a, b),
                forall|j: int|
                    0 <= j < n ==> (!ahead ==> count(a, #[trigger] self.0.listing()[j].0) <= count(
                        b,
                        self.0.listing()[j].0,
                    )) && (!behind ==> count(a, self.0.listing()[j].0) >= count(
                        b,
                        self.0.listing()[j].0,
                    )),
                forall|j: int|
                    0 <= j < i ==> (!ahead ==> count(a, #[trigger] other.0.listing()[j].0) <= count(
                        b,
                        other.0.listing()[j].0,
                    )) && (!behind ==> count(a, other.0.listing()[j].0) >= count(
                        b,
                        other.0.listing()[j].0,
                    )),
            decreases m - i,
        {
            let theirs = *other.0.value_at(i);
            let mine = self.get(other.0.key_at(i).as_str());
            proof {
                let k = other.0.listing()[i as int].0;
                assert(b.dom().contains(k));
                assert(mine == count(a, k));
                assert(theirs == count(b, k));
            }
            if mine > theirs {
                ahead = true;
            }
            if mine < theirs {
                behind = true;
            }
            i = i + 1;
        }
        proof {
            assert forall|d: Seq<char>| !ahead implies #[trigger] count(b, d) >= count(a, d) by {
                if a.dom().contains(d) {
                    let j = choose|j: int|
                        0 <= j < self.0.listing().len() && #[trigger] self.0.listing()[j].0 == d;
                    assert(self.0.listing()[j].0 == d);
                }
            }
            assert forall|d: Seq<char>| !behind implies #[trigger] count(a, d) >= count(b, d) by {
                if b.dom().contains(d) {
                    let j = choose|j: int|
                        0 <= j < other.0.listing().len() && #[trigger] other.0.listing()[j].0 == d;
                    assert(other.0.listing()[j].0 == d);
                }
            }
        }
        if ahead && behind {
            ClockOrder::Concurrent
        } else if ahead {
            ClockOrder::Dominates
        } else if behind {
            ClockOrder::DominatedBy
        } else {
            ClockOrder::Equal
        }
    }

    /// The clock that has seen what both have seen.
    pub fn merge(&self, other: &VectorClock) -> (r: VectorClock)
        ensures
            r@ == joined(self@, other@),
    {
        let mut merged = self.0.duplicate();
        let n = other.0.len();
        let mut i: usize = 0;
        while i < n
            invariant
                i <= n,
                n == other.0.listing().len(),
                lists(other.0.listing(), other@),
                forall|d: Seq<char>| #[trigger]
                    merged@.dom().contains(d) <==> self@.dom().contains(d) || listed(
                        other.0.listing(),
                        i as int,
                        d,
                    ),
                forall|d: Seq<char>| #[trigger]
                    merged@.dom().contains(d) ==> merged@[d] == (if listed(
                        other.0.listing(),
                        i as int,
                        d,
                    ) {
                        greater(count(self@, d), count(other@, d))
                    } else {
                        count(self@, d)
                    }),
            decreases n - i,
        {
            let theirs = *other.0.value_at(i);
            let ghost k = other.0.listing()[i as int].0;
            proof {
                assert(other@.dom().contains(other.0.listing()[i as int].0));
            }
            let mine = match merged.get(other.0.key_at(i).as_str()) {
                Some(v) => *v,
                None => 0u64,
            };
            let ghost before = merged@;
            let top = if mine >= theirs {
                mine
            } else {
                theirs
            };
            merged.insert(other.0.key_at(i).clone(), top);
            proof {
                assert(top == greater(count(self@, k), count(other@, k)));
                assert forall|d: Seq<char>| #[trigger]
                    listed(other.0.listing(), i + 1, d) <==> (d == k || listed(
                        other.0.listing(),
                        i as int,
                        d,
                    )) by {
                    if d == k {
                        assert(other.0.listing()[i as int].0 == d);
                    }
                }
            }
            i = i + 1;
        }
        assert forall|d: Seq<char>| #[trigger]
            listed(other.0.listing(), n as int, d) == other@.dom().contains(d) by {}
        assert(merged@ =~= joined(self@, other@));
        VectorClock(merged)
    }
}

/// Comparing the other way round swaps the two directions of dominance and leaves the other
/// outcomes as they are.
pub proof fn law_order_swapped(a: Counts, b: Counts)
    ensures
        order(a, b) == ClockOrder::Equal <==> order(b, a) == ClockOrder::Equal,
        order(a, b) == ClockOrder::Dominates <==> order(b, a) == ClockOrder::DominatedBy,
        order(a, b) == ClockOrder::DominatedBy <==> order(b, a) == ClockOrder::Dominates,
        order(a, b) == ClockOrder::Concurrent <==> order(b, a) == ClockOrder::Concurrent,
{
}

/// Two clocks are equal exactly when they count the same for every device, whether or not they
/// list the devices that have written nothing.
pub proof fn law_order_equal(a: Counts, b: Counts)
    ensures
        order(a, b) == ClockOrder::Equal <==> (forall|d: Seq<char>| #[trigger]
            count(a, d) == count(b, d)),
        order(a, a) == ClockOrder::Equal,
{
    if forall|d: Seq<char>| #[trigger] count(a, d) == count(b, d) {
        assert(covers(a, b) && covers(b, a));
    }
    if order(a, b) == ClockOrder::Equal {
        assert forall|d: Seq<char>| #[trigger] count(a, d) == count(b, d) by {
            assert(count(a, d) >= count(b, d));
            assert(count(b, d) >= count(a, d));
        }
    }
}

/// Dominance is transitive.
pub proof fn law_dominance_transitive(a: Counts, b: Counts, c: Counts)
    requires
        order(a, b) == ClockOrder::Dominates,
        order(b, c) == ClockOrder::Dominates,
    ensures
        order(a, c) == ClockOrder::Dominates,
{
    assert forall|d: Seq<char>| #[trigger] count(a, d) >= count(c, d) by {
        assert(count(a, d) >= count(b, d));
        assert(count(b, d) >= count(c, d));
    }
    if covers(c, a) {
        assert forall|d: Seq<char>| #[trigger] count(c, d) >= count(b, d) by {
            assert(count(c, d) >= count(a, d));
            assert(count(a, d) >= count(b, d));
        }
    }
}

/// A clock that was counted up dominates the clock that it was.
pub proof fn law_increment_dominates(a: Counts, d: Seq<char>)
    requires
        count(a, d) < u64::MAX,
    ensures
        order(ticked(a, d), a) == ClockOrder::Dominates,
        forall|e: Seq<char>| e != d ==> #[trigger] count(ticked(a, d), e) == count(a, e),
        count(ticked(a, d), d) == count(a, d) + 1,
{
    let t = ticked(a, d);
    assert(count(t, d) == count(a, d) + 1);
    assert forall|e: Seq<char>| #[trigger] count(t, e) >= count(a, e) by {}
    assert(count(a, d) < count(t, d));
    assert(!covers(a, t));
}

/// Counting the writes of two devices up from one clock makes two clocks that conflict.
pub proof fn law_independent_writes_conflict(a: Counts, d: Seq<char>, e: Seq<char>)
    requires
        d != e,
        count(a, d) < u64::MAX,
        count(a, e) < u64::MAX,
    ensures
        order(ticked(a, d), ticked(a, e)) == ClockOrder::Concurrent,
{
    law_increment_dominates(a, d);
    law_increment_dominates(a, e);
    assert(count(ticked(a, d), d) > count(ticked(a, e), d));
    assert(count(ticked(a, e), e) > count(ticked(a, d), e));
}

proof fn lemma_joined_count(a: Counts, b: Counts, d: Seq<char>)
    ensures
        count(joined(a, b), d) == greater(count(a, d), count(b, d)),
{
}

/// The join of two clocks has seen what each has seen, and nothing else: whatever covers both
/// covers it.
pub proof fn law_merge_is_least_upper_bound(a: Counts, b: Counts, c: Counts)
    ensures
        covers(joined(a, b), a),
        covers(joined(a, b), b),
        covers(c, a) && covers(c, b) ==> covers(c, joined(a, b)),
{
    assert forall|d: Seq<char>| #[trigger] count(joined(a, b), d) >= count(a, d) by {
        lemma_joined_count(a, b, d);
    }
    assert forall|d: Seq<char>| #[trigger] count(joined(a, b), d) >= count(b, d) by {
        lemma_joined_count(a, b, d);
    }
    if covers(c, a) && covers(c, b) {
        assert forall|d: Seq<char>| #[trigger] count(c, d) >= count(joined(a, b), d) by {
            lemma_joined_count(a, b, d);
            assert(count(c, d) >= count(a, d));
            assert(count(c, d) >= count(b, d));
        }
    }
}

/// Merging is commutative.
pub proof fn law_merge_commutative(a: Counts, b: Counts)
    ensures
        joined(a, b) == joined(b, a),
{
    assert(joined(a, b) =~= joined(b, a));
}

/// Merging is associative.
pub proof fn law_merge_associative(a: Counts, b: Counts, c: Counts)
    ensures
        joined(joined(a, b), c) == joined(a, joined(b, c)),
{
    assert(joined(joined(a, b), c) =~= joined(a, joined(b, c)));
}

/// Merging a clock with itself changes nothing, and neither does merging with an empty clock.
pub proof fn law_merge_idempotent(a: Counts)
    ensures
        joined(a, a) == a,
        joined(a, Counts::empty()) == a,
{
    assert(joined(a, a) =~= a);
    assert(joined(a, Counts::empty()) =~= a);
}

/// Merging with a clock that has seen no more adds no count.
pub proof fn law_merge_with_covered(a: Counts, b: Counts)
    requires
        covers(a, b),
    ensures
        order(joined(a, b), a) == ClockOrder::Equal,
{
    law_merge_is_least_upper_bound(a, b, a);
    assert(covers(a, a));
}

} // verus!
