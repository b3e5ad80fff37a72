//! What a host remembers of each path: the clock of a live file, or the tombstone of a deleted
//! one.
use vstd::prelude::*;

use crate::clock::{Counts, VectorClock};
use crate::keymap::{filled, lists, Duplicate, KeyMap};
use crate::wall::{is_clock_second, now_unix};

verus! {

/// A clock and the second that goes with it, as contracts speak of them.
#[verifier::ext_equal]
pub struct Stamped {
    pub clock: Counts,
    pub at: u64,
}

/// What a store holds, as contracts speak of it.
pub type Stamps = Map<Seq<char>, Stamped>;

/// The clock that is held for `key`, the empty one where none is.
pub open spec fn clock_of(m: Stamps, key: Seq<char>) -> Counts {
    if m.dom().contains(key) {
        m[key].clock
    } else {
        Counts::empty()
    }
}

/// The live entries after `clock` was put for `key` at second `now`.
pub open spec fn with_clock(m: Stamps, key: Seq<char>, clock: Counts, now: u64) -> Stamps {
    m.insert(key, Stamped { clock, at: now })
}

/// The tombstones after `clock` was put for `key` at second `now`: one that is already there keeps
/// the second of its creation.
pub open spec fn with_tombstone(m: Stamps, key: Seq<char>, clock: Counts, now: u64) -> Stamps {
    m.insert(
        key,
        Stamped {
            clock,
            at: if m.dom().contains(key) {
                m[key].at
            } else {
                now
            },
        },
    )
}

/// The clock of a live path, and when it was last put.
#[derive(Debug, PartialEq, Eq)]
pub struct ClockEntry {
    pub clock: VectorClock,
    pub last_updated_at: u64,
}

impl View for ClockEntry {
    type V = Stamped;

    open spec fn view(&self) -> Stamped {
        Stamped { clock: self.clock@, at: self.last_updated_at }
    }
}

impl Duplicate for ClockEntry {
    fn duplicate(&self) -> (r: Self) {
        ClockEntry { clock: self.clock.duplicate(), last_updated_at: self.last_updated_at }
    }
}

impl Clone for ClockEntry {
    fn clone(&self) -> (r: Self)
        ensures
            r@ == self@,
    {
        self.duplicate()
    }
}

/// The clock of a deleted path, and when the deletion was first recorded.
#[derive(Debug, PartialEq, Eq)]
pub struct TombstoneEntry {
    pub clock: VectorClock,
    pub created_at: u64,
}

impl View for TombstoneEntry {
    type V = Stamped;

    open spec fn view(&self) -> Stamped {
        Stamped { clock: self.clock@, at: self.created_at }
    }
}

impl Duplicate for TombstoneEntry {
    fn duplicate(&self) -> (r: Self) {
        TombstoneEntry { clock: self.clock.duplicate(), created_at: self.created_at }
    }
}

impl Clone for TombstoneEntry {
    fn clone(&self) -> (r: Self)
        ensures
            r@ == self@,
    {
        self.duplicate()
    }
}

/// A value of a store's file: a bare clock, as files without seconds hold them, or a clock with
/// its second.
#[derive(Debug)]
pub enum FileValue {
    Old(VectorClock),
    New(VectorClock, u64),
}

impl View for FileValue {
    type V = Stamped;

    /// A bare clock has no second: it counts as 0.
    open spec fn view(&self) -> Stamped {
        match self {
            FileValue::Old(clock) => Stamped { clock: clock@, at: 0 },
            FileValue::New(clock, at) => Stamped { clock: clock@, at: *at },
        }
    }
}

/// The entries of a store as contracts speak of them.
pub open spec fn stamps_of<E: View<V = Stamped>>(entries: Seq<(String, E)>) -> Seq<(Seq<char>, Stamped)> {
    entries.map_values(|e: (String, E)| (e.0@, e.1@))
}

/// The clocks of the live paths.
#[derive(Debug)]
pub struct ClockStore {
    map: KeyMap<ClockEntry>,
}

impl View for ClockStore {
    type V = Stamps;

    closed spec fn view(&self) -> Stamps {
        self.map@
    }
}

impl ClockStore {
    /// The store that a file holds, where a later value of a path takes the place of an earlier one;
    /// no value is given where there is no file.
    pub fn open(values: Vec<(String, FileValue)>) -> (r: ClockStore)
        ensures
            r@ == filled(stamps_of(values@)),
    {
        let mut map: KeyMap<ClockEntry> = KeyMap::new();
        let ghost l = stamps_of(values@);
        let mut i: usize = 0;
        while i < values.len()
            invariant
                i <= values@.len(),
                l == stamps_of(values@),
                map@ == filled(l.take(i as int)),
            decreases values@.len() - i,
        {
            let (clock, at) = match &values[i].1 {
                FileValue::Old(clock) => (clock.duplicate(), 0u64),
                FileValue::New(clock, at) => (clock.duplicate(), *at),
            };
            map.insert(values[i].0.clone(), ClockEntry { clock, last_updated_at: at });
            i = i + 1;
            assert(l.take(i as int).drop_last() =~= l.take(i - 1));
            assert(l.take(i as int).last() == (values@[i - 1].0@, values@[i - 1].1@));
        }
        assert(l.take(i as int) =~= l);
        ClockStore { map }
    }

    /// The clock of a live path; the empty clock where the path is not known.
    pub fn get(&self, key: &str) -> (r: VectorClock)
        ensures
            r@ == clock_of(self@, key@),
    {
        match self.map.get(key) {
            Some(e) => e.clock.duplicate(),
            None => VectorClock::new(),
        }
    }

    /// Puts the clock of a live path, at the second `now`.
    pub fn put_at(&mut self, key: &str, clock: VectorClock, now: u64)
        ensures
            final(self)@ == with_clock(old(self)@, key@, clock@, now),
    {
        self.map.insert(key.to_owned(), ClockEntry { clock, last_updated_at: now });
    }

    /// Puts the clock of a live path, at the second that the system clock shows.
    pub fn put(&mut self, key: &str, clock: VectorClock)
        ensures
            exists|now: u64|
                is_clock_second(now) && final(self)@ == #[trigger] with_clock(
                    old(self)@,
                    key@,
                    clock@,
                    now,
                ),
    {
        let now = now_unix();
        self.put_at(key, clock, now);
    }

    /// Forgets a path. Says whether there was something to forget, and so to write out.
    pub fn remove(&mut self, key: &str) -> (r: bool)
        ensures
            final(self)@ == old(self)@.remove(key@),
            r == old(self)@.dom().contains(key@),
    {
        match self.map.remove(key) {
            Some(_) => true,
            None => false,
        }
    }

    /// All entries, in the order of the paths.
    pub fn entries(&self) -> (r: Vec<(String, ClockEntry)>)
        ensures
            lists(stamps_of(r@), self@),
    {
        let n = self.map.len();
        let mut out: Vec<(String, ClockEntry)> = Vec::new();
        let mut i: usize = 0;
        while i < n
            invariant
                i <= n,
                n == self.map.listing().len(),
                stamps_of(out@) == self.map.listing().take(i as int),
            decreases n - i,
        {
            let e = (self.map.key_at(i).clone(), self.map.value_at(i).duplicate());
            let ghost was = out@;
            assert((e.0@, e.1@) == self.map.listing()[i as int]);
            out.push(e);
            assert(stamps_of(out@) =~= stamps_of(was).push((e.0@, e.1@)));
            i = i + 1;
            assert(self.map.listing().take(i as int) =~= self.map.listing().take(i - 1).push(
                self.map.listing()[i - 1],
            ));
        }
        assert(self.map.listing().take(i as int) =~= self.map.listing());
        out
    }

    /// The number of live paths that are known.
    pub fn len(&self) -> (n: usize)
        ensures
            n == self@.dom().len(),
            self@.dom().finite(),
    {
        self.map.len()
    }

    /// Whether no live path is known.
    pub fn is_empty(&self) -> (r: bool)
        ensures
            r == (self@ == Stamps::empty()),
    {
        self.map.is_empty()
    }
}

/// The tombstones of the deleted paths.
#[derive(Debug)]
pub struct TombstoneStore {
    map: KeyMap<TombstoneEntry>,
}

impl View for TombstoneStore {
    type V = Stamps;

    closed spec fn view(&self) -> Stamps {
        self.map@
    }
}

impl TombstoneStore {
    /// The store that a file holds, where a later value of a path takes the place of an earlier one;
    /// no value is given where there is no file.
    pub fn open(values: Vec<(String, FileValue)>) -> (r: TombstoneStore)
        ensures
            r@ == filled(stamps_of(values@)),
    {
        let mut map: KeyMap<TombstoneEntry> = KeyMap::new();
        let ghost l = stamps_of(values@);
        let mut i: usize = 0;
        while i < values.len()
            invariant
                i <= values@.len(),
                l == stamps_of(values@),
                map@ == filled(l.take(i as int)),
            decreases values@.len() - i,
        {
            let (clock, at) = match &values[i].1 {
                FileValue::Old(clock) => (clock.duplicate(), 0u64),
                FileValue::New(clock, at) => (clock.duplicate(), *at),
            };
            map.insert(values[i].0.clone(), TombstoneEntry { clock, created_at: at });
            i = i + 1;
            assert(l.take(i as int).drop_last() =~= l.take(i - 1));
            assert(l.take(i as int).last() == (values@[i - 1].0@, values@[i - 1].1@));
        }
        assert(l.take(i as int) =~= l);
        TombstoneStore { map }
    }

    /// The clock of a deleted path; the empty clock where the path has no tombstone.
    pub fn get(&self, key: &str) -> (r: VectorClock)
        ensures
            r@ == clock_of(self@, key@),
    {
        match self.map.get(key) {
            Some(e) => e.clock.duplicate(),
            None => VectorClock::new(),
        }
    }

    /// Puts the tombstone of a path, at the second `now`.
    pub fn put_at(&mut self, key: &str, clock: VectorClock, now: u64)
        ensures
            final(self)@ == with_tombstone(old(self)@, key@, clock@, now),
    {
        let created_at = match self.map.get(key) {
            Some(e) => e.created_at,
            None => now,
        };
        self.map.insert(key.to_owned(), TombstoneEntry { clock, created_at });
    }

    /// Puts the tombstone of a path, at the second that the system clock shows.
    pub fn put(&mut self, key: &str, clock: VectorClock)
        ensures
            exists|now: u64|
                is_clock_second(now) && final(self)@ == #[trigger] with_tombstone(
                    old(self)@,
                    key@,
                    clock@,
                    now,
                ),
    {
        let now = now_unix();
        self.put_at(key, clock, now);
    }

    /// Drops the tombstone of a path. Says whether there was one, and so something to write out.
    pub fn remove(&mut self, key: &str) -> (r: bool)
        ensures
            final(self)@ == old(self)@.remove(key@),
            r == old(self)@.dom().contains(key@),
    {
        match self.map.remove(key) {
            Some(_) => true,
            None => false,
        }
    }

    /// All tombstones, in the order of the paths.
    pub fn entries(&self) -> (r: Vec<(String, TombstoneEntry)>)
        ensures
            lists(stamps_of(r@), self@),
    {
        let n = self.map.len();
        let mut out: Vec<(String, TombstoneEntry)> = Vec::new();
        let mut i: usize = 0;
        while i < n
            invariant
                i <= n,
                n == self.map.listing().len(),
                stamps_of(out@) == self.map.listing().take(i as int),
            decreases n - i,
        {
            let e = (self.map.key_at(i).clone(), self.map.value_at(i).duplicate());
            let ghost was = out@;
            assert((e.0@, e.1@) == self.map.listing()[i as int]);
            out.push(e);
            assert(stamps_of(out@) =~= stamps_of(was).push((e.0@, e.1@)));
            i = i + 1;
            assert(self.map.listing().take(i as int) =~= self.map.listing().take(i - 1).push(
                self.map.listing()[i - 1],
            ));
        }
        assert(self.map.listing().take(i as int) =~= self.map.listing());
        out
    }

    /// The number of tombstones.
    pub fn len(&self) -> (n: usize)
        ensures
            n == self@.dom().len(),
            self@.dom().finite(),
    {
        self.map.len()
    }

    /// Whether there is no tombstone.
    pub fn is_empty(&self) -> (r: bool)
        ensures
            r == (self@ == Stamps::empty()),
    {
        self.map.is_empty()
    }
}

/// Putting the clock of a path makes it the clock that is held for the path, and leaves every
/// other path alone.
pub proof fn law_put_then_get(m: Stamps, key: Seq<char>, clock: Counts, now: u64, other: Seq<char>)
    ensures
        clock_of(with_clock(m, key, clock, now), key) == clock,
        clock_of(with_tombstone(m, key, clock, now), key) == clock,
        other != key ==> clock_of(with_clock(m, key, clock, now), other) == clock_of(m, other),
        other != key ==> clock_of(with_tombstone(m, key, clock, now), other) == clock_of(m, other),
{
}

/// A path that was removed holds the empty clock, and every other path is left alone.
pub proof fn law_remove_then_get(m: Stamps, key: Seq<char>, other: Seq<char>)
    ensures
        clock_of(m.remove(key), key) == Counts::empty(),
        other != key ==> clock_of(m.remove(key), other) == clock_of(m, other),
{
}

/// However often a tombstone is put again, it keeps the second of its creation.
pub proof fn law_tombstone_keeps_its_creation(m: Stamps, key: Seq<char>, clock: Counts, now: u64)
    requires
        m.dom().contains(key),
    ensures
        with_tombstone(m, key, clock, now)[key].at == m[key].at,
{
}

} // verus!
