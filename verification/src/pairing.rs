//! Pairing: the one-time code that two devices exchange, the devices that a host has paired with,
//! the hosts that a client trusts, and who is let in by that.
use vstd::prelude::*;
use vstd::string::*;
use vstd::utf8::*;

use crate::age::{aged_keys, ages_match, in_age_order, insert_by_age, Ages};
use crate::certs::{
    device_of_der, extract_device_id_from_cert, pem_first_der, read_pem_first_der,
};
use crate::device::{hyphenated_form, uuid_parsed, DeviceId};
use crate::files::same_bytes;
use crate::keymap::{filled, lemma_listed_once, lists, Duplicate, KeyMap};
use crate::status::{Code, Status, StatusView};
use crate::text::{
    chars_of, decimal, find_last, is_digit, last_index, parse_u16, read_u16, render_decimal,
    render_six_digits, same, six_digits, string_of_range, trim, trim_start_matches, trimmed,
    without_prefixes,
};
use crate::wall::{
    is_clock_second, is_reading, nanos_since, now_unix, read_clock, time_between, whole_nanos,
};

verus! {

broadcast use vstd::seq_lib::group_seq_properties;

/// `ConstantTimeEq::ct_eq` of the crate subtle, on byte strings: whether they are the same. That
/// the time it takes does not depend on where they differ is left unsaid.
#[verifier::external_body]
fn ct_eq(a: &[u8], b: &[u8]) -> (r: bool)
    ensures
        r == (a@ == b@),
{
    subtle::ConstantTimeEq::ct_eq(a, b).into()
}

/// `Rng::gen_range` of the crate rand, from zero, on the randomness of the operating system: a
/// number below the bound. Which one is left to chance.
#[verifier::external_body]
fn os_random_below(bound: u32) -> (r: u32)
    requires
        bound > 0,
    ensures
        r < bound,
{
    rand::Rng::gen_range(&mut rand::rngs::OsRng, 0..bound)
}

/// How many codes there are: those of six digits.
pub const CODES: u32 = 1000000;

/// Whether a number is one that comes of drawing the number of a code.
pub closed spec fn is_drawn_code(n: u32) -> bool {
    call_ensures(os_random_below, (CODES,), n)
}

/// The number of a new code.
fn draw_code() -> (r: u32)
    ensures
        is_drawn_code(r),
        r < CODES,
{
    os_random_below(CODES)
}

proof fn lemma_utf8_injective(a: Seq<char>, b: Seq<char>)
    requires
        encode_utf8(a) == encode_utf8(b),
    ensures
        a == b,
{
    encode_utf8_decode_utf8(a);
    encode_utf8_decode_utf8(b);
}

/// Whether two texts are the same, found out by looking at all of both.
fn same_secret(a: &str, b: &str) -> (r: bool)
    ensures
        r == (a@ == b@),
{
    let r = ct_eq(a.as_bytes(), b.as_bytes());
    proof {
        if r {
            lemma_utf8_injective(a@, b@);
        }
    }
    r
}

/// A pairing code, as contracts speak of it.
#[verifier::ext_equal]
pub struct CodeView {
    pub code: Seq<char>,
    pub timeout_secs: u64,
    pub used: bool,
    pub failed_attempts: u32,
    pub max_attempts: u32,
}

/// Whether `elapsed` nanoseconds are longer than the code is good for.
pub open spec fn too_late(c: CodeView, elapsed: u128) -> bool {
    elapsed > c.timeout_secs * 1000000000
}

/// Whether a code is accepted `elapsed` nanoseconds after it was made: it is the right one, it is
/// not too late, and it has neither been used nor been guessed at too often.
pub open spec fn accepted(c: CodeView, input: Seq<char>, elapsed: u128) -> bool {
    input == c.code && !too_late(c, elapsed) && !c.used
}

/// What a code is after `input` was tried: accepted, it is used up; a wrong guess is counted, and
/// uses the code up once there have been as many as are allowed.
pub open spec fn tried(c: CodeView, input: Seq<char>, elapsed: u128) -> CodeView {
    if input != c.code {
        let failed: u32 = if c.failed_attempts < u32::MAX {
            (c.failed_attempts + 1) as u32
        } else {
            u32::MAX
        };
        CodeView { failed_attempts: failed, used: c.used || failed >= c.max_attempts, ..c }
    } else if accepted(c, input, elapsed) {
        CodeView { used: true, ..c }
    } else {
        c
    }
}

/// A code with the given number that has not been tried.
pub open spec fn new_code(n: u32, timeout_secs: u64, max_attempts: u32) -> CodeView {
    CodeView {
        code: six_digits(n as nat),
        timeout_secs,
        used: false,
        failed_attempts: 0,
        max_attempts,
    }
}

/// A code that is shown on the host and typed on the device that wants to pair.
pub struct PairingCode {
    code: String,
    generated_at: std::time::SystemTime,
    timeout_secs: u64,
    used: bool,
    failed_attempts: u32,
    max_attempts: u32,
}

impl View for PairingCode {
    type V = CodeView;

    closed spec fn view(&self) -> CodeView {
        CodeView {
            code: self.code@,
            timeout_secs: self.timeout_secs,
            used: self.used,
            failed_attempts: self.failed_attempts,
            max_attempts: self.max_attempts,
        }
    }
}

impl PairingCode {
    /// The reading of the system clock when the code was made.
    pub closed spec fn made_at(&self) -> std::time::SystemTime {
        self.generated_at
    }

    /// The code with the given number, made when the system clock gave the reading `made`.
    pub fn with_number_at(
        n: u32,
        made: std::time::SystemTime,
        timeout_secs: u64,
        max_attempts: u32,
    ) -> (r: PairingCode)
        requires
            n < CODES,
        ensures
            r@ == new_code(n, timeout_secs, max_attempts),
            r.made_at() == made,
    {
        PairingCode {
            code: render_six_digits(n),
            generated_at: made,
            timeout_secs,
            used: false,
            failed_attempts: 0,
            max_attempts,
        }
    }

    /// The code with the given number, made now.
    pub fn with_number(n: u32, timeout_secs: u64, max_attempts: u32) -> (r: PairingCode)
        requires
            n < CODES,
        ensures
            r@ == new_code(n, timeout_secs, max_attempts),
            is_reading(r.made_at()),
    {
        PairingCode::with_number_at(n, read_clock(), timeout_secs, max_attempts)
    }

    /// A new code of six digits, drawn at random, that is good for `timeout_secs` seconds and
    /// bears `max_attempts` wrong guesses.
    pub fn with_max_attempts(timeout_secs: u64, max_attempts: u32) -> (r: PairingCode)
        ensures
            exists|n: u32|
                n < CODES && is_drawn_code(n) && r@ == #[trigger] new_code(
                    n,
                    timeout_secs,
                    max_attempts,
                ),
            is_reading(r.made_at()),
            r@.code.len() == 6,
    {
        let n = draw_code();
        PairingCode::with_number(n, timeout_secs, max_attempts)
    }

    /// The code, for the host to show.
    pub fn code(&self) -> (r: &str)
        ensures
            r@ == self@.code,
    {
        self.code.as_str()
    }

    /// Tries a code `elapsed` nanoseconds after the code was made.
    pub fn verify_after(&mut self, input: &str, elapsed: u128) -> (r: bool)
        ensures
            r == accepted(old(self)@, input@, elapsed),
            final(self)@ == tried(old(self)@, input@, elapsed),
            final(self).made_at() == old(self).made_at(),
    {
        let matched = same_secret(self.code.as_str(), input);
        if !matched {
            self.failed_attempts = self.failed_attempts.saturating_add(1);
            if self.failed_attempts >= self.max_attempts {
                self.used = true;
            }
            return false;
        }
        if elapsed > self.timeout_secs as u128 * 1000000000 {
            return false;
        }
        if self.used {
            return false;
        }
        self.used = true;
        true
    }

    /// Tries a code now, so many nanoseconds after it was made as the system clock shows.
    pub fn verify(&mut self, input: &str) -> (r: bool)
        ensures
            exists|now: std::time::SystemTime|
                {
                    let elapsed = whole_nanos(
                        #[trigger] time_between(now, old(self).made_at()),
                    ) as u128;
                    &&& is_reading(now)
                    &&& r == accepted(old(self)@, input@, elapsed)
                    &&& final(self)@ == tried(old(self)@, input@, elapsed)
                },
            final(self).made_at() == old(self).made_at(),
            r ==> input@ == old(self)@.code && !old(self)@.used && final(self)@.used,
            input@ != old(self)@.code || old(self)@.used ==> !r,
    {
        let elapsed = nanos_since(&self.generated_at);
        self.verify_after(input, elapsed)
    }
}

/// One try: what was typed, and how many nanoseconds after the code was made.
pub type Try = (Seq<char>, u128);

/// What a code is after a number of tries.
pub open spec fn after_tries(c: CodeView, tries: Seq<Try>) -> CodeView
    decreases tries.len(),
{
    if tries.len() == 0 {
        c
    } else {
        let before = after_tries(c, tries.drop_last());
        tried(before, tries.last().0, tries.last().1)
    }
}

/// Whether the try at position `i` is accepted.
pub open spec fn accepts(c: CodeView, tries: Seq<Try>, i: int) -> bool {
    accepted(after_tries(c, tries.take(i)), tries[i].0, tries[i].1)
}

/// A code that is used up stays so, whatever is tried.
pub proof fn law_used_up_stays_used_up(c: CodeView, tries: Seq<Try>)
    requires
        c.used,
    ensures
        after_tries(c, tries).used,
        after_tries(c, tries).code == c.code,
    decreases tries.len(),
{
    if tries.len() > 0 {
        law_used_up_stays_used_up(c, tries.drop_last());
    }
}

proof fn lemma_tries_compose(c: CodeView, tries: Seq<Try>, i: int, j: int)
    requires
        0 <= i <= j <= tries.len(),
    ensures
        after_tries(c, tries.take(j)) == after_tries(
            after_tries(c, tries.take(i)),
            tries.subrange(i, j),
        ),
    decreases j - i,
{
    if i < j {
        lemma_tries_compose(c, tries, i, j - 1);
        assert(tries.take(j).drop_last() =~= tries.take(j - 1));
        assert(tries.subrange(i, j).drop_last() =~= tries.subrange(i, j - 1));
        assert(tries.take(j).last() == tries.subrange(i, j).last());
    } else {
        assert(tries.subrange(i, j) =~= Seq::empty());
    }
}

/// A code is accepted once at the most.
pub proof fn law_accepted_once(c: CodeView, tries: Seq<Try>, i: int, j: int)
    requires
        0 <= i < j < tries.len(),
        accepts(c, tries, i),
    ensures
        !accepts(c, tries, j),
{
    lemma_tries_compose(c, tries, i + 1, j);
    assert(tries.take(i + 1).drop_last() =~= tries.take(i));
    assert(after_tries(c, tries.take(i + 1)).used);
    law_used_up_stays_used_up(after_tries(c, tries.take(i + 1)), tries.subrange(i + 1, j));
}

/// A code that is too late, or not the right one, is not accepted.
pub proof fn law_wrong_or_late_is_refused(c: CodeView, input: Seq<char>, elapsed: u128)
    requires
        input != c.code || too_late(c, elapsed),
    ensures
        !accepted(c, input, elapsed),
{
}

/// Whether all tries are wrong guesses.
pub open spec fn all_wrong(c: CodeView, tries: Seq<Try>) -> bool {
    forall|i: int| 0 <= i < tries.len() ==> (#[trigger] tries[i]).0 != c.code
}

proof fn lemma_wrong_guesses_count(c: CodeView, tries: Seq<Try>)
    requires
        all_wrong(c, tries),
        c.failed_attempts + tries.len() <= u32::MAX,
    ensures
        after_tries(c, tries).failed_attempts == c.failed_attempts + tries.len(),
        after_tries(c, tries).max_attempts == c.max_attempts,
        after_tries(c, tries).code == c.code,
        tries.len() > 0 && c.failed_attempts + tries.len() >= c.max_attempts ==> after_tries(
            c,
            tries,
        ).used,
    decreases tries.len(),
{
    if tries.len() > 0 {
        let rest = tries.drop_last();
        assert forall|i: int| 0 <= i < rest.len() implies (#[trigger] rest[i]).0 != c.code by {
            assert(tries[i].0 != c.code);
        }
        lemma_wrong_guesses_count(c, rest);
        assert(tries.last().0 != c.code);
    }
}

/// After as many wrong guesses as a new code bears, the right code is not accepted either.
pub proof fn law_guessing_locks_out(c: CodeView, guesses: Seq<Try>, input: Seq<char>, elapsed: u128)
    requires
        c.failed_attempts == 0,
        all_wrong(c, guesses),
        guesses.len() > 0,
        c.max_attempts <= guesses.len() <= u32::MAX,
    ensures
        !accepted(after_tries(c, guesses), input, elapsed),
{
    lemma_wrong_guesses_count(c, guesses);
}

/// How many of the tries are wrong guesses.
pub open spec fn wrong_guesses(c: CodeView, tries: Seq<Try>) -> nat
    decreases tries.len(),
{
    if tries.len() == 0 {
        0
    } else {
        wrong_guesses(c, tries.drop_last()) + (if tries.last().0 != c.code {
            1nat
        } else {
            0nat
        })
    }
}

/// Whether one of the tries is accepted.
pub open spec fn one_accepted(c: CodeView, tries: Seq<Try>) -> bool {
    exists|i: int| 0 <= i < tries.len() && #[trigger] accepts(c, tries, i)
}

proof fn lemma_one_accepted(c: CodeView, tries: Seq<Try>)
    requires
        tries.len() > 0,
    ensures
        one_accepted(c, tries) <==> one_accepted(c, tries.drop_last()) || accepts(
            c,
            tries,
            tries.len() - 1,
        ),
{
    let rest = tries.drop_last();
    if one_accepted(c, tries) {
        let i = choose|i: int| 0 <= i < tries.len() && #[trigger] accepts(c, tries, i);
        if i < rest.len() {
            assert(rest.take(i) =~= tries.take(i));
            assert(accepts(c, rest, i));
        }
    }
    if one_accepted(c, rest) {
        let i = choose|i: int| 0 <= i < rest.len() && #[trigger] accepts(c, rest, i);
        assert(rest.take(i) =~= tries.take(i));
        assert(accepts(c, tries, i));
    }
}

/// Whatever is tried of a new code, it is used up exactly when one try was accepted or as many were
/// wrong as the code bears. A code that bears none is used up by the first that is wrong.
pub proof fn law_used_up_by_success_or_guessing(c: CodeView, tries: Seq<Try>)
    requires
        !c.used,
        c.failed_attempts == 0,
    ensures
        ({
            let wrong = wrong_guesses(c, tries);
            let after = after_tries(c, tries);
            &&& after.used <==> one_accepted(c, tries) || (wrong > 0 && wrong >= c.max_attempts)
            &&& after.failed_attempts == (if wrong < u32::MAX {
                wrong
            } else {
                u32::MAX as nat
            })
            &&& after.code == c.code
            &&& after.timeout_secs == c.timeout_secs
            &&& after.max_attempts == c.max_attempts
        }),
    decreases tries.len(),
{
    if tries.len() > 0 {
        law_used_up_by_success_or_guessing(c, tries.drop_last());
        lemma_one_accepted(c, tries);
        assert(tries.take(tries.len() - 1) =~= tries.drop_last());
    }
}

/// As long as no try of a new code was accepted and fewer were wrong than it bears, the right code
/// is accepted while it is in time.
pub proof fn law_right_code_in_time_is_accepted(c: CodeView, tries: Seq<Try>, elapsed: u128)
    requires
        !c.used,
        c.failed_attempts == 0,
        !one_accepted(c, tries),
        wrong_guesses(c, tries) < c.max_attempts,
        !too_late(c, elapsed),
    ensures
        accepted(after_tries(c, tries), c.code, elapsed),
{
    law_used_up_by_success_or_guessing(c, tries);
}

/// A device that a host has paired with, as contracts speak of it.
#[verifier::ext_equal]
pub struct PeerView {
    pub cert_pem: Seq<char>,
    pub paired_at: u64,
    pub display_name: Seq<char>,
}

/// A device that a host has paired with.
#[derive(Debug, PartialEq, Eq)]
pub struct PeerEntry {
    pub cert_pem: String,
    pub paired_at: u64,
    pub display_name: String,
}

impl View for PeerEntry {
    type V = PeerView;

    open spec fn view(&self) -> PeerView {
        PeerView {
            cert_pem: self.cert_pem@,
            paired_at: self.paired_at,
            display_name: self.display_name@,
        }
    }
}

impl Duplicate for PeerEntry {
    fn duplicate(&self) -> (r: Self) {
        PeerEntry {
            cert_pem: self.cert_pem.clone(),
            paired_at: self.paired_at,
            display_name: self.display_name.clone(),
        }
    }
}

impl Clone for PeerEntry {
    fn clone(&self) -> (r: Self)
        ensures
            r@ == self@,
    {
        self.duplicate()
    }
}

/// The paired devices by their names, as contracts speak of them.
pub type Peers = Map<Seq<char>, PeerView>;

/// When each device was paired.
pub open spec fn pairing_times(m: Peers) -> Ages {
    m.map_values(|p: PeerView| p.paired_at)
}

/// The paired devices of a list, as contracts speak of them.
pub open spec fn peer_views(v: Seq<(String, PeerEntry)>) -> Seq<(Seq<char>, PeerView)> {
    v.map_values(|e: (String, PeerEntry)| (e.0@, e.1@))
}

/// The names in a list of paired devices.
pub open spec fn peer_names(l: Seq<(Seq<char>, PeerView)>) -> Seq<Seq<char>> {
    l.map_values(|e: (Seq<char>, PeerView)| e.0)
}

/// Whether `l` lists the paired devices, each once, those that were paired earlier first, and those
/// of one second in the order of their names.
pub open spec fn lists_by_time(m: Peers, l: Seq<(Seq<char>, PeerView)>) -> bool {
    &&& in_age_order(pairing_times(m), peer_names(l))
    &&& forall|k: Seq<char>| #[trigger] peer_names(l).contains(k) <==> m.dom().contains(k)
    &&& forall|i: int| 0 <= i < l.len() ==> (#[trigger] l[i]).1 == m[l[i].0]
}

/// The devices that a host has paired with.
#[derive(Debug)]
pub struct PeersStore {
    peers: KeyMap<PeerEntry>,
}

impl View for PeersStore {
    type V = Peers;

    closed spec fn view(&self) -> Peers {
        self.peers@
    }
}

impl PeersStore {
    /// No paired device.
    pub fn empty() -> (r: PeersStore)
        ensures
            r@ == Peers::empty(),
    {
        PeersStore { peers: KeyMap::new() }
    }

    /// The paired devices that a file holds, where a later one of the same name takes the place of
    /// an earlier one.
    pub fn open(entries: Vec<(String, PeerEntry)>) -> (r: PeersStore)
        ensures
            r@ == filled(peer_views(entries@)),
    {
        let mut peers: KeyMap<PeerEntry> = KeyMap::new();
        let ghost l = peer_views(entries@);
        let mut i: usize = 0;
        while i < entries.len()
            invariant
                i <= entries@.len(),
                l == peer_views(entries@),
                peers@ == filled(l.take(i as int)),
            decreases entries@.len() - i,
        {
            peers.insert(entries[i].0.clone(), entries[i].1.duplicate());
            i = i + 1;
            assert(l.take(i as int).drop_last() =~= l.take(i - 1));
            assert(l.take(i as int).last() == (entries@[i - 1].0@, entries@[i - 1].1@));
        }
        assert(l.take(i as int) =~= l);
        PeersStore { peers }
    }

    /// What is known of a paired device.
    pub fn get(&self, device_id: &DeviceId) -> (r: Option<PeerEntry>)
        ensures
            match r {
                Some(e) => self@.dom().contains(hyphenated_form(device_id.0)) && e@
                    == self@[hyphenated_form(device_id.0)],
                None => !self@.dom().contains(hyphenated_form(device_id.0)),
            },
    {
        let name = device_id.to_string();
        match self.peers.get(name.as_str()) {
            Some(e) => Some(e.duplicate()),
            None => None,
        }
    }

    /// Whether a device is paired.
    pub fn contains(&self, device_id: &DeviceId) -> (r: bool)
        ensures
            r == self@.dom().contains(hyphenated_form(device_id.0)),
    {
        let name = device_id.to_string();
        self.peers.contains_key(name.as_str())
    }

    /// Whether a certificate in PEM is the one that the device was paired with.
    pub fn verify_cert(&self, device_id: &DeviceId, cert_pem: &str) -> (r: bool)
        ensures
            r == (self@.dom().contains(hyphenated_form(device_id.0))
                && self@[hyphenated_form(device_id.0)].cert_pem == cert_pem@),
    {
        match self.get(device_id) {
            Some(e) => same(e.cert_pem.as_str(), cert_pem),
            None => false,
        }
    }

    /// Whether a certificate in DER is the one that the device was paired with, byte for byte.
    pub fn verify_cert_der(&self, device_id: &DeviceId, cert_der: &[u8]) -> (r: bool)
        ensures
            r == is_peer_cert(self@, hyphenated_form(device_id.0), cert_der@),
    {
        match self.get(device_id) {
            Some(e) => {
                let stored = read_pem_first_der(e.cert_pem.as_str());
                is_stored_cert(stored.as_ref(), cert_der)
            },
            None => false,
        }
    }

    /// Remembers a device as paired at second `now`, with its certificate and its name.
    pub fn add_at(&mut self, device_id: &DeviceId, cert_pem: String, display_name: String, now: u64)
        ensures
            final(self)@ == old(self)@.insert(
                hyphenated_form(device_id.0),
                PeerView { cert_pem: cert_pem@, paired_at: now, display_name: display_name@ },
            ),
    {
        self.peers.insert(
            device_id.to_string(),
            PeerEntry { cert_pem, paired_at: now, display_name },
        );
    }

    /// Remembers a device as paired now.
    pub fn add(&mut self, device_id: &DeviceId, cert_pem: String, display_name: String)
        ensures
            exists|now: u64|
                is_clock_second(now) && final(self)@ == old(self)@.insert(
                    hyphenated_form(device_id.0),
                    #[trigger] peer_at(cert_pem@, display_name@, now),
                ),
    {
        let now = now_unix();
        self.add_at(device_id, cert_pem, display_name, now);
        assert(self@ == old(self)@.insert(
            hyphenated_form(device_id.0),
            peer_at(cert_pem@, display_name@, now),
        ));
    }

    /// The paired devices, in the order in which they were paired.
    pub fn list(&self) -> (r: Vec<(String, PeerEntry)>)
        ensures
            lists_by_time(self@, peer_views(r@)),
            r@.len() == self@.dom().len(),
    {
        let n = self.peers.len();
        let ghost l = self.peers.listing();
        let ghost m = self@;
        let ghost times = pairing_times(m);
        let mut sorted: Vec<(String, u64)> = Vec::new();
        let mut i: usize = 0;
        while i < n
            invariant
                i <= n,
                n == l.len(),
                l == self.peers.listing(),
                m == self@,
                m == self.peers@,
                times == pairing_times(m),
                lists(l, m),
                sorted@.len() == i,
                in_age_order(times, aged_keys(sorted@)),
                ages_match(times, sorted@),
                forall|k: Seq<char>| #[trigger]
                    aged_keys(sorted@).contains(k) <==> exists|j: int|
                        0 <= j < i && #[trigger] l[j].0 == k,
            decreases n - i,
        {
            let ghost was = aged_keys(sorted@);
            proof {
                assert(m.dom().contains(l[i as int].0));
                if was.contains(l[i as int].0) {
                    let j = choose|j: int| 0 <= j < i && #[trigger] l[j].0 == l[i as int].0;
                    lemma_listed_once(l, m, j, i as int);
                }
            }
            let key = self.peers.key_at(i).clone();
            let at = self.peers.value_at(i).paired_at;
            assert(at == times[key@]);
            insert_by_age(Ghost(times), &mut sorted, key, at);
            proof {
                assert forall|k: Seq<char>| #[trigger]
                    aged_keys(sorted@).contains(k) <==> exists|j: int|
                        0 <= j < i + 1 && #[trigger] l[j].0 == k by {
                    if aged_keys(sorted@).contains(k) {
                        if was.contains(k) {
                            let j = choose|j: int| 0 <= j < i && #[trigger] l[j].0 == k;
                            assert(l[j].0 == k);
                        } else {
                            assert(l[i as int].0 == k);
                        }
                    }
                    if exists|j: int| 0 <= j < i + 1 && #[trigger] l[j].0 == k {
                        let j = choose|j: int| 0 <= j < i + 1 && #[trigger] l[j].0 == k;
                        if j < i {
                            assert(was.contains(k));
                        }
                    }
                }
            }
            i = i + 1;
        }
        let ghost all = aged_keys(sorted@);
        proof {
            assert forall|k: Seq<char>| #[trigger] all.contains(k) <==> m.dom().contains(k) by {
                if all.contains(k) {
                    let j = choose|j: int| 0 <= j < i && #[trigger] l[j].0 == k;
                    assert(m.dom().contains(l[j].0));
                }
                if m.dom().contains(k) {
                    let j = choose|j: int| 0 <= j < l.len() && #[trigger] l[j].0 == k;
                    assert(l[j].0 == k);
                }
            }
        }
        let mut out: Vec<(String, PeerEntry)> = Vec::new();
        let mut i: usize = 0;
        while i < sorted.len()
            invariant
                i <= sorted@.len(),
                m == self@,
                m == self.peers@,
                all == aged_keys(sorted@),
                forall|k: Seq<char>| #[trigger] all.contains(k) <==> m.dom().contains(k),
                out@.len() == i,
                forall|j: int|
                    0 <= j < i ==> (#[trigger] peer_views(out@)[j]) == (all[j], m[all[j]]),
            decreases sorted@.len() - i,
        {
            assert(all.contains(all[i as int]));
            assert(sorted@[i as int].0@ == all[i as int]);
            if let Some(e) = self.peers.get(sorted[i].0.as_str()) {
                let ghost was = out@;
                out.push((sorted[i].0.clone(), e.duplicate()));
                assert forall|j: int| 0 <= j < i + 1 implies (#[trigger] peer_views(out@)[j]) == (
                    all[j],
                    m[all[j]],
                ) by {
                    if j < i {
                        assert(peer_views(was)[j] == peer_views(out@)[j]);
                    }
                }
            }
            i = i + 1;
        }
        proof {
            let v = peer_views(out@);
            assert(peer_names(v) =~= all);
            assert forall|i: int| 0 <= i < v.len() implies (#[trigger] v[i]).1 == m[v[i].0] by {}
        }
        out
    }
}

/// A device paired at second `now`.
pub open spec fn peer_at(cert_pem: Seq<char>, display_name: Seq<char>, now: u64) -> PeerView {
    PeerView { cert_pem, paired_at: now, display_name }
}

/// Whether a certificate in DER is the one that the device of the given name was paired with.
pub open spec fn is_peer_cert(m: Peers, name: Seq<char>, der: Seq<u8>) -> bool {
    m.dom().contains(name) && pem_first_der(m[name].cert_pem) == Some(der)
}

/// Whether a certificate in DER is the one that was kept, if one can be read from what was kept.
pub fn is_stored_cert(stored: Option<&Vec<u8>>, cert_der: &[u8]) -> (r: bool)
    ensures
        r == (stored matches Some(d) && d@ == cert_der@),
{
    match stored {
        Some(d) => same_bytes(d.as_slice(), cert_der),
        None => false,
    }
}

/// The certificates of a list, each without whitespace around it and with a line end after it.
pub open spec fn bundle(l: Seq<(Seq<char>, PeerView)>) -> Seq<char>
    decreases l.len(),
{
    if l.len() == 0 {
        Seq::empty()
    } else {
        (bundle(l.drop_last()) + trimmed(l.last().1.cert_pem)).push('\n')
    }
}

/// The certificates of a list of paired devices in one text; none where the list is empty.
pub fn bundle_certs(entries: &Vec<(String, PeerEntry)>) -> (r: Option<String>)
    ensures
        match r {
            None => entries@.len() == 0,
            Some(s) => entries@.len() > 0 && s@ == bundle(peer_views(entries@)),
        },
{
    if entries.len() == 0 {
        return None;
    }
    let mut combined: String = String::new();
    let ghost l = peer_views(entries@);
    let mut i: usize = 0;
    while i < entries.len()
        invariant
            i <= entries@.len(),
            l == peer_views(entries@),
            combined@ == bundle(l.take(i as int)),
        decreases entries@.len() - i,
    {
        let cert = trim(entries[i].1.cert_pem.as_str());
        combined.append(cert.as_str());
        combined.push('\n');
        i = i + 1;
        assert(l.take(i as int).drop_last() =~= l.take(i - 1));
        assert(l.take(i as int).last().1.cert_pem == entries@[i - 1].1.cert_pem@);
    }
    assert(l.take(i as int) =~= l);
    Some(combined)
}

/// The certificates of all paired devices in one text, in the order in which they were paired; none
/// where no device is paired.
pub fn build_peer_ca_pem(peers: &PeersStore) -> (r: Option<String>)
    ensures
        match r {
            None => peers@.dom().len() == 0,
            Some(s) => peers@.dom().len() > 0 && exists|l: Seq<(Seq<char>, PeerView)>| #[trigger]
                lists_by_time(peers@, l) && s@ == bundle(l),
        },
{
    let entries = peers.list();
    bundle_certs(&entries)
}

/// Whether a token is the expected one. All bytes are looked at, so that the time it takes does
/// not tell where they differ.
pub fn token_matches(presented: &[u8], expected: &[u8]) -> (r: bool)
    ensures
        r == (presented@ == expected@),
{
    if presented.len() != expected.len() {
        return false;
    }
    let mut diff: u8 = 0;
    let mut i: usize = 0;
    while i < presented.len()
        invariant
            i <= presented@.len(),
            presented@.len() == expected@.len(),
            diff == 0 <==> (forall|j: int| 0 <= j < i ==> presented@[j] == expected@[j]),
        decreases presented@.len() - i,
    {
        let a: u8 = presented[i];
        let b: u8 = expected[i];
        let d: u8 = diff;
        assert((d | (a ^ b)) == 0 <==> d == 0 && a == b) by (bit_vector);
        diff = d | (a ^ b);
        i = i + 1;
    }
    proof {
        if diff == 0 {
            assert(presented@ =~= expected@);
        }
    }
    diff == 0
}

/// The header that carries the token of a request.
pub const AUTH_HEADER: &'static str = "x-nexus-token";

/// Whether a request is let in: by the certificate where one was presented, else by the token.
pub open spec fn let_in(
    peers: Peers,
    cert: Option<Seq<u8>>,
    token: Option<Seq<u8>>,
    expected: Seq<u8>,
) -> bool {
    match cert {
        Some(der) => device_of_der(der) matches Some(id) && is_peer_cert(
            peers,
            hyphenated_form(id.0),
            der,
        ),
        None => token == Some(expected),
    }
}

/// The verdict on a request, where `cert_trusted` says of the certificate, if one was presented,
/// whether it is that of a paired device.
pub fn judge_request(cert_trusted: Option<bool>, token: Option<&[u8]>, expected: &[u8]) -> (r: Result<
    (),
    Status,
>)
    ensures
        match r {
            Ok(_) => match cert_trusted {
                Some(trusted) => trusted,
                None => token matches Some(t) && t@ == expected@,
            },
            Err(e) => match cert_trusted {
                Some(trusted) => !trusted && e@ == (StatusView {
                    code: Code::Unauthenticated,
                    message: "client certificate not trusted"@,
                }),
                None => !(token matches Some(t) && t@ == expected@) && e@ == (StatusView {
                    code: Code::Unauthenticated,
                    message: "missing or invalid auth token"@,
                }),
            },
        },
{
    match cert_trusted {
        Some(true) => Ok(()),
        Some(false) => Err(Status::new(Code::Unauthenticated, "client certificate not trusted")),
        None => {
            let good = match token {
                Some(t) => token_matches(t, expected),
                None => false,
            };
            if good {
                Ok(())
            } else {
                Err(Status::new(Code::Unauthenticated, "missing or invalid auth token"))
            }
        },
    }
}

/// The views of byte strings that may be missing.
pub open spec fn bytes_view(b: Option<&[u8]>) -> Option<Seq<u8>> {
    match b {
        Some(s) => Some(s@),
        None => None,
    }
}

/// Lets a request in or turns it down. A certificate that was presented decides alone; the token
/// counts where none was.
pub fn authorize(peers: &PeersStore, cert: Option<&[u8]>, token: Option<&[u8]>, expected: &[u8]) -> (r:
    Result<(), Status>)
    ensures
        match r {
            Ok(_) => let_in(peers@, bytes_view(cert), bytes_view(token), expected@),
            Err(e) => !let_in(peers@, bytes_view(cert), bytes_view(token), expected@) && e@ == (
            StatusView {
                code: Code::Unauthenticated,
                message: if cert is Some {
                    "client certificate not trusted"@
                } else {
                    "missing or invalid auth token"@
                },
            }),
        },
{
    let cert_trusted = match cert {
        Some(der) => match extract_device_id_from_cert(der) {
            Some(id) => Some(peers.verify_cert_der(&id, der)),
            None => Some(false),
        },
        None => None,
    };
    judge_request(cert_trusted, token, expected)
}

/// A certificate of a device that is not paired is turned down, whatever token comes with it.
pub proof fn law_unpaired_certificate_is_refused(
    peers: Peers,
    der: Seq<u8>,
    token: Option<Seq<u8>>,
    expected: Seq<u8>,
)
    requires
        forall|id: DeviceId|
            device_of_der(der) == Some(id) ==> !peers.dom().contains(#[trigger] hyphenated_form(id.0)),
    ensures
        !let_in(peers, Some(der), token, expected),
{
}

/// The certificate that a device was paired with lets it in, as long as it names the device.
pub proof fn law_paired_certificate_is_let_in(
    peers: Peers,
    id: DeviceId,
    peer: PeerView,
    der: Seq<u8>,
    token: Option<Seq<u8>>,
    expected: Seq<u8>,
)
    requires
        pem_first_der(peer.cert_pem) == Some(der),
        device_of_der(der) == Some(id),
    ensures
        let_in(peers.insert(hyphenated_form(id.0), peer), Some(der), token, expected),
{
}

/// A request to pair.
pub struct PairRequest {
    pub code: String,
    pub initiator_device_id: String,
    pub initiator_cert_pem: String,
    pub initiator_display_name: String,
}

/// The answer to a request to pair.
#[derive(Debug)]
pub struct PairResponse {
    pub accepted: bool,
    pub host_cert_pem: String,
    pub host_device_id: String,
    pub error_message: String,
}

/// What is told of a paired device.
#[derive(Debug)]
pub struct PeerInfo {
    pub device_id: String,
    pub display_name: String,
    pub paired_at: i64,
}

/// A host that waits for a device to pair with.
pub struct PairingServer {
    pub store: PeersStore,
    pub code: PairingCode,
    pub host_device_id: DeviceId,
    pub host_cert_pem: String,
    /// Whether a device has been paired, so that the host need not wait any longer.
    pub done: bool,
}

/// Whether a request pairs the device that sent it.
pub open spec fn pairs(code: CodeView, request: PairRequest, elapsed: u128) -> bool {
    accepted(code, request.code@, elapsed) && uuid_parsed(request.initiator_device_id@) is Some
}

/// Whether an answer turns a request down with the given text.
pub open spec fn turned_down(r: PairResponse, message: Seq<char>) -> bool {
    !r.accepted && r.host_cert_pem@.len() == 0 && r.host_device_id@.len() == 0 && r.error_message@
        == message
}

fn turn_down(message: &str) -> (r: PairResponse)
    ensures
        turned_down(r, message@),
{
    PairResponse {
        accepted: false,
        host_cert_pem: String::new(),
        host_device_id: String::new(),
        error_message: message.to_owned(),
    }
}

/// Whether a host has gone from `before` to `after` and answered `r` to a request that came
/// `elapsed` nanoseconds after the code was made, at second `now`: the device is remembered with its
/// certificate and its name where the code is accepted and the device has an identity, else nothing
/// is but the attempt.
pub open spec fn answered(
    before: PairingServer,
    after: PairingServer,
    request: PairRequest,
    elapsed: u128,
    now: u64,
    r: PairResponse,
) -> bool {
    &&& after.code@ == tried(before.code@, request.code@, elapsed)
    &&& after.code.made_at() == before.code.made_at()
    &&& after.host_device_id == before.host_device_id
    &&& after.host_cert_pem@ == before.host_cert_pem@
    &&& after.done == (before.done || pairs(before.code@, request, elapsed))
    &&& pairs(before.code@, request, elapsed) ==> {
        &&& r.accepted
        &&& r.host_cert_pem@ == before.host_cert_pem@
        &&& r.host_device_id@ == hyphenated_form(before.host_device_id.0)
        &&& r.error_message@.len() == 0
        &&& after.store@ == before.store@.insert(
            hyphenated_form(uuid_parsed(request.initiator_device_id@)->0),
            peer_at(request.initiator_cert_pem@, request.initiator_display_name@, now),
        )
    }
    &&& !pairs(before.code@, request, elapsed) ==> {
        &&& after.store@ == before.store@
        &&& turned_down(
            r,
            if accepted(before.code@, request.code@, elapsed) {
                "invalid initiator_device_id"@
            } else {
                "invalid, expired, or already-used code"@
            },
        )
    }
}

impl PairingServer {
    /// Answers a request to pair that comes `elapsed` nanoseconds after the code was made, at
    /// second `now`.
    pub fn request_pair_after(&mut self, request: PairRequest, elapsed: u128, now: u64) -> (r:
        PairResponse)
        ensures
            answered(*old(self), *final(self), request, elapsed, now, r),
    {
        if !self.code.verify_after(request.code.as_str(), elapsed) {
            return turn_down("invalid, expired, or already-used code");
        }
        match DeviceId::parse(request.initiator_device_id.as_str()) {
            None => turn_down("invalid initiator_device_id"),
            Some(id) => {
                self.store.add_at(
                    &id,
                    request.initiator_cert_pem,
                    request.initiator_display_name,
                    now,
                );
                self.done = true;
                PairResponse {
                    accepted: true,
                    host_cert_pem: self.host_cert_pem.clone(),
                    host_device_id: self.host_device_id.to_string(),
                    error_message: String::new(),
                }
            },
        }
    }

    /// Answers a request to pair that comes now, so many nanoseconds after the code was made as the
    /// system clock shows.
    pub fn request_pair(&mut self, request: PairRequest) -> (r: PairResponse)
        ensures
            exists|now: std::time::SystemTime, at: u64|
                #![trigger time_between(now, old(self).code.made_at()), is_clock_second(at)]
                is_reading(now) && is_clock_second(at) && answered(
                    *old(self),
                    *final(self),
                    request,
                    whole_nanos(time_between(now, old(self).code.made_at())) as u128,
                    at,
                    r,
                ),
            request.code@ != old(self).code@.code || old(self).code@.used ==> turned_down(
                r,
                "invalid, expired, or already-used code"@,
            ),
    {
        let elapsed = nanos_since(&self.code.generated_at);
        let now = now_unix();
        self.request_pair_after(request, elapsed, now)
    }

    /// What is told of the paired devices, in the order in which they were paired.
    pub fn list_peers(&self) -> (r: Vec<PeerInfo>)
        ensures
            exists|l: Seq<(Seq<char>, PeerView)>| #[trigger]
                lists_by_time(self.store@, l) && tells(r@, l),
    {
        let entries = self.store.list();
        peer_infos(&entries)
    }
}

/// Whether what is told is what a list of paired devices holds.
pub open spec fn tells(infos: Seq<PeerInfo>, l: Seq<(Seq<char>, PeerView)>) -> bool {
    infos.len() == l.len() && forall|i: int|
        0 <= i < l.len() ==> (#[trigger] infos[i]).device_id@ == l[i].0 && infos[i].display_name@
            == l[i].1.display_name && infos[i].paired_at == l[i].1.paired_at as i64
}

/// What is told of the paired devices of a list.
pub fn peer_infos(entries: &Vec<(String, PeerEntry)>) -> (r: Vec<PeerInfo>)
    ensures
        tells(r@, peer_views(entries@)),
{
    let mut out: Vec<PeerInfo> = Vec::new();
    let mut i: usize = 0;
    while i < entries.len()
        invariant
            i <= entries@.len(),
            out@.len() == i,
            forall|j: int|
                0 <= j < i ==> (#[trigger] out@[j]).device_id@ == entries@[j].0@
                    && out@[j].display_name@ == entries@[j].1.display_name@ && out@[j].paired_at
                    == entries@[j].1.paired_at as i64,
        decreases entries@.len() - i,
    {
        let paired_at = #[verifier::truncate] (entries[i].1.paired_at as i64);
        out.push(
            PeerInfo {
                device_id: entries[i].0.clone(),
                display_name: entries[i].1.display_name.clone(),
                paired_at,
            },
        );
        i = i + 1;
    }
    out
}

/// A host that a client trusts, as contracts speak of it.
#[verifier::ext_equal]
pub struct TrustedView {
    pub cert_pem: Seq<char>,
    pub host_display_name: Seq<char>,
}

/// A host that a client trusts.
#[derive(Debug, PartialEq, Eq)]
pub struct TrustedHostEntry {
    pub cert_pem: String,
    pub host_display_name: String,
}

impl View for TrustedHostEntry {
    type V = TrustedView;

    open spec fn view(&self) -> TrustedView {
        TrustedView { cert_pem: self.cert_pem@, host_display_name: self.host_display_name@ }
    }
}

impl Duplicate for TrustedHostEntry {
    fn duplicate(&self) -> (r: Self) {
        TrustedHostEntry {
            cert_pem: self.cert_pem.clone(),
            host_display_name: self.host_display_name.clone(),
        }
    }
}

impl Clone for TrustedHostEntry {
    fn clone(&self) -> (r: Self)
        ensures
            r@ == self@,
    {
        self.duplicate()
    }
}

/// The hosts that a client trusts, by the names of the devices.
#[derive(Debug)]
pub struct TrustedCertsStore {
    hosts: KeyMap<TrustedHostEntry>,
}

impl View for TrustedCertsStore {
    type V = Map<Seq<char>, TrustedView>;

    closed spec fn view(&self) -> Map<Seq<char>, TrustedView> {
        self.hosts@
    }
}

/// The trusted hosts of a list, as contracts speak of them.
pub open spec fn trusted_views(v: Seq<(String, TrustedHostEntry)>) -> Seq<(Seq<char>, TrustedView)> {
    v.map_values(|e: (String, TrustedHostEntry)| (e.0@, e.1@))
}

impl TrustedCertsStore {
    /// The trusted hosts that a file holds.
    pub fn open(entries: Vec<(String, TrustedHostEntry)>) -> (r: TrustedCertsStore)
        ensures
            r@ == filled(trusted_views(entries@)),
    {
        let mut hosts: KeyMap<TrustedHostEntry> = KeyMap::new();
        let ghost l = trusted_views(entries@);
        let mut i: usize = 0;
        while i < entries.len()
            invariant
                i <= entries@.len(),
                l == trusted_views(entries@),
                hosts@ == filled(l.take(i as int)),
            decreases entries@.len() - i,
        {
            hosts.insert(entries[i].0.clone(), entries[i].1.duplicate());
            i = i + 1;
            assert(l.take(i as int).drop_last() =~= l.take(i - 1));
            assert(l.take(i as int).last() == (entries@[i - 1].0@, entries@[i - 1].1@));
        }
        assert(l.take(i as int) =~= l);
        TrustedCertsStore { hosts }
    }

    /// What is known of a host.
    pub fn get(&self, device_id: &DeviceId) -> (r: Option<TrustedHostEntry>)
        ensures
            match r {
                Some(e) => self@.dom().contains(hyphenated_form(device_id.0)) && e@
                    == self@[hyphenated_form(device_id.0)],
                None => !self@.dom().contains(hyphenated_form(device_id.0)),
            },
    {
        let name = device_id.to_string();
        match self.hosts.get(name.as_str()) {
            Some(e) => Some(e.duplicate()),
            None => None,
        }
    }

    /// Trusts a host from now on.
    pub fn add(&mut self, device_id: &DeviceId, cert_pem: String, host_display_name: String)
        ensures
            final(self)@ == old(self)@.insert(
                hyphenated_form(device_id.0),
                TrustedView { cert_pem: cert_pem@, host_display_name: host_display_name@ },
            ),
    {
        self.hosts.insert(device_id.to_string(), TrustedHostEntry { cert_pem, host_display_name });
    }

    /// The trusted hosts, in the order of their names, for the file to hold.
    pub fn entries(&self) -> (r: Vec<(String, TrustedHostEntry)>)
        ensures
            lists(trusted_views(r@), self@),
    {
        let n = self.hosts.len();
        let mut out: Vec<(String, TrustedHostEntry)> = Vec::new();
        let mut i: usize = 0;
        while i < n
            invariant
                i <= n,
                n == self.hosts.listing().len(),
                trusted_views(out@) == self.hosts.listing().take(i as int),
            decreases n - i,
        {
            let e = (self.hosts.key_at(i).clone(), self.hosts.value_at(i).duplicate());
            let ghost was = out@;
            assert((e.0@, e.1@) == self.hosts.listing()[i as int]);
            out.push(e);
            assert(trusted_views(out@) =~= trusted_views(was).push((e.0@, e.1@)));
            i = i + 1;
            assert(self.hosts.listing().take(i as int) =~= self.hosts.listing().take(i - 1).push(
                self.hosts.listing()[i - 1],
            ));
        }
        assert(self.hosts.listing().take(i as int) =~= self.hosts.listing());
        out
    }
}

/// Whether `s` holds digits only.
pub open spec fn all_digits(s: Seq<char>) -> bool {
    forall|i: int| 0 <= i < s.len() ==> is_digit(#[trigger] s[i])
}

/// An address without the scheme in front of it.
pub open spec fn without_scheme(host: Seq<char>) -> Seq<char> {
    without_prefixes(without_prefixes(host, "http://"@), "https://"@)
}

/// The host and the port of an address: the port is what follows the last colon, where that is all
/// digits, else the default. Nothing where those digits make no port.
pub open spec fn host_and_port(host: Seq<char>, default_port: u16) -> Option<(Seq<char>, u16)> {
    let s = without_scheme(host);
    match last_index(s, ':') {
        Some(i) => if all_digits(s.skip(i + 1)) {
            match read_u16(s.skip(i + 1)) {
                Some(p) => Some((s.take(i), p)),
                None => None,
            }
        } else {
            Some((s, default_port))
        },
        None => Some((s, default_port)),
    }
}

/// The URL of a host and a port.
pub open spec fn https_url(host: Seq<char>, port: u16) -> Seq<char> {
    "https://"@ + host + ":"@ + decimal(port as nat)
}

/// The URL at which to pair with a host that was given with or without a scheme and a port. Nothing
/// where what stands for the port is none.
pub fn pairing_address(host: &str, port: u16) -> (r: Option<String>)
    ensures
        match (host_and_port(host@, port), r) {
            (Some((h, p)), Some(s)) => s@ == https_url(h, p),
            (None, None) => true,
            _ => false,
        },
{
    let step = trim_start_matches(host, "http://");
    let input = trim_start_matches(step.as_str(), "https://");
    let v = chars_of(input.as_str());
    let (host_part, port_part) = match find_last(&v, ':') {
        None => (input, port),
        Some(i) => {
            let mut digits: Vec<char> = Vec::new();
            let mut good: bool = true;
            let n = v.len();
            let mut j: usize = i + 1;
            while j < n
                invariant
                    n == v@.len(),
                    i < j <= n,
                    digits@ == v@.subrange(i + 1, j as int),
                    good == all_digits(digits@),
                decreases v@.len() - j,
            {
                let c = v[j];
                let ghost was = digits@;
                digits.push(c);
                good = good && '0' <= c && c <= '9';
                proof {
                    if good {
                        assert(all_digits(was));
                    }
                    if all_digits(digits@) {
                        assert forall|k: int| 0 <= k < was.len() implies is_digit(#[trigger] was[k]) by {
                            assert(is_digit(digits@[k]));
                        }
                        assert(is_digit(digits@[was.len() as int]));
                    }
                }
                j = j + 1;
                assert(v@.subrange(i + 1, j as int) =~= was.push(c));
            }
            assert(v@.skip(i + 1) =~= v@.subrange(i + 1, j as int));
            if good {
                match parse_u16(&digits) {
                    None => {
                        return None;
                    },
                    Some(p) => {
                        assert(v@.take(i as int) =~= v@.subrange(0, i as int));
                        (string_of_range(&v, 0, i), p)
                    },
                }
            } else {
                (input, port)
            }
        },
    };
    let mut url: String = "https://".to_owned();
    url.append(host_part.as_str());
    url.append(":");
    let digits = render_decimal(port_part as u64);
    url.append(digits.as_str());
    Some(url)
}

/// What a client takes from the answer to its request to pair: the name and the certificate of the
/// host, or the text of the refusal.
pub fn pairing_outcome(response: PairResponse) -> (r: Result<(String, String), String>)
    ensures
        match r {
            Ok((id, cert)) => response.accepted && id@ == response.host_device_id@ && cert@
                == response.host_cert_pem@,
            Err(e) => !response.accepted && e@ == "pairing rejected: "@ + (
            if response.error_message@.len() == 0 {
                "unknown error"@
            } else {
                response.error_message@
            }),
        },
{
    if !response.accepted {
        let mut e: String = "pairing rejected: ".to_owned();
        if response.error_message.as_str().is_empty() {
            e.append("unknown error");
        } else {
            e.append(response.error_message.as_str());
        }
        return Err(e);
    }
    Ok((response.host_device_id, response.host_cert_pem))
}

} // verus!
