//! What holds of pairing: which codes are taken, which devices are remembered, and who is let in.
use vstd::prelude::*;
use vstd::string::*;

use crate::age::older;
use crate::certs::{device_of_der, pem_first_der};
use crate::device::{hyphenated_form, uuid_parsed, DeviceId};
use crate::pairing::{
    authorize, build_peer_ca_pem, bundle, bundle_certs, is_stored_cert, judge_request,
    lists_by_time, new_code, pairing_address, pairing_outcome, pairing_times, peer_infos,
    peer_names, peer_views, token_matches, trusted_views, without_scheme, CodeView, PairRequest,
    PairResponse, PairingCode, PairingServer, PeerEntry, PeerInfo, PeerView, Peers, PeersStore,
    TrustedCertsStore, TrustedHostEntry,
};
use crate::status::{Code, Status};
use crate::text::{begins_with, last_index, parse_u16, render_decimal, trim, without_prefixes};
use crate::text_laws::{is_before, lemma_is_before, lemma_six_digits};
use crate::wall::{is_clock_second, is_reading, time_between, whole_nanos};

verus! {

broadcast use vstd::seq_lib::group_seq_properties;

/// The nanoseconds of a time between two readings of the clock; none where the clock was set back.
pub open spec fn gone_by(between: Option<nat>) -> int {
    if between is Some {
        between->0 as int
    } else {
        0
    }
}

/// Whether what is typed is taken: it is the code, in time, and the code is not used up.
pub open spec fn is_taken(c: CodeView, typed: Seq<char>, elapsed: int) -> bool {
    &&& typed == c.code
    &&& elapsed <= c.timeout_secs * 1_000_000_000
    &&& !c.used
}

/// Whether `b` is what a code `a` has become by typing `typed`: taken, it is used up; a wrong guess is
/// counted, and uses the code up with the last that it bears; what comes too late changes nothing.
pub open spec fn has_become(a: CodeView, b: CodeView, typed: Seq<char>, elapsed: int) -> bool {
    &&& b.code == a.code
    &&& b.timeout_secs == a.timeout_secs
    &&& b.max_attempts == a.max_attempts
    &&& typed == a.code ==> b.failed_attempts == a.failed_attempts && (b.used <==> a.used || elapsed
        <= a.timeout_secs * 1_000_000_000)
    &&& typed != a.code && a.failed_attempts < u32::MAX ==> b.failed_attempts == a.failed_attempts + 1
    &&& typed != a.code && a.failed_attempts == u32::MAX ==> b.failed_attempts == u32::MAX
    &&& typed != a.code ==> (b.used <==> a.used || b.failed_attempts >= a.max_attempts)
}

/// A code is taken where it is the right one, in time and not used up, and never else. What is typed
/// uses it up or is counted, and changes nothing else of it.
pub proof fn law_code_is_tried(c: &mut PairingCode, typed: &str, elapsed: u128, r: bool)
    requires
        call_ensures(PairingCode::verify_after, (c, typed, elapsed), r),
    ensures
        r <==> is_taken(old(c)@, typed@, elapsed as int),
        has_become(old(c)@, final(c)@, typed@, elapsed as int),
        final(c).made_at() == old(c).made_at(),
{
}

/// A code that was taken is never taken again, whatever is typed and whenever.
pub proof fn law_code_is_taken_once(
    c: &mut PairingCode,
    typed: &str,
    elapsed: u128,
    r: bool,
    d: &mut PairingCode,
    again: &str,
    later: u128,
    q: bool,
)
    requires
        call_ensures(PairingCode::verify_after, (c, typed, elapsed), r),
        call_ensures(PairingCode::verify_after, (d, again, later), q),
        final(c)@ == old(d)@,
    ensures
        r ==> !q,
        final(c)@.used ==> !q && final(d)@.used,
{
}

/// A code that is tried now is tried at the time that has gone by on the system clock since it was
/// made.
pub proof fn law_code_is_tried_now(c: &mut PairingCode, typed: &str, r: bool)
    requires
        call_ensures(PairingCode::verify, (c, typed), r),
    ensures
        exists|now: std::time::SystemTime| {
            let elapsed = gone_by(#[trigger] time_between(now, old(c).made_at()));
            &&& is_reading(now)
            &&& elapsed < 0x1_0000_0000_0000_0000_0000_0000_0000_0000 ==> (r <==> is_taken(
                old(c)@,
                typed@,
                elapsed,
            )) && has_become(old(c)@, final(c)@, typed@, elapsed)
        },
        r ==> typed@ == old(c)@.code && !old(c)@.used && final(c)@.used,
{
    let now = choose|now: std::time::SystemTime|
        {
            let elapsed = whole_nanos(#[trigger] time_between(now, old(c).made_at())) as u128;
            &&& is_reading(now)
            &&& r == crate::pairing::accepted(old(c)@, typed@, elapsed)
            &&& final(c)@ == crate::pairing::tried(old(c)@, typed@, elapsed)
        };
    let elapsed = whole_nanos(time_between(now, old(c).made_at())) as u128;
    assert(has_become(old(c)@, final(c)@, typed@, elapsed as int));
}

/// Whether a code is new: six digits, not tried, with the time and the guesses that it was given.
pub open spec fn is_new(c: CodeView, timeout: u64, max: u32) -> bool {
    &&& c.code.len() == 6
    &&& forall|i: int| 0 <= i < 6 ==> '0' <= #[trigger] c.code[i] && c.code[i] <= '9'
    &&& c.timeout_secs == timeout
    &&& c.max_attempts == max
    &&& !c.used
    &&& c.failed_attempts == 0
}

/// A code that is made has six digits that stand for its number, and has not been tried.
pub proof fn law_code_is_made(n: u32, made: std::time::SystemTime, timeout: u64, max: u32, r: PairingCode)
    requires
        call_ensures(PairingCode::with_number_at, (n, made, timeout, max), r),
        n < 1000000,
    ensures
        is_new(r@, timeout, max),
        r.made_at() == made,
        n == 100000 * (r@.code[0] as u32 - 48) + 10000 * (r@.code[1] as u32 - 48) + 1000 * (
        r@.code[2] as u32 - 48) + 100 * (r@.code[3] as u32 - 48) + 10 * (r@.code[4] as u32 - 48) + (
        r@.code[5] as u32 - 48),
{
    lemma_six_digits(n);
}

/// A code that is drawn is new, and was made when the system clock was read.
pub proof fn law_drawn_code_is_new(timeout: u64, max: u32, r: PairingCode)
    requires
        call_ensures(PairingCode::with_max_attempts, (timeout, max), r),
    ensures
        is_new(r@, timeout, max),
        is_reading(r.made_at()),
{
    let n = choose|n: u32|
        n < crate::pairing::CODES && crate::pairing::is_drawn_code(n) && r@ == #[trigger] new_code(
            n,
            timeout,
            max,
        );
    lemma_six_digits(n);
}

/// Whether a host has answered a request as it should, where the code was made `elapsed` nanoseconds
/// ago and the second is `now`.
pub open spec fn is_answered(
    a: PairingServer,
    b: PairingServer,
    q: PairRequest,
    elapsed: int,
    now: u64,
    r: PairResponse,
) -> bool {
    let taken = is_taken(a.code@, q.code@, elapsed);
    let id = uuid_parsed(q.initiator_device_id@);
    &&& has_become(a.code@, b.code@, q.code@, elapsed)
    &&& r.accepted <==> taken && id is Some
    &&& r.accepted ==> {
        &&& r.host_cert_pem@ == a.host_cert_pem@
        &&& r.host_device_id@ == hyphenated_form(a.host_device_id.0)
        &&& r.error_message@.len() == 0
        &&& b.done
        &&& b.store@.dom() == a.store@.dom().insert(hyphenated_form(id->0))
        &&& b.store@[hyphenated_form(id->0)].cert_pem == q.initiator_cert_pem@
        &&& b.store@[hyphenated_form(id->0)].display_name == q.initiator_display_name@
        &&& b.store@[hyphenated_form(id->0)].paired_at == now
        &&& forall|k: Seq<char>|
            k != hyphenated_form(id->0) && #[trigger] a.store@.dom().contains(k) ==> b.store@[k]
                == a.store@[k]
    }
    &&& !r.accepted ==> {
        &&& b.store@ == a.store@
        &&& b.done == a.done
        &&& r.host_cert_pem@.len() == 0
        &&& r.host_device_id@.len() == 0
        &&& r.error_message@ == (if taken {
            "invalid initiator_device_id"@
        } else {
            "invalid, expired, or already-used code"@
        })
    }
    &&& b.host_cert_pem@ == a.host_cert_pem@
    &&& b.host_device_id == a.host_device_id
}

/// A device is paired where its code is taken and it names itself: it is then remembered, with the
/// certificate and the name that it gave and the second, and is told the certificate and the name of
/// the host. Else nothing is remembered, and nothing told but why.
pub proof fn law_pairing_request_is_answered(
    s: &mut PairingServer,
    q: PairRequest,
    elapsed: u128,
    now: u64,
    r: PairResponse,
)
    requires
        call_ensures(PairingServer::request_pair_after, (s, q, elapsed, now), r),
    ensures
        is_answered(*old(s), *final(s), q, elapsed as int, now, r),
        final(s).code.made_at() == old(s).code.made_at(),
{
    lemma_answered(*old(s), *final(s), q, elapsed, now, r);
}

proof fn lemma_answered(
    a: PairingServer,
    b: PairingServer,
    q: PairRequest,
    elapsed: u128,
    now: u64,
    r: PairResponse,
)
    requires
        crate::pairing::answered(a, b, q, elapsed, now, r),
    ensures
        is_answered(a, b, q, elapsed as int, now, r),
{
    if r.accepted {
        let k = hyphenated_form(uuid_parsed(q.initiator_device_id@)->0);
        assert(b.store@.dom() =~= a.store@.dom().insert(k));
    }
}

/// A request that comes now is answered at the time that has gone by on the system clock since the
/// code was made, and at the second that the clock shows.
pub proof fn law_pairing_request_is_answered_now(s: &mut PairingServer, q: PairRequest, r: PairResponse)
    requires
        call_ensures(PairingServer::request_pair, (s, q), r),
    ensures
        exists|now: std::time::SystemTime, at: u64|
            #![trigger time_between(now, old(s).code.made_at()), is_clock_second(at)]
            {
                let elapsed = gone_by(time_between(now, old(s).code.made_at()));
                &&& is_reading(now)
                &&& is_clock_second(at)
                &&& elapsed < 0x1_0000_0000_0000_0000_0000_0000_0000_0000 ==> is_answered(
                    *old(s),
                    *final(s),
                    q,
                    elapsed,
                    at,
                    r,
                )
            },
{
    let (now, at) = choose|now: std::time::SystemTime, at: u64|
        #![trigger time_between(now, old(s).code.made_at()), is_clock_second(at)]
        is_reading(now) && is_clock_second(at) && crate::pairing::answered(
            *old(s),
            *final(s),
            q,
            whole_nanos(time_between(now, old(s).code.made_at())) as u128,
            at,
            r,
        );
    let elapsed = whole_nanos(time_between(now, old(s).code.made_at())) as u128;
    lemma_answered(*old(s), *final(s), q, elapsed, at, r);
}

/// A device that is remembered is found with what it was remembered with, and every other device is
/// found as before.
pub proof fn law_remembered_device_is_found(
    s: &mut PeersStore,
    id: &DeviceId,
    cert: String,
    name: String,
    now: u64,
    other: &DeviceId,
    before: Option<PeerEntry>,
    after: Option<PeerEntry>,
    known: bool,
)
    requires
        call_ensures(PeersStore::get, (&*old(s), other), before),
        call_ensures(PeersStore::add_at, (s, id, cert, name, now), ()),
        call_ensures(PeersStore::get, (&*final(s), other), after),
        call_ensures(PeersStore::contains, (&*final(s), other), known),
    ensures
        known <==> after is Some,
        hyphenated_form(other.0) == hyphenated_form(id.0) ==> (after matches Some(e) && e.cert_pem@
            == cert@ && e.display_name@ == name@ && e.paired_at == now),
        hyphenated_form(other.0) != hyphenated_form(id.0) ==> (after is Some <==> before is Some) && (
        after matches Some(e) ==> e@ == before->0@),
{
}

/// A certificate is that of a device where the device is paired and was paired with it.
pub proof fn law_certificate_is_the_one_paired_with(
    s: &PeersStore,
    id: &DeviceId,
    found: Option<PeerEntry>,
    pem: &str,
    by_pem: bool,
    der: &[u8],
    by_der: bool,
)
    requires
        call_ensures(PeersStore::get, (s, id), found),
        call_ensures(PeersStore::verify_cert, (s, id, pem), by_pem),
        call_ensures(PeersStore::verify_cert_der, (s, id, der), by_der),
    ensures
        by_pem <==> (found matches Some(e) && e.cert_pem@ == pem@),
        by_der <==> (found matches Some(e) && pem_first_der(e.cert_pem@) == Some(der@)),
{
}

/// The paired devices are listed each once, with what is known of them, those that were paired earlier
/// first, and those of one second in the order of their names.
pub proof fn law_devices_are_listed_by_time(s: &PeersStore, r: Vec<(String, PeerEntry)>)
    requires
        call_ensures(PeersStore::list, (s,), r),
    ensures
        r@.len() == s@.dom().len(),
        forall|i: int|
            0 <= i < r@.len() ==> s@.dom().contains((#[trigger] r@[i]).0@) && s@[r@[i].0@]
                == r@[i].1@,
        forall|k: Seq<char>| #[trigger]
            s@.dom().contains(k) ==> exists|i: int| 0 <= i < r@.len() && (#[trigger] r@[i]).0@ == k,
        forall|i: int, j: int|
            0 <= i < j < r@.len() ==> (#[trigger] r@[i]).0@ != (#[trigger] r@[j]).0@ && (
            r@[i].1.paired_at < r@[j].1.paired_at || (r@[i].1.paired_at == r@[j].1.paired_at
                && is_before(r@[i].0@, r@[j].0@))),
{
    lemma_listed_by_time(s@, r@);
}

pub proof fn lemma_listed_by_time(m: Peers, r: Seq<(String, PeerEntry)>)
    requires
        lists_by_time(m, peer_views(r)),
    ensures
        forall|i: int|
            0 <= i < r.len() ==> m.dom().contains((#[trigger] r[i]).0@) && m[r[i].0@] == r[i].1@,
        forall|k: Seq<char>| #[trigger]
            m.dom().contains(k) ==> exists|i: int| 0 <= i < r.len() && (#[trigger] r[i]).0@ == k,
        forall|i: int, j: int|
            0 <= i < j < r.len() ==> (#[trigger] r[i]).0@ != (#[trigger] r[j]).0@ && (
            r[i].1.paired_at < r[j].1.paired_at || (r[i].1.paired_at == r[j].1.paired_at
                && is_before(r[i].0@, r[j].0@))),
{
    let l = peer_views(r);
    let names = peer_names(l);
    assert forall|i: int| 0 <= i < r.len() implies m.dom().contains((#[trigger] r[i]).0@)
        && m[r[i].0@] == r[i].1@ by {
        assert(l[i] == (r[i].0@, r[i].1@));
        assert(names[i] == r[i].0@);
        assert(names.contains(names[i]));
    }
    assert forall|k: Seq<char>| #[trigger] m.dom().contains(k) implies exists|i: int|
        0 <= i < r.len() && (#[trigger] r[i]).0@ == k by {
        assert(names.contains(k));
        let i = choose|i: int| 0 <= i < names.len() && names[i] == k;
        assert(r[i].0@ == k);
    }
    assert forall|i: int, j: int| 0 <= i < j < r.len() implies (#[trigger] r[i]).0@ != (
    #[trigger] r[j]).0@ && (r[i].1.paired_at < r[j].1.paired_at || (r[i].1.paired_at
        == r[j].1.paired_at && is_before(r[i].0@, r[j].0@))) by {
        lemma_is_before(r[i].0@, r[j].0@);
        assert(names[i] == r[i].0@ && names[j] == r[j].0@);
        assert(l[i] == (r[i].0@, r[i].1@) && l[j] == (r[j].0@, r[j].1@));
        assert(older(pairing_times(m), names[i], names[j]));
        assert(names.contains(names[i]) && names.contains(names[j]));
        assert(pairing_times(m)[names[i]] == r[i].1.paired_at);
        assert(pairing_times(m)[names[j]] == r[j].1.paired_at);
        if names[i] == names[j] {
            crate::text::lemma_precedes_asymmetric(names[i], names[i]);
        }
    }
}

/// What is told of the paired devices is what is known of them, one after the other.
pub proof fn law_devices_are_told(entries: &Vec<(String, PeerEntry)>, r: Vec<PeerInfo>)
    requires
        call_ensures(peer_infos, (entries,), r),
    ensures
        r@.len() == entries@.len(),
        forall|i: int|
            0 <= i < r@.len() ==> (#[trigger] r@[i]).device_id@ == entries@[i].0@
                && r@[i].display_name@ == entries@[i].1.display_name@ && (entries@[i].1.paired_at
                <= i64::MAX ==> r@[i].paired_at == entries@[i].1.paired_at),
{
    let l = peer_views(entries@);
    assert forall|i: int| 0 <= i < r@.len() implies (#[trigger] r@[i]).device_id@ == entries@[i].0@
        && r@[i].display_name@ == entries@[i].1.display_name@ && (entries@[i].1.paired_at <= i64::MAX
        ==> r@[i].paired_at == entries@[i].1.paired_at) by {
        assert(l[i] == (entries@[i].0@, entries@[i].1@));
    }
}

/// The bundle of certificates goes on with each device: its certificate without the whitespace around
/// it, and a line end. There is none without a device.
pub proof fn law_bundle_goes_on(
    v: &Vec<(String, PeerEntry)>,
    a: Option<String>,
    w: &Vec<(String, PeerEntry)>,
    b: Option<String>,
    cert: &str,
    trimmed: String,
)
    requires
        call_ensures(bundle_certs, (v,), a),
        call_ensures(bundle_certs, (w,), b),
        w@.len() == v@.len() + 1,
        forall|i: int| 0 <= i < v@.len() ==> (#[trigger] w@[i]).1.cert_pem@ == v@[i].1.cert_pem@,
        cert@ == w@.last().1.cert_pem@,
        call_ensures(trim, (cert,), trimmed),
    ensures
        a is None <==> v@.len() == 0,
        b is Some,
        b->0@ == (if v@.len() == 0 {
            Seq::empty()
        } else {
            a->0@
        }) + trimmed@.push('\n'),
{
    let (x, y) = (peer_views(v@), peer_views(w@));
    lemma_bundle_by_certs(y.drop_last(), x);
    assert(y.last() == (w@.last().0@, w@.last().1@));
    assert((bundle(x) + trimmed@).push('\n') =~= bundle(x) + trimmed@.push('\n'));
    reveal_with_fuel(bundle, 2);
}

proof fn lemma_bundle_by_certs(x: Seq<(Seq<char>, PeerView)>, y: Seq<(Seq<char>, PeerView)>)
    requires
        x.len() == y.len(),
        forall|i: int| 0 <= i < x.len() ==> (#[trigger] x[i]).1.cert_pem == y[i].1.cert_pem,
    ensures
        bundle(x) == bundle(y),
    decreases x.len(),
{
    if x.len() > 0 {
        let (p, q) = (x.drop_last(), y.drop_last());
        assert forall|i: int| 0 <= i < p.len() implies (#[trigger] p[i]).1.cert_pem
            == q[i].1.cert_pem by {
            assert(x[i].1.cert_pem == y[i].1.cert_pem);
        }
        lemma_bundle_by_certs(p, q);
        assert(x[x.len() - 1].1.cert_pem == y[x.len() - 1].1.cert_pem);
    }
}

/// The bundle of all paired devices is that of their list, and there is none where none is paired.
pub proof fn law_bundle_is_of_all_devices(s: &PeersStore, r: Option<String>)
    requires
        call_ensures(build_peer_ca_pem, (s,), r),
    ensures
        r is None <==> s@.dom().len() == 0,
        r matches Some(text) ==> exists|l: Seq<(Seq<char>, PeerView)>| {
            &&& text@ == #[trigger] bundle(l)
            &&& forall|i: int| 0 <= i < l.len() ==> s@.dom().contains((#[trigger] l[i]).0) && l[i].1
                == s@[l[i].0]
            &&& forall|k: Seq<char>| #[trigger]
                s@.dom().contains(k) ==> exists|i: int| 0 <= i < l.len() && (#[trigger] l[i]).0 == k
            &&& forall|i: int, j: int|
                0 <= i < j < l.len() ==> (#[trigger] l[i]).1.paired_at <= (
                #[trigger] l[j]).1.paired_at
        },
{
    if r is Some {
        let text = r->0;
        let l = choose|l: Seq<(Seq<char>, PeerView)>| #[trigger]
            lists_by_time(s@, l) && text@ == bundle(l);
        let names = peer_names(l);
        assert forall|i: int| 0 <= i < l.len() implies s@.dom().contains((#[trigger] l[i]).0)
            && l[i].1 == s@[l[i].0] by {
            assert(names[i] == l[i].0);
            assert(names.contains(names[i]));
        }
        assert forall|k: Seq<char>| #[trigger] s@.dom().contains(k) implies exists|i: int|
            0 <= i < l.len() && (#[trigger] l[i]).0 == k by {
            assert(names.contains(k));
            let i = choose|i: int| 0 <= i < names.len() && names[i] == k;
            assert(l[i].0 == k);
        }
        assert forall|i: int, j: int| 0 <= i < j < l.len() implies (#[trigger] l[i]).1.paired_at <= (
        #[trigger] l[j]).1.paired_at by {
            assert(older(pairing_times(s@), names[i], names[j]));
            assert(s@.dom().contains(l[i].0) && s@.dom().contains(l[j].0));
        }
    }
}

/// A token is the expected one where it has the same bytes.
pub proof fn law_token_is_the_expected_one(a: &[u8], b: &[u8], r: bool)
    requires
        call_ensures(token_matches, (a, b), r),
    ensures
        r <==> a@.len() == b@.len() && forall|i: int| 0 <= i < a@.len() ==> #[trigger] a@[i] == b@[i],
{
    if a@.len() == b@.len() && forall|i: int| 0 <= i < a@.len() ==> #[trigger] a@[i] == b@[i] {
        assert(a@ =~= b@);
    }
}

/// A request with a certificate is let in where the certificate names a device that was paired with
/// it, whatever token it has; one without is let in by the expected token alone. Every other is turned
/// down as not authenticated.
pub proof fn law_who_is_let_in(
    peers: &PeersStore,
    cert: Option<&[u8]>,
    token: Option<&[u8]>,
    expected: &[u8],
    r: Result<(), Status>,
)
    requires
        call_ensures(authorize, (peers, cert, token, expected), r),
    ensures
        cert is None ==> (r is Ok <==> token is Some && (token->0)@ == expected@),
        cert matches Some(der) ==> (r is Ok <==> {
            let id = device_of_der(der@);
            &&& id is Some
            &&& peers@.dom().contains(hyphenated_form((id->0).0))
            &&& pem_first_der(peers@[hyphenated_form((id->0).0)].cert_pem) == Some(der@)
        }),
        r matches Err(e) ==> e.code == Code::Unauthenticated && e.message@ == (if cert is Some {
            "client certificate not trusted"@
        } else {
            "missing or invalid auth token"@
        }),
{
}

/// Where a certificate was judged, the verdict on it decides; where there was none, the token does.
pub proof fn law_certificate_decides_alone(
    trusted: Option<bool>,
    token: Option<&[u8]>,
    expected: &[u8],
    r: Result<(), Status>,
)
    requires
        call_ensures(judge_request, (trusted, token, expected), r),
    ensures
        trusted matches Some(t) ==> (r is Ok <==> t),
        trusted is None ==> (r is Ok <==> token is Some && (token->0)@ == expected@),
        r matches Err(e) ==> e.code == Code::Unauthenticated,
{
}

/// A certificate is the one that was kept where one was kept and has the same bytes.
pub proof fn law_kept_certificate(stored: Option<&Vec<u8>>, der: &[u8], r: bool)
    requires
        call_ensures(is_stored_cert, (stored, der), r),
    ensures
        r <==> stored is Some && (stored->0)@ == der@,
{
}

/// A host that is trusted is found with what it was trusted with, and every other host is found as
/// before.
pub proof fn law_trusted_host_is_found(
    s: &mut TrustedCertsStore,
    id: &DeviceId,
    cert: String,
    name: String,
    other: &DeviceId,
    before: Option<TrustedHostEntry>,
    after: Option<TrustedHostEntry>,
)
    requires
        call_ensures(TrustedCertsStore::get, (&*old(s), other), before),
        call_ensures(TrustedCertsStore::add, (s, id, cert, name), ()),
        call_ensures(TrustedCertsStore::get, (&*final(s), other), after),
    ensures
        hyphenated_form(other.0) == hyphenated_form(id.0) ==> (after matches Some(e) && e.cert_pem@
            == cert@ && e.host_display_name@ == name@),
        hyphenated_form(other.0) != hyphenated_form(id.0) ==> (after is Some <==> before is Some) && (
        after matches Some(e) ==> e@ == before->0@),
{
}

/// A client takes the name and the certificate of the host from an answer that accepts it; from one
/// that does not, it takes why.
pub proof fn law_client_takes_the_answer(q: PairResponse, r: Result<(String, String), String>)
    requires
        call_ensures(pairing_outcome, (q,), r),
    ensures
        r is Ok <==> q.accepted,
        r matches Ok((id, cert)) ==> id@ == q.host_device_id@ && cert@ == q.host_cert_pem@,
        r matches Err(e) ==> (q.error_message@.len() > 0 ==> e@ == "pairing rejected: "@
            + q.error_message@) && (q.error_message@.len() == 0 ==> e@
            == "pairing rejected: unknown error"@),
{
    reveal_strlit("pairing rejected: ");
    reveal_strlit("unknown error");
    reveal_strlit("pairing rejected: unknown error");
    assert("pairing rejected: "@ + "unknown error"@ =~= "pairing rejected: unknown error"@);
}

/// Whether an address begins with a scheme.
pub open spec fn has_scheme(host: Seq<char>) -> bool {
    ||| host.len() >= 7 && host.take(7) == "http://"@
    ||| host.len() >= 8 && host.take(8) == "https://"@
}

pub proof fn lemma_no_scheme(host: Seq<char>)
    requires
        !has_scheme(host),
    ensures
        without_scheme(host) == host,
{
    reveal_strlit("http://");
    reveal_strlit("https://");
}

/// A host that is given without a scheme and a port is paired with at the usual port.
pub proof fn law_bare_host_has_the_usual_port(host: &str, port: u16, r: Option<String>, digits: String)
    requires
        call_ensures(pairing_address, (host, port), r),
        call_ensures(render_decimal, (port as u64,), digits),
        !host@.contains(':'),
    ensures
        r matches Some(url) && url@ == "https://"@ + host@ + ":"@ + digits@,
{
    crate::text_laws::lemma_last_index(host@, ':');
    lemma_scheme_has_a_colon(host@);
    lemma_no_scheme(host@);
    if last_index(host@, ':') is Some {
        assert(host@.contains(host@[last_index(host@, ':')->0]));
    }
}

proof fn lemma_scheme_has_a_colon(host: Seq<char>)
    ensures
        has_scheme(host) ==> host.contains(':'),
{
    reveal_strlit("http://");
    reveal_strlit("https://");
    if host.len() >= 7 && host.take(7) == "http://"@ {
        assert(host.take(7)[4] == ':');
        assert(host[4] == ':');
    }
    if host.len() >= 8 && host.take(8) == "https://"@ {
        assert(host.take(8)[5] == ':');
        assert(host[5] == ':');
    }
}

/// A host that is given with a port is paired with at that port, and at none where the digits make no
/// port.
pub proof fn law_given_port_is_taken(
    host: &str,
    port: u16,
    r: Option<String>,
    name: Seq<char>,
    digits: &Vec<char>,
    n: Option<u16>,
    shown: String,
)
    requires
        call_ensures(pairing_address, (host, port), r),
        host@ == name.push(':') + digits@,
        !has_scheme(host@),
        forall|i: int| 0 <= i < digits@.len() ==> '0' <= #[trigger] digits@[i] && digits@[i] <= '9',
        call_ensures(parse_u16, (digits,), n),
        n matches Some(p) ==> call_ensures(render_decimal, (p as u64,), shown),
    ensures
        r is Some <==> n is Some,
        r matches Some(url) ==> url@ == "https://"@ + name + ":"@ + shown@,
{
    let s = host@;
    let i = name.len() as int;
    lemma_no_scheme(s);
    crate::text_laws::lemma_last_index(s, ':');
    assert(s[i] == ':');
    let k = last_index(s, ':')->0;
    if k > i {
        assert(s[k] == digits@[k - i - 1]);
    }
    assert(s.take(i) =~= name);
    assert(s.skip(i + 1) =~= digits@);
}

/// A host whose last colon is followed by something else than digits has no port of its own, and is
/// paired with at the usual one.
pub proof fn law_no_digits_are_no_port(
    host: &str,
    port: u16,
    r: Option<String>,
    name: Seq<char>,
    rest: Seq<char>,
    i: int,
    shown: String,
)
    requires
        call_ensures(pairing_address, (host, port), r),
        host@ == name.push(':') + rest,
        !has_scheme(host@),
        !rest.contains(':'),
        0 <= i < rest.len(),
        rest[i] < '0' || '9' < rest[i],
        call_ensures(render_decimal, (port as u64,), shown),
    ensures
        r matches Some(url) && url@ == "https://"@ + host@ + ":"@ + shown@,
{
    let s = host@;
    let n = name.len() as int;
    lemma_no_scheme(s);
    crate::text_laws::lemma_last_index(s, ':');
    assert(s[n] == ':');
    let k = last_index(s, ':')->0;
    if k > n {
        assert(rest.contains(rest[k - n - 1]));
    }
    let tail = s.skip(n + 1);
    assert(tail[i] == rest[i]);
}

/// A scheme before the host makes no difference.
pub proof fn law_scheme_makes_no_difference(
    host: &str,
    with: &str,
    port: u16,
    a: Option<String>,
    b: Option<String>,
)
    requires
        call_ensures(pairing_address, (host, port), a),
        call_ensures(pairing_address, (with, port), b),
        !(host@.len() >= 7 && host@.take(7) == "http://"@),
        with@ == "https://"@ + host@ || with@ == "http://"@ + host@,
    ensures
        a is Some <==> b is Some,
        a matches Some(url) ==> url@ == (b->0)@,
{
    lemma_scheme_is_taken_off(host@, with@);
}

/// One scheme before a host is taken off.
pub proof fn lemma_scheme_is_taken_off(h: Seq<char>, w: Seq<char>)
    requires
        !(h.len() >= 7 && h.take(7) == "http://"@),
        w == "https://"@ + h || w == "http://"@ + h,
    ensures
        without_scheme(w) == without_scheme(h),
{
    reveal_strlit("http://");
    reveal_strlit("https://");
    if w == "https://"@ + h {
        assert(w.take(7)[4] == 's');
        assert(!begins_with(w, "http://"@));
        assert(w.take(8) =~= "https://"@);
        assert(w.skip(8) =~= h);
    } else {
        assert(w.take(7) =~= "http://"@);
        assert(w.skip(7) =~= h);
    }
    assert(!begins_with(h, "http://"@));
    assert(without_scheme(w) == without_scheme(h)) by {
        reveal_with_fuel(without_prefixes, 2);
    }
}

/// What a host tells of its paired devices is one entry for each, those that were paired earlier first.
pub proof fn law_host_tells_all_paired_devices(s: &PairingServer, r: Vec<PeerInfo>)
    requires
        call_ensures(PairingServer::list_peers, (s,), r),
    ensures
        forall|i: int|
            0 <= i < r@.len() ==> {
                let k = (#[trigger] r@[i]).device_id@;
                &&& s.store@.dom().contains(k)
                &&& r@[i].display_name@ == s.store@[k].display_name
                &&& s.store@[k].paired_at <= i64::MAX ==> r@[i].paired_at == s.store@[k].paired_at
            },
        forall|k: Seq<char>| #[trigger]
            s.store@.dom().contains(k) ==> exists|i: int|
                0 <= i < r@.len() && (#[trigger] r@[i]).device_id@ == k,
        forall|i: int, j: int|
            0 <= i < j < r@.len() ==> s.store@[(#[trigger] r@[i]).device_id@].paired_at <= s.store@[(
            #[trigger] r@[j]).device_id@].paired_at,
{
    let m = s.store@;
    let l = choose|l: Seq<(Seq<char>, PeerView)>| #[trigger]
        lists_by_time(m, l) && crate::pairing::tells(r@, l);
    let names = peer_names(l);
    assert forall|i: int| 0 <= i < r@.len() implies ({
        let k = (#[trigger] r@[i]).device_id@;
        &&& m.dom().contains(k)
        &&& r@[i].display_name@ == m[k].display_name
        &&& m[k].paired_at <= i64::MAX ==> r@[i].paired_at == m[k].paired_at
    }) by {
        assert(names[i] == l[i].0);
        assert(names.contains(names[i]));
        assert(l[i].1 == m[l[i].0]);
    }
    assert forall|k: Seq<char>| #[trigger] m.dom().contains(k) implies exists|i: int|
        0 <= i < r@.len() && (#[trigger] r@[i]).device_id@ == k by {
        assert(names.contains(k));
        let i = choose|i: int| 0 <= i < names.len() && names[i] == k;
        assert(r@[i].device_id@ == k);
    }
    assert forall|i: int, j: int| 0 <= i < j < r@.len() implies m[(
    #[trigger] r@[i]).device_id@].paired_at <= m[(#[trigger] r@[j]).device_id@].paired_at by {
        assert(names[i] == r@[i].device_id@ && names[j] == r@[j].device_id@);
        assert(names.contains(names[i]) && names.contains(names[j]));
        assert(older(pairing_times(m), names[i], names[j]));
    }
}

/// The paired devices that are read from a file are those that the file says last of each name, and no
/// others.
pub proof fn law_devices_are_read(v: Vec<(String, PeerEntry)>, r: PeersStore)
    requires
        call_ensures(PeersStore::open, (v,), r),
    ensures
        forall|i: int|
            0 <= i < v@.len() && (forall|j: int| i < j < v@.len() ==> (#[trigger] v@[j]).0@ != v@[i].0@)
                ==> r@.dom().contains((#[trigger] v@[i]).0@) && r@[v@[i].0@] == v@[i].1@,
        forall|k: Seq<char>|
            (forall|i: int| 0 <= i < v@.len() ==> (#[trigger] v@[i]).0@ != k) ==> !#[trigger]
            r@.dom().contains(k),
{
    let l = peer_views(v@);
    assert forall|i: int|
        0 <= i < v@.len() && (forall|j: int|
            i < j < v@.len() ==> (#[trigger] v@[j]).0@ != v@[i].0@) implies r@.dom().contains(
        (#[trigger] v@[i]).0@,
    ) && r@[v@[i].0@] == v@[i].1@ by {
        assert(l[i] == (v@[i].0@, v@[i].1@));
        assert forall|j: int| i < j < l.len() implies (#[trigger] l[j]).0 != l[i].0 by {
            assert(v@[j].0@ != v@[i].0@);
        }
        crate::file_laws::lemma_filled_by_the_last(l, i);
    }
    assert forall|k: Seq<char>|
        (forall|i: int| 0 <= i < v@.len() ==> (#[trigger] v@[i]).0@ != k) implies !#[trigger]
        r@.dom().contains(k) by {
        assert forall|i: int| 0 <= i < l.len() implies (#[trigger] l[i]).0 != k by {
            assert(v@[i].0@ != k);
        }
        crate::file_laws::lemma_filled_only(l, k);
    }
}

/// The trusted hosts that are written to a file and read from it again are as they were.
pub proof fn law_trusted_hosts_survive_the_file(
    s: &TrustedCertsStore,
    v: Vec<(String, TrustedHostEntry)>,
    r: TrustedCertsStore,
)
    requires
        call_ensures(TrustedCertsStore::entries, (s,), v),
        call_ensures(TrustedCertsStore::open, (v,), r),
    ensures
        r@ == s@,
        forall|i: int|
            0 <= i < v@.len() ==> s@.dom().contains((#[trigger] v@[i]).0@) && s@[v@[i].0@].cert_pem
                == v@[i].1.cert_pem@ && s@[v@[i].0@].host_display_name == v@[i].1.host_display_name@,
{
    let l = trusted_views(v@);
    crate::keymap::law_filled_from_its_list(l, s@);
    assert forall|i: int| 0 <= i < v@.len() implies s@.dom().contains((#[trigger] v@[i]).0@)
        && s@[v@[i].0@].cert_pem == v@[i].1.cert_pem@ && s@[v@[i].0@].host_display_name
        == v@[i].1.host_display_name@ by {
        assert(l[i] == (v@[i].0@, v@[i].1@));
        assert(s@.dom().contains(l[i].0));
    }
}

/// A device that is remembered now is remembered at a second that the system clock shows, with the
/// certificate and the name that it gave.
pub proof fn law_remembered_now(s: &mut PeersStore, id: &DeviceId, cert: String, name: String)
    requires
        call_ensures(PeersStore::add, (s, id, cert, name), ()),
    ensures
        ({
            let k = hyphenated_form(id.0);
            &&& final(s)@.dom() == old(s)@.dom().insert(k)
            &&& final(s)@[k].cert_pem == cert@
            &&& final(s)@[k].display_name == name@
            &&& is_clock_second(final(s)@[k].paired_at)
            &&& forall|other: Seq<char>|
                other != k && #[trigger] old(s)@.dom().contains(other) ==> final(s)@[other] == old(
                    s,
                )@[other]
        }),
{
    let k = hyphenated_form(id.0);
    assert(final(s)@.dom() =~= old(s)@.dom().insert(k));
}

} // verus!
