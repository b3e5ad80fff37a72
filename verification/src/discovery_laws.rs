//! What holds of finding devices: what is announced, what a scan keeps, and which host is chosen.
use vstd::prelude::*;
use vstd::string::*;

use crate::device::{hyphenated_form, uuid_parsed, DeviceId};
use crate::discovery::{
    announcement, choose_host, choose_trusted, discover_table, first_specified, first_with, found,
    host_views, instance_name, listed_hosts, mount_hint, paired_list, peer_rows, peer_table,
    pick_address, rows, scan_wait, service_views, trusted_cert, trusted_hosts, Announcement,
    DiscoveredService, FoundHost, HostScan, Resolved, Scan,
};
use crate::pairing::{peer_names, peer_views, PeerEntry, PeersStore, TrustedCertsStore};
use crate::pairing_laws::{has_scheme, lemma_no_scheme, lemma_scheme_is_taken_off};
use crate::text::{join, joined_by, last_index, render_decimal, texts, trim_end_matches};

verus! {

broadcast use vstd::seq_lib::group_seq_properties;

/// A text in a column: its characters, then spaces up to the width of the column.
pub open spec fn column(s: Seq<char>, width: int) -> Seq<char> {
    Seq::new(
        if s.len() >= width {
            s.len()
        } else {
            width as nat
        },
        |i: int|
            if i < s.len() {
                s[i]
            } else {
                ' '
            },
    )
}

proof fn lemma_column(s: Seq<char>, width: nat)
    ensures
        crate::text::padded(s, width) == column(s, width as int),
{
    assert(crate::text::padded(s, width) =~= column(s, width as int));
}

/// A device is announced under its name and the first eight digits of its identity in brackets.
pub proof fn law_announced_name(name: &str, id: &DeviceId, r: String, shown: String)
    requires
        call_ensures(instance_name, (name, id), r),
        call_ensures(DeviceId::to_string, (id,), shown),
    ensures
        r@ == name@ + " ("@ + shown@.take(8) + ")"@,
{
}

/// A host announces its name, its identity, where it is reached under its identity, and the devices
/// that it is paired with.
pub proof fn law_announcement_tells_who_the_host_is(
    id: &DeviceId,
    name: &str,
    peers: &PeersStore,
    r: Announcement,
    shown: String,
    instance: String,
)
    requires
        call_ensures(announcement, (id, name, peers), r),
        call_ensures(DeviceId::to_string, (id,), shown),
        call_ensures(instance_name, (name, id), instance),
    ensures
        r.device_id@ == shown@,
        r.hostname@ == shown@ + ".local."@,
        r.name@ == instance@,
        r.fullname@ == instance@ + "._nexus._tcp.local."@,
        r.version@ == "1"@,
        peers@.dom() == Set::<Seq<char>>::empty() ==> r.paired@.len() == 0,
{
    if peers@.dom() == Set::<Seq<char>>::empty() {
        let l = choose|l: Seq<(Seq<char>, crate::pairing::PeerView)>| #[trigger]
            crate::pairing::lists_by_time(peers@, l) && r.paired@ == crate::discovery::paired_text(l);
        let names = peer_names(l);
        if names.len() > 0 {
            assert(names.contains(names[0]));
        }
    }
}

/// The paired devices are announced by their identities, with commas between them.
pub proof fn law_paired_devices_are_announced(
    entries: &Vec<(String, PeerEntry)>,
    r: String,
    names: &Vec<String>,
    comma: &str,
    joined: String,
)
    requires
        call_ensures(paired_list, (entries,), r),
        names@.len() == entries@.len(),
        forall|i: int| 0 <= i < names@.len() ==> (#[trigger] names@[i])@ == entries@[i].0@,
        comma@ == ","@,
        call_ensures(join, (names, comma), joined),
    ensures
        r@ == joined@,
{
    assert(texts(names@) =~= peer_names(peer_views(entries@)));
}

/// A service that a scan comes upon is kept where it tells an identity that was not told before; what
/// was kept stays. It is kept under its identity, with its name without the suffix of the local
/// network, its port, its address if it has one, and as paired where its identity is that of a paired
/// device.
pub proof fn law_scan_keeps_each_device_once(
    s: &mut Scan,
    service: Resolved,
    peers: Option<&PeersStore>,
    r: bool,
    hostname: &str,
    suffix: &str,
    short: String,
)
    requires
        old(s).wf(),
        call_ensures(Scan::resolved, (s, service, peers), r),
        hostname@ == service.hostname@,
        suffix@ == ".local."@,
        call_ensures(trim_end_matches, (hostname, suffix), short),
    ensures
        final(s).wf(),
        r <==> service.device_id@.len() > 0 && forall|i: int|
            0 <= i < old(s)@.len() ==> (#[trigger] old(s)@[i]).device_id != service.device_id@,
        !r ==> final(s)@ == old(s)@,
        r ==> {
            &&& final(s)@.len() == old(s)@.len() + 1
            &&& final(s)@.drop_last() == old(s)@
            &&& final(s)@.last().device_id == service.device_id@
            &&& final(s)@.last().display_name == short@
            &&& final(s)@.last().port == service.port
            &&& service.address matches Some(a) ==> final(s)@.last().address == a@
            &&& service.address is None ==> final(s)@.last().address == "0.0.0.0"@
            &&& final(s)@.last().is_paired <==> peers is Some && uuid_parsed(service.device_id@) is Some
                && (peers->0)@.dom().contains(hyphenated_form(uuid_parsed(service.device_id@)->0))
        },
{
    if r {
        assert(final(s)@.drop_last() =~= old(s)@);
        assert forall|i: int| 0 <= i < old(s)@.len() implies (#[trigger] old(s)@[i]).device_id
            != service.device_id@ by {
            if old(s)@[i].device_id == service.device_id@ {
                assert(found(old(s)@, service.device_id@));
            }
        }
    }
}

/// A scan waits for a second at the most, never past its end, and no longer once that has come.
pub proof fn law_scan_waits_until_its_end(now: u64, deadline: u64, r: Option<u64>)
    requires
        call_ensures(scan_wait, (now, deadline), r),
    ensures
        r is Some <==> now < deadline,
        r matches Some(ms) ==> 0 < ms <= 1000 && now + ms <= deadline && (ms == 1000 || now + ms
            == deadline),
{
}

/// The table of found devices goes on with a line for each device: its identity, its name, its address
/// and its port in columns, and whether it is paired. Without a device it says so.
pub proof fn law_table_goes_on(
    v: &Vec<DiscoveredService>,
    a: String,
    w: &Vec<DiscoveredService>,
    b: String,
    port: String,
)
    requires
        call_ensures(discover_table, (v,), a),
        call_ensures(discover_table, (w,), b),
        w@.len() == v@.len() + 1,
        v@.len() > 0,
        forall|i: int| 0 <= i < v@.len() ==> (#[trigger] w@[i])@ == v@[i]@,
        call_ensures(render_decimal, (w@.last().port as u64,), port),
    ensures
        ({
            let s = w@.last();
            b@ == a@ + (column(s.device_id@, 40) + " "@ + column(s.display_name@, 30) + " "@ + column(
                s.address@,
                21,
            ) + " "@ + column(port@, 6) + " "@ + (if s.is_paired {
                "yes"@
            } else {
                "no"@
            })).push('\n')
        }),
{
    let (x, y) = (service_views(v@), service_views(w@));
    assert(y.drop_last() =~= x);
    assert(y.last() == w@.last()@);
    let s = w@.last();
    lemma_column(s.device_id@, 40);
    lemma_column(s.display_name@, 30);
    lemma_column(s.address@, 21);
    lemma_column(port@, 6);
    let line = crate::discovery::row(
        s.device_id@,
        s.display_name@,
        s.address@,
        port@,
        if s.is_paired {
            "yes"@
        } else {
            "no"@
        },
    );
    assert(rows(y) == rows(x) + line);
    assert(b@ =~= a@ + line);
}

/// The table of one found device has a line of headings and a line of dashes before that of the
/// device.
pub proof fn law_table_begins_with_headings(v: &Vec<DiscoveredService>, a: String, port: String)
    requires
        call_ensures(discover_table, (v,), a),
        v@.len() == 1,
        call_ensures(render_decimal, (v@[0].port as u64,), port),
    ensures
        a@ == (column("device_id"@, 40) + " "@ + column("display_name"@, 30) + " "@ + column(
            "address"@,
            21,
        ) + " "@ + column("port"@, 6) + " "@ + "paired?"@).push('\n') + (Seq::new(
            40,
            |i: int| '-',
        ) + " "@ + Seq::new(30, |i: int| '-') + " "@ + Seq::new(21, |i: int| '-') + " "@ + Seq::new(
            6,
            |i: int| '-',
        ) + " "@ + Seq::new(6, |i: int| '-')).push('\n') + (column(v@[0].device_id@, 40) + " "@
            + column(v@[0].display_name@, 30) + " "@ + column(v@[0].address@, 21) + " "@ + column(
            port@,
            6,
        ) + " "@ + (if v@[0].is_paired {
            "yes"@
        } else {
            "no"@
        })).push('\n'),
{
    let x = service_views(v@);
    let s = v@[0];
    assert(x.last() == s@);
    reveal_with_fuel(rows, 2);
    lemma_column("device_id"@, 40);
    lemma_column("display_name"@, 30);
    lemma_column("address"@, 21);
    lemma_column("port"@, 6);
    lemma_column(s.device_id@, 40);
    lemma_column(s.display_name@, 30);
    lemma_column(s.address@, 21);
    lemma_column(port@, 6);
    assert(crate::text::repeated('-', 40) =~= Seq::new(40, |i: int| '-'));
    assert(crate::text::repeated('-', 30) =~= Seq::new(30, |i: int| '-'));
    assert(crate::text::repeated('-', 21) =~= Seq::new(21, |i: int| '-'));
    assert(crate::text::repeated('-', 6) =~= Seq::new(6, |i: int| '-'));
    assert(column(crate::text::repeated('-', 40), 40) =~= crate::text::repeated('-', 40));
    assert(column(crate::text::repeated('-', 30), 30) =~= crate::text::repeated('-', 30));
    assert(column(crate::text::repeated('-', 21), 21) =~= crate::text::repeated('-', 21));
    assert(column(crate::text::repeated('-', 6), 6) =~= crate::text::repeated('-', 6));
    lemma_column(crate::text::repeated('-', 40), 40);
    lemma_column(crate::text::repeated('-', 30), 30);
    lemma_column(crate::text::repeated('-', 21), 21);
    lemma_column(crate::text::repeated('-', 6), 6);
    let line = crate::discovery::row(
        s.device_id@,
        s.display_name@,
        s.address@,
        port@,
        if s.is_paired {
            "yes"@
        } else {
            "no"@
        },
    );
    assert(rows(x) =~= line);
}

/// The table of paired devices goes on with a line for each device: its identity and its name in
/// columns, and the second in which it was paired. Without a device it says so.
pub proof fn law_peer_table_goes_on(
    v: &Vec<(String, PeerEntry)>,
    a: String,
    w: &Vec<(String, PeerEntry)>,
    b: String,
    at: String,
)
    requires
        call_ensures(peer_table, (v,), a),
        call_ensures(peer_table, (w,), b),
        w@.len() == v@.len() + 1,
        v@.len() > 0,
        forall|i: int|
            0 <= i < v@.len() ==> (#[trigger] w@[i]).0@ == v@[i].0@ && w@[i].1@ == v@[i].1@,
        call_ensures(render_decimal, (w@.last().1.paired_at,), at),
    ensures
        b@ == a@ + (column(w@.last().0@, 40) + " "@ + column(w@.last().1.display_name@, 30) + " "@
            + at@).push('\n'),
{
    let (x, y) = (peer_views(v@), peer_views(w@));
    assert(y.drop_last() =~= x) by {
        assert forall|i: int| 0 <= i < x.len() implies y[i] == x[i] by {
            assert(w@[i].0@ == v@[i].0@);
        }
    }
    let e = w@.last();
    assert(y.last() == (e.0@, e.1@));
    lemma_column(e.0@, 40);
    lemma_column(e.1.display_name@, 30);
    let line = crate::discovery::peer_row(e.0@, e.1.display_name@, at@);
    assert(peer_rows(y) == peer_rows(x) + line);
    assert(b@ =~= a@ + line);
}

/// An empty table says that there is nothing to show.
pub proof fn law_empty_tables(
    v: &Vec<DiscoveredService>,
    a: String,
    w: &Vec<(String, PeerEntry)>,
    b: String,
)
    requires
        call_ensures(discover_table, (v,), a),
        call_ensures(peer_table, (w,), b),
        v@.len() == 0,
        w@.len() == 0,
    ensures
        a@ == "No nexus devices found on the LAN.\n"@,
        b@ == "No paired devices.\n"@,
{
}

/// Whether a host is among those that a client trusts.
pub open spec fn trusts(store: TrustedCertsStore, name: Seq<char>) -> bool {
    &&& uuid_parsed(name) is Some
    &&& store@.dom().contains(hyphenated_form(uuid_parsed(name)->0))
}

proof fn lemma_filter_last<T>(l: Seq<T>, keep: spec_fn(T) -> bool)
    requires
        l.len() > 0,
    ensures
        l.filter(keep) == (if keep(l.last()) {
            l.drop_last().filter(keep).push(l.last())
        } else {
            l.drop_last().filter(keep)
        }),
{
    reveal(Seq::filter);
}

/// Of the hosts that were found, those that are trusted are kept, in their order: one host more is
/// kept where it is trusted, and changes nothing else.
pub proof fn law_trusted_hosts_are_kept(
    v: &Vec<FoundHost>,
    w: &Vec<FoundHost>,
    store: &TrustedCertsStore,
    a: Vec<FoundHost>,
    b: Vec<FoundHost>,
)
    requires
        call_ensures(trusted_hosts, (v, store), a),
        call_ensures(trusted_hosts, (w, store), b),
        host_views(w@).len() > 0,
        host_views(w@).drop_last() == host_views(v@),
    ensures
        v@.len() == 0 ==> a@.len() == 0,
        trusts(*store, w@.last().device_id@) ==> host_views(b@) == host_views(a@).push(
            (w@.last().device_id@, w@.last().authority@),
        ),
        !trusts(*store, w@.last().device_id@) ==> host_views(b@) == host_views(a@),
{
    let keep = |h: (Seq<char>, Seq<char>)| crate::discovery::is_trusted(store@, h.0);
    lemma_filter_last(host_views(w@), keep);
    assert(host_views(w@).last() == (w@.last().device_id@, w@.last().authority@));
    if v@.len() == 0 {
        reveal(Seq::filter);
        assert(host_views(v@).filter(keep).len() == 0);
        assert(host_views(a@).len() == a@.len());
    }
}

/// Of the hosts that were found, those whose identities are named are kept, in their order: one host
/// more is kept where it is named, and changes nothing else.
pub proof fn law_named_hosts_are_kept(
    v: &Vec<FoundHost>,
    w: &Vec<FoundHost>,
    names: &Vec<String>,
    a: Vec<FoundHost>,
    b: Vec<FoundHost>,
)
    requires
        call_ensures(listed_hosts, (v, names), a),
        call_ensures(listed_hosts, (w, names), b),
        host_views(w@).len() > 0,
        host_views(w@).drop_last() == host_views(v@),
    ensures
        ({
            let named = exists|i: int|
                0 <= i < names@.len() && (#[trigger] names@[i])@ == w@.last().device_id@;
            &&& v@.len() == 0 ==> a@.len() == 0
            &&& named ==> host_views(b@) == host_views(a@).push(
                (w@.last().device_id@, w@.last().authority@),
            )
            &&& !named ==> host_views(b@) == host_views(a@)
        }),
{
    let l = texts(names@);
    let id = w@.last().device_id@;
    let keep = |h: (Seq<char>, Seq<char>)| texts(names@).contains(h.0);
    lemma_filter_last(host_views(w@), keep);
    assert(host_views(w@).last() == (id, w@.last().authority@));
    assert(l.contains(id) <==> exists|i: int|
        0 <= i < names@.len() && (#[trigger] names@[i])@ == id) by {
        if l.contains(id) {
            let i = choose|i: int| 0 <= i < l.len() && l[i] == id;
            assert(names@[i]@ == id);
        }
        if exists|i: int| 0 <= i < names@.len() && (#[trigger] names@[i])@ == id {
            let i = choose|i: int| 0 <= i < names@.len() && (#[trigger] names@[i])@ == id;
            assert(l[i] == id);
        }
    }
    if v@.len() == 0 {
        reveal(Seq::filter);
        assert(host_views(v@).filter(keep).len() == 0);
        assert(host_views(a@).len() == a@.len());
    }
}

proof fn lemma_first_specified(l: Seq<(String, bool)>)
    ensures
        first_specified(l) matches Some(a) ==> exists|i: int|
            0 <= i < l.len() && (#[trigger] l[i]).0@ == a && !l[i].1 && forall|j: int|
                0 <= j < i ==> (#[trigger] l[j]).1,
        first_specified(l) is None ==> forall|j: int| 0 <= j < l.len() ==> (#[trigger] l[j]).1,
    decreases l.len(),
{
    if l.len() > 0 {
        let rest = l.drop_first();
        lemma_first_specified(rest);
        if !l[0].1 {
            assert(l[0].0@ == first_specified(l)->0);
        } else if first_specified(l) is Some {
            let a = first_specified(l)->0;
            let i = choose|i: int|
                0 <= i < rest.len() && (#[trigger] rest[i]).0@ == a && !rest[i].1 && forall|j: int|
                    0 <= j < i ==> (#[trigger] rest[j]).1;
            assert(l[i + 1] == rest[i]);
            assert forall|j: int| 0 <= j < i + 1 implies (#[trigger] l[j]).1 by {
                if j > 0 {
                    assert(rest[j - 1].1);
                }
            }
        } else {
            assert forall|j: int| 0 <= j < l.len() implies (#[trigger] l[j]).1 by {
                if j > 0 {
                    assert(rest[j - 1].1);
                }
            }
        }
    }
}

/// The address that is picked is the first that is not unspecified; none is where all are.
pub proof fn law_first_usable_address_is_picked(l: &Vec<(String, bool)>, r: Option<String>)
    requires
        call_ensures(pick_address, (l,), r),
    ensures
        r matches Some(a) ==> exists|i: int|
            0 <= i < l@.len() && (#[trigger] l@[i]).0@ == a@ && !l@[i].1 && forall|j: int|
                0 <= j < i ==> (#[trigger] l@[j]).1,
        r is None ==> forall|j: int| 0 <= j < l@.len() ==> (#[trigger] l@[j]).1,
{
    lemma_first_specified(l@);
}

/// A host that a scan comes upon is kept where it tells an identity that was not told before and an
/// address; without an address it ends the scan. What was kept stays.
pub proof fn law_host_scan_keeps_each_host_once(
    s: &mut HostScan,
    id: String,
    authority: Option<String>,
    r: Result<bool, String>,
)
    requires
        old(s).wf(),
        call_ensures(HostScan::resolved, (s, id, authority), r),
    ensures
        final(s).wf(),
        ({
            let news = id@.len() > 0 && !old(s).told().contains(id@);
            &&& r is Err <==> news && authority is None
            &&& r matches Ok(kept) ==> kept == news
            &&& final(s).told().contains(id@) <==> id@.len() > 0 || old(s).told().contains(id@)
            &&& forall|other: Seq<char>|
                other != id@ ==> (#[trigger] final(s).told().contains(other) <==> old(
                    s,
                ).told().contains(other))
            &&& news && authority is Some ==> final(s)@ == old(s)@.push((id@, (authority->0)@))
            &&& !(news && authority is Some) ==> final(s)@ == old(s)@
        }),
{
}

/// The certificate of a trusted host is had where its identity is given and it is trusted.
pub proof fn law_certificate_of_the_trusted_host(
    store: &TrustedCertsStore,
    name: Option<&str>,
    r: Result<String, String>,
)
    requires
        call_ensures(trusted_cert, (store, name), r),
    ensures
        r is Ok <==> name is Some && trusts(*store, (name->0)@),
        r matches Ok(cert) ==> cert@ == store@[hyphenated_form(
            uuid_parsed((name->0)@)->0,
        )].cert_pem,
        name is None ==> (r matches Err(e) && e@
            == "NEXUS_TRUSTED_HOST_ID must be set when using --trusted"@),
        name is Some && uuid_parsed((name->0)@) is None ==> (r matches Err(e) && e@
            == "NEXUS_TRUSTED_HOST_ID is not a valid UUID"@),
{
}

proof fn lemma_first_with(l: Seq<(Seq<char>, Seq<char>)>, id: Seq<char>)
    ensures
        first_with(l, id) matches Some(j) ==> 0 <= j < l.len() && l[j].0 == id && forall|k: int|
            0 <= k < j ==> #[trigger] l[k].0 != id,
        first_with(l, id) is None ==> forall|k: int| 0 <= k < l.len() ==> #[trigger] l[k].0 != id,
    decreases l.len(),
{
    if l.len() > 0 && l[0].0 != id {
        let rest = l.drop_first();
        lemma_first_with(rest, id);
        if first_with(rest, id) is Some {
            let j = first_with(rest, id)->0;
            assert(l[j + 1] == rest[j]);
            assert forall|k: int| 0 <= k < j + 1 implies #[trigger] l[k].0 != id by {
                if k > 0 {
                    assert(rest[k - 1].0 != id);
                }
            }
        } else {
            assert forall|k: int| 0 <= k < l.len() implies #[trigger] l[k].0 != id by {
                if k > 0 {
                    assert(rest[k - 1].0 != id);
                }
            }
        }
    }
}

/// A host that is asked for by its identity is connected to where it is in reach, at the first address
/// that it was found with. With none asked for, the only host in reach is connected to; where there
/// are more, or none, none is.
pub proof fn law_host_is_chosen(
    hosts: &Vec<FoundHost>,
    host_id: Option<&str>,
    r: Result<(String, String), String>,
)
    requires
        call_ensures(choose_host, (hosts, host_id), r),
    ensures
        host_id is None ==> (r is Ok <==> hosts@.len() == 1),
        host_id matches Some(id) ==> (r is Ok <==> exists|i: int|
            0 <= i < hosts@.len() && (#[trigger] hosts@[i]).device_id@ == id@),
        r matches Ok((id, url)) ==> exists|i: int| {
            &&& 0 <= i < hosts@.len()
            &&& (#[trigger] hosts@[i]).device_id@ == id@
            &&& url@ == "https://"@ + hosts@[i].authority@
            &&& forall|j: int| 0 <= j < i ==> (#[trigger] hosts@[j]).device_id@ != id@
        },
        r matches Ok((id, url)) && host_id is Some ==> (r->Ok_0).0@ == (host_id->0)@,
        hosts@.len() == 0 ==> (r matches Err(e) && e@
            == "No paired nexus devices found on the LAN. Pair first with `nexus-mount pair`."@),
        hosts@.len() > 0 && host_id is Some && r is Err ==> r->Err_0@ == "Host ID "@ + (host_id->0)@
            + " not found among discovered paired devices"@,
{
    let l = host_views(hosts@);
    assert forall|i: int| 0 <= i < hosts@.len() implies (#[trigger] hosts@[i]).device_id@ == l[i].0 by {}
    match host_id {
        Some(id) => {
            lemma_first_with(l, id@);
            if first_with(l, id@) is Some && l.len() > 0 {
                let j = first_with(l, id@)->0;
                assert(hosts@[j].device_id@ == id@);
                assert forall|k: int| 0 <= k < j implies (#[trigger] hosts@[k]).device_id@ != id@ by {
                    assert(l[k].0 != id@);
                }
            } else {
                assert forall|k: int| 0 <= k < hosts@.len() implies (
                #[trigger] hosts@[k]).device_id@ != id@ by {
                    assert(l[k].0 != id@);
                }
            }
        },
        None => {
            if r is Ok {
                assert(hosts@[0].device_id@ == (r->Ok_0).0@);
            }
        },
    }
}

/// A viewer connects to the trusted host that is asked for by its identity where it is among those that
/// are trusted; with none asked for, to the only one.
pub proof fn law_viewer_chooses_a_trusted_host(
    names: &Vec<String>,
    host_id: Option<&str>,
    r: Result<String, String>,
)
    requires
        call_ensures(choose_trusted, (names, host_id), r),
    ensures
        host_id is None ==> (r is Ok <==> names@.len() == 1),
        host_id is None && r is Ok ==> r->Ok_0@ == names@[0]@,
        host_id matches Some(id) ==> (r is Ok <==> exists|i: int|
            0 <= i < names@.len() && (#[trigger] names@[i])@ == id@),
        host_id matches Some(id) && r is Ok ==> r->Ok_0@ == (host_id->0)@,
        host_id is Some && r is Err ==> r->Err_0@ == "Host ID "@ + (host_id->0)@
            + " not found among paired devices"@,
        host_id is None && names@.len() == 0 ==> r->Err_0@
            == "No paired hosts found. Run nexus-mount pair first."@,
{
    let l = texts(names@);
    if names@.len() > 0 {
        assert(l[0] == names@[0]@);
    }
    if host_id is Some {
        let id = (host_id->0)@;
        if l.contains(id) {
            let i = choose|i: int| 0 <= i < l.len() && l[i] == id;
            assert(names@[i]@ == id);
        }
        if exists|i: int| 0 <= i < names@.len() && (#[trigger] names@[i])@ == id {
            let i = choose|i: int| 0 <= i < names@.len() && (#[trigger] names@[i])@ == id;
            assert(l[i] == id);
        }
    }
}

/// How to mount is told for the host without what follows its last colon, and for the identity that was
/// paired with.
pub proof fn law_mount_hint_names_the_host(
    host: &str,
    id: &str,
    r: String,
    name: Seq<char>,
    rest: Seq<char>,
)
    requires
        call_ensures(mount_hint, (host, id), r),
        !has_scheme(host@),
        (host@ == name && !name.contains(':')) || (host@ == name.push(':') + rest && !rest.contains(
            ':',
        )),
    ensures
        r@ == "To mount, run: NEXUS_TRUSTED_HOST_ID="@ + id@
            + " nexus-mount mount --remote https://"@ + name
            + ":50051 --mountpoint <dir> --trusted"@,
{
    let s = host@;
    lemma_no_scheme(s);
    crate::text_laws::lemma_last_index(s, ':');
    if s == name && !name.contains(':') {
        if last_index(s, ':') is Some {
            assert(name.contains(name[last_index(s, ':')->0]));
        }
    } else {
        let i = name.len() as int;
        assert(s[i] == ':');
        let k = last_index(s, ':')->0;
        if k > i {
            assert(rest.contains(rest[k - i - 1]));
        }
        assert(s.take(i) =~= name);
    }
}

/// A scheme before the host makes no difference to how to mount.
pub proof fn law_mount_hint_drops_the_scheme(host: &str, with: &str, id: &str, a: String, b: String)
    requires
        call_ensures(mount_hint, (host, id), a),
        call_ensures(mount_hint, (with, id), b),
        !(host@.len() >= 7 && host@.take(7) == "http://"@),
        with@ == "https://"@ + host@ || with@ == "http://"@ + host@,
    ensures
        a@ == b@,
{
    lemma_scheme_is_taken_off(host@, with@);
}

/// Where there are several hosts to choose from, the refusal lists them, each with its identity and its
/// address on a line of its own.
pub proof fn law_refusal_lists_the_hosts(
    hosts: &Vec<FoundHost>,
    r: Result<(String, String), String>,
    lines: &Vec<String>,
    end: &str,
    list: String,
)
    requires
        call_ensures(choose_host, (hosts, None::<&str>), r),
        hosts@.len() > 1,
        lines@.len() == hosts@.len(),
        forall|i: int|
            0 <= i < lines@.len() ==> (#[trigger] lines@[i])@ == "  "@ + hosts@[i].device_id@ + "  "@ + (
            "https://"@ + hosts@[i].authority@),
        end@ == "\n"@,
        call_ensures(join, (lines, end), list),
    ensures
        r matches Err(e) && e@
            == "Multiple paired hosts discovered. Use --host-id to select one:\n"@ + list@,
{
    assert(texts(lines@) =~= crate::discovery::host_lines(host_views(hosts@)));
}

/// Where there are several trusted hosts to choose from, the refusal lists them, each on a line of its
/// own.
pub proof fn law_refusal_lists_the_trusted_hosts(
    names: &Vec<String>,
    r: Result<String, String>,
    lines: &Vec<String>,
    end: &str,
    list: String,
)
    requires
        call_ensures(choose_trusted, (names, None::<&str>), r),
        names@.len() > 1,
        lines@.len() == names@.len(),
        forall|i: int| 0 <= i < lines@.len() ==> (#[trigger] lines@[i])@ == "  "@ + names@[i]@,
        end@ == "\n"@,
        call_ensures(join, (lines, end), list),
    ensures
        r matches Err(e) && e@ == "Multiple paired hosts found:\n"@ + list@
            + "\nUse --host-id <device_id> to specify which one."@,
{
    assert(texts(lines@) =~= texts(names@).map_values(|n: Seq<char>| "  "@ + n));
}

/// The paired devices that a host announces are all of them, in the order in which they were paired,
/// with commas between their identities.
pub proof fn law_all_paired_devices_are_announced(
    id: &DeviceId,
    name: &str,
    peers: &PeersStore,
    r: Announcement,
)
    requires
        call_ensures(announcement, (id, name, peers), r),
    ensures
        exists|names: Seq<Seq<char>>| {
            &&& r.paired@ == #[trigger] joined_by(names, ","@)
            &&& forall|k: Seq<char>| #[trigger] names.contains(k) <==> peers@.dom().contains(k)
            &&& forall|i: int, j: int|
                0 <= i < j < names.len() ==> (#[trigger] names[i]) != (#[trigger] names[j])
                    && peers@[names[i]].paired_at <= peers@[names[j]].paired_at
        },
{
    let m = peers@;
    let l = choose|l: Seq<(Seq<char>, crate::pairing::PeerView)>| #[trigger]
        crate::pairing::lists_by_time(m, l) && r.paired@ == crate::discovery::paired_text(l);
    let names = peer_names(l);
    assert forall|i: int, j: int| 0 <= i < j < names.len() implies (#[trigger] names[i]) != (
    #[trigger] names[j]) && m[names[i]].paired_at <= m[names[j]].paired_at by {
        assert(names.contains(names[i]) && names.contains(names[j]));
        assert(crate::age::older(crate::pairing::pairing_times(m), names[i], names[j]));
        if names[i] == names[j] {
            crate::text::lemma_precedes_asymmetric(names[i], names[i]);
        }
    }
    assert(r.paired@ == joined_by(names, ","@));
}

} // verus!
