//! Finding devices on the local network: what a host announces, what a scan collects, and which
//! host a client connects to.
use vstd::prelude::*;
use vstd::string::*;

use crate::device::{hyphenated_form, uuid_parsed, DeviceId};
use crate::keymap::KeySet;
use crate::pairing::{
    lists_by_time, peer_names, peer_views, without_scheme, PeerEntry, PeerView, Peers, PeersStore,
    TrustedCertsStore, TrustedView,
};
use crate::text::{
    chars_of, decimal, find_last, join, joined_by, last_index, padded, push_padded, push_repeated,
    render_decimal, repeated, same, string_of_range, texts, trim_end_matches, trim_start_matches,
    without_suffixes,
};

verus! {

broadcast use vstd::seq_lib::group_seq_properties;

/// The kind of service that hosts announce.
pub const SERVICE_TYPE: &'static str = "_nexus._tcp.local.";

/// The name that a device is announced under: what it is called, and the beginning of its identity.
pub open spec fn announced_name(display_name: Seq<char>, id: DeviceId) -> Seq<char> {
    display_name + " ("@ + hyphenated_form(id.0).take(8) + ")"@
}

/// The name that a device is announced under.
pub fn instance_name(display_name: &str, device_id: &DeviceId) -> (r: String)
    ensures
        r@ == announced_name(display_name@, *device_id),
{
    let id = device_id.to_string();
    let v = chars_of(id.as_str());
    let short = string_of_range(&v, 0, 8);
    assert(short@ =~= hyphenated_form(device_id.0).take(8));
    let mut r: String = display_name.to_owned();
    r.append(" (");
    r.append(short.as_str());
    r.append(")");
    r
}

/// What a host announces.
#[derive(Debug)]
pub struct Announcement {
    pub name: String,
    pub hostname: String,
    /// What the announcement is taken back by.
    pub fullname: String,
    pub device_id: String,
    pub version: String,
    /// The names of the paired devices.
    pub paired: String,
}

/// The names of a list of paired devices, with commas between them.
pub open spec fn paired_text(l: Seq<(Seq<char>, PeerView)>) -> Seq<char> {
    joined_by(peer_names(l), ","@)
}

/// The names of a list of paired devices, with commas between them.
pub fn paired_list(entries: &Vec<(String, PeerEntry)>) -> (r: String)
    ensures
        r@ == paired_text(peer_views(entries@)),
{
    let mut names: Vec<String> = Vec::new();
    let mut i: usize = 0;
    while i < entries.len()
        invariant
            i <= entries@.len(),
            texts(names@) == peer_names(peer_views(entries@)).take(i as int),
        decreases entries@.len() - i,
    {
        let ghost was = names@;
        let ghost all = peer_names(peer_views(entries@));
        names.push(entries[i].0.clone());
        assert(texts(names@) =~= texts(was).push(entries@[i as int].0@));
        i = i + 1;
        assert(all.take(i as int) =~= all.take(i - 1).push(all[i - 1]));
    }
    assert(peer_names(peer_views(entries@)).take(i as int) =~= peer_names(peer_views(entries@)));
    join(&names, ",")
}

/// What a host announces.
pub fn announcement(device_id: &DeviceId, display_name: &str, peers: &PeersStore) -> (r: Announcement)
    ensures
        r.name@ == announced_name(display_name@, *device_id),
        r.hostname@ == hyphenated_form(device_id.0) + ".local."@,
        r.fullname@ == announced_name(display_name@, *device_id) + "._nexus._tcp.local."@,
        r.device_id@ == hyphenated_form(device_id.0),
        r.version@ == "1"@,
        exists|l: Seq<(Seq<char>, PeerView)>| #[trigger]
            lists_by_time(peers@, l) && r.paired@ == paired_text(l),
{
    let name = instance_name(display_name, device_id);
    let id = device_id.to_string();
    let hostname = id.clone().concat(".local.");
    let fullname = name.clone().concat("._nexus._tcp.local.");
    let entries = peers.list();
    let paired = paired_list(&entries);
    Announcement { name, hostname, fullname, device_id: id, version: "1".to_owned(), paired }
}

/// A device that a scan has found.
#[derive(Debug)]
pub struct DiscoveredService {
    pub device_id: String,
    pub display_name: String,
    pub address: String,
    pub port: u16,
    pub is_paired: bool,
}

/// A device that a scan has found, as contracts speak of it.
#[verifier::ext_equal]
pub struct ServiceView {
    pub device_id: Seq<char>,
    pub display_name: Seq<char>,
    pub address: Seq<char>,
    pub port: u16,
    pub is_paired: bool,
}

impl View for DiscoveredService {
    type V = ServiceView;

    open spec fn view(&self) -> ServiceView {
        ServiceView {
            device_id: self.device_id@,
            display_name: self.display_name@,
            address: self.address@,
            port: self.port,
            is_paired: self.is_paired,
        }
    }
}

/// What a scan has found, as contracts speak of it.
pub open spec fn service_views(v: Seq<DiscoveredService>) -> Seq<ServiceView> {
    v.map_values(|s: DiscoveredService| s@)
}

/// What a service on the network has told of itself.
#[derive(Debug)]
pub struct Resolved {
    /// The identity that it tells; empty where it tells none.
    pub device_id: String,
    pub hostname: String,
    /// Its first address, if it has any.
    pub address: Option<String>,
    pub port: u16,
}

/// Whether a device of the given name is paired. Nothing is known of any where the paired devices
/// could not be read.
pub open spec fn is_peer(peers: Option<Peers>, name: Seq<char>) -> bool {
    peers matches Some(m) && (uuid_parsed(name) matches Some(u) && m.dom().contains(
        hyphenated_form(u),
    ))
}

/// The paired devices that could be read.
pub open spec fn peers_view(peers: Option<&PeersStore>) -> Option<Peers> {
    match peers {
        Some(p) => Some(p@),
        None => None,
    }
}

/// What is kept of a service.
pub open spec fn service_of(r: Resolved, peers: Option<Peers>) -> ServiceView {
    ServiceView {
        device_id: r.device_id@,
        display_name: without_suffixes(r.hostname@, ".local."@),
        address: match r.address {
            Some(a) => a@,
            None => "0.0.0.0"@,
        },
        port: r.port,
        is_paired: is_peer(peers, r.device_id@),
    }
}

/// A scan of the local network: what was found, each device once.
#[derive(Debug)]
pub struct Scan {
    services: Vec<DiscoveredService>,
    seen: KeySet,
}

impl View for Scan {
    type V = Seq<ServiceView>;

    closed spec fn view(&self) -> Seq<ServiceView> {
        service_views(self.services@)
    }
}

/// Whether a scan has found the device of the given name.
pub open spec fn found(services: Seq<ServiceView>, name: Seq<char>) -> bool {
    exists|i: int| 0 <= i < services.len() && #[trigger] services[i].device_id == name
}

/// Whether no device was found twice.
pub open spec fn each_once(services: Seq<ServiceView>) -> bool {
    forall|i: int, j: int|
        0 <= i < j < services.len() ==> (#[trigger] services[i]).device_id != (
        #[trigger] services[j]).device_id
}

impl Scan {
    /// Whether no device was found twice, and all that were found are known.
    pub closed spec fn wf(&self) -> bool {
        &&& each_once(self@)
        &&& forall|name: Seq<char>| #[trigger] self.seen@.contains(name) <==> found(self@, name)
    }

    /// A scan that has found nothing yet.
    pub fn new() -> (r: Scan)
        ensures
            r.wf(),
            r@ == Seq::<ServiceView>::empty(),
            each_once(r@),
    {
        let r = Scan { services: Vec::new(), seen: KeySet::new() };
        assert(r@ =~= Seq::<ServiceView>::empty());
        r
    }

    /// A service has told of itself: it is kept unless it tells no identity or one that has been
    /// found. Says whether it was kept.
    pub fn resolved(&mut self, service: Resolved, peers: Option<&PeersStore>) -> (r: bool)
        requires
            old(self).wf(),
        ensures
            final(self).wf(),
            each_once(final(self)@),
            r == (service.device_id@.len() > 0 && !found(old(self)@, service.device_id@)),
            final(self)@ == (if r {
                old(self)@.push(service_of(service, peers_view(peers)))
            } else {
                old(self)@
            }),
    {
        if service.device_id.as_str().is_empty() {
            return false;
        }
        let ghost before = self@;
        let ghost seen_before = self.seen@;
        if !self.seen.insert(service.device_id.as_str()) {
            assert(self.seen@ =~= seen_before);
            return false;
        }
        let display_name = trim_end_matches(service.hostname.as_str(), ".local.");
        let is_paired = match peers {
            Some(store) => match DeviceId::parse(service.device_id.as_str()) {
                Some(id) => store.contains(&id),
                None => false,
            },
            None => false,
        };
        let address = match service.address {
            Some(a) => a,
            None => "0.0.0.0".to_owned(),
        };
        let kept = DiscoveredService {
            device_id: service.device_id,
            display_name,
            address,
            port: service.port,
            is_paired,
        };
        let ghost was = self.services@;
        self.services.push(kept);
        proof {
            assert(self@ =~= before.push(kept@));
            assert forall|i: int, j: int| 0 <= i < j < self@.len() implies (#[trigger] self@[i]).device_id
                != (#[trigger] self@[j]).device_id by {
                if j < before.len() {
                    assert(before[i].device_id != before[j].device_id);
                } else if before[i].device_id == kept.device_id@ {
                    assert(found(before, kept.device_id@));
                }
            }
            assert forall|name: Seq<char>| #[trigger] self.seen@.contains(name) <==> found(
                self@,
                name,
            ) by {
                if found(self@, name) {
                    let i = choose|i: int| 0 <= i < self@.len() && #[trigger] self@[i].device_id == name;
                    if i < before.len() {
                        assert(before[i].device_id == name);
                    }
                }
                if found(before, name) {
                    let i = choose|i: int|
                        0 <= i < before.len() && #[trigger] before[i].device_id == name;
                    assert(self@[i].device_id == name);
                }
                if name == kept.device_id@ {
                    assert(self@[before.len() as int].device_id == name);
                }
            }
        }
        true
    }

    /// What was found, in the order in which it was.
    pub fn services(&self) -> (r: &Vec<DiscoveredService>)
        ensures
            service_views(r@) == self@,
    {
        &self.services
    }
}

/// How long to wait for the next service, in milliseconds: a second at the most, and not beyond the
/// end of the scan; nothing where it is over.
pub fn scan_wait(now_ms: u64, deadline_ms: u64) -> (r: Option<u64>)
    ensures
        r == (if now_ms >= deadline_ms {
            None
        } else if deadline_ms - now_ms <= 1000 {
            Some((deadline_ms - now_ms) as u64)
        } else {
            Some(1000)
        }),
{
    if now_ms >= deadline_ms {
        return None;
    }
    let remaining = deadline_ms - now_ms;
    if remaining <= 1000 {
        Some(remaining)
    } else {
        Some(1000)
    }
}

/// A line of the table of found devices.
pub open spec fn row(
    id: Seq<char>,
    name: Seq<char>,
    address: Seq<char>,
    port: Seq<char>,
    paired: Seq<char>,
) -> Seq<char> {
    (padded(id, 40) + " "@ + padded(name, 30) + " "@ + padded(address, 21) + " "@ + padded(port, 6)
        + " "@ + paired).push('\n')
}

/// The lines of a number of devices.
pub open spec fn rows(services: Seq<ServiceView>) -> Seq<char>
    decreases services.len(),
{
    if services.len() == 0 {
        Seq::empty()
    } else {
        let s = services.last();
        rows(services.drop_last()) + row(
            s.device_id,
            s.display_name,
            s.address,
            decimal(s.port as nat),
            if s.is_paired {
                "yes"@
            } else {
                "no"@
            },
        )
    }
}

/// The table of found devices.
pub open spec fn table_text(services: Seq<ServiceView>) -> Seq<char> {
    if services.len() == 0 {
        "No nexus devices found on the LAN.\n"@
    } else {
        row("device_id"@, "display_name"@, "address"@, "port"@, "paired?"@) + row(
            repeated('-', 40),
            repeated('-', 30),
            repeated('-', 21),
            repeated('-', 6),
            repeated('-', 6),
        ) + rows(services)
    }
}

fn push_row(out: &mut String, id: &str, name: &str, address: &str, port: &str, paired: &str)
    ensures
        final(out)@ == old(out)@ + row(id@, name@, address@, port@, paired@),
{
    push_padded(out, id, 40);
    out.append(" ");
    push_padded(out, name, 30);
    out.append(" ");
    push_padded(out, address, 21);
    out.append(" ");
    push_padded(out, port, 6);
    out.append(" ");
    out.append(paired);
    out.push('\n');
    assert(out@ =~= old(out)@ + row(id@, name@, address@, port@, paired@));
}

fn dashes(n: usize) -> (r: String)
    ensures
        r@ == repeated('-', n as nat),
{
    let mut r: String = String::new();
    push_repeated(&mut r, '-', n);
    assert(r@ =~= repeated('-', n as nat));
    r
}

/// The table of found devices, as it is shown.
pub fn discover_table(services: &Vec<DiscoveredService>) -> (r: String)
    ensures
        r@ == table_text(service_views(services@)),
{
    if services.len() == 0 {
        return "No nexus devices found on the LAN.\n".to_owned();
    }
    let ghost l = service_views(services@);
    let mut out: String = String::new();
    push_row(&mut out, "device_id", "display_name", "address", "port", "paired?");
    let d40 = dashes(40);
    let d30 = dashes(30);
    let d21 = dashes(21);
    let d6 = dashes(6);
    push_row(&mut out, d40.as_str(), d30.as_str(), d21.as_str(), d6.as_str(), d6.as_str());
    let ghost head = out@;
    assert(head =~= row("device_id"@, "display_name"@, "address"@, "port"@, "paired?"@) + row(
        repeated('-', 40),
        repeated('-', 30),
        repeated('-', 21),
        repeated('-', 6),
        repeated('-', 6),
    ));
    assert(out@ =~= head + rows(l.take(0)));
    let mut i: usize = 0;
    while i < services.len()
        invariant
            i <= services@.len(),
            l == service_views(services@),
            out@ == head + rows(l.take(i as int)),
        decreases services@.len() - i,
    {
        let s = &services[i];
        let port = render_decimal(s.port as u64);
        let paired = if s.is_paired {
            "yes"
        } else {
            "no"
        };
        let ghost was = out@;
        push_row(
            &mut out,
            s.device_id.as_str(),
            s.display_name.as_str(),
            s.address.as_str(),
            port.as_str(),
            paired,
        );
        i = i + 1;
        proof {
            assert(l.take(i as int).drop_last() =~= l.take(i - 1));
            assert(l.take(i as int).last() == s@);
            assert(out@ =~= head + rows(l.take(i as int)));
        }
    }
    assert(l.take(i as int) =~= l);
    out
}

/// A line of the table of paired devices.
pub open spec fn peer_row(id: Seq<char>, name: Seq<char>, paired_at: Seq<char>) -> Seq<char> {
    (padded(id, 40) + " "@ + padded(name, 30) + " "@ + paired_at).push('\n')
}

/// The lines of a number of paired devices.
pub open spec fn peer_rows(l: Seq<(Seq<char>, PeerView)>) -> Seq<char>
    decreases l.len(),
{
    if l.len() == 0 {
        Seq::empty()
    } else {
        peer_rows(l.drop_last()) + peer_row(
            l.last().0,
            l.last().1.display_name,
            decimal(l.last().1.paired_at as nat),
        )
    }
}

/// The table of paired devices.
pub open spec fn peer_table_text(l: Seq<(Seq<char>, PeerView)>) -> Seq<char> {
    if l.len() == 0 {
        "No paired devices.\n"@
    } else {
        peer_row("device_id"@, "display_name"@, "paired_at"@) + peer_row(
            repeated('-', 40),
            repeated('-', 30),
            repeated('-', 10),
        ) + peer_rows(l)
    }
}

fn push_peer_row(out: &mut String, id: &str, name: &str, paired_at: &str)
    ensures
        final(out)@ == old(out)@ + peer_row(id@, name@, paired_at@),
{
    push_padded(out, id, 40);
    out.append(" ");
    push_padded(out, name, 30);
    out.append(" ");
    out.append(paired_at);
    out.push('\n');
    assert(out@ =~= old(out)@ + peer_row(id@, name@, paired_at@));
}

/// The table of a list of paired devices, as it is shown.
pub fn peer_table(entries: &Vec<(String, PeerEntry)>) -> (r: String)
    ensures
        r@ == peer_table_text(peer_views(entries@)),
{
    if entries.len() == 0 {
        return "No paired devices.\n".to_owned();
    }
    let ghost l = peer_views(entries@);
    let mut out: String = String::new();
    push_peer_row(&mut out, "device_id", "display_name", "paired_at");
    let d40 = dashes(40);
    let d30 = dashes(30);
    let d10 = dashes(10);
    push_peer_row(&mut out, d40.as_str(), d30.as_str(), d10.as_str());
    let ghost head = out@;
    assert(head =~= peer_row("device_id"@, "display_name"@, "paired_at"@) + peer_row(
        repeated('-', 40),
        repeated('-', 30),
        repeated('-', 10),
    ));
    assert(out@ =~= head + peer_rows(l.take(0)));
    let mut i: usize = 0;
    while i < entries.len()
        invariant
            i <= entries@.len(),
            l == peer_views(entries@),
            out@ == head + peer_rows(l.take(i as int)),
        decreases entries@.len() - i,
    {
        let at = render_decimal(entries[i].1.paired_at);
        push_peer_row(
            &mut out,
            entries[i].0.as_str(),
            entries[i].1.display_name.as_str(),
            at.as_str(),
        );
        i = i + 1;
        proof {
            assert(l.take(i as int).drop_last() =~= l.take(i - 1));
            assert(l.take(i as int).last() == (entries@[i - 1].0@, entries@[i - 1].1@));
            assert(out@ =~= head + peer_rows(l.take(i as int)));
        }
    }
    assert(l.take(i as int) =~= l);
    out
}

/// A host that a scan has found: its identity, and its address with the port.
#[derive(Debug)]
pub struct FoundHost {
    pub device_id: String,
    pub authority: String,
}

impl FoundHost {
    fn duplicate(&self) -> (r: FoundHost)
        ensures
            r.device_id@ == self.device_id@,
            r.authority@ == self.authority@,
    {
        FoundHost { device_id: self.device_id.clone(), authority: self.authority.clone() }
    }
}

/// Found hosts, as contracts speak of them: identity and address.
pub open spec fn host_views(v: Seq<FoundHost>) -> Seq<(Seq<char>, Seq<char>)> {
    v.map_values(|h: FoundHost| (h.device_id@, h.authority@))
}

/// Whether a host is trusted.
pub open spec fn is_trusted(m: Map<Seq<char>, TrustedView>, name: Seq<char>) -> bool {
    uuid_parsed(name) matches Some(u) && m.dom().contains(hyphenated_form(u))
}

/// The found hosts that are trusted, in the order in which they were found.
pub fn trusted_hosts(hosts: &Vec<FoundHost>, store: &TrustedCertsStore) -> (r: Vec<FoundHost>)
    ensures
        host_views(r@) == host_views(hosts@).filter(
            |h: (Seq<char>, Seq<char>)| is_trusted(store@, h.0),
        ),
{
    let ghost l = host_views(hosts@);
    let ghost keep = |h: (Seq<char>, Seq<char>)| is_trusted(store@, h.0);
    let mut out: Vec<FoundHost> = Vec::new();
    proof {
        reveal(Seq::filter);
        assert(host_views(out@) =~= l.take(0).filter(keep));
    }
    let mut i: usize = 0;
    while i < hosts.len()
        invariant
            i <= hosts@.len(),
            l == host_views(hosts@),
            keep == (|h: (Seq<char>, Seq<char>)| is_trusted(store@, h.0)),
            host_views(out@) == l.take(i as int).filter(keep),
        decreases hosts@.len() - i,
    {
        let trusted = match DeviceId::parse(hosts[i].device_id.as_str()) {
            Some(id) => store.get(&id).is_some(),
            None => false,
        };
        proof {
            crate::keymap::lemma_filter_step(l, i as int, keep);
            assert(l[i as int] == (hosts@[i as int].device_id@, hosts@[i as int].authority@));
        }
        if trusted {
            let ghost was = out@;
            let h = hosts[i].duplicate();
            out.push(h);
            assert(host_views(out@) =~= host_views(was).push((h.device_id@, h.authority@)));
        }
        i = i + 1;
    }
    assert(l.take(i as int) =~= l);
    out
}

/// Whether one of the names is the given one.
fn is_listed(names: &Vec<String>, name: &str) -> (r: bool)
    ensures
        r == texts(names@).contains(name@),
{
    let ghost l = texts(names@);
    let mut i: usize = 0;
    while i < names.len()
        invariant
            i <= names@.len(),
            l == texts(names@),
            forall|j: int| 0 <= j < i ==> l[j] != name@,
        decreases names@.len() - i,
    {
        if same(names[i].as_str(), name) {
            assert(l[i as int] == name@);
            return true;
        }
        i = i + 1;
    }
    false
}

/// The first of the addresses that a host can be reached at, if it has one; each comes with whether
/// it is unspecified.
pub open spec fn first_specified(addresses: Seq<(String, bool)>) -> Option<Seq<char>>
    decreases addresses.len(),
{
    if addresses.len() == 0 {
        None
    } else if !addresses[0].1 {
        Some(addresses[0].0@)
    } else {
        first_specified(addresses.drop_first())
    }
}

/// Picks the address to reach a host at: the first that is not unspecified.
pub fn pick_address(addresses: &Vec<(String, bool)>) -> (r: Option<String>)
    ensures
        match r {
            Some(a) => first_specified(addresses@) == Some(a@),
            None => first_specified(addresses@) is None,
        },
{
    let mut i: usize = 0;
    assert(addresses@.skip(0) =~= addresses@);
    while i < addresses.len()
        invariant
            i <= addresses@.len(),
            first_specified(addresses@) == first_specified(addresses@.skip(i as int)),
        decreases addresses@.len() - i,
    {
        assert(addresses@.skip(i as int).drop_first() =~= addresses@.skip(i + 1));
        if !addresses[i].1 {
            return Some(addresses[i].0.clone());
        }
        i = i + 1;
    }
    None
}

/// The found hosts whose identities are among the given names, in the order in which they were
/// found.
pub fn listed_hosts(hosts: &Vec<FoundHost>, names: &Vec<String>) -> (r: Vec<FoundHost>)
    ensures
        host_views(r@) == host_views(hosts@).filter(
            |h: (Seq<char>, Seq<char>)| texts(names@).contains(h.0),
        ),
{
    let ghost l = host_views(hosts@);
    let ghost keep = |h: (Seq<char>, Seq<char>)| texts(names@).contains(h.0);
    let mut out: Vec<FoundHost> = Vec::new();
    proof {
        reveal(Seq::filter);
        assert(host_views(out@) =~= l.take(0).filter(keep));
    }
    let mut i: usize = 0;
    while i < hosts.len()
        invariant
            i <= hosts@.len(),
            l == host_views(hosts@),
            keep == (|h: (Seq<char>, Seq<char>)| texts(names@).contains(h.0)),
            host_views(out@) == l.take(i as int).filter(keep),
        decreases hosts@.len() - i,
    {
        let listed = is_listed(names, hosts[i].device_id.as_str());
        proof {
            crate::keymap::lemma_filter_step(l, i as int, keep);
            assert(l[i as int] == (hosts@[i as int].device_id@, hosts@[i as int].authority@));
        }
        if listed {
            let ghost was = out@;
            let h = hosts[i].duplicate();
            out.push(h);
            assert(host_views(out@) =~= host_views(was).push((h.device_id@, h.authority@)));
        }
        i = i + 1;
    }
    assert(l.take(i as int) =~= l);
    out
}

/// A scan for a host to connect to: what was found, each device once. Every device must tell an
/// address that can be connected to.
#[derive(Debug)]
pub struct HostScan {
    hosts: Vec<FoundHost>,
    seen: KeySet,
}

impl View for HostScan {
    type V = Seq<(Seq<char>, Seq<char>)>;

    closed spec fn view(&self) -> Seq<(Seq<char>, Seq<char>)> {
        host_views(self.hosts@)
    }
}

/// Whether no host was found twice.
pub open spec fn hosts_once(l: Seq<(Seq<char>, Seq<char>)>) -> bool {
    forall|i: int, j: int| 0 <= i < j < l.len() ==> (#[trigger] l[i]).0 != (#[trigger] l[j]).0
}

impl HostScan {
    /// The identities that were told.
    pub closed spec fn told(&self) -> Set<Seq<char>> {
        self.seen@
    }

    /// Whether no host was found twice, and all that were found are known.
    pub open spec fn wf(&self) -> bool {
        &&& hosts_once(self@)
        &&& forall|i: int| 0 <= i < self@.len() ==> self.told().contains(#[trigger] self@[i].0)
    }

    /// A scan that has found nothing yet.
    pub fn new() -> (r: HostScan)
        ensures
            r.wf(),
            r@ == Seq::<(Seq<char>, Seq<char>)>::empty(),
            r.told() == Set::<Seq<char>>::empty(),
    {
        let r = HostScan { hosts: Vec::new(), seen: KeySet::new() };
        assert(r@ =~= Seq::<(Seq<char>, Seq<char>)>::empty());
        r
    }

    /// A service has told its identity and, with the port, an address to connect to. One that
    /// tells no identity, or one that was told before, is passed over; one without an address ends
    /// the scan. Says whether the host was kept.
    pub fn resolved(&mut self, device_id: String, authority: Option<String>) -> (r: Result<
        bool,
        String,
    >)
        requires
            old(self).wf(),
        ensures
            final(self).wf(),
            final(self).told() == (if device_id@.len() == 0 {
                old(self).told()
            } else {
                old(self).told().insert(device_id@)
            }),
            ({
                let news = device_id@.len() > 0 && !old(self).told().contains(device_id@);
                match r {
                    Ok(kept) => kept == news && (news ==> authority is Some) && final(self)@ == (
                    if news {
                        old(self)@.push((device_id@, authority->0@))
                    } else {
                        old(self)@
                    }),
                    Err(e) => news && authority is None && final(self)@ == old(self)@ && e@
                        == "no usable address for mDNS service"@,
                }
            }),
    {
        if device_id.as_str().is_empty() {
            return Ok(false);
        }
        let ghost before = self@;
        let ghost told = self.told();
        if !self.seen.insert(device_id.as_str()) {
            assert(told.insert(device_id@) =~= told);
            return Ok(false);
        }
        match authority {
            None => Err("no usable address for mDNS service".to_owned()),
            Some(authority) => {
                let ghost id = device_id@;
                let ghost at = authority@;
                self.hosts.push(FoundHost { device_id, authority });
                proof {
                    assert(self@ =~= before.push((id, at)));
                    assert forall|i: int| 0 <= i < self@.len() implies self.told().contains(
                        #[trigger] self@[i].0,
                    ) by {
                        if i < before.len() {
                            assert(told.contains(before[i].0));
                        }
                    }
                    assert forall|i: int, j: int| 0 <= i < j < self@.len() implies (
                    #[trigger] self@[i]).0 != (#[trigger] self@[j]).0 by {
                        if j == before.len() {
                            assert(told.contains(before[i].0));
                        } else {
                            assert(before[i].0 != before[j].0);
                        }
                    }
                }
                Ok(true)
            },
        }
    }

    /// What was found, in the order in which it was.
    pub fn hosts(&self) -> (r: &Vec<FoundHost>)
        ensures
            host_views(r@) == self@,
    {
        &self.hosts
    }
}

/// The certificate of the trusted host of a given name, or the text of the refusal.
pub open spec fn trusted_choice(
    m: Map<Seq<char>, TrustedView>,
    name: Option<Seq<char>>,
) -> Result<Seq<char>, Seq<char>> {
    match name {
        None => Err("NEXUS_TRUSTED_HOST_ID must be set when using --trusted"@),
        Some(name) => match uuid_parsed(name) {
            None => Err("NEXUS_TRUSTED_HOST_ID is not a valid UUID"@),
            Some(u) => if m.dom().contains(hyphenated_form(u)) {
                Ok(m[hyphenated_form(u)].cert_pem)
            } else {
                Err(
                    "host not found in trusted-certs.json; pair with it first using `nexus-mount pair`"@,
                )
            },
        },
    }
}

/// The certificate of the trusted host that the environment names, if it names one.
pub fn trusted_cert(store: &TrustedCertsStore, name: Option<&str>) -> (r: Result<String, String>)
    ensures
        match (trusted_choice(store@, crate::config::text_view(name)), r) {
            (Ok(a), Ok(b)) => b@ == a,
            (Err(m), Err(e)) => e@ == m,
            _ => false,
        },
{
    match name {
        None => Err("NEXUS_TRUSTED_HOST_ID must be set when using --trusted".to_owned()),
        Some(name) => match DeviceId::parse(name) {
            None => Err("NEXUS_TRUSTED_HOST_ID is not a valid UUID".to_owned()),
            Some(id) => match store.get(&id) {
                Some(entry) => Ok(entry.cert_pem),
                None => Err(
                    "host not found in trusted-certs.json; pair with it first using `nexus-mount pair`".to_owned(),
                ),
            },
        },
    }
}

/// The URL of a host at an address.
pub open spec fn host_url(authority: Seq<char>) -> Seq<char> {
    "https://"@ + authority
}

/// How hosts are listed to choose from.
pub open spec fn host_lines(l: Seq<(Seq<char>, Seq<char>)>) -> Seq<Seq<char>> {
    l.map_values(|h: (Seq<char>, Seq<char>)| "  "@ + h.0 + "  "@ + host_url(h.1))
}

/// The position of the first host with the given identity, if there is one.
pub open spec fn first_with(l: Seq<(Seq<char>, Seq<char>)>, id: Seq<char>) -> Option<int>
    decreases l.len(),
{
    if l.len() == 0 {
        None
    } else if l[0].0 == id {
        Some(0)
    } else {
        match first_with(l.drop_first(), id) {
            Some(i) => Some(i + 1),
            None => None,
        }
    }
}

/// Which of the hosts is connected to, or the text of the refusal: the one that was asked for by its
/// identity, else the only one.
pub open spec fn host_choice(l: Seq<(Seq<char>, Seq<char>)>, host_id: Option<Seq<char>>) -> Result<
    int,
    Seq<char>,
> {
    if l.len() == 0 {
        Err(
            "No paired nexus devices found on the LAN. Pair first with `nexus-mount pair`."@,
        )
    } else {
        match host_id {
            Some(id) => match first_with(l, id) {
                Some(i) => Ok(i),
                None => Err("Host ID "@ + id + " not found among discovered paired devices"@),
            },
            None => if l.len() == 1 {
                Ok(0)
            } else {
                Err(
                    "Multiple paired hosts discovered. Use --host-id to select one:\n"@ + joined_by(
                        host_lines(l),
                        "\n"@,
                    ),
                )
            },
        }
    }
}

/// Chooses the host to connect to: gives its identity and its URL.
pub fn choose_host(hosts: &Vec<FoundHost>, host_id: Option<&str>) -> (r: Result<(String, String), String>)
    ensures
        match (host_choice(host_views(hosts@), crate::config::text_view(host_id)), r) {
            (Ok(i), Ok((id, url))) => 0 <= i < hosts@.len() && id@ == hosts@[i].device_id@ && url@
                == host_url(hosts@[i].authority@),
            (Err(m), Err(e)) => e@ == m,
            _ => false,
        },
{
    let ghost l = host_views(hosts@);
    if hosts.len() == 0 {
        return Err(
            "No paired nexus devices found on the LAN. Pair first with `nexus-mount pair`.".to_owned(),
        );
    }
    match host_id {
        Some(id) => {
            assert(l.skip(0) =~= l);
            let mut i: usize = 0;
            while i < hosts.len()
                invariant
                    i <= hosts@.len(),
                    l == host_views(hosts@),
                    host_id == Some(id),
                    hosts@.len() > 0,
                    first_with(l, id@) == (match first_with(l.skip(i as int), id@) {
                        Some(j) => Some(i + j),
                        None => None,
                    }),
                decreases hosts@.len() - i,
            {
                assert(l.skip(i as int)[0] == l[i as int]);
                assert(l.skip(i as int).drop_first() =~= l.skip(i + 1));
                if same(hosts[i].device_id.as_str(), id) {
                    let url = "https://".to_owned().concat(hosts[i].authority.as_str());
                    assert(first_with(l, id@) == Some(i as int));
                    return Ok((hosts[i].device_id.clone(), url));
                }
                i = i + 1;
            }
            let mut m: String = "Host ID ".to_owned();
            m.append(id);
            m.append(" not found among discovered paired devices");
            Err(m)
        },
        None => {
            if hosts.len() == 1 {
                let url = "https://".to_owned().concat(hosts[0].authority.as_str());
                return Ok((hosts[0].device_id.clone(), url));
            }
            let mut lines: Vec<String> = Vec::new();
            let mut i: usize = 0;
            while i < hosts.len()
                invariant
                    i <= hosts@.len(),
                    l == host_views(hosts@),
                    texts(lines@) == host_lines(l).take(i as int),
                decreases hosts@.len() - i,
            {
                let mut line: String = "  ".to_owned();
                line.append(hosts[i].device_id.as_str());
                line.append("  ");
                let url = "https://".to_owned().concat(hosts[i].authority.as_str());
                line.append(url.as_str());
                let ghost was = lines@;
                lines.push(line);
                assert(texts(lines@) =~= texts(was).push(line@));
                i = i + 1;
                assert(host_lines(l).take(i as int) =~= host_lines(l).take(i - 1).push(
                    host_lines(l)[i - 1],
                ));
            }
            assert(host_lines(l).take(i as int) =~= host_lines(l));
            let list = join(&lines, "\n");
            let mut m: String =
                "Multiple paired hosts discovered. Use --host-id to select one:\n".to_owned();
            m.append(list.as_str());
            Err(m)
        },
    }
}

/// The host of an address that may have a scheme and a port.
pub open spec fn host_part(host: Seq<char>) -> Seq<char> {
    let s = without_scheme(host);
    match last_index(s, ':') {
        Some(i) => s.take(i),
        None => s,
    }
}

/// How to mount what a host serves, as it is shown after pairing with it.
pub fn mount_hint(host: &str, host_id: &str) -> (r: String)
    ensures
        r@ == "To mount, run: NEXUS_TRUSTED_HOST_ID="@ + host_id@
            + " nexus-mount mount --remote https://"@ + host_part(host@)
            + ":50051 --mountpoint <dir> --trusted"@,
{
    let step = trim_start_matches(host, "http://");
    let input = trim_start_matches(step.as_str(), "https://");
    let v = chars_of(input.as_str());
    let part = match find_last(&v, ':') {
        Some(i) => {
            assert(v@.subrange(0, i as int) =~= v@.take(i as int));
            string_of_range(&v, 0, i)
        },
        None => input,
    };
    let mut r: String = "To mount, run: NEXUS_TRUSTED_HOST_ID=".to_owned();
    r.append(host_id);
    r.append(" nexus-mount mount --remote https://");
    r.append(part.as_str());
    r.append(":50051 --mountpoint <dir> --trusted");
    r
}

/// Which of the trusted hosts a viewer connects to, or the text of the refusal: the one that was
/// asked for by its identity, else the only one.
pub open spec fn viewer_choice(names: Seq<Seq<char>>, host_id: Option<Seq<char>>) -> Result<
    Seq<char>,
    Seq<char>,
> {
    match host_id {
        Some(id) => if names.contains(id) {
            Ok(id)
        } else {
            Err("Host ID "@ + id + " not found among paired devices"@)
        },
        None => if names.len() == 1 {
            Ok(names[0])
        } else if names.len() > 1 {
            Err(
                "Multiple paired hosts found:\n"@ + joined_by(
                    names.map_values(|n: Seq<char>| "  "@ + n),
                    "\n"@,
                ) + "\nUse --host-id <device_id> to specify which one."@,
            )
        } else {
            Err("No paired hosts found. Run nexus-mount pair first."@)
        },
    }
}

/// Chooses the trusted host that a viewer connects to, from the names of all.
pub fn choose_trusted(names: &Vec<String>, host_id: Option<&str>) -> (r: Result<String, String>)
    ensures
        match (viewer_choice(texts(names@), crate::config::text_view(host_id)), r) {
            (Ok(a), Ok(b)) => b@ == a,
            (Err(m), Err(e)) => e@ == m,
            _ => false,
        },
{
    let ghost l = texts(names@);
    match host_id {
        Some(id) => {
            if is_listed(names, id) {
                return Ok(id.to_owned());
            }
            let mut m: String = "Host ID ".to_owned();
            m.append(id);
            m.append(" not found among paired devices");
            Err(m)
        },
        None => {
            if names.len() == 0 {
                return Err("No paired hosts found. Run nexus-mount pair first.".to_owned());
            }
            if names.len() == 1 {
                return Ok(names[0].clone());
            }
            let ghost shown = l.map_values(|n: Seq<char>| "  "@ + n);
            let mut lines: Vec<String> = Vec::new();
            let mut i: usize = 0;
            while i < names.len()
                invariant
                    i <= names@.len(),
                    l == texts(names@),
                    shown == l.map_values(|n: Seq<char>| "  "@ + n),
                    texts(lines@) == shown.take(i as int),
                decreases names@.len() - i,
            {
                let line = "  ".to_owned().concat(names[i].as_str());
                let ghost was = lines@;
                lines.push(line);
                assert(texts(lines@) =~= texts(was).push(line@));
                i = i + 1;
                assert(shown.take(i as int) =~= shown.take(i - 1).push(shown[i - 1]));
            }
            assert(shown.take(i as int) =~= shown);
            let list = join(&lines, "\n");
            let mut m: String = "Multiple paired hosts found:\n".to_owned();
            m.append(list.as_str());
            m.append("\nUse --host-id <device_id> to specify which one.");
            Err(m)
        },
    }
}

/// With one trusted host in reach and none asked for, that host is chosen.
pub proof fn law_only_host_is_chosen(l: Seq<(Seq<char>, Seq<char>)>)
    requires
        l.len() == 1,
    ensures
        host_choice(l, None) == Ok::<int, Seq<char>>(0),
        host_choice(l, Some(l[0].0)) == Ok::<int, Seq<char>>(0),
{
}

/// A host that is asked for by its identity is chosen whenever it is among those in reach.
pub proof fn law_named_host_is_chosen(l: Seq<(Seq<char>, Seq<char>)>, i: int)
    requires
        0 <= i < l.len(),
    ensures
        host_choice(l, Some(l[i].0)) matches Ok(j) && 0 <= j <= i && l[j].0 == l[i].0,
{
    lemma_first_with(l, l[i].0);
    if first_with(l, l[i].0) is None {
        assert(l[i].0 != l[i].0);
    }
}

proof fn lemma_first_with(l: Seq<(Seq<char>, Seq<char>)>, id: Seq<char>)
    ensures
        match first_with(l, id) {
            Some(j) => 0 <= j < l.len() && l[j].0 == id && forall|k: int|
                0 <= k < j ==> #[trigger] l[k].0 != id,
            None => forall|k: int| 0 <= k < l.len() ==> #[trigger] l[k].0 != id,
        },
    decreases l.len(),
{
    if l.len() > 0 && l[0].0 != id {
        let rest = l.drop_first();
        lemma_first_with(rest, id);
        assert forall|k: int| 0 < k < l.len() implies #[trigger] l[k].0 == rest[k - 1].0 by {}
        match first_with(rest, id) {
            Some(j) => {
                assert forall|k: int| 0 <= k < j + 1 implies #[trigger] l[k].0 != id by {
                    if k > 0 {
                        assert(rest[k - 1].0 != id);
                    }
                }
            },
            None => {
                assert forall|k: int| 0 <= k < l.len() implies #[trigger] l[k].0 != id by {
                    if k > 0 {
                        assert(rest[k - 1].0 != id);
                    }
                }
            },
        }
    }
}

/// Whatever is found on the network, only a trusted host is connected to.
pub proof fn law_chosen_host_is_trusted(
    found: Seq<(Seq<char>, Seq<char>)>,
    m: Map<Seq<char>, TrustedView>,
    host_id: Option<Seq<char>>,
)
    ensures
        ({
            let l = found.filter(|h: (Seq<char>, Seq<char>)| is_trusted(m, h.0));
            host_choice(l, host_id) matches Ok(i) ==> 0 <= i < l.len() && is_trusted(m, l[i].0)
        }),
{
    let keep = |h: (Seq<char>, Seq<char>)| is_trusted(m, h.0);
    let l = found.filter(keep);
    broadcast use vstd::seq_lib::group_filter_ensures;
    if host_id is Some {
        lemma_first_with(l, host_id->0);
    }
}

} // verus!
