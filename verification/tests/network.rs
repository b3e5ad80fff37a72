//! Discovery, the choice of a host, and documents on Android.
use nexus::device::DeviceId;
use nexus::discovery::{
    announcement, choose_host, choose_trusted, discover_table, instance_name, listed_hosts,
    mount_hint, paired_list, peer_table, scan_wait, trusted_cert, trusted_hosts, FoundHost, HostScan,
    Resolved, Scan, SERVICE_TYPE,
};
use nexus::files::FileEntry;
use nexus::pairing::{PeerEntry, PeersStore, TrustedCertsStore};
use nexus::saf::{
    document_uri, list_dir_saf, path_to_saf_document, stat_saf, status_to_android_error,
};
use nexus::status::{Code, Status};

const ID: &str = "67e55044-10b1-426f-9247-bb680e5fe0c8";
const OTHER: &str = "00000000-0000-4000-8000-000000000001";

fn id(text: &str) -> DeviceId {
    DeviceId::parse(text).unwrap()
}

fn peers() -> PeersStore {
    let mut p = PeersStore::empty();
    p.add_at(&id(OTHER), "C".to_string(), "tablet".to_string(), 2);
    p.add_at(&id(ID), "D".to_string(), "phone".to_string(), 1);
    p
}

#[test]
fn t3_instance_name_format() {
    let device = DeviceId::new();
    let name = instance_name("My Laptop", &device);
    let short: String = device.to_string().chars().take(8).collect();
    assert_eq!(name, format!("My Laptop ({short})"));
    assert_eq!(instance_name("Laptop", &id(ID)), "Laptop (67e55044)");
}

#[test]
fn a_host_announces_itself_and_its_peers() {
    let a = announcement(&id(ID), "Laptop", &peers());
    assert_eq!(a.name, "Laptop (67e55044)");
    assert_eq!(a.hostname, format!("{ID}.local."));
    assert_eq!(a.fullname, "Laptop (67e55044)._nexus._tcp.local.");
    assert_eq!(a.device_id, ID);
    assert_eq!(a.version, "1");
    assert_eq!(a.paired, format!("{ID},{OTHER}"));
    assert_eq!(SERVICE_TYPE, "_nexus._tcp.local.");
    assert_eq!(paired_list(&vec![]), "");
}

#[test]
fn t2_txt_record_fields() {
    let device = DeviceId::new();
    let a = announcement(&device, "TestDevice", &PeersStore::empty());
    assert_eq!(a.device_id, device.to_string());
    assert_eq!(a.version, "1");
    assert_eq!(a.paired, "");
}

fn told(device: &str, address: Option<&str>) -> Resolved {
    Resolved {
        device_id: device.to_string(),
        hostname: format!("{device}.local."),
        address: address.map(|a| a.to_string()),
        port: 50051,
    }
}

#[test]
fn a_scan_keeps_each_device_once() {
    let p = peers();
    let mut scan = Scan::new();
    assert!(!scan.resolved(told("", None), Some(&p)));
    assert!(scan.resolved(told(ID, Some("10.0.0.5")), Some(&p)));
    assert!(!scan.resolved(told(ID, Some("10.0.0.6")), Some(&p)));
    assert!(scan.resolved(told("stranger", None), Some(&p)));
    assert!(scan.resolved(told(OTHER, None), None));
    let found = scan.services();
    assert_eq!(found.len(), 3);
    assert_eq!((found[0].address.as_str(), found[0].is_paired), ("10.0.0.5", true));
    assert_eq!(found[0].display_name, ID);
    assert_eq!((found[1].address.as_str(), found[1].is_paired), ("0.0.0.0", false));
    assert!(!found[2].is_paired, "nothing is known of the peers");
}

#[test]
fn a_scan_waits_a_second_at_most() {
    assert_eq!(scan_wait(0, 5000), Some(1000));
    assert_eq!(scan_wait(4500, 5000), Some(500));
    assert_eq!(scan_wait(5000, 5000), None);
}

#[test]
fn found_devices_are_shown_as_a_table() {
    let mut scan = Scan::new();
    assert_eq!(discover_table(scan.services()), "No nexus devices found on the LAN.\n");
    scan.resolved(told(ID, Some("10.0.0.5")), Some(&peers()));
    let text = discover_table(scan.services());
    let lines: Vec<&str> = text.lines().collect();
    assert_eq!(
        lines[0],
        format!("{:<40} {:<30} {:<21} {:<6} paired?", "device_id", "display_name", "address", "port")
    );
    assert_eq!(
        lines[1],
        format!(
            "{} {} {} {} {}",
            "-".repeat(40),
            "-".repeat(30),
            "-".repeat(21),
            "-".repeat(6),
            "-".repeat(6)
        )
    );
    assert_eq!(lines[2], format!("{:<40} {:<30} {:<21} {:<6} yes", ID, ID, "10.0.0.5", 50051));
    assert_eq!(lines.len(), 3);
}

#[test]
fn paired_devices_are_shown_as_a_table() {
    assert_eq!(peer_table(&vec![]), "No paired devices.\n");
    let entry =
        PeerEntry { cert_pem: "C".to_string(), paired_at: 17, display_name: "phone".to_string() };
    let text = peer_table(&vec![(ID.to_string(), entry)]);
    let lines: Vec<&str> = text.lines().collect();
    assert_eq!(lines[0], format!("{:<40} {:<30} paired_at", "device_id", "display_name"));
    assert_eq!(lines[1], format!("{} {} {}", "-".repeat(40), "-".repeat(30), "-".repeat(10)));
    assert_eq!(lines[2], format!("{:<40} {:<30} 17", ID, "phone"));
}

fn host(device: &str, authority: &str) -> FoundHost {
    FoundHost { device_id: device.to_string(), authority: authority.to_string() }
}

fn trusted() -> TrustedCertsStore {
    let mut t = TrustedCertsStore::open(vec![]);
    t.add(&id(ID), "PEM".to_string(), "host".to_string());
    t
}

#[test]
fn only_trusted_hosts_are_chosen_from() {
    let found = vec![host("junk", "a:1"), host(ID, "b:2"), host(OTHER, "c:3")];
    let kept = trusted_hosts(&found, &trusted());
    assert_eq!(kept.len(), 1);
    assert_eq!(kept[0].authority, "b:2");
    let named = listed_hosts(&found, &vec![OTHER.to_string(), "junk".to_string()]);
    assert_eq!(named.len(), 2);
    assert_eq!(named[0].device_id, "junk");
}

#[test]
fn a_host_is_chosen_or_the_choice_is_shown() {
    assert_eq!(
        choose_host(&vec![], None).unwrap_err(),
        "No paired nexus devices found on the LAN. Pair first with `nexus-mount pair`."
    );
    let one = vec![host(ID, "10.0.0.5:50051")];
    assert_eq!(
        choose_host(&one, None).unwrap(),
        (ID.to_string(), "https://10.0.0.5:50051".to_string())
    );
    let two = vec![host(ID, "a:1"), host(OTHER, "b:2")];
    assert_eq!(choose_host(&two, Some(OTHER)).unwrap().1, "https://b:2");
    assert_eq!(
        choose_host(&two, Some("x")).unwrap_err(),
        "Host ID x not found among discovered paired devices"
    );
    assert_eq!(
        choose_host(&two, None).unwrap_err(),
        format!(
            "Multiple paired hosts discovered. Use --host-id to select one:\n  {ID}  https://a:1\n  {OTHER}  https://b:2"
        )
    );
}

#[test]
fn a_scan_for_hosts_needs_addresses() {
    let mut scan = HostScan::new();
    assert_eq!(scan.resolved(String::new(), None), Ok(false));
    assert_eq!(scan.resolved(ID.to_string(), Some("a:1".to_string())), Ok(true));
    assert_eq!(scan.resolved(ID.to_string(), None), Ok(false));
    assert_eq!(
        scan.resolved(OTHER.to_string(), None),
        Err("no usable address for mDNS service".to_string())
    );
    assert_eq!(scan.hosts().len(), 1);
}

#[test]
fn a_viewer_names_its_host() {
    let names = vec!["a".to_string(), "b".to_string()];
    assert_eq!(choose_trusted(&names, Some("b")).unwrap(), "b");
    assert_eq!(
        choose_trusted(&names, Some("c")).unwrap_err(),
        "Host ID c not found among paired devices"
    );
    assert_eq!(
        choose_trusted(&names, None).unwrap_err(),
        "Multiple paired hosts found:\n  a\n  b\nUse --host-id <device_id> to specify which one."
    );
    assert_eq!(choose_trusted(&vec!["a".to_string()], None).unwrap(), "a");
    assert_eq!(
        choose_trusted(&vec![], None).unwrap_err(),
        "No paired hosts found. Run nexus-mount pair first."
    );
}

#[test]
fn a_trusted_certificate_is_named_by_the_environment() {
    let t = trusted();
    assert_eq!(trusted_cert(&t, Some(ID)).unwrap(), "PEM");
    assert_eq!(
        trusted_cert(&t, None).unwrap_err(),
        "NEXUS_TRUSTED_HOST_ID must be set when using --trusted"
    );
    assert_eq!(
        trusted_cert(&t, Some("x")).unwrap_err(),
        "NEXUS_TRUSTED_HOST_ID is not a valid UUID"
    );
    assert_eq!(
        trusted_cert(&t, Some(OTHER)).unwrap_err(),
        "host not found in trusted-certs.json; pair with it first using `nexus-mount pair`"
    );
}

#[test]
fn after_pairing_the_mount_command_is_shown() {
    assert_eq!(
        mount_hint("https://127.0.0.1:50052", "H"),
        "To mount, run: NEXUS_TRUSTED_HOST_ID=H nexus-mount mount --remote https://127.0.0.1:50051 --mountpoint <dir> --trusted"
    );
    assert!(mount_hint("box", "H").contains("https://box:50051"));
}

#[test]
fn document_addresses_are_encoded() {
    assert_eq!(
        document_uri("a b/ü~-._Z9"),
        "android.nexus-agent.document://com.nexus.agent.document/a%20b%2F%C3%BC~-._Z9"
    );
}

fn entry(name: &str, is_dir: bool) -> FileEntry {
    FileEntry { name: name.to_string(), is_dir, size_bytes: 3, modified_unix: 4 }
}

#[test]
fn a_directory_becomes_documents() {
    let docs = list_dir_saf("/d", &vec![entry("f", false), entry("s", true)]);
    assert_eq!(docs.len(), 2);
    assert_eq!(
        docs[0].document_uri,
        "android.nexus-agent.document://com.nexus.agent.document/d%2Ff"
    );
    assert_eq!(docs[1].display_name, "s");
    assert!(docs[1].is_dir);
    let one = path_to_saf_document("f", &entry("f", false));
    assert_eq!((one.entry.size_bytes, one.entry.modified_unix), (3, 4));
}

#[test]
fn a_document_that_is_missing_is_not_found() {
    assert_eq!(stat_saf("p", Some(&entry("p", false))).unwrap().display_name, "p");
    let e = stat_saf("p", None).unwrap_err();
    assert_eq!((e.code, e.message.as_str()), (Code::NotFound, "File not found: p"));
}

#[test]
fn status_codes_have_numbers() {
    let number = |c: Code| status_to_android_error(&Status::new(c, "m"));
    assert_eq!(number(Code::Success), (0, "OK".to_string()));
    assert_eq!(number(Code::Cancelled), (1, "Cancelled".to_string()));
    assert_eq!(number(Code::NotFound), (5, "m".to_string()));
    assert_eq!(number(Code::Unauthenticated), (16, "m".to_string()));
    assert_eq!(number(Code::DataLoss).0, 15);
}

#[test]
fn the_first_address_that_is_not_unspecified_is_picked() {
    let any = ("0.0.0.0:1".to_string(), true);
    let one = ("10.0.0.1:1".to_string(), false);
    let two = ("10.0.0.2:1".to_string(), false);
    assert_eq!(nexus::discovery::pick_address(&vec![any.clone(), one, two]).unwrap(), "10.0.0.1:1");
    assert_eq!(nexus::discovery::pick_address(&vec![any]), None);
    assert_eq!(nexus::discovery::pick_address(&vec![]), None);
}

#[test]
fn white_space_is_trimmed() {
    let listed = |n: u32| {
        matches!(n, 9..=13 | 0x20 | 0x85 | 0xa0 | 0x1680 | 0x2000..=0x200a)
            || matches!(n, 0x2028 | 0x2029 | 0x202f | 0x205f | 0x3000)
    };
    for c in (0..=0x10ffffu32).filter_map(char::from_u32) {
        let around = format!("{c}x{c}");
        let left = if listed(c as u32) { "x" } else { around.as_str() };
        assert_eq!(nexus::text::trim(&around), left);
    }
}
