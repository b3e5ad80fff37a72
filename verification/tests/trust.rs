//! Identities, certificates and pairing.
use nexus::certs::{
    device_among, device_or_error, extract_device_id_from_cert, extract_device_id_from_cert_pem,
    identity_names, judge_validity, load_or_create_tls_identity, names_device, needs_regen,
    verify_client_cert, AltName, CertRejection, IdentityOutcome, StoredIdentity, TlsIdentity,
};
use nexus::config::{
    clock_store_path, config_dir, config_path, join_path, AgentConfig, ClientConfig,
};
use nexus::device::{generate_token, temp_file_name, DeviceId, DeviceKind, NexusError};
use nexus::pairing::{
    authorize, build_peer_ca_pem, bundle_certs, is_stored_cert, judge_request, pairing_address,
    pairing_outcome, peer_infos, token_matches, PairRequest, PairResponse, PairingCode,
    PairingServer, PeerEntry, PeersStore, TrustedCertsStore, TrustedHostEntry, AUTH_HEADER,
};
use nexus::status::Code;

const ID: &str = "67e55044-10b1-426f-9247-bb680e5fe0c8";
const OTHER: &str = "00000000-0000-4000-8000-000000000001";

fn id(text: &str) -> DeviceId {
    DeviceId::parse(text).unwrap()
}

fn made(device: &DeviceId) -> TlsIdentity {
    let nothing = StoredIdentity { cert_pem: None, key_pem: None };
    match load_or_create_tls_identity(nothing, device, "/cfg") {
        Some(IdentityOutcome::Made(t)) => t,
        _ => panic!("another outcome was expected"),
    }
}

/// Whether the version of an identity is 4 and its variant 2.
fn is_drawn(u: u128) -> bool {
    (u >> 76) & 0xf == 4 && (u >> 62) & 3 == 2
}

fn der_of(pem: &str) -> Vec<u8> {
    rustls_pemfile::certs(&mut pem.as_bytes()).next().unwrap().unwrap().to_vec()
}

#[test]
fn identities_are_read_and_written() {
    let device = id(ID);
    assert_eq!(device.0, 0x67e55044_10b1_426f_9247_bb680e5fe0c8);
    assert_eq!(device.to_string(), ID);
    assert_eq!(id("67E5504410B1426F9247BB680E5FE0C8").to_string(), ID);
    assert!(DeviceId::parse("not-a-device").is_none());
    let fresh = DeviceId::new();
    assert_eq!(id(&fresh.to_string()).0, fresh.0);
    assert_ne!(fresh.0, DeviceId::new().0);
    assert_eq!((fresh.0 >> 76) & 0xf, 4);
}

#[test]
fn tokens_and_temporary_names_are_made_up() {
    let t = generate_token();
    assert_eq!(t.len(), 32);
    assert!(t.chars().all(|c| c.is_ascii_hexdigit() && !c.is_ascii_uppercase()));
    assert_ne!(t, generate_token());
    assert!(is_drawn(u128::from_str_radix(&t, 16).unwrap()));
    let n = temp_file_name();
    assert_eq!(&n[..13], ".nexus-write-");
    assert_eq!(n.len(), 13 + 36);
    assert!(is_drawn(id(&n[13..]).0));
    assert!(is_drawn(DeviceId::new().0));
    assert!(is_drawn(DeviceId::default().0));
}

#[test]
fn android_cannot_mount() {
    assert!(DeviceKind::Linux.supports_fuse_client());
    assert!(DeviceKind::MacOs.supports_fuse_client());
    assert!(DeviceKind::Windows.supports_fuse_client());
    assert!(!DeviceKind::Android.supports_fuse_client());
}

#[test]
fn device_errors_have_their_texts() {
    assert_eq!(NexusError::NotPaired(id(ID)).to_string(), format!("device not paired: {ID}"));
    assert_eq!(
        NexusError::Unreachable("x".to_string()).to_string(),
        "remote agent unreachable: x"
    );
    assert_eq!(NexusError::NotFound("/p".to_string()).to_string(), "path not found: /p");
    assert_eq!(NexusError::Io("e".to_string()).to_string(), "io error: e");
}

#[test]
fn state_is_kept_below_the_configuration_directory() {
    assert_eq!(config_dir(Some("/x"), None).unwrap(), "/x");
    assert_eq!(config_dir(None, Some("/home/u")).unwrap(), "/home/u/.config/nexus");
    assert_eq!(
        config_dir(None, None).unwrap_err(),
        "HOME not set and NEXUS_CONFIG_DIR not provided"
    );
    assert_eq!(config_path(Some("/x"), Some("/h")).unwrap(), "/x/agent.json");
    assert_eq!(clock_store_path(None, Some("/h/")).unwrap(), "/h/.config/nexus/client-clocks.json");
    assert_eq!(join_path("", "a"), "a");
    assert_eq!(join_path("/", "a"), "/a");
}

#[test]
fn a_configuration_is_completed_with_what_was_drawn() {
    let drawn = "0123456789ab4def8123456789abcdef".to_string();
    let (made, written) = AgentConfig::completed(None, id(ID), drawn.clone());
    assert!(written);
    assert_eq!((made.device_id.to_string(), made.auth_token), (ID.to_string(), drawn.clone()));
    let old = AgentConfig { device_id: id(OTHER), auth_token: String::new() };
    let (filled, written) = AgentConfig::completed(Some(old), id(ID), drawn.clone());
    assert!(written);
    assert_eq!((filled.device_id.to_string(), filled.auth_token), (OTHER.to_string(), drawn.clone()));
    let kept = AgentConfig { device_id: id(OTHER), auth_token: "t".to_string() };
    let (kept, written) = AgentConfig::completed(Some(kept), id(ID), drawn);
    assert!(!written);
    assert_eq!((kept.device_id.to_string(), kept.auth_token.as_str()), (OTHER.to_string(), "t"));
}

#[test]
fn a_configuration_is_made_once() {
    let (made, written) = AgentConfig::load_or_create(None);
    assert!(written);
    assert_eq!(made.auth_token.len(), 32);
    let old = AgentConfig { device_id: id(ID), auth_token: String::new() };
    let (filled, written) = AgentConfig::load_or_create(Some(old));
    assert!(written);
    assert_eq!(filled.device_id.to_string(), ID);
    assert_eq!(filled.auth_token.len(), 32);
    let kept = AgentConfig { device_id: id(ID), auth_token: "t".to_string() };
    let (kept, written) = AgentConfig::load_or_create(Some(kept));
    assert!(!written);
    assert_eq!(kept.auth_token, "t");
    let (client, written) = ClientConfig::load_or_create(None);
    assert!(written);
    let (again, written) = ClientConfig::load_or_create(Some(client));
    assert!(!written);
    assert_eq!((again.device_id.0 >> 76) & 0xf, 4);
}

#[test]
fn a_made_identity_names_its_device_and_is_kept() {
    let device = id(ID);
    let t = made(&device);
    assert_eq!(t.cert_path, "/cfg/cert.pem");
    assert_eq!(extract_device_id_from_cert_pem(&t.cert_pem).unwrap().to_string(), ID);
    assert_eq!(extract_device_id_from_cert(&der_of(&t.cert_pem)).unwrap().to_string(), ID);
    let params = rcgen::CertificateParams::from_ca_cert_pem(&t.cert_pem).unwrap();
    let made_for: Vec<String> = params
        .subject_alt_names
        .iter()
        .map(|n| match n {
            rcgen::SanType::DnsName(name) => format!("dns {}", name.as_str()),
            rcgen::SanType::IpAddress(ip) => format!("ip {ip}"),
            _ => "other".to_string(),
        })
        .collect();
    assert_eq!(made_for, vec!["dns localhost".to_string(), "ip 127.0.0.1".to_string(), format!("dns {ID}")]);
    let found = StoredIdentity { cert_pem: Some(t.cert_pem), key_pem: Some(t.key_pem) };
    assert!(!needs_regen(&found, &device));
    assert!(needs_regen(&found, &id(OTHER)));
    let cert = found.cert_pem.clone().unwrap();
    match load_or_create_tls_identity(found, &device, "/cfg") {
        Some(IdentityOutcome::Kept(k)) => assert_eq!(k.cert_pem, cert),
        _ => panic!("another outcome was expected"),
    }
}

#[test]
fn the_key_of_a_made_identity_belongs_to_its_certificate() {
    let t = made(&id(ID));
    let key = rcgen::KeyPair::from_pem(&t.key_pem).unwrap();
    let der = der_of(&t.cert_pem);
    let cert: x509_cert::Certificate = x509_cert::der::Decode::from_der(&der).unwrap();
    let public = cert.tbs_certificate.subject_public_key_info.subject_public_key;
    assert_eq!(public.raw_bytes(), key.public_key_raw());
    let other = rcgen::KeyPair::from_pem(&made(&id(ID)).key_pem).unwrap();
    assert_ne!(public.raw_bytes(), other.public_key_raw());
}

#[test]
fn a_code_is_good_from_when_it_was_made() {
    let now = std::time::SystemTime::now();
    let mut long_ago = PairingCode::with_number_at(42, std::time::UNIX_EPOCH, 60, 3);
    assert_eq!(long_ago.code(), "000042");
    assert!(!long_ago.verify("000042"));
    let mut just_over = PairingCode::with_number_at(42, now - std::time::Duration::from_secs(61), 60, 3);
    assert!(!just_over.verify("000042"));
    let mut in_time = PairingCode::with_number_at(42, now - std::time::Duration::from_secs(30), 60, 3);
    assert!(in_time.verify("000042"));
    let mut new = PairingCode::with_number(42, 60, 3);
    assert!(new.verify("000042"));
}

#[test]
fn a_code_is_used_up_by_success_or_by_guessing() {
    let mut guessed = PairingCode::with_number(42, 60, 2);
    assert!(!guessed.verify_after("1", 0));
    assert!(!guessed.verify_after("000042", u128::MAX), "too late, but not a wrong guess");
    let mut locked = PairingCode::with_number(42, 60, 2);
    assert!(!locked.verify_after("1", 0) && !locked.verify_after("2", 0));
    assert!(!locked.verify_after("000042", 0));
    assert!(guessed.verify_after("000042", 0));
    assert!(!guessed.verify_after("000042", 0));
    let mut strict = PairingCode::with_number(42, 60, 0);
    assert!(!strict.verify_after("1", 0));
    assert!(!strict.verify_after("000042", 0));
}

#[test]
fn an_identity_of_another_device_is_made_anew() {
    let t = made(&id(OTHER));
    let found = StoredIdentity { cert_pem: Some(t.cert_pem), key_pem: Some(t.key_pem) };
    match load_or_create_tls_identity(found, &id(ID), "/cfg") {
        Some(IdentityOutcome::Made(n)) => {
            assert_eq!(extract_device_id_from_cert_pem(&n.cert_pem).unwrap().to_string(), ID)
        }
        _ => panic!("another outcome was expected"),
    }
    let half = StoredIdentity { cert_pem: Some("junk".to_string()), key_pem: None };
    assert!(needs_regen(&half, &id(ID)));
}

#[test]
fn names_of_certificates_are_searched() {
    let names = vec![
        AltName::Other,
        AltName::Address(ID.to_string()),
        AltName::Dns("localhost".to_string()),
        AltName::Dns(ID.to_string()),
    ];
    assert_eq!(device_among(&names).unwrap().to_string(), ID);
    assert!(names_device(&names, ID));
    assert!(!names_device(&names, OTHER));
    assert_eq!(device_or_error(None).unwrap_err(), "parsing certificate PEM");
    assert_eq!(
        device_or_error(Some(&vec![AltName::Dns("localhost".to_string())])).unwrap_err(),
        "no DeviceId (UUID) found in certificate's DNS SANs"
    );
    assert_eq!(extract_device_id_from_cert_pem("junk").unwrap_err(), "parsing certificate PEM");
    assert!(extract_device_id_from_cert(b"junk").is_none());
    assert_eq!(identity_names(&id(ID)), vec!["localhost", "127.0.0.1", ID]);
}

#[test]
fn certificates_are_judged_by_their_validity() {
    assert_eq!(judge_validity(Some((10, 20)), 10), Ok(()));
    assert_eq!(judge_validity(Some((10, 20)), 20), Ok(()));
    assert_eq!(judge_validity(Some((10, 20)), 9), Err(CertRejection::NotYetValid));
    assert_eq!(judge_validity(Some((10, 20)), 21), Err(CertRejection::Expired));
    assert_eq!(judge_validity(None, 0), Err(CertRejection::Invalid));
    assert_eq!(CertRejection::Invalid.message(), "invalid client certificate");
    assert_eq!(CertRejection::NotYetValid.message(), "client certificate not yet valid");
    assert_eq!(CertRejection::Expired.message(), "client certificate has expired");
    let der = der_of(&made(&id(ID)).cert_pem);
    assert_eq!(verify_client_cert(&der, 1_700_000_000), Ok(()));
    assert_eq!(verify_client_cert(&der, 0), Err(CertRejection::NotYetValid));
    assert_eq!(verify_client_cert(&der, u64::MAX), Err(CertRejection::Expired));
    assert_eq!(verify_client_cert(b"junk", 5), Err(CertRejection::Invalid));
}

#[test]
fn a_code_is_accepted_once_and_in_time() {
    let mut code = PairingCode::with_number(42, 60, 3);
    assert_eq!(code.code(), "000042");
    assert!(!code.verify_after("000042", 60_000_000_001), "too late");
    assert!(code.verify_after("000042", 60_000_000_000));
    assert!(!code.verify_after("000042", 0), "used up");
}

#[test]
fn guessing_locks_the_code() {
    let mut code = PairingCode::with_number(42, 60, 3);
    assert!(!code.verify_after("000000", 0));
    assert!(!code.verify_after("1", 0));
    assert!(!code.verify_after("000041", 0));
    assert!(!code.verify_after("000042", 0));
    let mut patient = PairingCode::with_number(42, 60, 3);
    assert!(!patient.verify_after("000000", 0));
    assert!(patient.verify_after("000042", 0));
}

#[test]
fn a_drawn_code_has_six_digits() {
    let mut code = PairingCode::with_max_attempts(60, 5);
    let shown = code.code().to_string();
    assert_eq!(shown.len(), 6);
    assert!(shown.chars().all(|c| c.is_ascii_digit()));
    assert!(!code.verify("x"));
    assert!(code.verify(&shown));
    assert!(!code.verify(&shown));
}

fn server() -> PairingServer {
    PairingServer {
        store: PeersStore::empty(),
        code: PairingCode::with_number(123456, 60, 5),
        host_device_id: id(OTHER),
        host_cert_pem: "HOST".to_string(),
        done: false,
    }
}

fn request(code: &str, device: &str) -> PairRequest {
    PairRequest {
        code: code.to_string(),
        initiator_device_id: device.to_string(),
        initiator_cert_pem: "CERT".to_string(),
        initiator_display_name: "phone".to_string(),
    }
}

#[test]
fn pairing_stores_the_device() {
    let mut s = server();
    let wrong = s.request_pair_after(request("000000", ID), 0, 7);
    assert!(!wrong.accepted);
    assert_eq!(wrong.error_message, "invalid, expired, or already-used code");
    assert!(!s.done);
    let right = s.request_pair_after(request("123456", ID), 0, 7);
    assert!(right.accepted);
    assert_eq!(right.host_cert_pem, "HOST");
    assert_eq!(right.host_device_id, OTHER);
    assert!(s.done);
    let entry = s.store.get(&id(ID)).unwrap();
    assert_eq!((entry.cert_pem.as_str(), entry.paired_at), ("CERT", 7));
    assert_eq!(s.list_peers()[0].display_name, "phone");
    let again = s.request_pair_after(request("123456", OTHER), 0, 8);
    assert!(!again.accepted);
}

#[test]
fn pairing_without_an_identity_is_turned_down() {
    let mut s = server();
    let r = s.request_pair(request("123456", "nobody"));
    assert!(!r.accepted);
    assert_eq!(r.error_message, "invalid initiator_device_id");
    assert!(s.store.list().is_empty());
}

#[test]
fn only_the_paired_certificate_is_let_in() {
    let t = made(&id(ID));
    let der = der_of(&t.cert_pem);
    let mut peers = PeersStore::empty();
    let refused = authorize(&peers, Some(&der), Some(b"tok"), b"tok").unwrap_err();
    assert_eq!(refused.code, Code::Unauthenticated);
    assert_eq!(refused.message, "client certificate not trusted");
    peers.add_at(&id(ID), t.cert_pem.clone(), "phone".to_string(), 5);
    assert!(peers.contains(&id(ID)));
    assert!(peers.verify_cert(&id(ID), &t.cert_pem));
    assert!(!peers.verify_cert(&id(ID), "other"));
    assert!(peers.verify_cert_der(&id(ID), &der));
    assert!(!peers.verify_cert_der(&id(OTHER), &der));
    assert!(authorize(&peers, Some(&der), None, b"tok").is_ok());
    let forged = der_of(&made(&id(ID)).cert_pem);
    assert!(authorize(&peers, Some(&forged), Some(b"tok"), b"tok").is_err());
    assert!(is_stored_cert(Some(&der), &der));
    assert!(!is_stored_cert(None, &der));
}

#[test]
fn without_a_certificate_the_token_counts() {
    let peers = PeersStore::empty();
    assert!(authorize(&peers, None, Some(b"secret"), b"secret").is_ok());
    let e = authorize(&peers, None, Some(b"secres"), b"secret").unwrap_err();
    assert_eq!(e.message, "missing or invalid auth token");
    assert!(authorize(&peers, None, None, b"secret").is_err());
    assert!(judge_request(Some(true), None, b"secret").is_ok());
    assert!(token_matches(b"a", b"a"));
    assert!(!token_matches(b"a", b"ab"));
    assert_eq!(AUTH_HEADER, "x-nexus-token");
}

fn peer(cert: &str, at: u64, name: &str) -> PeerEntry {
    PeerEntry { cert_pem: cert.to_string(), paired_at: at, display_name: name.to_string() }
}

#[test]
fn peers_are_listed_by_when_they_were_paired() {
    let store = PeersStore::open(vec![
        (OTHER.to_string(), peer("B", 9, "later")),
        (ID.to_string(), peer("A\n", 3, "earlier")),
    ]);
    let list = store.list();
    assert_eq!(list[0].1.display_name, "earlier");
    assert_eq!(list[1].0, OTHER);
    let infos = peer_infos(&list);
    assert_eq!((infos[1].device_id.as_str(), infos[1].paired_at), (OTHER, 9));
    assert_eq!(build_peer_ca_pem(&store), bundle_certs(&list));
    assert_eq!(build_peer_ca_pem(&store).unwrap(), "A\nB\n");
    assert!(build_peer_ca_pem(&PeersStore::empty()).is_none());
}

#[test]
fn pairing_addresses_are_made_complete() {
    assert_eq!(pairing_address("10.0.0.5", 50052).unwrap(), "https://10.0.0.5:50052");
    assert_eq!(pairing_address("http://h:7000", 50052).unwrap(), "https://h:7000");
    assert_eq!(pairing_address("https://h", 50052).unwrap(), "https://h:50052");
    assert_eq!(pairing_address("h:port", 50052).unwrap(), "https://h:port:50052");
    assert!(pairing_address("h:70000", 50052).is_none());
    assert!(pairing_address("h:", 50052).is_none());
}

#[test]
fn a_rejected_pairing_says_why() {
    let reply = |accepted: bool, why: &str| PairResponse {
        accepted,
        host_cert_pem: "C".to_string(),
        host_device_id: "D".to_string(),
        error_message: why.to_string(),
    };
    assert_eq!(pairing_outcome(reply(true, "")).unwrap(), ("D".to_string(), "C".to_string()));
    assert_eq!(pairing_outcome(reply(false, "no")).unwrap_err(), "pairing rejected: no");
    assert_eq!(pairing_outcome(reply(false, "")).unwrap_err(), "pairing rejected: unknown error");
}

#[test]
fn a_trusted_host_is_found_again() {
    let mut store = TrustedCertsStore::open(vec![]);
    assert!(store.get(&id(ID)).is_none());
    store.add(&id(ID), "PEM".to_string(), "host".to_string());
    assert_eq!(store.get(&id(ID)).unwrap().cert_pem, "PEM");
    let written = store.entries();
    assert_eq!(written[0].0, ID);
    let again = TrustedCertsStore::open(written);
    let expected =
        TrustedHostEntry { cert_pem: "PEM".to_string(), host_display_name: "host".to_string() };
    assert_eq!(again.get(&id(ID)).unwrap(), expected);
}

#[test]
fn a_code_that_was_made_just_now_is_still_good() {
    let mut s = server();
    let early = s.request_pair(request("123456", ID));
    assert!(early.accepted);
    let entry = s.store.get(&id(ID)).unwrap();
    assert_eq!((entry.cert_pem.as_str(), entry.display_name.as_str()), ("CERT", "phone"));
    assert!(entry.paired_at > 1_600_000_000, "the second is that of the system clock");
    let mut expired = PairingCode::with_number(7, 0, 3);
    let start = std::time::Instant::now();
    while start.elapsed().as_micros() < 1000 {}
    assert!(!expired.verify("000007"), "no time is left for this code");
}
