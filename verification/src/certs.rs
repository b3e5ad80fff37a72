//! Certificates: which device one names, whether it is in its validity period, and when the own one
//! has to be made anew.
use vstd::prelude::*;
use vstd::string::*;

use crate::device::{hyphenated_form, uuid_parsed, DeviceId};
use crate::text::{decimal, same};

verus! {

/// An alternative name of a certificate.
#[derive(Clone, Debug, PartialEq, Eq)]
pub enum AltName {
    Dns(String),
    /// An IP address, as text.
    Address(String),
    Other,
}

/// An alternative name of a certificate, as contracts speak of it.
#[verifier::ext_equal]
pub enum AltNameView {
    Dns(Seq<char>),
    Address(Seq<char>),
    Other,
}

impl View for AltName {
    type V = AltNameView;

    open spec fn view(&self) -> AltNameView {
        match self {
            AltName::Dns(s) => AltNameView::Dns(s@),
            AltName::Address(s) => AltNameView::Address(s@),
            AltName::Other => AltNameView::Other,
        }
    }
}

/// The alternative names of a certificate, as contracts speak of them.
pub open spec fn names_view(v: Seq<AltName>) -> Seq<AltNameView> {
    v.map_values(|n: AltName| n@)
}

/// Whether a character can be part of an IP address in text.
pub open spec fn in_addresses(c: char) -> bool {
    ('0' <= c && c <= '9') || ('a' <= c && c <= 'f') || ('A' <= c && c <= 'F') || c == '.' || c == ':'
}

/// Whether a text has a character that no IP address has.
pub open spec fn is_no_address(name: Seq<char>) -> bool {
    exists|i: int| 0 <= i < name.len() && !in_addresses(#[trigger] name[i])
}

/// An IPv4 address in text: its four bytes in decimal, with dots between them.
pub open spec fn dotted(a: u8, b: u8, c: u8, d: u8) -> Seq<char> {
    decimal(a as nat) + "."@ + decimal(b as nat) + "."@ + decimal(c as nat) + "."@ + decimal(d as nat)
}

/// Whether `read` is how the name `asked` is read back from a certificate that was made with it: as
/// a DNS name where it cannot be an IP address, as an address where it is one of four bytes.
pub open spec fn reads_back(asked: Seq<char>, read: AltNameView) -> bool {
    &&& is_no_address(asked) ==> read == AltNameView::Dns(asked)
    &&& forall|a: u8, b: u8, c: u8, d: u8|
        asked == #[trigger] dotted(a, b, c, d) ==> read == AltNameView::Address(asked)
}

/// The alternative names that `CertificateParams::from_ca_cert_der` of the crate rcgen reads from a
/// certificate in DER, if it accepts it.
pub uninterp spec fn der_names(der: Seq<u8>) -> Option<Seq<AltNameView>>;

/// The alternative names that `CertificateParams::from_ca_cert_pem` of the crate rcgen reads from a
/// certificate in PEM, if it accepts it.
pub uninterp spec fn pem_names(pem: Seq<char>) -> Option<Seq<AltNameView>>;

/// The first certificate, in DER, that `certs` of the crate rustls_pemfile finds in a text in PEM.
pub uninterp spec fn pem_first_der(pem: Seq<char>) -> Option<Seq<u8>>;

/// The seconds since the Unix epoch from and up to which a certificate in DER is valid, as
/// `Certificate::from_der` of the crate x509_cert reads them, if it accepts the certificate.
pub uninterp spec fn der_validity(der: Seq<u8>) -> Option<(u64, u64)>;

/// `CertificateParams::from_ca_cert_der` of the crate rcgen: depends on the certificate alone.
#[verifier::external_body]
fn read_der_names(der: &[u8]) -> (r: Option<Vec<AltName>>)
    ensures
        match r {
            Some(v) => der_names(der@) == Some(names_view(v@)),
            None => der_names(der@) is None,
        },
{
    let params = rcgen::CertificateParams::from_ca_cert_der(&der.into()).ok()?;
    Some(
        params.subject_alt_names.into_iter().map(
            |n| match n {
                rcgen::SanType::DnsName(name) => AltName::Dns(name.as_str().to_owned()),
                rcgen::SanType::IpAddress(ip) => AltName::Address(ip.to_string()),
                _ => AltName::Other,
            },
        ).collect(),
    )
}

/// `CertificateParams::from_ca_cert_pem` of the crate rcgen: depends on the text alone.
#[verifier::external_body]
fn read_pem_names(pem: &str) -> (r: Option<Vec<AltName>>)
    ensures
        match r {
            Some(v) => pem_names(pem@) == Some(names_view(v@)),
            None => pem_names(pem@) is None,
        },
{
    let params = rcgen::CertificateParams::from_ca_cert_pem(pem).ok()?;
    Some(
        params.subject_alt_names.into_iter().map(
            |n| match n {
                rcgen::SanType::DnsName(name) => AltName::Dns(name.as_str().to_owned()),
                rcgen::SanType::IpAddress(ip) => AltName::Address(ip.to_string()),
                _ => AltName::Other,
            },
        ).collect(),
    )
}

/// `certs` of the crate rustls_pemfile, of which the first certificate is taken: depends on the
/// text alone.
#[verifier::external_body]
pub(crate) fn read_pem_first_der(pem: &str) -> (r: Option<Vec<u8>>)
    ensures
        match r {
            Some(der) => pem_first_der(pem@) == Some(der@),
            None => pem_first_der(pem@) is None,
        },
{
    rustls_pemfile::certs(&mut pem.as_bytes()).next()?.ok().map(|c| c.as_ref().to_vec())
}

/// `Certificate::from_der` of the crate x509_cert, of which the validity is taken: depends on the
/// certificate alone.
#[verifier::external_body]
fn read_der_validity(der: &[u8]) -> (r: Option<(u64, u64)>)
    ensures
        r == der_validity(der@),
{
    let x509: x509_cert::Certificate = x509_cert::der::Decode::from_der(der).ok()?;
    let v = x509.tbs_certificate.validity;
    Some((v.not_before.to_unix_duration().as_secs(), v.not_after.to_unix_duration().as_secs()))
}

/// `generate_simple_self_signed` of the crate rcgen: a new key, and a certificate for it with the
/// given names, both in PEM; nothing where a name cannot be part of one. The key is drawn at
/// random. Of every certificate it makes, it holds that the names are read back from it, one for
/// one: a name with a character that no IP address has as a DNS name, and an IPv4 address as that
/// address. That the key belongs to the certificate is left unsaid.
#[verifier::external_body]
fn make_self_signed(names: Vec<String>) -> (r: Option<(String, String)>)
    ensures
        match r {
            Some((cert, key)) => pem_names(cert@) matches Some(read) && read.len() == names@.len()
                && forall|i: int|
                0 <= i < names@.len() ==> reads_back((#[trigger] names@[i])@, read[i]),
            None => true,
        },
{
    let made = rcgen::generate_simple_self_signed(names).ok()?;
    Some((made.cert.pem(), made.key_pair.serialize_pem()))
}

/// The first of the DNS names that is the name of a device.
pub open spec fn first_device(names: Seq<AltNameView>) -> Option<DeviceId>
    decreases names.len(),
{
    if names.len() == 0 {
        None
    } else if names[0] is Dns && uuid_parsed(names[0]->Dns_0) is Some {
        Some(DeviceId(uuid_parsed(names[0]->Dns_0)->0))
    } else {
        first_device(names.drop_first())
    }
}

/// The first of the DNS names that is the name of a device.
pub fn device_among(names: &Vec<AltName>) -> (r: Option<DeviceId>)
    ensures
        r == first_device(names_view(names@)),
{
    let ghost all = names_view(names@);
    assert(all.skip(0) =~= all);
    let mut i: usize = 0;
    while i < names.len()
        invariant
            i <= names@.len(),
            all == names_view(names@),
            first_device(all) == first_device(all.skip(i as int)),
        decreases names@.len() - i,
    {
        assert(all.skip(i as int).drop_first() =~= all.skip(i + 1));
        assert(all.skip(i as int)[0] == all[i as int]);
        if let AltName::Dns(name) = &names[i] {
            if let Some(id) = DeviceId::parse(name.as_str()) {
                return Some(id);
            }
        }
        i = i + 1;
    }
    None
}

/// The device that a certificate in DER names, if it names one.
pub open spec fn device_of_der(der: Seq<u8>) -> Option<DeviceId> {
    match der_names(der) {
        Some(names) => first_device(names),
        None => None,
    }
}

/// The device that a certificate in DER names.
pub fn extract_device_id_from_cert(cert_der: &[u8]) -> (r: Option<DeviceId>)
    ensures
        r == device_of_der(cert_der@),
{
    match read_der_names(cert_der) {
        Some(names) => device_among(&names),
        None => None,
    }
}

/// The device that the names of a certificate give, where the certificate could be read.
pub fn device_or_error(names: Option<&Vec<AltName>>) -> (r: Result<DeviceId, String>)
    ensures
        match (names, r) {
            (None, Err(e)) => e@ == "parsing certificate PEM"@,
            (None, Ok(_)) => false,
            (Some(v), Ok(id)) => first_device(names_view(v@)) == Some(id),
            (Some(v), Err(e)) => first_device(names_view(v@)) is None && e@
                == "no DeviceId (UUID) found in certificate's DNS SANs"@,
        },
{
    match names {
        None => Err("parsing certificate PEM".to_owned()),
        Some(v) => match device_among(v) {
            Some(id) => Ok(id),
            None => Err("no DeviceId (UUID) found in certificate's DNS SANs".to_owned()),
        },
    }
}

/// The device that a certificate in PEM names.
pub fn extract_device_id_from_cert_pem(cert_pem: &str) -> (r: Result<DeviceId, String>)
    ensures
        match r {
            Ok(id) => pem_names(cert_pem@) matches Some(names) && first_device(names) == Some(id),
            Err(e) => match pem_names(cert_pem@) {
                None => e@ == "parsing certificate PEM"@,
                Some(names) => first_device(names) is None && e@
                    == "no DeviceId (UUID) found in certificate's DNS SANs"@,
            },
        },
{
    let names = read_pem_names(cert_pem);
    device_or_error(names.as_ref())
}

/// Why a client's certificate is turned down.
#[derive(Clone, Copy, Debug, PartialEq, Eq, Structural)]
pub enum CertRejection {
    Invalid,
    NotYetValid,
    Expired,
}

impl CertRejection {
    /// The text that is shown for the rejection.
    pub fn message(&self) -> (r: String)
        ensures
            r@ == (match *self {
                CertRejection::Invalid => "invalid client certificate"@,
                CertRejection::NotYetValid => "client certificate not yet valid"@,
                CertRejection::Expired => "client certificate has expired"@,
            }),
    {
        match self {
            CertRejection::Invalid => "invalid client certificate".to_owned(),
            CertRejection::NotYetValid => "client certificate not yet valid".to_owned(),
            CertRejection::Expired => "client certificate has expired".to_owned(),
        }
    }
}

/// Why a certificate with the given validity is turned down at second `now`, if it is.
pub open spec fn validity_verdict(validity: Option<(u64, u64)>, now: u64) -> Option<CertRejection> {
    match validity {
        None => Some(CertRejection::Invalid),
        Some((not_before, not_after)) => if now < not_before {
            Some(CertRejection::NotYetValid)
        } else if now > not_after {
            Some(CertRejection::Expired)
        } else {
            None
        },
    }
}

/// Judges a certificate by the validity that was read from it, if it could be read.
pub fn judge_validity(validity: Option<(u64, u64)>, now: u64) -> (r: Result<(), CertRejection>)
    ensures
        match r {
            Ok(_) => validity_verdict(validity, now) is None,
            Err(e) => validity_verdict(validity, now) == Some(e),
        },
{
    match validity {
        None => Err(CertRejection::Invalid),
        Some((not_before, not_after)) => if now < not_before {
            Err(CertRejection::NotYetValid)
        } else if now > not_after {
            Err(CertRejection::Expired)
        } else {
            Ok(())
        },
    }
}

/// Judges a client's certificate by its validity period; who it belongs to is for the request to
/// show.
pub fn verify_client_cert(end_entity: &[u8], now: u64) -> (r: Result<(), CertRejection>)
    ensures
        match r {
            Ok(_) => validity_verdict(der_validity(end_entity@), now) is None,
            Err(e) => validity_verdict(der_validity(end_entity@), now) == Some(e),
        },
{
    judge_validity(read_der_validity(end_entity), now)
}

/// Whether the names of a certificate have the device among them.
pub fn names_device(names: &Vec<AltName>, device: &str) -> (r: bool)
    ensures
        r == names_view(names@).contains(AltNameView::Dns(device@)),
{
    let ghost all = names_view(names@);
    let mut i: usize = 0;
    while i < names.len()
        invariant
            i <= names@.len(),
            all == names_view(names@),
            forall|j: int| 0 <= j < i ==> all[j] != AltNameView::Dns(device@),
        decreases names@.len() - i,
    {
        if let AltName::Dns(name) = &names[i] {
            if same(name.as_str(), device) {
                assert(all[i as int] == AltNameView::Dns(device@));
                return true;
            }
        }
        assert(all[i as int] != AltNameView::Dns(device@));
        i = i + 1;
    }
    false
}

/// What was found of the own identity: the certificate and the key, in PEM.
pub struct StoredIdentity {
    pub cert_pem: Option<String>,
    pub key_pem: Option<String>,
}

/// A certificate and its key, in PEM, and where the certificate is kept.
pub struct TlsIdentity {
    pub cert_pem: String,
    pub key_pem: String,
    pub cert_path: String,
}

/// Whether what was found can be used: there is a certificate and a key, and the certificate names
/// the device.
pub open spec fn usable(found: StoredIdentity, device: Seq<char>) -> bool {
    &&& found.cert_pem is Some
    &&& found.key_pem is Some
    &&& pem_names(found.cert_pem->0@) matches Some(names) && names.contains(
        AltNameView::Dns(device),
    )
}

/// Whether a new identity has to be made, because what was found cannot be used.
pub fn needs_regen(found: &StoredIdentity, device_id: &DeviceId) -> (r: bool)
    ensures
        r == !usable(*found, hyphenated_form(device_id.0)),
{
    let name = device_id.to_string();
    match (&found.cert_pem, &found.key_pem) {
        (Some(cert), Some(_)) => match read_pem_names(cert.as_str()) {
            None => true,
            Some(names) => !names_device(&names, name.as_str()),
        },
        _ => true,
    }
}

/// Where the parts of the identity are kept in the configuration directory.
pub open spec fn cert_path_in(dir: Seq<char>) -> Seq<char> {
    crate::config::path_in(dir, "cert.pem"@)
}

/// The names that are read from a new certificate of a device.
pub open spec fn own_names(device: Seq<char>) -> Seq<AltNameView> {
    seq![
        AltNameView::Dns("localhost"@),
        AltNameView::Address("127.0.0.1"@),
        AltNameView::Dns(device),
    ]
}

proof fn lemma_own_names(device: Seq<char>)
    requires
        device.len() > 8,
        device[8] == '-',
    ensures
        is_no_address("localhost"@),
        is_no_address(device),
        "127.0.0.1"@ == dotted(127, 0, 0, 1),
{
    reveal_strlit("localhost");
    reveal_strlit("127.0.0.1");
    reveal_strlit(".");
    assert(!in_addresses("localhost"@[0]));
    assert(!in_addresses(device[8]));
    reveal_with_fuel(decimal, 4);
    assert("127.0.0.1"@ =~= dotted(127, 0, 0, 1));
}

/// Whether these are the names that the certificate of a device is made for: the local machine, by
/// name and by address, and the device.
pub open spec fn are_identity_names(names: Seq<String>, device: Seq<char>) -> bool {
    &&& names.len() == 3
    &&& names[0]@ == "localhost"@
    &&& names[1]@ == "127.0.0.1"@
    &&& names[2]@ == device
}

/// Whether a certificate and a key were made together, for the names of a device.
pub closed spec fn made_together(device: Seq<char>, cert: Seq<char>, key: Seq<char>) -> bool {
    exists|names: Vec<String>, c: String, k: String|
        are_identity_names(names@, device) && c@ == cert && k@ == key && #[trigger] call_ensures(
            make_self_signed,
            (names,),
            Some((c, k)),
        )
}

/// The names that the own certificate is made for: the local machine, by name and by address, and
/// the device.
pub fn identity_names(device_id: &DeviceId) -> (r: Vec<String>)
    ensures
        are_identity_names(r@, hyphenated_form(device_id.0)),
{
    let mut names: Vec<String> = Vec::new();
    names.push("localhost".to_owned());
    names.push("127.0.0.1".to_owned());
    names.push(device_id.to_string());
    names
}

/// What comes of looking for the own identity.
pub enum IdentityOutcome {
    /// What was found is used.
    Kept(TlsIdentity),
    /// A new identity was made, and is to be written out.
    Made(TlsIdentity),
}

/// The own identity: what was found where it can be used, else a new certificate that names the
/// device, with the key that came with it.
/// Nothing where no certificate can be made.
pub fn load_or_create_tls_identity(found: StoredIdentity, device_id: &DeviceId, dir: &str) -> (r: Option<
    IdentityOutcome,
>)
    ensures
        usable(found, hyphenated_form(device_id.0)) ==> (r matches Some(IdentityOutcome::Kept(t))
            && t.cert_pem@ == found.cert_pem->0@ && t.key_pem@ == found.key_pem->0@ && t.cert_path@
            == cert_path_in(dir@)),
        !usable(found, hyphenated_form(device_id.0)) ==> match r {
            Some(IdentityOutcome::Made(t)) => usable(
                (StoredIdentity { cert_pem: Some(t.cert_pem), key_pem: Some(t.key_pem) }),
                hyphenated_form(device_id.0),
            ) && pem_names(t.cert_pem@) == Some(own_names(hyphenated_form(device_id.0)))
                && made_together(hyphenated_form(device_id.0), t.cert_pem@, t.key_pem@)
                && t.cert_path@ == cert_path_in(dir@),
            Some(IdentityOutcome::Kept(_)) => false,
            None => true,
        },
{
    let regen = needs_regen(&found, device_id);
    let cert_path = crate::config::join_path(dir, "cert.pem");
    if !regen {
        match (found.cert_pem, found.key_pem) {
            (Some(cert_pem), Some(key_pem)) => {
                return Some(IdentityOutcome::Kept(TlsIdentity { cert_pem, key_pem, cert_path }));
            },
            _ => {
                return None;
            },
        }
    }
    let names = identity_names(device_id);
    let ghost asked = names@;
    match make_self_signed(names) {
        Some((cert_pem, key_pem)) => {
            proof {
                let device = hyphenated_form(device_id.0);
                let read = pem_names(cert_pem@)->0;
                assert(device[8] == '-');
                lemma_own_names(device);
                assert(reads_back(asked[0]@, read[0]));
                assert(reads_back(asked[1]@, read[1]));
                assert(reads_back(asked[2]@, read[2]));
                assert(read =~= own_names(device));
                assert(read[2] == AltNameView::Dns(device));
            }
            Some(IdentityOutcome::Made(TlsIdentity { cert_pem, key_pem, cert_path }))
        },
        None => None,
    }
}

} // verus!
