//! What holds of who a device is: its identity, its certificate, and where it keeps them.
use vstd::prelude::*;
use vstd::string::*;

use crate::android::register_key;
use crate::certs::{
    der_names, der_validity, device_among, device_or_error, extract_device_id_from_cert,
    extract_device_id_from_cert_pem, first_device, identity_names, judge_validity,
    load_or_create_tls_identity, names_device, names_view, needs_regen, pem_names,
    verify_client_cert, AltName, AltNameView, CertRejection, IdentityOutcome, StoredIdentity,
};
use crate::config::{
    clock_store_path, config_dir, config_path, join_path, AgentConfig, ClientConfig,
};
use crate::device::{
    generate_token, hyphenated_form, temp_file_name, uuid_parsed, DeviceId, DeviceKind, NexusError,
};
use crate::migrate::{ConflictPolicy, MigratableApp};
use crate::sdk::Global;

verus! {

broadcast use vstd::seq_lib::group_seq_properties;

/// Whether the name at `i` is a DNS name that is the identity `u`.
pub open spec fn is_device_at(names: Seq<AltName>, i: int, u: u128) -> bool {
    &&& 0 <= i < names.len()
    &&& names[i] is Dns
    &&& uuid_parsed((names[i]->Dns_0)@) == Some(u)
}

/// Whether the name at `i` is the first DNS name that is an identity, and is the identity `u`.
pub open spec fn is_first_device_at(names: Seq<AltName>, i: int, u: u128) -> bool {
    &&& is_device_at(names, i, u)
    &&& forall|j: int, v: u128| 0 <= j < i ==> !#[trigger] is_device_at(names, j, v)
}

proof fn lemma_first_device(names: Seq<AltName>)
    ensures
        first_device(names_view(names)) matches Some(id) ==> exists|i: int| #[trigger]
            is_first_device_at(names, i, id.0),
        first_device(names_view(names)) is None ==> forall|j: int, u: u128| !#[trigger]
            is_device_at(names, j, u),
    decreases names.len(),
{
    let l = names_view(names);
    if names.len() > 0 {
        let rest = names.drop_first();
        lemma_first_device(rest);
        assert(names_view(rest) =~= l.drop_first());
        assert(l[0] == names[0]@);
        if l[0] is Dns && uuid_parsed(l[0]->Dns_0) is Some {
            let u0 = uuid_parsed(l[0]->Dns_0)->0;
            assert(first_device(l) == Some(DeviceId(u0)));
            assert((first_device(l)->0).0 == u0);
            assert(is_first_device_at(names, 0, (first_device(l)->0).0));
        } else {
            assert forall|u: u128| !#[trigger] is_device_at(names, 0, u) by {}
            assert(first_device(l) == first_device(names_view(rest)));
            if first_device(l) is Some {
                let id = first_device(l)->0;
                let i = choose|i: int| #[trigger] is_first_device_at(rest, i, id.0);
                assert(is_device_at(rest, i, id.0));
                assert(names[i + 1] == rest[i]);
                assert(is_device_at(names, i + 1, id.0));
                assert forall|j: int, u: u128| 0 <= j < i + 1 implies !#[trigger] is_device_at(
                    names,
                    j,
                    u,
                ) by {
                    if j > 0 {
                        assert(!is_device_at(rest, j - 1, u));
                    }
                }
                assert(is_first_device_at(names, i + 1, id.0));
            } else {
                assert forall|j: int, u: u128| !#[trigger] is_device_at(names, j, u) by {
                    if 0 < j < names.len() {
                        assert(!is_device_at(rest, j - 1, u));
                    }
                }
            }
        }
    }
}

/// The device that a certificate names is the first of its DNS names that is an identity; addresses
/// and other names are passed over, and so are DNS names that are none.
pub proof fn law_first_identity_is_the_device(names: &Vec<AltName>, r: Option<DeviceId>)
    requires
        call_ensures(device_among, (names,), r),
    ensures
        r matches Some(id) ==> exists|i: int| #[trigger] is_first_device_at(names@, i, id.0),
        r is None ==> forall|j: int, u: u128| !#[trigger] is_device_at(names@, j, u),
{
    lemma_first_device(names@);
}

/// A certificate that can be read names the device that its names give; one that cannot names none.
pub proof fn law_certificate_names_a_device(
    der: &[u8],
    r: Option<DeviceId>,
    names: &Vec<AltName>,
    among: Option<DeviceId>,
)
    requires
        call_ensures(extract_device_id_from_cert, (der,), r),
        call_ensures(device_among, (names,), among),
    ensures
        der_names(der@) is None ==> r is None,
        der_names(der@) == Some(names_view(names@)) ==> r == among,
{
}

/// A certificate without a device is an error, and so is one that cannot be read; the texts differ.
pub proof fn law_missing_device_is_an_error(
    names: Option<&Vec<AltName>>,
    r: Result<DeviceId, String>,
    among: Option<DeviceId>,
)
    requires
        call_ensures(device_or_error, (names,), r),
        names matches Some(v) ==> call_ensures(device_among, (v,), among),
    ensures
        names is None ==> (r matches Err(e) && e@ == "parsing certificate PEM"@),
        names is Some && among is None ==> (r matches Err(e) && e@
            == "no DeviceId (UUID) found in certificate's DNS SANs"@),
        names is Some && among is Some ==> r == Ok::<DeviceId, String>(among->0),
{
}

/// A certificate is good from its first second to its last, both counted. Before that it is not yet
/// valid, after it expired, and one whose period cannot be read is invalid.
pub proof fn law_certificate_is_good_in_its_period(
    validity: Option<(u64, u64)>,
    now: u64,
    r: Result<(), CertRejection>,
)
    requires
        call_ensures(judge_validity, (validity, now), r),
    ensures
        r is Ok <==> (validity matches Some((first, last)) && first <= now <= last),
        validity is None ==> r == Err::<(), CertRejection>(CertRejection::Invalid),
        validity matches Some((first, last)) && now < first ==> r == Err::<(), CertRejection>(
            CertRejection::NotYetValid,
        ),
        validity matches Some((first, last)) && now >= first && now > last ==> r == Err::<
            (),
            CertRejection,
        >(CertRejection::Expired),
{
}

/// A client's certificate is judged by the period that is read from it.
pub proof fn law_client_certificate_is_judged(
    der: &[u8],
    now: u64,
    r: Result<(), CertRejection>,
    judged: Result<(), CertRejection>,
)
    requires
        call_ensures(verify_client_cert, (der, now), r),
        call_ensures(judge_validity, (der_validity(der@), now), judged),
    ensures
        r is Ok <==> judged is Ok,
        r is Err ==> r->Err_0 == judged->Err_0,
{
}

/// A certificate is for a device where one of its DNS names is that of the device.
pub proof fn law_names_of_the_device(names: &Vec<AltName>, device: &str, r: bool)
    requires
        call_ensures(names_device, (names, device), r),
    ensures
        r <==> exists|i: int|
            0 <= i < names@.len() && (#[trigger] names@[i]) is Dns && (names@[i]->Dns_0)@ == device@,
{
    let l = names_view(names@);
    if r {
        let i = choose|i: int| 0 <= i < l.len() && l[i] == AltNameView::Dns(device@);
        assert(names@[i]@ == l[i]);
    }
    if exists|i: int|
        0 <= i < names@.len() && (#[trigger] names@[i]) is Dns && (names@[i]->Dns_0)@ == device@ {
        let i = choose|i: int|
            0 <= i < names@.len() && (#[trigger] names@[i]) is Dns && (names@[i]->Dns_0)@ == device@;
        assert(l[i] == AltNameView::Dns(device@));
    }
}

/// What was found of the own identity is used where both parts are there and the certificate is for
/// the device; else a new one is made, which is for the device and can be used from then on.
pub proof fn law_identity_is_kept_while_it_can_be_used(
    found: StoredIdentity,
    id: &DeviceId,
    dir: &str,
    anew: bool,
    r: Option<IdentityOutcome>,
    path: String,
    file: &str,
)
    requires
        call_ensures(needs_regen, (&found, id), anew),
        call_ensures(load_or_create_tls_identity, (found, id, dir), r),
        file@ == "cert.pem"@,
        call_ensures(join_path, (dir, file), path),
    ensures
        ({
            let device = AltNameView::Dns(hyphenated_form(id.0));
            &&& !anew <==> {
                &&& found.cert_pem is Some
                &&& found.key_pem is Some
                &&& pem_names((found.cert_pem->0)@) is Some
                &&& (pem_names((found.cert_pem->0)@)->0).contains(device)
            }
            &&& !anew ==> (r matches Some(IdentityOutcome::Kept(t)) && t.cert_pem@
                == (found.cert_pem->0)@ && t.key_pem@ == (found.key_pem->0)@ && t.cert_path@
                == path@)
            &&& anew && r is Some ==> (r->0 matches IdentityOutcome::Made(t) && pem_names(
                t.cert_pem@,
            ) is Some && (pem_names(t.cert_pem@)->0).contains(device) && t.cert_path@ == path@)
        }),
{
}

/// A path in a directory is that of the directory and the rest, with one slash between them where the
/// directory does not bring it.
pub proof fn law_path_lies_in_its_directory(dir: &str, rest: &str, r: String)
    requires
        call_ensures(join_path, (dir, rest), r),
    ensures
        dir@.len() == 0 ==> r@ == rest@,
        dir@.len() > 0 && dir@.last() == '/' ==> r@ == dir@ + rest@,
        dir@.len() > 0 && dir@.last() != '/' ==> r@ == dir@.push('/') + rest@,
{
    reveal_strlit("/");
    assert(dir@ + "/"@ =~= dir@.push('/'));
}

/// State is kept in the directory that was given, else in one below the home directory; with neither
/// there is none. The files of a host and of a client lie in it, under names of their own.
pub proof fn law_state_is_kept_in_one_directory(
    given: Option<&str>,
    home: Option<&str>,
    dir: Result<String, String>,
    host: Result<String, String>,
    client: Result<String, String>,
    d: &str,
    below: String,
    agent: &str,
    a: String,
    clocks: &str,
    c: String,
    nexus: &str,
)
    requires
        call_ensures(config_dir, (given, home), dir),
        call_ensures(config_path, (given, home), host),
        call_ensures(clock_store_path, (given, home), client),
        nexus@ == ".config/nexus"@,
        home matches Some(h) ==> call_ensures(join_path, (h, nexus), below),
        dir matches Ok(p) ==> d@ == p@,
        agent@ == "agent.json"@,
        call_ensures(join_path, (d, agent), a),
        clocks@ == "client-clocks.json"@,
        call_ensures(join_path, (d, clocks), c),
    ensures
        dir is Ok <==> given is Some || home is Some,
        host is Ok <==> dir is Ok,
        client is Ok <==> dir is Ok,
        given matches Some(g) ==> (dir matches Ok(p) && p@ == g@),
        given is None && home is Some ==> (dir matches Ok(p) && p@ == below@),
        host matches Ok(p) ==> p@ == a@,
        client matches Ok(p) ==> p@ == c@,
{
}

/// A host goes by what it kept; what it lacks is taken from what was made up, and is to be written out
/// exactly where something was lacking.
pub proof fn law_host_keeps_who_it_is(
    found: Option<AgentConfig>,
    id: DeviceId,
    token: String,
    r: (AgentConfig, bool),
)
    requires
        call_ensures(AgentConfig::completed, (found, id, token), r),
    ensures
        found matches Some(c) ==> r.0.device_id == c.device_id,
        found is None ==> r.0.device_id == id,
        found matches Some(c) && c.auth_token@.len() > 0 ==> r.0.auth_token@ == (
        found->0).auth_token@ && !r.1,
        found is None || (found->0).auth_token@.len() == 0 ==> r.0.auth_token@ == token@ && r.1,
{
}

/// A host that has kept who it is and its secret starts with both, and writes nothing out; it never
/// starts without a secret.
pub proof fn law_host_starts_with_what_it_kept(found: Option<AgentConfig>, r: (AgentConfig, bool))
    requires
        call_ensures(AgentConfig::load_or_create, (found,), r),
    ensures
        found matches Some(c) ==> r.0.device_id == c.device_id && (c.auth_token@.len() > 0
            ==> r.0.auth_token@ == c.auth_token@),
        r.1 <==> !(found matches Some(c) && c.auth_token@.len() > 0),
        r.0.auth_token@.len() > 0,
        r.1 ==> r.0.auth_token@.len() == 32,
{
    if r.1 {
        let u = choose|u: u128|
            crate::device::is_drawn(u) && crate::device::is_version_four(u) && r.0.auth_token@
                == #[trigger] crate::device::simple_form(u);
        assert(crate::device::simple_form(u).len() == 32);
    }
}

/// A client that has kept who it is starts as that, and writes nothing out; else it makes itself up
/// and writes that out.
pub proof fn law_client_keeps_who_it_is(found: Option<ClientConfig>, r: (ClientConfig, bool))
    requires
        call_ensures(ClientConfig::load_or_create, (found,), r),
    ensures
        found matches Some(c) ==> r.0.device_id == c.device_id,
        r.1 <==> found is None,
{
}

/// What a device is shown as is read back as the device.
pub proof fn law_shown_identity_is_read_back(id: &DeviceId, text: String, s: &str, r: Option<DeviceId>)
    requires
        call_ensures(DeviceId::to_string, (id,), text),
        s@ == text@,
        call_ensures(DeviceId::parse, (s,), r),
    ensures
        r == Some(*id),
        text@.len() == 36,
        text@[8] == '-' && text@[13] == '-' && text@[18] == '-' && text@[23] == '-',
{
    assert(s@ == hyphenated_form(id.0));
}

/// Every device but an Android one can mount what a host serves.
pub proof fn law_android_cannot_mount(kind: &DeviceKind, r: bool)
    requires
        call_ensures(DeviceKind::supports_fuse_client, (kind,), r),
    ensures
        r <==> *kind == DeviceKind::Linux || *kind == DeviceKind::MacOs || *kind
            == DeviceKind::Windows,
{
}

/// A key is registered where the number stands for a policy: with that policy and with the version as
/// it is given. A number that stands for none changes nothing.
pub proof fn law_number_of_a_policy_is_registered<A: MigratableApp>(
    g: &mut Global<A>,
    key: &str,
    policy: i32,
    version: i32,
    r: bool,
)
    requires
        call_ensures(register_key::<A>, (g, key, policy, version), r),
    ensures
        r <==> 0 <= policy <= 2,
        !r ==> *final(g) == *old(g),
        old(g).state is None ==> final(g).state is None,
        r && old(g).state is Some ==> (final(g).state matches Some(s) && {
            let regs = s.sdk.registrations@;
            &&& regs.dom().contains(key@)
            &&& policy == 0 <==> regs[key@].policy == ConflictPolicy::LastWriteWins
            &&& policy == 1 <==> regs[key@].policy == ConflictPolicy::AppMerge
            &&& policy == 2 <==> regs[key@].policy == ConflictPolicy::KeepBoth
            &&& version >= 0 ==> regs[key@].schema_version == version
            &&& version < 0 ==> regs[key@].schema_version == version + 0x1_0000_0000
            &&& regs.remove(key@) == old(g).state->0.sdk.registrations@.remove(key@)
        }),
{
    if r && old(g).state is Some {
        let a = old(g).state->0.sdk.registrations@;
        let b = final(g).state->0.sdk.registrations@;
        assert(b.remove(key@) =~= a.remove(key@));
    }
}

/// The device that a certificate in PEM names is the one that its names give.
pub proof fn law_certificate_in_pem_names_a_device(
    pem: &str,
    r: Result<DeviceId, String>,
    names: &Vec<AltName>,
    among: Option<DeviceId>,
)
    requires
        call_ensures(extract_device_id_from_cert_pem, (pem,), r),
        call_ensures(device_among, (names,), among),
    ensures
        pem_names(pem@) is None ==> r is Err,
        pem_names(pem@) == Some(names_view(names@)) ==> (r is Ok <==> among is Some) && (r is Ok
            ==> r->Ok_0 == among->0),
{
}

/// A certificate is made for the local machine, by name and by address, and for the device.
pub proof fn law_certificate_is_made_for_the_device(id: &DeviceId, r: Vec<String>, shown: String)
    requires
        call_ensures(identity_names, (id,), r),
        call_ensures(DeviceId::to_string, (id,), shown),
    ensures
        r@.len() == 3,
        r@[0]@ == "localhost"@,
        r@[1]@ == "127.0.0.1"@,
        r@[2]@ == shown@,
{
}

/// The texts that errors are shown as.
pub proof fn law_texts_of_errors(
    e: &NexusError,
    r: String,
    c: &CertRejection,
    q: String,
    shown: String,
)
    requires
        call_ensures(NexusError::to_string, (e,), r),
        *e matches NexusError::NotPaired(id) ==> call_ensures(DeviceId::to_string, (&id,), shown),
        call_ensures(CertRejection::message, (c,), q),
    ensures
        *e is NotPaired ==> r@ == "device not paired: "@ + shown@,
        *e matches NexusError::Unreachable(s) ==> r@ == "remote agent unreachable: "@ + s@,
        *e matches NexusError::NotFound(s) ==> r@ == "path not found: "@ + s@,
        *e matches NexusError::Io(s) ==> r@ == "io error: "@ + s@,
        *c == CertRejection::Invalid ==> q@ == "invalid client certificate"@,
        *c == CertRejection::NotYetValid ==> q@ == "client certificate not yet valid"@,
        *c == CertRejection::Expired ==> q@ == "client certificate has expired"@,
{
}

/// A secret that is made up has 32 hexadecimal digits, and the name of a temporary file says what it
/// is for.
pub proof fn law_made_up_names(token: String, name: String)
    requires
        call_ensures(generate_token, (), token),
        call_ensures(temp_file_name, (), name),
    ensures
        token@.len() == 32,
        forall|i: int|
            0 <= i < 32 ==> {
                let c = #[trigger] token@[i];
                ||| '0' <= c && c <= '9'
                ||| 'a' <= c && c <= 'f'
            },
        name@.len() == 13 + 36,
        name@.take(13) == ".nexus-write-"@,
{
    let u = choose|u: u128|
        crate::device::is_drawn(u) && crate::device::is_version_four(u) && token@
            == #[trigger] crate::device::simple_form(u);
    assert forall|i: int| 0 <= i < 32 implies ({
        let c = #[trigger] token@[i];
        ||| '0' <= c && c <= '9'
        ||| 'a' <= c && c <= 'f'
    }) by {
        assert(token@[i] == crate::device::hex_digit(crate::device::nibble(u, i)));
    }
    reveal_strlit(".nexus-write-");
    let v = choose|v: u128|
        crate::device::is_drawn(v) && crate::device::is_version_four(v) && name@
            == ".nexus-write-"@ + #[trigger] hyphenated_form(v);
    assert(hyphenated_form(v).len() == 36);
    assert(name@.take(13) =~= ".nexus-write-"@);
}

} // verus!
