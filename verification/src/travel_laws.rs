//! What holds of what travels: snapshots between devices, values in files, and documents and errors as
//! a system is told of them.
use vstd::prelude::*;
use vstd::string::*;

use crate::clock::VectorClock;
use crate::files::FileEntry;
use crate::keymap::law_filled_from_its_list;
use crate::migrate::{AppSnapshot, ConflictPolicy, ConflictSet, MigrateError};
use crate::request_laws::{leads_to, lemma_trimmed};
use crate::saf::{
    document_uri, list_dir_saf, path_to_saf_document, percent_byte, percent_encoded, stat_saf,
    status_to_android_error, SafDocumentEntry,
};
use crate::status::{Code, Status};
use crate::transport::{
    base64_encoded, clock_from_proto, clock_to_proto, counter_views, decode_value, encode_value,
    entry_views, policy_from_number, policy_to_number, proto_to_snapshot, pushed_conflicts,
    snapshot_to_proto, ProtoAppSnapshot, ProtoConflict, StoredValue,
};

verus! {

broadcast use vstd::seq_lib::group_seq_properties;

/// A snapshot that travels arrives as it was sent: under the same name, with the same clock, and with
/// the same values, policies and versions. None fails on its way.
pub proof fn law_snapshot_arrives_as_it_was_sent(
    sent: &AppSnapshot,
    travelling: ProtoAppSnapshot,
    r: Result<AppSnapshot, MigrateError>,
)
    requires
        call_ensures(snapshot_to_proto, (sent,), travelling),
        call_ensures(proto_to_snapshot, (Some(travelling),), r),
    ensures
        r matches Ok(got) && got.device_id@ == sent.device_id@ && got.vector_clock@
            == sent.vector_clock@ && got.keys@ == sent.keys@,
{
    law_filled_from_its_list(counter_views(travelling.clock->0@), sent.vector_clock@);
    law_filled_from_its_list(entry_views(travelling.keys@), sent.keys@);
    if r is Err {
        let p = travelling;
        assert(forall|i: int|
            0 <= i < p.keys@.len() ==> crate::transport::policy_of(
                (#[trigger] p.keys@[i]).1.policy,
            ) is Some);
    }
}

/// Each value of a snapshot travels once, under its key, with the number of its policy.
pub proof fn law_values_travel_under_their_keys(sent: &AppSnapshot, r: ProtoAppSnapshot)
    requires
        call_ensures(snapshot_to_proto, (sent,), r),
    ensures
        r.device_id@ == sent.device_id@,
        forall|i: int|
            0 <= i < r.keys@.len() ==> {
                let (k, e) = ((#[trigger] r.keys@[i]).0@, r.keys@[i].1);
                let own = sent.keys@[k];
                &&& sent.keys@.dom().contains(k)
                &&& e.value@ == own.value
                &&& e.schema_version == own.schema_version
                &&& e.policy == 0 <==> own.conflict_policy == ConflictPolicy::LastWriteWins
                &&& e.policy == 1 <==> own.conflict_policy == ConflictPolicy::AppMerge
                &&& e.policy == 2 <==> own.conflict_policy == ConflictPolicy::KeepBoth
            },
        forall|k: Seq<char>| #[trigger]
            sent.keys@.dom().contains(k) ==> exists|i: int|
                0 <= i < r.keys@.len() && (#[trigger] r.keys@[i]).0@ == k,
        forall|i: int, j: int|
            0 <= i < j < r.keys@.len() ==> (#[trigger] r.keys@[i]).0@ != (#[trigger] r.keys@[j]).0@,
{
    let l = entry_views(r.keys@);
    let m = sent.keys@;
    assert forall|i: int| 0 <= i < r.keys@.len() implies ({
        let (k, e) = ((#[trigger] r.keys@[i]).0@, r.keys@[i].1);
        let own = sent.keys@[k];
        &&& sent.keys@.dom().contains(k)
        &&& e.value@ == own.value
        &&& e.schema_version == own.schema_version
        &&& e.policy == 0 <==> own.conflict_policy == ConflictPolicy::LastWriteWins
        &&& e.policy == 1 <==> own.conflict_policy == ConflictPolicy::AppMerge
        &&& e.policy == 2 <==> own.conflict_policy == ConflictPolicy::KeepBoth
    }) by {
        assert(l[i].0 == r.keys@[i].0@);
        assert(m.dom().contains(l[i].0));
        assert(m[l[i].0] == l[i].1);
    }
    assert forall|k: Seq<char>| #[trigger] m.dom().contains(k) implies exists|i: int|
        0 <= i < r.keys@.len() && (#[trigger] r.keys@[i]).0@ == k by {
        let i = choose|i: int| 0 <= i < l.len() && #[trigger] l[i].0 == k;
        assert(r.keys@[i].0@ == k);
    }
    assert forall|i: int, j: int| 0 <= i < j < r.keys@.len() implies (#[trigger] r.keys@[i]).0@ != (
    #[trigger] r.keys@[j]).0@ by {
        assert(l[i].0 == r.keys@[i].0@ && l[j].0 == r.keys@[j].0@);
        if l[i].0 == l[j].0 {
            crate::keymap::lemma_listed_once(l, m, i, j);
        }
    }
}

/// What arrives is read where every policy is known; no snapshot, or one unknown policy, is an error.
pub proof fn law_unknown_policy_is_an_error(
    p: Option<ProtoAppSnapshot>,
    r: Result<AppSnapshot, MigrateError>,
)
    requires
        call_ensures(proto_to_snapshot, (p,), r),
    ensures
        r is Ok <==> p is Some && forall|i: int|
            0 <= i < (p->0).keys@.len() ==> 0 <= (#[trigger] (p->0).keys@[i]).1.policy <= 2,
        r matches Err(e) ==> e is Transport,
{
    if p is Some {
        let v = (p->0).keys@;
        if r is Ok {
            assert forall|i: int| 0 <= i < v.len() implies 0 <= (#[trigger] v[i]).1.policy <= 2 by {
                assert(crate::transport::policy_of(v[i].1.policy) is Some);
            }
        }
    }
}

/// A clock that travels arrives as it was sent; without one, nothing was seen.
pub proof fn law_clock_arrives_as_it_was_sent(
    sent: &VectorClock,
    travelling: Vec<(String, u64)>,
    c: &Option<Vec<(String, u64)>>,
    r: VectorClock,
)
    requires
        call_ensures(clock_to_proto, (sent,), travelling),
        call_ensures(clock_from_proto, (c,), r),
    ensures
        *c == Some(travelling) ==> r@ == sent@,
        *c is None ==> forall|d: Seq<char>| !#[trigger] r@.dom().contains(d),
        forall|i: int|
            0 <= i < travelling@.len() ==> sent@.dom().contains((#[trigger] travelling@[i]).0@)
                && sent@[travelling@[i].0@] == travelling@[i].1,
{
    let l = counter_views(travelling@);
    law_filled_from_its_list(l, sent@);
    assert forall|i: int| 0 <= i < travelling@.len() implies sent@.dom().contains(
        (#[trigger] travelling@[i]).0@,
    ) && sent@[travelling@[i].0@] == travelling@[i].1 by {
        assert(l[i] == (travelling@[i].0@, travelling@[i].1));
        assert(sent@.dom().contains(l[i].0));
    }
}

/// The number of a policy is read as that policy, no two policies have one number, and only the numbers
/// of the three stand for any.
pub proof fn law_number_of_a_policy_is_read_back(
    p: ConflictPolicy,
    n: i32,
    r: Option<ConflictPolicy>,
    m: i32,
    q: Option<ConflictPolicy>,
)
    requires
        call_ensures(policy_to_number, (p,), n),
        call_ensures(policy_from_number, (n,), r),
        call_ensures(policy_from_number, (m,), q),
    ensures
        r == Some(p),
        q is Some <==> 0 <= m <= 2,
        q == Some(p) <==> m == n,
        n == 0 <==> p == ConflictPolicy::LastWriteWins,
        n == 1 <==> p == ConflictPolicy::AppMerge,
        n == 2 <==> p == ConflictPolicy::KeepBoth,
{
}

/// A value is read back from the text that it is kept as; one that is kept as numbers is those numbers.
pub proof fn law_kept_value_is_read_back(
    bytes: &[u8],
    text: String,
    r: Option<Vec<u8>>,
    n: Vec<u8>,
    q: Option<Vec<u8>>,
)
    requires
        call_ensures(encode_value, (bytes,), text),
        call_ensures(decode_value, (StoredValue::Text(text),), r),
        call_ensures(decode_value, (StoredValue::Numbers(n),), q),
    ensures
        r matches Some(b) && b@ == bytes@,
        q matches Some(b) && b@ == n@,
{
    assert(text@ == base64_encoded(bytes@));
}

/// The conflicts that are told of a snapshot that was pushed are those that came, one for one.
pub proof fn law_pushed_conflicts_are_told(v: &Vec<ProtoConflict>, r: ConflictSet)
    requires
        call_ensures(pushed_conflicts, (v,), r),
    ensures
        r.conflicts@.len() == v@.len(),
        forall|i: int|
            0 <= i < v@.len() ==> {
                let c = #[trigger] r.conflicts@[i];
                &&& c.key@ == v@[i].key@
                &&& c.local_value@ == v@[i].local_value@
                &&& c.remote_value@ == v@[i].remote_value@
                &&& c.schema_version == 0
            },
        r.schema_dropped_keys@.len() == 0,
{
}

/// The document of an entry tells its name, its size, when it was changed, and whether it is a
/// directory, and has the address of its path.
pub proof fn law_document_tells_of_the_entry(
    path: &str,
    e: &FileEntry,
    r: SafDocumentEntry,
    address: String,
)
    requires
        call_ensures(path_to_saf_document, (path, e), r),
        call_ensures(document_uri, (path,), address),
    ensures
        r.document_uri@ == address@,
        r.display_name@ == e.name@,
        r.is_dir == e.is_dir,
        r.entry.name@ == e.name@,
        r.entry.is_dir == e.is_dir,
        r.entry.size_bytes == e.size_bytes,
        r.entry.modified_unix == e.modified_unix,
{
}

/// A directory is listed as the documents of its entries, one for each and in their order, each at the
/// path of its directory and its name.
pub proof fn law_every_entry_has_its_document(
    path: &str,
    key: Seq<char>,
    entries: &Vec<FileEntry>,
    r: Vec<SafDocumentEntry>,
    i: int,
    child: &str,
    address: String,
)
    requires
        call_ensures(list_dir_saf, (path, entries), r),
        leads_to(path@, key),
        0 <= i < entries@.len(),
        child@ == key.push('/') + entries@[i].name@,
        call_ensures(document_uri, (child,), address),
    ensures
        r@.len() == entries@.len(),
        r@[i].display_name@ == entries@[i].name@,
        r@[i].is_dir == entries@[i].is_dir,
        r@[i].entry.name@ == entries@[i].name@,
        r@[i].entry.is_dir == entries@[i].is_dir,
        r@[i].entry.size_bytes == entries@[i].size_bytes,
        r@[i].entry.modified_unix == entries@[i].modified_unix,
        r@[i].document_uri@ == address@,
{
    lemma_trimmed(path@, key);
    reveal_strlit("/");
    assert(key + "/"@ =~= key.push('/'));
    assert(crate::saf::is_document_of(
        r@[i],
        crate::saf::entry_path(path@, entries@[i].name@),
        entries@[i],
    ));
}

/// A path has a document where there is an entry; else it is not found, and the path is named.
pub proof fn law_missing_document_is_not_found(
    path: &str,
    entry: Option<&FileEntry>,
    r: Result<SafDocumentEntry, Status>,
    address: String,
)
    requires
        call_ensures(stat_saf, (path, entry), r),
        call_ensures(document_uri, (path,), address),
    ensures
        r is Ok <==> entry is Some,
        r matches Ok(d) ==> d.document_uri@ == address@ && d.display_name@ == (entry->0).name@
            && d.is_dir == (entry->0).is_dir && d.entry.size_bytes == (entry->0).size_bytes
            && d.entry.modified_unix == (entry->0).modified_unix,
        r matches Err(e) ==> e.code == Code::NotFound && e.message@ == "File not found: "@ + path@,
{
}

/// The address of a path begins with that of the provider; the rest holds nothing but letters, digits,
/// `-`, `.`, `_`, `~` and percent signs, so that no path reaches out of it.
pub proof fn law_address_holds_the_path_in_one_piece(path: &str, r: String)
    requires
        call_ensures(document_uri, (path,), r),
    ensures
        ({
            let head = "android.nexus-agent.document://com.nexus.agent.document/"@;
            &&& r@.len() >= head.len()
            &&& r@.take(head.len() as int) == head
            &&& forall|i: int|
                head.len() <= i < r@.len() ==> {
                    let c = #[trigger] r@[i];
                    ||| '0' <= c && c <= '9'
                    ||| 'A' <= c && c <= 'Z'
                    ||| 'a' <= c && c <= 'z'
                    ||| c == '-' || c == '.' || c == '_' || c == '~' || c == '%'
                }
        }),
{
    let head = "android.nexus-agent.document://com.nexus.agent.document/"@;
    reveal_strlit("android.nexus-agent.document://");
    reveal_strlit("com.nexus.agent.document");
    reveal_strlit("/");
    reveal_strlit("android.nexus-agent.document://com.nexus.agent.document/");
    let first = "android.nexus-agent.document://"@ + "com.nexus.agent.document"@ + "/"@;
    assert(first =~= head);
    let rest = percent_encoded(vstd::utf8::encode_utf8(path@));
    assert(r@ == head + rest);
    assert(r@.take(head.len() as int) =~= head);
    lemma_encoded_characters(vstd::utf8::encode_utf8(path@));
    assert forall|i: int| head.len() <= i < r@.len() implies ({
        let c = #[trigger] r@[i];
        ||| '0' <= c && c <= '9'
        ||| 'A' <= c && c <= 'Z'
        ||| 'a' <= c && c <= 'z'
        ||| c == '-' || c == '.' || c == '_' || c == '~' || c == '%'
    }) by {
        assert(r@[i] == rest[i - head.len()]);
    }
}

proof fn lemma_encoded_characters(bytes: Seq<u8>)
    ensures
        forall|i: int|
            0 <= i < percent_encoded(bytes).len() ==> {
                let c = #[trigger] percent_encoded(bytes)[i];
                ||| '0' <= c && c <= '9'
                ||| 'A' <= c && c <= 'Z'
                ||| 'a' <= c && c <= 'z'
                ||| c == '-' || c == '.' || c == '_' || c == '~' || c == '%'
            },
    decreases bytes.len(),
{
    if bytes.len() > 0 {
        let before = percent_encoded(bytes.drop_last());
        let last = percent_byte(bytes.last());
        lemma_encoded_characters(bytes.drop_last());
        let all = percent_encoded(bytes);
        assert forall|i: int| 0 <= i < all.len() implies ({
            let c = #[trigger] all[i];
            ||| '0' <= c && c <= '9'
            ||| 'A' <= c && c <= 'Z'
            ||| 'a' <= c && c <= 'z'
            ||| c == '-' || c == '.' || c == '_' || c == '~' || c == '%'
        }) by {
            if i < before.len() {
                assert(all[i] == before[i]);
            } else {
                assert(all[i] == last[i - before.len()]);
            }
        }
    }
}

/// The system is told a number for each code, no two of which are the same, and the text of the status.
pub proof fn law_codes_have_numbers_of_their_own(
    a: &Status,
    r: (i32, String),
    b: &Status,
    q: (i32, String),
)
    requires
        call_ensures(status_to_android_error, (a,), r),
        call_ensures(status_to_android_error, (b,), q),
    ensures
        0 <= r.0 <= 16,
        r.0 == q.0 <==> a.code == b.code,
        a.code == Code::Success <==> r.0 == 0,
        a.code == Code::InvalidArgument <==> r.0 == 3,
        a.code == Code::NotFound <==> r.0 == 5,
        a.code == Code::AlreadyExists <==> r.0 == 6,
        a.code == Code::PermissionDenied <==> r.0 == 7,
        a.code == Code::Internal <==> r.0 == 13,
        a.code == Code::Unavailable <==> r.0 == 14,
        a.code == Code::Unauthenticated <==> r.0 == 16,
        a.code != Code::Success && a.code != Code::Cancelled ==> r.1@ == a.message@,
{
}

/// What an upper-case hexadecimal digit stands for.
pub open spec fn hex_value(c: char) -> int {
    if '0' <= c && c <= '9' {
        c as u32 - 48
    } else {
        c as u32 - 55
    }
}

proof fn lemma_encoded_push(s: Seq<char>, c: char)
    ensures
        vstd::utf8::encode_utf8(s.push(c)) == vstd::utf8::encode_utf8(s) + vstd::utf8::encode_scalar(
            c as u32,
        ),
    decreases s.len(),
{
    reveal_with_fuel(vstd::utf8::encode_utf8, 2);
    let t = s.push(c);
    if s.len() == 0 {
        assert(t.drop_first() =~= Seq::<char>::empty());
        assert(vstd::utf8::encode_utf8(t) =~= vstd::utf8::encode_scalar(c as u32));
    } else {
        lemma_encoded_push(s.drop_first(), c);
        assert(t.drop_first() =~= s.drop_first().push(c));
        assert(vstd::utf8::encode_utf8(t) =~= vstd::utf8::encode_utf8(s)
            + vstd::utf8::encode_scalar(c as u32));
    }
}

proof fn lemma_ascii_byte(c: char)
    requires
        (c as u32) < 128,
    ensures
        vstd::utf8::encode_scalar(c as u32) == seq![c as u8],
{
    let u = c as u32;
    assert(u & 0x7f == u) by (bit_vector)
        requires
            u < 128,
    ;
    assert(vstd::utf8::encode_scalar(u) =~= seq![c as u8]);
}

/// The address of a path is written character by character: a letter, a digit, `-`, `.`, `_` or `~`
/// stands for itself, and any other ASCII character, a slash too, is a percent sign and the two
/// hexadecimal digits of its number. The empty path adds nothing.
pub proof fn law_address_is_written_character_by_character(
    p: &str,
    a: String,
    q: &str,
    c: char,
    b: String,
)
    requires
        call_ensures(document_uri, (p,), a),
        call_ensures(document_uri, (q,), b),
        q@ == p@.push(c),
        (c as u32) < 128,
    ensures
        ({
            let n = a@.len() as int;
            let plain = ('0' <= c && c <= '9') || ('A' <= c && c <= 'Z') || ('a' <= c && c <= 'z') || c
                == '-' || c == '.' || c == '_' || c == '~';
            &&& plain ==> b@ == a@.push(c)
            &&& !plain ==> {
                &&& b@.len() == n + 3
                &&& b@.take(n) == a@
                &&& b@[n] == '%'
                &&& 0 <= hex_value(b@[n + 1]) < 16 && 0 <= hex_value(b@[n + 2]) < 16
                &&& hex_value(b@[n + 1]) * 16 + hex_value(b@[n + 2]) == c as u32
            }
        }),
        p@.len() == 0 ==> a@ == "android.nexus-agent.document://com.nexus.agent.document/"@,
{
    reveal_strlit("android.nexus-agent.document://");
    reveal_strlit("com.nexus.agent.document");
    reveal_strlit("/");
    reveal_strlit("android.nexus-agent.document://com.nexus.agent.document/");
    let head = "android.nexus-agent.document://"@ + "com.nexus.agent.document"@ + "/"@;
    assert(head =~= "android.nexus-agent.document://com.nexus.agent.document/"@);
    lemma_encoded_push(p@, c);
    lemma_ascii_byte(c);
    let x = vstd::utf8::encode_utf8(p@);
    let y = vstd::utf8::encode_utf8(q@);
    let byte = c as u8;
    assert(y =~= x.push(byte));
    assert(y.drop_last() =~= x);
    assert(percent_encoded(y) == percent_encoded(x) + percent_byte(byte));
    let n = a@.len() as int;
    assert(b@ =~= a@ + percent_byte(byte));
    assert(b@.take(n) =~= a@);
    if crate::saf::unreserved(byte) {
        assert(byte as char == c);
        assert(b@ =~= a@.push(c));
    } else {
        let (h, l) = (byte / 16, byte % 16);
        assert(b@[n + 1] == crate::saf::upper_hex(h));
        assert(b@[n + 2] == crate::saf::upper_hex(l));
    }
    if p@.len() == 0 {
        assert(p@ =~= Seq::<char>::empty());
        assert(x =~= Seq::<u8>::empty());
        assert(a@ =~= head);
    }
}

} // verus!
