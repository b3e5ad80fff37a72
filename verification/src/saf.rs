//! Documents of a host on Android: the addresses and codes that the system knows them by.
use vstd::prelude::*;
use vstd::string::*;

use crate::files::FileEntry;
use crate::host::{clock_key, key_of};
use crate::status::{Code, Status, StatusView};

verus! {

broadcast use vstd::seq_lib::group_seq_properties;

/// The name under which the documents are provided.
pub const DOCUMENT_PROVIDER_AUTHORITY: &'static str = "com.nexus.agent.document";

/// Whether a byte stands for itself in an address.
pub open spec fn unreserved(b: u8) -> bool {
    (48 <= b && b <= 57) || (65 <= b && b <= 90) || (97 <= b && b <= 122) || b == 45 || b == 46 || b
        == 95 || b == 126
}

/// The upper-case hexadecimal digit of a number below sixteen.
pub open spec fn upper_hex(n: u8) -> char {
    if n < 10 {
        (48 + n) as char
    } else {
        (55 + n) as char
    }
}

/// How a byte is written in an address.
pub open spec fn percent_byte(b: u8) -> Seq<char> {
    if unreserved(b) {
        seq![b as char]
    } else {
        seq!['%', upper_hex(b / 16), upper_hex(b % 16)]
    }
}

/// How bytes are written in an address.
pub open spec fn percent_encoded(bytes: Seq<u8>) -> Seq<char>
    decreases bytes.len(),
{
    if bytes.len() == 0 {
        Seq::empty()
    } else {
        percent_encoded(bytes.drop_last()) + percent_byte(bytes.last())
    }
}

/// `encode` of the crate urlencoding: every byte of the text but ASCII letters and digits, `-`, `_`,
/// `.` and `~` is written as a percent sign and two upper-case hexadecimal digits.
#[verifier::external_body]
fn url_encode(text: &str) -> (r: String)
    ensures
        r@ == percent_encoded(text.spec_bytes()),
{
    urlencoding::encode(text).into_owned()
}

/// The address of the document at a path.
pub open spec fn document_address(path: Seq<char>) -> Seq<char> {
    "android.nexus-agent.document://"@ + "com.nexus.agent.document"@ + "/"@ + percent_encoded(
        vstd::utf8::encode_utf8(path),
    )
}

/// The address of the document at a path.
pub fn document_uri(path: &str) -> (r: String)
    ensures
        r@ == document_address(path@),
{
    let encoded = url_encode(path);
    let mut r: String = "android.nexus-agent.document://".to_owned();
    r.append(DOCUMENT_PROVIDER_AUTHORITY);
    r.append("/");
    r.append(encoded.as_str());
    r
}

/// A document.
#[derive(Debug)]
pub struct SafDocumentEntry {
    pub entry: FileEntry,
    pub document_uri: String,
    pub display_name: String,
    pub is_dir: bool,
}

/// Whether a document is that of an entry at a path.
pub open spec fn is_document_of(d: SafDocumentEntry, path: Seq<char>, e: FileEntry) -> bool {
    &&& d.entry.name@ == e.name@
    &&& d.entry.is_dir == e.is_dir
    &&& d.entry.size_bytes == e.size_bytes
    &&& d.entry.modified_unix == e.modified_unix
    &&& d.document_uri@ == document_address(path)
    &&& d.display_name@ == e.name@
    &&& d.is_dir == e.is_dir
}

/// The document of an entry at a path.
pub fn path_to_saf_document(path: &str, entry: &FileEntry) -> (r: SafDocumentEntry)
    ensures
        is_document_of(r, path@, *entry),
{
    SafDocumentEntry {
        entry: FileEntry {
            name: entry.name.clone(),
            is_dir: entry.is_dir,
            size_bytes: entry.size_bytes,
            modified_unix: entry.modified_unix,
        },
        document_uri: document_uri(path),
        display_name: entry.name.clone(),
        is_dir: entry.is_dir,
    }
}

/// The path of an entry of the directory `dir`.
pub open spec fn entry_path(dir: Seq<char>, name: Seq<char>) -> Seq<char> {
    key_of(dir) + "/"@ + name
}

/// The documents of the entries of a directory.
pub fn list_dir_saf(path: &str, entries: &Vec<FileEntry>) -> (r: Vec<SafDocumentEntry>)
    ensures
        r@.len() == entries@.len(),
        forall|i: int|
            0 <= i < entries@.len() ==> is_document_of(
                #[trigger] r@[i],
                entry_path(path@, entries@[i].name@),
                entries@[i],
            ),
{
    let key = clock_key(path);
    let mut out: Vec<SafDocumentEntry> = Vec::new();
    let mut i: usize = 0;
    while i < entries.len()
        invariant
            i <= entries@.len(),
            key@ == key_of(path@),
            out@.len() == i,
            forall|j: int|
                0 <= j < i ==> is_document_of(
                    #[trigger] out@[j],
                    entry_path(path@, entries@[j].name@),
                    entries@[j],
                ),
        decreases entries@.len() - i,
    {
        let mut p: String = key.clone();
        p.append("/");
        p.append(entries[i].name.as_str());
        out.push(path_to_saf_document(p.as_str(), &entries[i]));
        i = i + 1;
    }
    out
}

/// The document at a path, from the answer to a status request.
pub fn stat_saf(path: &str, entry: Option<&FileEntry>) -> (r: Result<SafDocumentEntry, Status>)
    ensures
        match (entry, r) {
            (Some(e), Ok(d)) => is_document_of(d, path@, *e),
            (None, Err(s)) => s@ == (StatusView {
                code: Code::NotFound,
                message: "File not found: "@ + path@,
            }),
            _ => false,
        },
{
    match entry {
        Some(e) => Ok(path_to_saf_document(path, e)),
        None => {
            let m = "File not found: ".to_owned().concat(path);
            Err(Status::new(Code::NotFound, m.as_str()))
        },
    }
}

/// The number of a code.
pub open spec fn code_number(code: Code) -> i32 {
    match code {
        Code::Success => 0,
        Code::Cancelled => 1,
        Code::Unknown => 2,
        Code::InvalidArgument => 3,
        Code::DeadlineExceeded => 4,
        Code::NotFound => 5,
        Code::AlreadyExists => 6,
        Code::PermissionDenied => 7,
        Code::ResourceExhausted => 8,
        Code::FailedPrecondition => 9,
        Code::Aborted => 10,
        Code::OutOfRange => 11,
        Code::Unimplemented => 12,
        Code::Internal => 13,
        Code::Unavailable => 14,
        Code::DataLoss => 15,
        Code::Unauthenticated => 16,
    }
}

/// The number and the text that the system is told of a status.
pub fn status_to_android_error(status: &Status) -> (r: (i32, String))
    ensures
        r.0 == code_number(status.code),
        r.1@ == (match status.code {
            Code::Success => "OK"@,
            Code::Cancelled => "Cancelled"@,
            _ => status.message@,
        }),
{
    let n: i32 = match status.code {
        Code::Success => 0,
        Code::Cancelled => 1,
        Code::Unknown => 2,
        Code::InvalidArgument => 3,
        Code::DeadlineExceeded => 4,
        Code::NotFound => 5,
        Code::AlreadyExists => 6,
        Code::PermissionDenied => 7,
        Code::ResourceExhausted => 8,
        Code::FailedPrecondition => 9,
        Code::Aborted => 10,
        Code::OutOfRange => 11,
        Code::Unimplemented => 12,
        Code::Internal => 13,
        Code::Unavailable => 14,
        Code::DataLoss => 15,
        Code::Unauthenticated => 16,
    };
    let text = match status.code {
        Code::Success => "OK".to_owned(),
        Code::Cancelled => "Cancelled".to_owned(),
        _ => status.message.clone(),
    };
    (n, text)
}

/// Different codes have different numbers.
pub proof fn law_numbers_tell_codes_apart(a: Code, b: Code)
    requires
        code_number(a) == code_number(b),
    ensures
        a == b,
{
}

} // verus!
