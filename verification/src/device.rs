//! Devices: their identities, what kind they are, and the errors that concern them.
use vstd::prelude::*;
use vstd::string::*;

verus! {

/// The lower-case hexadecimal digit for a number below sixteen.
pub open spec fn hex_digit(n: u128) -> char {
    if n == 0 {
        '0'
    } else if n == 1 {
        '1'
    } else if n == 2 {
        '2'
    } else if n == 3 {
        '3'
    } else if n == 4 {
        '4'
    } else if n == 5 {
        '5'
    } else if n == 6 {
        '6'
    } else if n == 7 {
        '7'
    } else if n == 8 {
        '8'
    } else if n == 9 {
        '9'
    } else if n == 10 {
        'a'
    } else if n == 11 {
        'b'
    } else if n == 12 {
        'c'
    } else if n == 13 {
        'd'
    } else if n == 14 {
        'e'
    } else {
        'f'
    }
}

/// The hexadecimal digit of `u` at position `i`, the most significant at 0.
pub open spec fn nibble(u: u128, i: int) -> u128 {
    (u >> ((4 * (31 - i)) as u128)) & 0xfu128
}

/// The 32 hexadecimal digits of an identity.
pub open spec fn simple_form(u: u128) -> Seq<char> {
    Seq::new(32, |i: int| hex_digit(nibble(u, i)))
}

/// The digits of an identity in groups of 8, 4, 4, 4 and 12, with hyphens between them.
pub open spec fn hyphenated_form(u: u128) -> Seq<char> {
    let d = simple_form(u);
    d.subrange(0, 8) + seq!['-'] + d.subrange(8, 12) + seq!['-'] + d.subrange(12, 16) + seq!['-']
        + d.subrange(16, 20) + seq!['-'] + d.subrange(20, 32)
}

/// The identity that `Uuid::try_parse` of the crate uuid reads from a text, if it accepts it.
pub uninterp spec fn uuid_parsed(text: Seq<char>) -> Option<u128>;

/// Whether a number has the form of a random identity: the bits for the version say 4, and those
/// for the variant say 2.
pub open spec fn is_version_four(u: u128) -> bool {
    (u >> 76u128) & 0xfu128 == 4u128 && (u >> 62u128) & 0x3u128 == 2u128
}

/// `Uuid::new_v4` of the crate uuid: a random identity. Of every outcome it holds that the bits
/// for the version say 4 and those for the variant say 2.
#[verifier::external_body]
fn uuid_new_v4() -> (r: u128)
    ensures
        is_version_four(r),
{
    uuid::Uuid::new_v4().as_u128()
}

/// Whether a number is one that comes of drawing a random identity.
pub closed spec fn is_drawn(u: u128) -> bool {
    call_ensures(uuid_new_v4, (), u)
}

/// A new random identity.
fn draw_uuid() -> (r: u128)
    ensures
        is_drawn(r),
        is_version_four(r),
{
    uuid_new_v4()
}

/// `Uuid`'s `Display` of the crate uuid: the digits in lower case, with hyphens.
#[verifier::external_body]
fn uuid_display(u: u128) -> (r: String)
    ensures
        r@ == hyphenated_form(u),
{
    uuid::Uuid::from_u128(u).to_string()
}

/// `Uuid::simple` of the crate uuid, displayed: the digits in lower case, without hyphens.
#[verifier::external_body]
fn uuid_simple(u: u128) -> (r: String)
    ensures
        r@ == simple_form(u),
{
    uuid::Uuid::from_u128(u).simple().to_string()
}

/// `Uuid::try_parse` of the crate uuid: depends on the text alone, and reads back what an identity
/// is displayed as.
#[verifier::external_body]
fn uuid_try_parse(text: &str) -> (r: Option<u128>)
    ensures
        r == uuid_parsed(text@),
        forall|u: u128| text@ == #[trigger] hyphenated_form(u) ==> r == Some(u),
{
    uuid::Uuid::try_parse(text).ok().map(|u| u.as_u128())
}

/// Who a device is, for as long as it keeps its configuration.
#[derive(Clone, Copy, Debug, PartialEq, Eq, Structural, Hash)]
pub struct DeviceId(pub u128);

impl DeviceId {
    /// A new identity, drawn at random.
    pub fn new() -> (r: DeviceId)
        ensures
            is_drawn(r.0),
            is_version_four(r.0),
    {
        DeviceId(draw_uuid())
    }

    /// The identity in the form in which it is shown, sent and kept.
    pub fn to_string(&self) -> (r: String)
        ensures
            r@ == hyphenated_form(self.0),
            r@.len() == 36,
    {
        uuid_display(self.0)
    }

    /// Reads an identity.
    pub fn parse(text: &str) -> (r: Option<DeviceId>)
        ensures
            match r {
                Some(id) => uuid_parsed(text@) == Some(id.0),
                None => uuid_parsed(text@) is None,
            },
            forall|u: u128| text@ == #[trigger] hyphenated_form(u) ==> r == Some(DeviceId(u)),
    {
        match uuid_try_parse(text) {
            Some(u) => Some(DeviceId(u)),
            None => None,
        }
    }
}

impl Default for DeviceId {
    fn default() -> (r: DeviceId)
        ensures
            is_drawn(r.0),
            is_version_four(r.0),
    {
        DeviceId::new()
    }
}

/// A new shared secret: the digits of a random identity.
pub fn generate_token() -> (r: String)
    ensures
        r@.len() == 32,
        exists|u: u128| is_drawn(u) && is_version_four(u) && r@ == #[trigger] simple_form(u),
{
    let u = draw_uuid();
    uuid_simple(u)
}

/// The name of a new temporary file for a write that comes in pieces.
pub fn temp_file_name() -> (r: String)
    ensures
        exists|u: u128| is_drawn(u) && is_version_four(u) && r@ == ".nexus-write-"@ + #[trigger] hyphenated_form(u),
{
    let u = draw_uuid();
    let mut r: String = ".nexus-write-".to_owned();
    let id = uuid_display(u);
    r.append(id.as_str());
    r
}

proof fn lemma_hex_digit_injective(a: u128, b: u128)
    requires
        a < 16,
        b < 16,
        hex_digit(a) == hex_digit(b),
    ensures
        a == b,
{
}

/// Two numbers with the same hexadecimal digits are the same.
proof fn lemma_nibbles_determine(a: u128, b: u128)
    requires
        forall|i: int| 0 <= i < 32 ==> nibble(a, i) == nibble(b, i),
    ensures
        a == b,
{
    assert(nibble(a, 0) == nibble(b, 0) && nibble(a, 1) == nibble(b, 1) && nibble(a, 2) == nibble(
        b,
        2,
    ) && nibble(a, 3) == nibble(b, 3));
    assert(nibble(a, 4) == nibble(b, 4) && nibble(a, 5) == nibble(b, 5) && nibble(a, 6) == nibble(
        b,
        6,
    ) && nibble(a, 7) == nibble(b, 7));
    assert(nibble(a, 8) == nibble(b, 8) && nibble(a, 9) == nibble(b, 9) && nibble(a, 10) == nibble(
        b,
        10,
    ) && nibble(a, 11) == nibble(b, 11));
    assert(nibble(a, 12) == nibble(b, 12) && nibble(a, 13) == nibble(b, 13) && nibble(a, 14)
        == nibble(b, 14) && nibble(a, 15) == nibble(b, 15));
    assert(nibble(a, 16) == nibble(b, 16) && nibble(a, 17) == nibble(b, 17) && nibble(a, 18)
        == nibble(b, 18) && nibble(a, 19) == nibble(b, 19));
    assert(nibble(a, 20) == nibble(b, 20) && nibble(a, 21) == nibble(b, 21) && nibble(a, 22)
        == nibble(b, 22) && nibble(a, 23) == nibble(b, 23));
    assert(nibble(a, 24) == nibble(b, 24) && nibble(a, 25) == nibble(b, 25) && nibble(a, 26)
        == nibble(b, 26) && nibble(a, 27) == nibble(b, 27));
    assert(nibble(a, 28) == nibble(b, 28) && nibble(a, 29) == nibble(b, 29) && nibble(a, 30)
        == nibble(b, 30) && nibble(a, 31) == nibble(b, 31));
    assert(a == b) by (bit_vector)
        requires
            (a >> 124u128) & 15 == (b >> 124u128) & 15,
            (a >> 120u128) & 15 == (b >> 120u128) & 15,
            (a >> 116u128) & 15 == (b >> 116u128) & 15,
            (a >> 112u128) & 15 == (b >> 112u128) & 15,
            (a >> 108u128) & 15 == (b >> 108u128) & 15,
            (a >> 104u128) & 15 == (b >> 104u128) & 15,
            (a >> 100u128) & 15 == (b >> 100u128) & 15,
            (a >> 96u128) & 15 == (b >> 96u128) & 15,
            (a >> 92u128) & 15 == (b >> 92u128) & 15,
            (a >> 88u128) & 15 == (b >> 88u128) & 15,
            (a >> 84u128) & 15 == (b >> 84u128) & 15,
            (a >> 80u128) & 15 == (b >> 80u128) & 15,
            (a >> 76u128) & 15 == (b >> 76u128) & 15,
            (a >> 72u128) & 15 == (b >> 72u128) & 15,
            (a >> 68u128) & 15 == (b >> 68u128) & 15,
            (a >> 64u128) & 15 == (b >> 64u128) & 15,
            (a >> 60u128) & 15 == (b >> 60u128) & 15,
            (a >> 56u128) & 15 == (b >> 56u128) & 15,
            (a >> 52u128) & 15 == (b >> 52u128) & 15,
            (a >> 48u128) & 15 == (b >> 48u128) & 15,
            (a >> 44u128) & 15 == (b >> 44u128) & 15,
            (a >> 40u128) & 15 == (b >> 40u128) & 15,
            (a >> 36u128) & 15 == (b >> 36u128) & 15,
            (a >> 32u128) & 15 == (b >> 32u128) & 15,
            (a >> 28u128) & 15 == (b >> 28u128) & 15,
            (a >> 24u128) & 15 == (b >> 24u128) & 15,
            (a >> 20u128) & 15 == (b >> 20u128) & 15,
            (a >> 16u128) & 15 == (b >> 16u128) & 15,
            (a >> 12u128) & 15 == (b >> 12u128) & 15,
            (a >> 8u128) & 15 == (b >> 8u128) & 15,
            (a >> 4u128) & 15 == (b >> 4u128) & 15,
            (a >> 0u128) & 15 == (b >> 0u128) & 15,
    ;
}

/// Two devices with the same name are the same device.
pub proof fn law_names_tell_devices_apart(a: DeviceId, b: DeviceId)
    requires
        hyphenated_form(a.0) == hyphenated_form(b.0),
    ensures
        a == b,
{
    let x = hyphenated_form(a.0);
    let y = hyphenated_form(b.0);
    assert forall|i: int| 0 <= i < 32 implies nibble(a.0, i) == nibble(b.0, i) by {
        let p = if i < 8 {
            i
        } else if i < 12 {
            i + 1
        } else if i < 16 {
            i + 2
        } else if i < 20 {
            i + 3
        } else {
            i + 4
        };
        assert(x[p] == hex_digit(nibble(a.0, i)));
        assert(y[p] == hex_digit(nibble(b.0, i)));
        let (u, v) = (a.0 >> ((4 * (31 - i)) as u128), b.0 >> ((4 * (31 - i)) as u128));
        assert(u & 0xfu128 < 16) by (bit_vector);
        assert(v & 0xfu128 < 16) by (bit_vector);
        lemma_hex_digit_injective(nibble(a.0, i), nibble(b.0, i));
    }
    lemma_nibbles_determine(a.0, b.0);
}

/// What kind of system a device runs.
#[derive(Clone, Copy, Debug, PartialEq, Eq, Structural)]
pub enum DeviceKind {
    Linux,
    MacOs,
    Windows,
    Android,
}

impl DeviceKind {
    /// Whether the device can mount what another serves: all can but Android.
    pub fn supports_fuse_client(&self) -> (r: bool)
        ensures
            r == (*self != DeviceKind::Android),
    {
        match self {
            DeviceKind::Linux | DeviceKind::MacOs | DeviceKind::Windows => true,
            DeviceKind::Android => false,
        }
    }
}

/// What can go wrong between devices.
#[derive(Debug)]
pub enum NexusError {
    NotPaired(DeviceId),
    Unreachable(String),
    NotFound(String),
    Io(String),
}

/// The text of an error.
pub open spec fn error_text(e: NexusError) -> Seq<char> {
    match e {
        NexusError::NotPaired(id) => "device not paired: "@ + hyphenated_form(id.0),
        NexusError::Unreachable(s) => "remote agent unreachable: "@ + s@,
        NexusError::NotFound(s) => "path not found: "@ + s@,
        NexusError::Io(s) => "io error: "@ + s@,
    }
}

impl NexusError {
    /// The text that is shown for the error.
    pub fn to_string(&self) -> (r: String)
        ensures
            r@ == error_text(*self),
    {
        match self {
            NexusError::NotPaired(id) => {
                let name = id.to_string();
                "device not paired: ".to_owned().concat(name.as_str())
            },
            NexusError::Unreachable(s) => {
                "remote agent unreachable: ".to_owned().concat(s.as_str())
            },
            NexusError::NotFound(s) => "path not found: ".to_owned().concat(s.as_str()),
            NexusError::Io(s) => "io error: ".to_owned().concat(s.as_str()),
        }
    }
}

} // verus!
