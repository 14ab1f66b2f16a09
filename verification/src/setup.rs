//! `SetupConnection`: flag bits, version negotiation, and what makes flags
//! compatible.

use crate::bytes::{read_le, same_bytes};
#[allow(unused_imports)]
use crate::bytes::{le, le_value, lemma_le_len, lemma_le_round_trip, span};
use crate::codes::check_error_codes;
#[allow(unused_imports)]
use crate::rules::{decides, decides_between, Rule};
use binary_sv2::{Deserialize, GetSize, Serialize};
use common_messages_sv2::{
    has_declare_tx_data, has_requires_std_job, has_version_rolling, has_work_selection,
    SetupConnection, SetupConnectionOwned,
};
use vstd::prelude::*;
#[allow(unused_imports)]
use vstd::string::StringSliceAdditionalSpecFns;
#[allow(unused_imports)]
use vstd::utf8::is_char_boundary;

verus! {

/// The compatibility of mining flags treats `REQUIRES_STANDARD_JOBS` as if it also
/// required work selection and version rolling. The rule that exposes this is not
/// checked until that changes.
pub const CHECK_MINING_FLAG_ISOLATION: bool = false;

pub const REQUIRES_STANDARD_JOBS: u32 = 1;

pub const REQUIRES_WORK_SELECTION: u32 = 2;

pub const REQUIRES_VERSION_ROLLING: u32 = 4;

/// The flags that the mining protocol defines.
pub const MINING_DEFINED_FLAGS: u32 = 7;

/// The mining flags that two peers negotiate.
pub const MINING_NEGOTIABLE_FLAGS: u32 = 6;

/// The one flag that the job declaration protocol defines.
pub const JD_ALLOW_FULL_TEMPLATE_MODE: u32 = 1;

/// The longest string that a field can hold, in bytes.
pub const MAX_STRING_LEN: usize = 255;

/// `end` is where a string is cut to fit a field: the last character boundary
/// that leaves at most 255 bytes.
pub open spec fn cut_at(bytes: Seq<u8>, end: int) -> bool {
    &&& 0 <= end <= bytes.len()
    &&& end <= MAX_STRING_LEN
    &&& is_char_boundary(bytes, end)
    &&& forall|longer: int|
        end < longer <= bytes.len() && longer <= MAX_STRING_LEN ==> !#[trigger] is_char_boundary(
            bytes,
            longer,
        )
}

/// The longest beginning of `s` that is at most 255 bytes long and does not cut a
/// character.
pub fn str0255(s: &str) -> (r: &str)
    ensures
        exists|end: int| #[trigger]
            cut_at(s.spec_bytes(), end) && r.spec_bytes() == s.spec_bytes().take(end),
        r.spec_bytes().len() <= MAX_STRING_LEN,
{
    let bytes = s.as_bytes();
    let len: usize = bytes.len();
    let mut end: usize = if len < MAX_STRING_LEN {
        len
    } else {
        MAX_STRING_LEN
    };
    proof {
        vstd::utf8::encode_utf8_valid_utf8(s@);
        vstd::utf8::is_char_boundary_start_end_of_seq(s.spec_bytes());
    }
    while !s.is_char_boundary(end)
        invariant
            len == s.spec_bytes().len(),
            end <= len,
            end <= MAX_STRING_LEN,
            is_char_boundary(s.spec_bytes(), 0),
            forall|longer: int|
                end < longer <= len && longer <= MAX_STRING_LEN ==> !#[trigger] is_char_boundary(
                    s.spec_bytes(),
                    longer,
                ),
        decreases end,
    {
        end = end - 1;
    }
    let r = s.split_at(end).0;
    proof {
        assert(cut_at(s.spec_bytes(), end as int));
        assert(r.spec_bytes() =~= s.spec_bytes().take(end as int));
    }
    r
}

/// One side of a connection, as it introduces itself.
pub struct Peer {
    pub protocol: u8,
    pub min_version: u16,
    pub max_version: u16,
    pub flags: u32,
    pub endpoint_port: u16,
    pub endpoint_host: String,
    pub vendor: String,
}

/// The protocols that can be set up.
#[derive(Clone, Copy, Debug, PartialEq, Eq, Structural)]
pub enum Protocol {
    Mining,
    JobDeclaration,
    TemplateDistribution,
}

impl Protocol {
    /// The number of the protocol on the wire.
    pub open spec fn discriminant(self) -> u8 {
        match self {
            Protocol::Mining => 0,
            Protocol::JobDeclaration => 1,
            Protocol::TemplateDistribution => 2,
        }
    }

    /// The number of the protocol on the wire.
    pub fn number(&self) -> (r: u8)
        ensures
            r == self.discriminant(),
    {
        match self {
            Protocol::Mining => 0,
            Protocol::JobDeclaration => 1,
            Protocol::TemplateDistribution => 2,
        }
    }
}

/// A `SetupConnection`.
pub struct SetupMessage {
    pub protocol: Protocol,
    pub min_version: u16,
    pub max_version: u16,
    pub flags: u32,
    pub host: String,
    pub port: u16,
    pub vendor: String,
    pub hardware_version: String,
    pub firmware: String,
    pub device_id: String,
}

/// The same, with the number of the protocol, and with the strings as bytes.
pub struct SetupView {
    pub protocol: u8,
    pub min_version: u16,
    pub max_version: u16,
    pub flags: u32,
    pub host: Seq<u8>,
    pub port: u16,
    pub vendor: Seq<u8>,
    pub hardware_version: Seq<u8>,
    pub firmware: Seq<u8>,
    pub device_id: Seq<u8>,
}

impl View for SetupMessage {
    type V = SetupView;

    open spec fn view(&self) -> SetupView {
        SetupView {
            protocol: self.protocol.discriminant(),
            min_version: self.min_version,
            max_version: self.max_version,
            flags: self.flags,
            host: vstd::utf8::encode_utf8(self.host@),
            port: self.port,
            vendor: vstd::utf8::encode_utf8(self.vendor@),
            hardware_version: vstd::utf8::encode_utf8(self.hardware_version@),
            firmware: vstd::utf8::encode_utf8(self.firmware@),
            device_id: vstd::utf8::encode_utf8(self.device_id@),
        }
    }
}

/// The wire format of a string: its length in one byte, and its bytes.
pub open spec fn string_encoding(bytes: Seq<u8>) -> Seq<u8> {
    seq![bytes.len() as u8] + bytes
}

impl SetupView {
    /// The strings fit their fields.
    pub open spec fn fits(self) -> bool {
        &&& self.host.len() <= MAX_STRING_LEN
        &&& self.vendor.len() <= MAX_STRING_LEN
        &&& self.hardware_version.len() <= MAX_STRING_LEN
        &&& self.firmware.len() <= MAX_STRING_LEN
        &&& self.device_id.len() <= MAX_STRING_LEN
    }

    /// The wire format: protocol, versions, flags, host, port, and four more strings.
    pub open spec fn encoding(self) -> Seq<u8> {
        seq![self.protocol] + le(self.min_version as int, 2) + le(self.max_version as int, 2)
            + le(self.flags as int, 4) + string_encoding(self.host) + le(self.port as int, 2)
            + string_encoding(self.vendor) + string_encoding(self.hardware_version)
            + string_encoding(self.firmware) + string_encoding(self.device_id)
    }
}

/// A `SetupConnection` as it was decoded.
pub struct DecodedSetup {
    pub protocol: u8,
    pub min_version: u16,
    pub max_version: u16,
    pub flags: u32,
    pub host: Vec<u8>,
    pub port: u16,
    pub vendor: Vec<u8>,
    pub hardware_version: Vec<u8>,
    pub firmware: Vec<u8>,
    pub device_id: Vec<u8>,
}

impl View for DecodedSetup {
    type V = SetupView;

    open spec fn view(&self) -> SetupView {
        SetupView {
            protocol: self.protocol,
            min_version: self.min_version,
            max_version: self.max_version,
            flags: self.flags,
            host: self.host@,
            port: self.port,
            vendor: self.vendor@,
            hardware_version: self.hardware_version@,
            firmware: self.firmware@,
            device_id: self.device_id@,
        }
    }
}

/// `bytes` are those of `text`, cut to fit a field.
pub open spec fn is_cut(text: Seq<char>, bytes: Seq<u8>) -> bool {
    exists|end: int| #[trigger]
        cut_at(vstd::utf8::encode_utf8(text), end) && bytes == vstd::utf8::encode_utf8(text).take(
            end,
        )
}

/// `message` is the one with which a peer sets up a connection for a protocol.
pub open spec fn introduces(peer: Peer, protocol: Protocol, message: SetupMessage) -> bool {
    &&& message.protocol == protocol
    &&& message.min_version == peer.min_version
    &&& message.max_version == peer.max_version
    &&& message.flags == peer.flags
    &&& message.port == peer.endpoint_port
    &&& is_cut(peer.endpoint_host@, message@.host)
    &&& is_cut(peer.vendor@, message@.vendor)
    &&& message@.hardware_version == Seq::<u8>::empty()
    &&& message@.firmware == Seq::<u8>::empty()
    &&& message@.device_id == Seq::<u8>::empty()
}

/// The message with which a peer sets up a connection for a protocol, whatever protocol the
/// peer names itself. Its strings are cut to fit their fields; it says nothing of hardware,
/// firmware and device.
pub fn setup_connection(peer: &Peer, protocol: Protocol) -> (r: SetupMessage)
    ensures
        introduces(*peer, protocol, r),
        r@.fits(),
{
    proof {
        reveal_strlit("");
        assert(""@ =~= Seq::<char>::empty());
        assert(vstd::utf8::encode_utf8(Seq::<char>::empty()) =~= Seq::<u8>::empty());
    }
    SetupMessage {
        protocol,
        min_version: peer.min_version,
        max_version: peer.max_version,
        flags: peer.flags,
        host: str0255(peer.endpoint_host.as_str()).to_owned(),
        port: peer.endpoint_port,
        vendor: str0255(peer.vendor.as_str()).to_owned(),
        hardware_version: str0255("").to_owned(),
        firmware: str0255("").to_owned(),
        device_id: str0255("").to_owned(),
    }
}

/// The number of a protocol, if it is one.
pub open spec fn known_protocol(value: u8) -> Option<u8> {
    if value <= 2 {
        Some(value)
    } else {
        None
    }
}

/// Calls `Protocol::try_from` of `common_messages_sv2` and returns the number of the
/// protocol: 0, 1 and 2 are protocols, and nothing else is.
#[verifier::external_body]
fn protocol_of(value: u8) -> (r: Option<u8>)
    ensures
        r == known_protocol(value),
{
    match common_messages_sv2::Protocol::try_from(value) {
        Ok(protocol) => Some(protocol as u8),
        Err(()) => None,
    }
}

/// `has_requires_std_job` of `common_messages_sv2` reads bit 0.
pub assume_specification[ common_messages_sv2::has_requires_std_job ](flags: u32) -> (r: bool)
    ensures
        r == (flags & REQUIRES_STANDARD_JOBS != 0),
;

/// `has_work_selection` of `common_messages_sv2` reads bit 1.
pub assume_specification[ common_messages_sv2::has_work_selection ](flags: u32) -> (r: bool)
    ensures
        r == (flags & REQUIRES_WORK_SELECTION != 0),
;

/// `has_version_rolling` of `common_messages_sv2` reads bit 2.
pub assume_specification[ common_messages_sv2::has_version_rolling ](flags: u32) -> (r: bool)
    ensures
        r == (flags & REQUIRES_VERSION_ROLLING != 0),
;

/// `has_declare_tx_data` of `common_messages_sv2` reads bit 0.
pub assume_specification[ common_messages_sv2::has_declare_tx_data ](flags: u32) -> (r: bool)
    ensures
        r == (flags & JD_ALLOW_FULL_TEMPLATE_MODE != 0),
;

/// Whether the flags of two sides are compatible. In the mining protocol, each of
/// the two lowest flags asks for work selection, and each of the three lowest for
/// version rolling, and what one side asks for the other must ask for too. In the
/// job declaration protocol the same goes for the lowest flag. The template
/// distribution protocol has no flags.
pub open spec fn compatible(protocol: Protocol, available: u32, required: u32) -> bool {
    match protocol {
        Protocol::Mining => {
            &&& available & 3 != 0 ==> required & 3 != 0
            &&& available & 7 != 0 ==> required & 7 != 0
        },
        Protocol::JobDeclaration => available & 1 != 0 ==> required & 1 != 0,
        Protocol::TemplateDistribution => false,
    }
}

/// Calls `SetupConnection::check_flags` of `common_messages_sv2`.
#[verifier::external_body]
fn check_flags(protocol: Protocol, available: u32, required: u32) -> (r: bool)
    ensures
        r == compatible(protocol, available, required),
{
    let protocol = match protocol {
        Protocol::Mining => common_messages_sv2::Protocol::MiningProtocol,
        Protocol::JobDeclaration => common_messages_sv2::Protocol::JobDeclarationProtocol,
        Protocol::TemplateDistribution => common_messages_sv2::Protocol::TemplateDistributionProtocol,
    };
    SetupConnection::check_flags(protocol, available, required)
}

/// The version that two sides use: the highest that does not exceed either
/// maximum, unless one minimum exceeds the other maximum.
pub open spec fn negotiated(
    min_version: u16,
    max_version: u16,
    other_min: u16,
    other_max: u16,
) -> Option<u16> {
    if min_version > other_max || other_min > max_version {
        None
    } else if max_version < other_max {
        Some(max_version)
    } else {
        Some(other_max)
    }
}

/// `SetupConnectionOwned` of `common_messages_sv2`: the message itself.
#[verifier::external_type_specification]
#[verifier::external_body]
pub struct ExSetupConnectionOwned(common_messages_sv2::SetupConnectionOwned);

/// What a message says.
pub uninterp spec fn said(message: SetupConnectionOwned) -> SetupView;

/// Builds a `SetupConnectionOwned` of `common_messages_sv2` with the given fields. A string
/// becomes a `Str0255Owned` of `binary_sv2`, which holds up to 255 bytes.
#[verifier::external_body]
fn to_message(setup: &SetupMessage) -> (r: SetupConnectionOwned)
    requires
        setup@.fits(),
    ensures
        said(r) == setup@,
{
    let protocol = match setup.protocol {
        Protocol::Mining => common_messages_sv2::Protocol::MiningProtocol,
        Protocol::JobDeclaration => common_messages_sv2::Protocol::JobDeclarationProtocol,
        Protocol::TemplateDistribution => common_messages_sv2::Protocol::TemplateDistributionProtocol,
    };
    SetupConnectionOwned {
        protocol, min_version: setup.min_version, max_version: setup.max_version,
        flags: setup.flags, endpoint_port: setup.port,
        endpoint_host: setup.host.as_str().try_into().unwrap(),
        vendor: setup.vendor.as_str().try_into().unwrap(),
        hardware_version: setup.hardware_version.as_str().try_into().unwrap(),
        firmware: setup.firmware.as_str().try_into().unwrap(),
        device_id: setup.device_id.as_str().try_into().unwrap(),
    }
}

/// Reads the fields of a `SetupConnectionOwned` of `common_messages_sv2`.
#[verifier::external_body]
fn read_message(message: &SetupConnectionOwned) -> (r: DecodedSetup)
    ensures
        r@ == said(*message),
{
    DecodedSetup {
        protocol: message.protocol as u8,
        min_version: message.min_version,
        max_version: message.max_version,
        flags: message.flags,
        host: message.endpoint_host.as_bytes().to_vec(),
        port: message.endpoint_port,
        vendor: message.vendor.as_bytes().to_vec(),
        hardware_version: message.hardware_version.as_bytes().to_vec(),
        firmware: message.firmware.as_bytes().to_vec(),
        device_id: message.device_id.as_bytes().to_vec(),
    }
}

/// `SetupConnectionOwned::get_version` negotiates a version with the range of another side.
pub assume_specification[ SetupConnectionOwned::get_version ](
    message: &SetupConnectionOwned,
    min_version: u16,
    max_version: u16,
) -> (r: Option<u16>)
    ensures
        r == negotiated(
            said(*message).min_version,
            said(*message).max_version,
            min_version,
            max_version,
        ),
;

/// `SetupConnectionOwned::requires_standard_job` reads bit 0 of the flags.
pub assume_specification[ SetupConnectionOwned::requires_standard_job ](
    message: &SetupConnectionOwned,
) -> (r: bool)
    ensures
        r == (said(*message).flags & REQUIRES_STANDARD_JOBS != 0),
;

/// `SetupConnectionOwned::set_requires_standard_job` sets bit 0 of the flags and touches
/// nothing else.
pub assume_specification[ SetupConnectionOwned::set_requires_standard_job ](
    message: &mut SetupConnectionOwned,
)
    ensures
        said(*final(message)) == (SetupView {
            flags: said(*old(message)).flags | REQUIRES_STANDARD_JOBS,
            ..said(*old(message))
        }),
;

/// Calls `to_bytes` of `binary_sv2` on a message, with a buffer of the size that
/// it reports: its wire format.
#[verifier::external_body]
fn encode(message: SetupConnectionOwned) -> (r: Vec<u8>)
    ensures
        r@ == said(message).encoding(),
{
    let mut out = vec![0u8; message.get_size()];
    message.to_bytes(&mut out).unwrap();
    out
}

/// Calls `SetupConnection::from_bytes` of `common_messages_sv2`. The wire format of a
/// message is read as that message. Nothing is said of other bytes.
#[verifier::external_body]
fn decode(bytes: &[u8]) -> (r: Option<SetupConnectionOwned>)
    ensures
        forall|setup: SetupView|
            setup.fits() && setup.protocol <= 2 && bytes@ == #[trigger] setup.encoding() ==> r is Some
                && said(r->0) == setup,
{
    let mut bytes = bytes.to_vec();
    Some(SetupConnection::from_bytes(&mut bytes).ok()?.into_owned())
}

/// Version `w` is supported by a side that supports `min` to `max`.
pub open spec fn supports(min: u16, max: u16, w: u16) -> bool {
    min <= w <= max
}

/// The outcome of a negotiation does not depend on which side is which.
pub proof fn lemma_negotiation_symmetric(a_min: u16, a_max: u16, b_min: u16, b_max: u16)
    ensures
        negotiated(a_min, a_max, b_min, b_max) == negotiated(b_min, b_max, a_min, a_max),
{
}

/// Two ranges negotiate the highest version that both support, and fail exactly if
/// there is none.
pub proof fn lemma_negotiation_highest(a_min: u16, a_max: u16, b_min: u16, b_max: u16)
    requires
        a_min <= a_max,
        b_min <= b_max,
    ensures
        match negotiated(a_min, a_max, b_min, b_max) {
            Some(v) => {
                &&& supports(a_min, a_max, v)
                &&& supports(b_min, b_max, v)
                &&& forall|w: u16| #[trigger]
                    supports(a_min, a_max, w) && supports(b_min, b_max, w) ==> w <= v
            },
            None => forall|w: u16| #[trigger]
                supports(a_min, a_max, w) ==> !supports(b_min, b_max, w),
        },
{
}

/// Identical flags are always compatible.
pub proof fn lemma_flags_reflexive(flags: u32)
    ensures
        compatible(Protocol::Mining, flags, flags),
        compatible(Protocol::JobDeclaration, flags, flags),
{
}

/// Only the flags that a protocol defines decide whether flags are compatible.
pub proof fn lemma_flags_defined_bits(a: u32, b: u32)
    ensures
        compatible(Protocol::Mining, a, b) == compatible(
            Protocol::Mining,
            a & MINING_DEFINED_FLAGS,
            b & MINING_DEFINED_FLAGS,
        ),
        compatible(Protocol::JobDeclaration, a, b) == compatible(
            Protocol::JobDeclaration,
            a & JD_ALLOW_FULL_TEMPLATE_MODE,
            b & JD_ALLOW_FULL_TEMPLATE_MODE,
        ),
{
    assert forall|x: u32|
        #![trigger x & 7]
        (x & 7) & 3 == x & 3 && (x & 7) & 7 == x & 7 by {
        assert((x & 7) & 3 == x & 3 && (x & 7) & 7 == x & 7) by (bit_vector);
    }
    assert forall|x: u32| #![trigger x & 1] (x & 1) & 1 == x & 1 by {
        assert((x & 1) & 1 == x & 1) by (bit_vector);
    }
}

/// What was read of the flags of one side.
#[derive(Clone, Copy, Debug, PartialEq, Eq, Structural)]
pub struct FlagReads {
    pub std_job: bool,
    pub work_selection: bool,
    pub version_rolling: bool,
    pub declare_tx_data: bool,
}

/// What the implementation made of two peers, `a` and `b`.
pub struct SetupRun {
    /// The message with which `a` sets up a mining connection.
    pub message: SetupMessage,
    pub protocol_a: Option<u8>,
    pub protocol_b: Option<u8>,
    pub reads_a: FlagReads,
    pub reads_b: FlagReads,
    /// Whether the message of `a` says that it requires standard jobs.
    pub standard_job: bool,
    /// The flags of `a` after they were set to require standard jobs.
    pub flags_set: u32,
    /// The message of `a` on the wire, and as it was read back.
    pub encoded: Vec<u8>,
    pub decoded: Option<DecodedSetup>,
    /// The version negotiated by `a` with the range of `b`, and the other way.
    pub version_ab: Option<u16>,
    pub version_ba: Option<u16>,
    /// Whether the flags of `a` are compatible with themselves.
    pub mining_reflexive: bool,
    pub jd_reflexive: bool,
    /// Whether the flags of `a` and `b` are compatible, with all bits, and with
    /// only those that the protocol defines, or negotiates.
    pub jd: bool,
    pub jd_defined: bool,
    pub mining: bool,
    pub mining_defined: bool,
    pub mining_negotiable: bool,
}

/// What must hold of setting up connections, in the order of checking.
#[derive(Clone, Copy, Debug, PartialEq, Eq, Structural)]
pub enum SetupRule {
    /// 0, 1 and 2 are protocols, and nothing else is.
    ProtocolA,
    ProtocolB,
    /// The flags are read at the bits where they are defined.
    StdJobA,
    WorkSelectionA,
    VersionRollingA,
    DeclareTxDataA,
    StdJobB,
    WorkSelectionB,
    VersionRollingB,
    DeclareTxDataB,
    /// The message says that it requires standard jobs if the flag is set.
    Accessor,
    /// Setting the flag touches no other.
    Setter,
    /// A message is read back as it was written.
    RoundTrip,
    /// The first byte is the number of the protocol.
    Discriminant,
    /// The versions and the flags follow, least significant byte first.
    MinVersion,
    MaxVersion,
    Flags,
    /// The version does not depend on which side is which.
    Symmetric,
    /// There is a version exactly if the ranges meet.
    Overlap,
    /// It is the highest common one.
    Highest,
    /// It lies in both ranges.
    InsideA,
    InsideB,
    /// Identical flags are compatible.
    MiningReflexive,
    JdReflexive,
    /// Only defined bits decide.
    JdBits,
    MiningBits,
    /// Only negotiable bits decide.
    MiningIsolation,
}

/// The ranges of both sides are well-formed.
pub open spec fn ranges_ok(a: Peer, b: Peer) -> bool {
    a.min_version <= a.max_version && b.min_version <= b.max_version
}

/// The ranges of both sides meet.
pub open spec fn ranges_meet(a: Peer, b: Peer) -> bool {
    a.min_version <= b.max_version && b.min_version <= a.max_version
}

impl Rule for SetupRule {
    type Run = (Peer, Peer, SetupRun);

    open spec fn rank(self) -> int {
        match self {
            SetupRule::ProtocolA => 0,
            SetupRule::ProtocolB => 1,
            SetupRule::StdJobA => 2,
            SetupRule::WorkSelectionA => 3,
            SetupRule::VersionRollingA => 4,
            SetupRule::DeclareTxDataA => 5,
            SetupRule::StdJobB => 6,
            SetupRule::WorkSelectionB => 7,
            SetupRule::VersionRollingB => 8,
            SetupRule::DeclareTxDataB => 9,
            SetupRule::Accessor => 10,
            SetupRule::Setter => 11,
            SetupRule::RoundTrip => 12,
            SetupRule::Discriminant => 13,
            SetupRule::MinVersion => 14,
            SetupRule::MaxVersion => 15,
            SetupRule::Flags => 16,
            SetupRule::Symmetric => 17,
            SetupRule::Overlap => 18,
            SetupRule::Highest => 19,
            SetupRule::InsideA => 20,
            SetupRule::InsideB => 21,
            SetupRule::MiningReflexive => 22,
            SetupRule::JdReflexive => 23,
            SetupRule::JdBits => 24,
            SetupRule::MiningBits => 25,
            SetupRule::MiningIsolation => 26,
        }
    }

    open spec fn holds(self, run: (Peer, Peer, SetupRun)) -> bool {
        let a = run.0;
        let b = run.1;
        let r = run.2;
        let wire = r.encoded@;
        let ok = ranges_ok(a, b);
        let picked = ok && r.version_ab is Some;
        let version = r.version_ab->0;
        match self {
            SetupRule::ProtocolA => r.protocol_a == known_protocol(a.protocol),
            SetupRule::ProtocolB => r.protocol_b == known_protocol(b.protocol),
            SetupRule::StdJobA => r.reads_a.std_job == (a.flags & REQUIRES_STANDARD_JOBS != 0),
            SetupRule::WorkSelectionA => r.reads_a.work_selection == (a.flags
                & REQUIRES_WORK_SELECTION != 0),
            SetupRule::VersionRollingA => r.reads_a.version_rolling == (a.flags
                & REQUIRES_VERSION_ROLLING != 0),
            SetupRule::DeclareTxDataA => r.reads_a.declare_tx_data == (a.flags
                & JD_ALLOW_FULL_TEMPLATE_MODE != 0),
            SetupRule::StdJobB => r.reads_b.std_job == (b.flags & REQUIRES_STANDARD_JOBS != 0),
            SetupRule::WorkSelectionB => r.reads_b.work_selection == (b.flags
                & REQUIRES_WORK_SELECTION != 0),
            SetupRule::VersionRollingB => r.reads_b.version_rolling == (b.flags
                & REQUIRES_VERSION_ROLLING != 0),
            SetupRule::DeclareTxDataB => r.reads_b.declare_tx_data == (b.flags
                & JD_ALLOW_FULL_TEMPLATE_MODE != 0),
            SetupRule::Accessor => r.standard_job == (a.flags & REQUIRES_STANDARD_JOBS != 0),
            SetupRule::Setter => r.flags_set == a.flags | REQUIRES_STANDARD_JOBS,
            SetupRule::RoundTrip => r.decoded matches Some(decoded) && decoded@
                == r.message@,
            SetupRule::Discriminant => wire.len() >= 9 && wire[0] == 0,
            SetupRule::MinVersion => wire.len() >= 9 ==> le_value(wire.subrange(1, 3))
                == a.min_version,
            SetupRule::MaxVersion => wire.len() >= 9 ==> le_value(wire.subrange(3, 5))
                == a.max_version,
            SetupRule::Flags => wire.len() >= 9 ==> le_value(wire.subrange(5, 9)) == a.flags,
            SetupRule::Symmetric => ok ==> r.version_ab == r.version_ba,
            SetupRule::Overlap => ok ==> (r.version_ab is Some <==> ranges_meet(a, b)),
            SetupRule::Highest => picked ==> version == (if a.max_version < b.max_version {
                a.max_version
            } else {
                b.max_version
            }),
            SetupRule::InsideA => picked ==> a.min_version <= version <= a.max_version,
            SetupRule::InsideB => picked ==> b.min_version <= version <= b.max_version,
            SetupRule::MiningReflexive => r.mining_reflexive,
            SetupRule::JdReflexive => r.jd_reflexive,
            SetupRule::JdBits => r.jd == r.jd_defined,
            SetupRule::MiningBits => r.mining == r.mining_defined,
            SetupRule::MiningIsolation => CHECK_MINING_FLAG_ISOLATION ==> r.mining
                == r.mining_negotiable,
        }
    }
}

/// Judges what was read of protocols and flags.
fn judge_reads(a: &Peer, b: &Peer, run: &SetupRun) -> (r: Result<(), SetupRule>)
    ensures
        decides_between(r, (*a, *b, *run), 0, 12),
{
    let ghost seen = (*a, *b, *run);
    let protocol_a = if a.protocol <= 2 {
        Some(a.protocol)
    } else {
        None
    };
    if run.protocol_a != protocol_a {
        assert(!SetupRule::ProtocolA.holds(seen));
        return Err(SetupRule::ProtocolA);
    }
    let protocol_b = if b.protocol <= 2 {
        Some(b.protocol)
    } else {
        None
    };
    if run.protocol_b != protocol_b {
        assert(!SetupRule::ProtocolB.holds(seen));
        return Err(SetupRule::ProtocolB);
    }
    if run.reads_a.std_job != (a.flags & REQUIRES_STANDARD_JOBS != 0) {
        assert(!SetupRule::StdJobA.holds(seen));
        return Err(SetupRule::StdJobA);
    }
    if run.reads_a.work_selection != (a.flags & REQUIRES_WORK_SELECTION != 0) {
        assert(!SetupRule::WorkSelectionA.holds(seen));
        return Err(SetupRule::WorkSelectionA);
    }
    if run.reads_a.version_rolling != (a.flags & REQUIRES_VERSION_ROLLING != 0) {
        assert(!SetupRule::VersionRollingA.holds(seen));
        return Err(SetupRule::VersionRollingA);
    }
    if run.reads_a.declare_tx_data != (a.flags & JD_ALLOW_FULL_TEMPLATE_MODE != 0) {
        assert(!SetupRule::DeclareTxDataA.holds(seen));
        return Err(SetupRule::DeclareTxDataA);
    }
    if run.reads_b.std_job != (b.flags & REQUIRES_STANDARD_JOBS != 0) {
        assert(!SetupRule::StdJobB.holds(seen));
        return Err(SetupRule::StdJobB);
    }
    if run.reads_b.work_selection != (b.flags & REQUIRES_WORK_SELECTION != 0) {
        assert(!SetupRule::WorkSelectionB.holds(seen));
        return Err(SetupRule::WorkSelectionB);
    }
    if run.reads_b.version_rolling != (b.flags & REQUIRES_VERSION_ROLLING != 0) {
        assert(!SetupRule::VersionRollingB.holds(seen));
        return Err(SetupRule::VersionRollingB);
    }
    if run.reads_b.declare_tx_data != (b.flags & JD_ALLOW_FULL_TEMPLATE_MODE != 0) {
        assert(!SetupRule::DeclareTxDataB.holds(seen));
        return Err(SetupRule::DeclareTxDataB);
    }
    if run.standard_job != (a.flags & REQUIRES_STANDARD_JOBS != 0) {
        assert(!SetupRule::Accessor.holds(seen));
        return Err(SetupRule::Accessor);
    }
    if run.flags_set != a.flags | REQUIRES_STANDARD_JOBS {
        assert(!SetupRule::Setter.holds(seen));
        return Err(SetupRule::Setter);
    }
    Ok(())
}

/// Whether a message was read back as it was written.
fn reads_back(decoded: &DecodedSetup, message: &SetupMessage) -> (r: bool)
    ensures
        r == (decoded@ == message@),
{
    decoded.protocol == message.protocol.number() && decoded.min_version == message.min_version
        && decoded.max_version == message.max_version && decoded.flags == message.flags
        && decoded.port == message.port && same_bytes(
        decoded.host.as_slice(),
        message.host.as_str().as_bytes(),
    ) && same_bytes(decoded.vendor.as_slice(), message.vendor.as_str().as_bytes()) && same_bytes(
        decoded.hardware_version.as_slice(),
        message.hardware_version.as_str().as_bytes(),
    ) && same_bytes(decoded.firmware.as_slice(), message.firmware.as_str().as_bytes())
        && same_bytes(decoded.device_id.as_slice(), message.device_id.as_str().as_bytes())
}

/// Judges the wire format and the negotiated version.
fn judge_negotiation(a: &Peer, b: &Peer, run: &SetupRun) -> (r: Result<(), SetupRule>)
    ensures
        decides_between(r, (*a, *b, *run), 12, 22),
{
    let ghost seen = (*a, *b, *run);
    let back = match &run.decoded {
        Some(decoded) => reads_back(decoded, &run.message),
        None => false,
    };
    if !back {
        assert(!SetupRule::RoundTrip.holds(seen));
        return Err(SetupRule::RoundTrip);
    }
    let wire = run.encoded.as_slice();
    if wire.len() < 9 || wire[0] != 0 {
        assert(!SetupRule::Discriminant.holds(seen));
        return Err(SetupRule::Discriminant);
    }
    if read_le(wire, 1, 2) != a.min_version as u64 {
        assert(!SetupRule::MinVersion.holds(seen));
        return Err(SetupRule::MinVersion);
    }
    if read_le(wire, 3, 2) != a.max_version as u64 {
        assert(!SetupRule::MaxVersion.holds(seen));
        return Err(SetupRule::MaxVersion);
    }
    if read_le(wire, 5, 4) != a.flags as u64 {
        assert(!SetupRule::Flags.holds(seen));
        return Err(SetupRule::Flags);
    }
    if a.min_version <= a.max_version && b.min_version <= b.max_version {
        if run.version_ab != run.version_ba {
            assert(!SetupRule::Symmetric.holds(seen));
            return Err(SetupRule::Symmetric);
        }
        let meet = a.min_version <= b.max_version && b.min_version <= a.max_version;
        if run.version_ab.is_some() != meet {
            assert(!SetupRule::Overlap.holds(seen));
            return Err(SetupRule::Overlap);
        }
        if let Some(version) = run.version_ab {
            let highest: u16 = if a.max_version < b.max_version {
                a.max_version
            } else {
                b.max_version
            };
            if version != highest {
                assert(!SetupRule::Highest.holds(seen));
                return Err(SetupRule::Highest);
            }
            if version < a.min_version || version > a.max_version {
                assert(!SetupRule::InsideA.holds(seen));
                return Err(SetupRule::InsideA);
            }
            if version < b.min_version || version > b.max_version {
                assert(!SetupRule::InsideB.holds(seen));
                return Err(SetupRule::InsideB);
            }
        }
    }
    Ok(())
}

/// Judges what an implementation made of two peers: the first rule that it breaks,
/// if there is one.
pub fn judge_setup(a: &Peer, b: &Peer, run: &SetupRun) -> (r: Result<(), SetupRule>)
    ensures
        decides(r, (*a, *b, *run)),
{
    let ghost seen = (*a, *b, *run);
    match judge_reads(a, b, run) {
        Err(rule) => {
            return Err(rule);
        },
        Ok(()) => {},
    }
    match judge_negotiation(a, b, run) {
        Err(rule) => {
            return Err(rule);
        },
        Ok(()) => {},
    }
    if !run.mining_reflexive {
        assert(!SetupRule::MiningReflexive.holds(seen));
        return Err(SetupRule::MiningReflexive);
    }
    if !run.jd_reflexive {
        assert(!SetupRule::JdReflexive.holds(seen));
        return Err(SetupRule::JdReflexive);
    }
    if run.jd != run.jd_defined {
        assert(!SetupRule::JdBits.holds(seen));
        return Err(SetupRule::JdBits);
    }
    if run.mining != run.mining_defined {
        assert(!SetupRule::MiningBits.holds(seen));
        return Err(SetupRule::MiningBits);
    }
    if CHECK_MINING_FLAG_ISOLATION && run.mining != run.mining_negotiable {
        assert(!SetupRule::MiningIsolation.holds(seen));
        return Err(SetupRule::MiningIsolation);
    }
    Ok(())
}

/// The flags of one side, bit by bit.
pub open spec fn flag_reads(flags: u32) -> FlagReads {
    FlagReads {
        std_job: flags & REQUIRES_STANDARD_JOBS != 0,
        work_selection: flags & REQUIRES_WORK_SELECTION != 0,
        version_rolling: flags & REQUIRES_VERSION_ROLLING != 0,
        declare_tx_data: flags & JD_ALLOW_FULL_TEMPLATE_MODE != 0,
    }
}

/// Reads the flags of one side.
fn read_flags(flags: u32) -> (r: FlagReads)
    ensures
        r == flag_reads(flags),
{
    FlagReads {
        std_job: has_requires_std_job(flags),
        work_selection: has_work_selection(flags),
        version_rolling: has_version_rolling(flags),
        declare_tx_data: has_declare_tx_data(flags),
    }
}

/// The fields of a message are where the wire format puts them.
proof fn lemma_encoding(setup: SetupView)
    ensures
        ({
            let wire = setup.encoding();
            &&& wire.len() >= 9
            &&& wire[0] == setup.protocol
            &&& le_value(wire.subrange(1, 3)) == setup.min_version
            &&& le_value(wire.subrange(3, 5)) == setup.max_version
            &&& le_value(wire.subrange(5, 9)) == setup.flags
        }),
{
    let wire = setup.encoding();
    reveal_with_fuel(span, 5);
    lemma_le_len(setup.min_version as int, 2);
    lemma_le_len(setup.max_version as int, 2);
    lemma_le_len(setup.flags as int, 4);
    lemma_le_len(setup.port as int, 2);
    lemma_le_round_trip(setup.min_version as int, 2);
    lemma_le_round_trip(setup.max_version as int, 2);
    lemma_le_round_trip(setup.flags as int, 4);
    assert(wire.subrange(1, 3) =~= le(setup.min_version as int, 2));
    assert(wire.subrange(3, 5) =~= le(setup.max_version as int, 2));
    assert(wire.subrange(5, 9) =~= le(setup.flags as int, 4));
}

/// `run` is what comes of two peers.
pub open spec fn is_setup_run(a: Peer, b: Peer, run: SetupRun) -> bool {
    &&& introduces(a, Protocol::Mining, run.message)
    &&& run.protocol_a == known_protocol(a.protocol)
    &&& run.protocol_b == known_protocol(b.protocol)
    &&& run.reads_a == flag_reads(a.flags)
    &&& run.reads_b == flag_reads(b.flags)
    &&& run.standard_job == (a.flags & REQUIRES_STANDARD_JOBS != 0)
    &&& run.flags_set == a.flags | REQUIRES_STANDARD_JOBS
    &&& run.encoded@ == run.message@.encoding()
    &&& run.decoded matches Some(decoded) && decoded@ == run.message@
    &&& run.version_ab == negotiated(a.min_version, a.max_version, b.min_version, b.max_version)
    &&& run.version_ba == negotiated(b.min_version, b.max_version, a.min_version, a.max_version)
    &&& run.mining_reflexive == compatible(Protocol::Mining, a.flags, a.flags)
    &&& run.jd_reflexive == compatible(Protocol::JobDeclaration, a.flags, a.flags)
    &&& run.jd == compatible(Protocol::JobDeclaration, a.flags, b.flags)
    &&& run.jd_defined == compatible(
        Protocol::JobDeclaration,
        a.flags & JD_ALLOW_FULL_TEMPLATE_MODE,
        b.flags & JD_ALLOW_FULL_TEMPLATE_MODE,
    )
    &&& run.mining == compatible(Protocol::Mining, a.flags, b.flags)
    &&& run.mining_defined == compatible(
        Protocol::Mining,
        a.flags & MINING_DEFINED_FLAGS,
        b.flags & MINING_DEFINED_FLAGS,
    )
    &&& run.mining_negotiable == compatible(
        Protocol::Mining,
        a.flags & MINING_NEGOTIABLE_FLAGS,
        b.flags & MINING_NEGOTIABLE_FLAGS,
    )
}

/// Runs the implementation on two peers. It breaks no rule.
pub fn observe_setup(a: &Peer, b: &Peer) -> (run: SetupRun)
    ensures
        is_setup_run(*a, *b, run),
        forall|rule: SetupRule| #[trigger] rule.holds((*a, *b, run)),
{
    let message = setup_connection(a, Protocol::Mining);
    let mut sent = to_message(&message);
    let standard_job = sent.requires_standard_job();
    sent.set_requires_standard_job();
    let flags_set: u32 = read_message(&sent).flags;
    let sent = to_message(&message);
    let other = to_message(&setup_connection(b, Protocol::Mining));
    let version_ab = sent.get_version(b.min_version, b.max_version);
    let version_ba = other.get_version(a.min_version, a.max_version);
    let encoded = encode(sent);
    let decoded = match decode(encoded.as_slice()) {
        Some(decoded) => Some(read_message(&decoded)),
        None => None,
    };
    proof {
        lemma_encoding(message@);
        lemma_flags_defined_bits(a.flags, b.flags);
        assert(message@.fits() && message@.protocol <= 2 && encoded@ == message@.encoding());
    }
    SetupRun {
        message,
        protocol_a: protocol_of(a.protocol),
        protocol_b: protocol_of(b.protocol),
        reads_a: read_flags(a.flags),
        reads_b: read_flags(b.flags),
        standard_job,
        flags_set,
        encoded,
        decoded,
        version_ab,
        version_ba,
        mining_reflexive: check_flags(Protocol::Mining, a.flags, a.flags),
        jd_reflexive: check_flags(Protocol::JobDeclaration, a.flags, a.flags),
        jd: check_flags(Protocol::JobDeclaration, a.flags, b.flags),
        jd_defined: check_flags(
            Protocol::JobDeclaration,
            a.flags & JD_ALLOW_FULL_TEMPLATE_MODE,
            b.flags & JD_ALLOW_FULL_TEMPLATE_MODE,
        ),
        mining: check_flags(Protocol::Mining, a.flags, b.flags),
        mining_defined: check_flags(
            Protocol::Mining,
            a.flags & MINING_DEFINED_FLAGS,
            b.flags & MINING_DEFINED_FLAGS,
        ),
        mining_negotiable: check_flags(
            Protocol::Mining,
            a.flags & MINING_NEGOTIABLE_FLAGS,
            b.flags & MINING_NEGOTIABLE_FLAGS,
        ),
    }
}

/// Setting up connections breaks a rule: an error code that is not valid, or one of
/// the rules about two peers.
#[derive(Clone, Copy, Debug)]
pub enum SetupViolation {
    ErrorCode(&'static str),
    Peers(SetupRule),
}

/// Checks how two peers set up a connection. The run comes back with the verdict on it:
/// every error code is valid, and no rule is broken.
pub fn check_setup(a: &Peer, b: &Peer) -> (r: (SetupRun, Result<(), SetupViolation>))
    ensures
        is_setup_run(*a, *b, r.0),
        decides(Ok::<(), SetupRule>(()), (*a, *b, r.0)),
        r.1 == Ok::<(), SetupViolation>(()),
{
    let run = observe_setup(a, b);
    match check_error_codes() {
        Ok(_) => {},
        Err(code) => {
            return (run, Err(SetupViolation::ErrorCode(code)));
        },
    }
    let verdict = match judge_setup(a, b, &run) {
        Ok(()) => Ok(()),
        Err(rule) => Err(SetupViolation::Peers(rule)),
    };
    (run, verdict)
}

/// What is read at a bit is whether the power of two of that bit is in the number.
proof fn lemma_flag_bits(flags: u32)
    ensures
        flags & 1 != 0 <==> flags % 2 == 1,
        flags & 2 != 0 <==> flags / 2 % 2 == 1,
        flags & 4 != 0 <==> flags / 4 % 2 == 1,
        flags | 1 == (if flags % 2 == 1 {
            flags as int
        } else {
            flags + 1
        }),
{
    assert(flags & 1 != 0 <==> flags % 2 == 1) by (bit_vector);
    assert(flags & 2 != 0 <==> flags / 2 % 2 == 1) by (bit_vector);
    assert(flags & 4 != 0 <==> flags / 4 % 2 == 1) by (bit_vector);
    assert(flags % 2 == 1 ==> flags | 1 == flags) by (bit_vector);
    assert(flags % 2 == 0 ==> flags | 1 == flags + 1) by (bit_vector);
}

/// The numbers in the first nine bytes of a message.
proof fn lemma_wire_numbers(wire: Seq<u8>)
    requires
        wire.len() >= 9,
    ensures
        le_value(wire.subrange(1, 3)) == wire[1] + 0x100 * wire[2],
        le_value(wire.subrange(3, 5)) == wire[3] + 0x100 * wire[4],
        le_value(wire.subrange(5, 9)) == wire[5] + 0x100 * wire[6] + 0x1_0000 * wire[7]
            + 0x100_0000 * wire[8],
{
    reveal_with_fuel(le_value, 5);
    let x = wire.subrange(1, 3);
    let y = wire.subrange(3, 5);
    let z = wire.subrange(5, 9);
    assert(x.skip(1)[0] == wire[2]);
    assert(x.skip(1).skip(1) =~= Seq::<u8>::empty());
    assert(y.skip(1)[0] == wire[4]);
    assert(y.skip(1).skip(1) =~= Seq::<u8>::empty());
    assert(z.skip(1)[0] == wire[6]);
    assert(z.skip(1).skip(1)[0] == wire[7]);
    assert(z.skip(1).skip(1).skip(1)[0] == wire[8]);
    assert(z.skip(1).skip(1).skip(1).skip(1) =~= Seq::<u8>::empty());
}

/// What was made of two peers passes exactly if 0, 1 and 2 were found to be protocols, and
/// nothing else; each flag was read at its bit; setting the lowest flag set it and nothing else;
/// the message of the first peer came back field by field; its first nine bytes spell the
/// mining protocol, its versions and its flags; two well-formed ranges of versions were found
/// to have the highest version that lies in both, from either side, and none exactly if none
/// does; and flags are compatible with themselves, and whether they are with others does not
/// depend on bits that are not defined. If not, the verdict names the first of these things that
/// is wrong.
pub proof fn law_setup(a: &Peer, b: &Peer, run: &SetupRun, verdict: Result<(), SetupRule>)
    requires
        call_ensures(judge_setup, (a, b, run), verdict),
    ensures
        verdict is Ok <==> {
            let wire = run.encoded@;
            let back = run.decoded->0;
            &&& run.protocol_a is Some <==> a.protocol <= 2
            &&& run.protocol_b is Some <==> b.protocol <= 2
            &&& run.protocol_a is Some ==> run.protocol_a->0 == a.protocol
            &&& run.protocol_b is Some ==> run.protocol_b->0 == b.protocol
            &&& run.reads_a.std_job <==> a.flags % 2 == 1
            &&& run.reads_a.work_selection <==> a.flags / 2 % 2 == 1
            &&& run.reads_a.version_rolling <==> a.flags / 4 % 2 == 1
            &&& run.reads_a.declare_tx_data <==> a.flags % 2 == 1
            &&& run.reads_b.std_job <==> b.flags % 2 == 1
            &&& run.reads_b.work_selection <==> b.flags / 2 % 2 == 1
            &&& run.reads_b.version_rolling <==> b.flags / 4 % 2 == 1
            &&& run.reads_b.declare_tx_data <==> b.flags % 2 == 1
            &&& run.standard_job <==> a.flags % 2 == 1
            &&& run.flags_set == (if a.flags % 2 == 1 {
                a.flags as int
            } else {
                a.flags + 1
            })
            &&& run.decoded is Some
            &&& back.protocol == (match run.message.protocol {
                Protocol::Mining => 0int,
                Protocol::JobDeclaration => 1,
                Protocol::TemplateDistribution => 2,
            })
            &&& back.min_version == run.message.min_version
            &&& back.max_version == run.message.max_version
            &&& back.flags == run.message.flags
            &&& back.port == run.message.port
            &&& back.host@ == vstd::utf8::encode_utf8(run.message.host@)
            &&& back.vendor@ == vstd::utf8::encode_utf8(run.message.vendor@)
            &&& back.hardware_version@ == vstd::utf8::encode_utf8(run.message.hardware_version@)
            &&& back.firmware@ == vstd::utf8::encode_utf8(run.message.firmware@)
            &&& back.device_id@ == vstd::utf8::encode_utf8(run.message.device_id@)
            &&& wire.len() >= 9
            &&& wire[0] == 0
            &&& wire[1] + 0x100 * wire[2] == a.min_version
            &&& wire[3] + 0x100 * wire[4] == a.max_version
            &&& wire[5] + 0x100 * wire[6] + 0x1_0000 * wire[7] + 0x100_0000 * wire[8] == a.flags
            &&& a.min_version <= a.max_version && b.min_version <= b.max_version ==> {
                &&& run.version_ab == run.version_ba
                &&& run.version_ab is Some <==> exists|v: u16|
                    a.min_version <= v <= a.max_version && #[trigger] supports(
                        b.min_version,
                        b.max_version,
                        v,
                    ) && b.min_version <= v <= b.max_version
                &&& run.version_ab is Some ==> {
                    let version = run.version_ab->0;
                    &&& a.min_version <= version <= a.max_version
                    &&& b.min_version <= version <= b.max_version
                    &&& version == a.max_version || version == b.max_version
                }
            }
            &&& run.mining_reflexive
            &&& run.jd_reflexive
            &&& run.jd == run.jd_defined
            &&& run.mining == run.mining_defined
        },
        verdict matches Err(rule) ==> {
            let wire = run.encoded@;
            let ok = a.min_version <= a.max_version && b.min_version <= b.max_version;
            let picked = ok && run.version_ab is Some;
            let version = run.version_ab->0;
            rule == (if run.protocol_a != (if a.protocol <= 2 {
                Some(a.protocol)
            } else {
                None
            }) {
                SetupRule::ProtocolA
            } else if run.protocol_b != (if b.protocol <= 2 {
                Some(b.protocol)
            } else {
                None
            }) {
                SetupRule::ProtocolB
            } else if run.reads_a.std_job != (a.flags % 2 == 1) {
                SetupRule::StdJobA
            } else if run.reads_a.work_selection != (a.flags / 2 % 2 == 1) {
                SetupRule::WorkSelectionA
            } else if run.reads_a.version_rolling != (a.flags / 4 % 2 == 1) {
                SetupRule::VersionRollingA
            } else if run.reads_a.declare_tx_data != (a.flags % 2 == 1) {
                SetupRule::DeclareTxDataA
            } else if run.reads_b.std_job != (b.flags % 2 == 1) {
                SetupRule::StdJobB
            } else if run.reads_b.work_selection != (b.flags / 2 % 2 == 1) {
                SetupRule::WorkSelectionB
            } else if run.reads_b.version_rolling != (b.flags / 4 % 2 == 1) {
                SetupRule::VersionRollingB
            } else if run.reads_b.declare_tx_data != (b.flags % 2 == 1) {
                SetupRule::DeclareTxDataB
            } else if run.standard_job != (a.flags % 2 == 1) {
                SetupRule::Accessor
            } else if run.flags_set != (if a.flags % 2 == 1 {
                a.flags as int
            } else {
                a.flags + 1
            }) {
                SetupRule::Setter
            } else if run.decoded is None || run.decoded->0@ != run.message@ {
                SetupRule::RoundTrip
            } else if wire.len() < 9 || wire[0] != 0 {
                SetupRule::Discriminant
            } else if wire[1] + 0x100 * wire[2] != a.min_version {
                SetupRule::MinVersion
            } else if wire[3] + 0x100 * wire[4] != a.max_version {
                SetupRule::MaxVersion
            } else if wire[5] + 0x100 * wire[6] + 0x1_0000 * wire[7] + 0x100_0000 * wire[8] != a.flags {
                SetupRule::Flags
            } else if ok && run.version_ab != run.version_ba {
                SetupRule::Symmetric
            } else if ok && (run.version_ab is Some) != (a.min_version <= b.max_version && b.min_version
                <= a.max_version) {
                SetupRule::Overlap
            } else if picked && !(version <= a.max_version && version <= b.max_version && (version
                == a.max_version || version == b.max_version)) {
                SetupRule::Highest
            } else if picked && !(a.min_version <= version <= a.max_version) {
                SetupRule::InsideA
            } else if picked && !(b.min_version <= version <= b.max_version) {
                SetupRule::InsideB
            } else if !run.mining_reflexive {
                SetupRule::MiningReflexive
            } else if !run.jd_reflexive {
                SetupRule::JdReflexive
            } else if run.jd != run.jd_defined {
                SetupRule::JdBits
            } else {
                SetupRule::MiningBits
            })
        },
{
    lemma_flag_bits(a.flags);
    lemma_flag_bits(b.flags);
    if run.encoded@.len() >= 9 {
        lemma_wire_numbers(run.encoded@);
    }
    if ranges_meet(*a, *b) {
        let top = if a.max_version < b.max_version {
            a.max_version
        } else {
            b.max_version
        };
        assert(supports(b.min_version, b.max_version, top) || !ranges_ok(*a, *b));
    }
    if verdict is Ok {
        assert(SetupRule::ProtocolA.holds((*a, *b, *run)));
        assert(SetupRule::ProtocolB.holds((*a, *b, *run)));
        assert(SetupRule::StdJobA.holds((*a, *b, *run)));
        assert(SetupRule::WorkSelectionA.holds((*a, *b, *run)));
        assert(SetupRule::VersionRollingA.holds((*a, *b, *run)));
        assert(SetupRule::DeclareTxDataA.holds((*a, *b, *run)));
        assert(SetupRule::StdJobB.holds((*a, *b, *run)));
        assert(SetupRule::WorkSelectionB.holds((*a, *b, *run)));
        assert(SetupRule::VersionRollingB.holds((*a, *b, *run)));
        assert(SetupRule::DeclareTxDataB.holds((*a, *b, *run)));
        assert(SetupRule::Accessor.holds((*a, *b, *run)));
        assert(SetupRule::Setter.holds((*a, *b, *run)));
        assert(SetupRule::RoundTrip.holds((*a, *b, *run)));
        assert(SetupRule::Discriminant.holds((*a, *b, *run)));
        assert(SetupRule::MinVersion.holds((*a, *b, *run)));
        assert(SetupRule::MaxVersion.holds((*a, *b, *run)));
        assert(SetupRule::Flags.holds((*a, *b, *run)));
        assert(SetupRule::Symmetric.holds((*a, *b, *run)));
        assert(SetupRule::Overlap.holds((*a, *b, *run)));
        assert(SetupRule::Highest.holds((*a, *b, *run)));
        assert(SetupRule::InsideA.holds((*a, *b, *run)));
        assert(SetupRule::InsideB.holds((*a, *b, *run)));
        assert(SetupRule::MiningReflexive.holds((*a, *b, *run)));
        assert(SetupRule::JdReflexive.holds((*a, *b, *run)));
        assert(SetupRule::JdBits.holds((*a, *b, *run)));
        assert(SetupRule::MiningBits.holds((*a, *b, *run)));
        assert(SetupRule::MiningIsolation.holds((*a, *b, *run)));
    }
    if let Err(broken) = verdict {
        if SetupRule::ProtocolA.rank() < broken.rank() {
            assert(SetupRule::ProtocolA.holds((*a, *b, *run)));
        }
        if SetupRule::ProtocolB.rank() < broken.rank() {
            assert(SetupRule::ProtocolB.holds((*a, *b, *run)));
        }
        if SetupRule::StdJobA.rank() < broken.rank() {
            assert(SetupRule::StdJobA.holds((*a, *b, *run)));
        }
        if SetupRule::WorkSelectionA.rank() < broken.rank() {
            assert(SetupRule::WorkSelectionA.holds((*a, *b, *run)));
        }
        if SetupRule::VersionRollingA.rank() < broken.rank() {
            assert(SetupRule::VersionRollingA.holds((*a, *b, *run)));
        }
        if SetupRule::DeclareTxDataA.rank() < broken.rank() {
            assert(SetupRule::DeclareTxDataA.holds((*a, *b, *run)));
        }
        if SetupRule::StdJobB.rank() < broken.rank() {
            assert(SetupRule::StdJobB.holds((*a, *b, *run)));
        }
        if SetupRule::WorkSelectionB.rank() < broken.rank() {
            assert(SetupRule::WorkSelectionB.holds((*a, *b, *run)));
        }
        if SetupRule::VersionRollingB.rank() < broken.rank() {
            assert(SetupRule::VersionRollingB.holds((*a, *b, *run)));
        }
        if SetupRule::DeclareTxDataB.rank() < broken.rank() {
            assert(SetupRule::DeclareTxDataB.holds((*a, *b, *run)));
        }
        if SetupRule::Accessor.rank() < broken.rank() {
            assert(SetupRule::Accessor.holds((*a, *b, *run)));
        }
        if SetupRule::Setter.rank() < broken.rank() {
            assert(SetupRule::Setter.holds((*a, *b, *run)));
        }
        if SetupRule::RoundTrip.rank() < broken.rank() {
            assert(SetupRule::RoundTrip.holds((*a, *b, *run)));
        }
        if SetupRule::Discriminant.rank() < broken.rank() {
            assert(SetupRule::Discriminant.holds((*a, *b, *run)));
        }
        if SetupRule::MinVersion.rank() < broken.rank() {
            assert(SetupRule::MinVersion.holds((*a, *b, *run)));
        }
        if SetupRule::MaxVersion.rank() < broken.rank() {
            assert(SetupRule::MaxVersion.holds((*a, *b, *run)));
        }
        if SetupRule::Flags.rank() < broken.rank() {
            assert(SetupRule::Flags.holds((*a, *b, *run)));
        }
        if SetupRule::Symmetric.rank() < broken.rank() {
            assert(SetupRule::Symmetric.holds((*a, *b, *run)));
        }
        if SetupRule::Overlap.rank() < broken.rank() {
            assert(SetupRule::Overlap.holds((*a, *b, *run)));
        }
        if SetupRule::Highest.rank() < broken.rank() {
            assert(SetupRule::Highest.holds((*a, *b, *run)));
        }
        if SetupRule::InsideA.rank() < broken.rank() {
            assert(SetupRule::InsideA.holds((*a, *b, *run)));
        }
        if SetupRule::InsideB.rank() < broken.rank() {
            assert(SetupRule::InsideB.holds((*a, *b, *run)));
        }
        if SetupRule::MiningReflexive.rank() < broken.rank() {
            assert(SetupRule::MiningReflexive.holds((*a, *b, *run)));
        }
        if SetupRule::JdReflexive.rank() < broken.rank() {
            assert(SetupRule::JdReflexive.holds((*a, *b, *run)));
        }
        if SetupRule::JdBits.rank() < broken.rank() {
            assert(SetupRule::JdBits.holds((*a, *b, *run)));
        }
        if SetupRule::MiningBits.rank() < broken.rank() {
            assert(SetupRule::MiningBits.holds((*a, *b, *run)));
        }
    }
}

/// A string that fits a field is left as it is. Any other is cut to at most 255 bytes, at a
/// character boundary, and not at an earlier one than need be.
pub proof fn law_str0255(s: &str, r: &str, boundary: int)
    requires
        call_ensures(str0255, (s,), r),
    ensures
        s.spec_bytes().len() <= 255 ==> r.spec_bytes() == s.spec_bytes(),
        r.spec_bytes().len() <= 255,
        r.spec_bytes().is_prefix_of(s.spec_bytes()),
        is_char_boundary(s.spec_bytes(), r.spec_bytes().len() as int),
        0 <= boundary <= s.spec_bytes().len() && boundary <= 255 && is_char_boundary(
            s.spec_bytes(),
            boundary,
        ) ==> boundary <= r.spec_bytes().len(),
{
    let bytes = s.spec_bytes();
    vstd::utf8::encode_utf8_valid_utf8(s@);
    vstd::utf8::is_char_boundary_start_end_of_seq(bytes);
    let end = choose|end: int| #[trigger] cut_at(bytes, end) && r.spec_bytes() == bytes.take(end);
    assert(bytes.subrange(0, end) =~= bytes.take(end));
    if bytes.len() <= 255 {
        assert(end == bytes.len());
        assert(bytes.take(end) =~= bytes);
    }
}

/// The message of a peer names the protocol that it is for, and the versions, flags and port of
/// the peer; it begins its host and vendor as the peer does, and in full if they fit; and it
/// leaves the rest empty.
pub proof fn law_setup_connection(peer: &Peer, protocol: Protocol, r: SetupMessage)
    requires
        call_ensures(setup_connection, (peer, protocol), r),
    ensures
        r.protocol == protocol,
        r.min_version == peer.min_version,
        r.max_version == peer.max_version,
        r.flags == peer.flags,
        r.port == peer.endpoint_port,
        ({
            let host = vstd::utf8::encode_utf8(peer.endpoint_host@);
            let vendor = vstd::utf8::encode_utf8(peer.vendor@);
            &&& vstd::utf8::encode_utf8(r.host@).is_prefix_of(host)
            &&& vstd::utf8::encode_utf8(r.host@).len() <= 255
            &&& host.len() <= 255 ==> vstd::utf8::encode_utf8(r.host@) == host
            &&& vstd::utf8::encode_utf8(r.vendor@).is_prefix_of(vendor)
            &&& vstd::utf8::encode_utf8(r.vendor@).len() <= 255
            &&& vendor.len() <= 255 ==> vstd::utf8::encode_utf8(r.vendor@) == vendor
        }),
        vstd::utf8::encode_utf8(r.hardware_version@).len() == 0,
        vstd::utf8::encode_utf8(r.firmware@).len() == 0,
        vstd::utf8::encode_utf8(r.device_id@).len() == 0,
{
    lemma_is_cut(peer.endpoint_host@, r@.host);
    lemma_is_cut(peer.vendor@, r@.vendor);
}

/// What is cut to fit a field is a beginning of it, and all of it if that fits.
proof fn lemma_is_cut(text: Seq<char>, bytes: Seq<u8>)
    requires
        is_cut(text, bytes),
    ensures
        bytes.is_prefix_of(vstd::utf8::encode_utf8(text)),
        bytes.len() <= 255,
        vstd::utf8::encode_utf8(text).len() <= 255 ==> bytes == vstd::utf8::encode_utf8(text),
{
    let whole = vstd::utf8::encode_utf8(text);
    vstd::utf8::encode_utf8_valid_utf8(text);
    vstd::utf8::is_char_boundary_start_end_of_seq(whole);
    let end = choose|end: int| #[trigger] cut_at(whole, end) && bytes == whole.take(end);
    assert(whole.subrange(0, end) =~= whole.take(end));
    if whole.len() <= 255 {
        assert(end == whole.len());
        assert(whole.take(end) =~= whole);
    }
}

/// Setting up a connection passes, whoever the peers are. The wire format begins with the
/// mining protocol, the versions and the flags of the first, and two well-formed ranges of
/// versions settle on the highest that lies in both, from either side, or on none if there is
/// none.
pub proof fn law_check_setup(
    a: &Peer,
    b: &Peer,
    w: u16,
    r: (SetupRun, Result<(), SetupViolation>),
)
    requires
        call_ensures(check_setup, (a, b), r),
    ensures
        r.1 is Ok,
        ({
            let wire = r.0.encoded@;
            &&& wire.len() >= 9
            &&& wire[0] == 0
            &&& wire[1] + 0x100 * wire[2] == a.min_version
            &&& wire[3] + 0x100 * wire[4] == a.max_version
            &&& wire[5] + 0x100 * wire[6] + 0x1_0000 * wire[7] + 0x100_0000 * wire[8] == a.flags
        }),
        r.0.decoded is Some,
        r.0.decoded->0@ == r.0.message@,
        r.0.message.flags == a.flags,
        r.0.protocol_a is Some <==> a.protocol <= 2,
        r.0.protocol_b is Some <==> b.protocol <= 2,
        r.0.reads_a.std_job <==> a.flags % 2 == 1,
        r.0.reads_a.work_selection <==> a.flags / 2 % 2 == 1,
        r.0.reads_a.version_rolling <==> a.flags / 4 % 2 == 1,
        a.min_version <= a.max_version && b.min_version <= b.max_version ==> {
            &&& r.0.version_ab == r.0.version_ba
            &&& r.0.version_ab matches Some(v) ==> {
                &&& a.min_version <= v <= a.max_version
                &&& b.min_version <= v <= b.max_version
                &&& a.min_version <= w <= a.max_version && b.min_version <= w <= b.max_version ==> w
                    <= v
            }
            &&& r.0.version_ab is None ==> !(a.min_version <= w <= a.max_version && b.min_version
                <= w <= b.max_version)
        },
{
    let seen = (*a, *b, r.0);
    lemma_flag_bits(a.flags);
    assert(SetupRule::Discriminant.holds(seen));
    assert(SetupRule::MinVersion.holds(seen));
    assert(SetupRule::MaxVersion.holds(seen));
    assert(SetupRule::Flags.holds(seen));
    assert(SetupRule::RoundTrip.holds(seen));
    lemma_wire_numbers(r.0.encoded@);
}

/// The protocols are numbered from zero, and no two have the same number.
pub proof fn law_number(a: &Protocol, b: &Protocol, m: u8, n: u8)
    requires
        call_ensures(Protocol::number, (a,), m),
        call_ensures(Protocol::number, (b,), n),
    ensures
        m <= 2,
        m == n <==> *a == *b,
        m == 0 <==> *a is Mining,
        m == 1 <==> *a is JobDeclaration,
        m == 2 <==> *a is TemplateDistribution,
{
}

} // verus!
