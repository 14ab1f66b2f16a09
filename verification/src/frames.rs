//! Frames: a six-byte header and the payload that it announces.

use crate::bytes::read_le;
#[allow(unused_imports)]
use crate::bytes::{le, le_value, lemma_le_len, lemma_le_round_trip, lemma_le_value_bound, span};
#[allow(unused_imports)]
use crate::rules::{decides, Rule};
use framing_sv2::framing::SerializedFrame;
use framing_sv2::header::Header;
use vstd::prelude::*;

verus! {

/// The length of a frame header: extension type, message type, payload length.
pub const HEADER_LEN: usize = 6;

/// The largest payload length that a header can announce.
pub const MAX_PAYLOAD_LEN: usize = 0xff_ffff;

/// The weight of the `channel_msg` bit in the extension type.
pub const CHANNEL_MSG: u16 = 0x8000;

/// The frame with the given extension type, message type and payload.
pub open spec fn frame(ext_type: u16, msg_type: u8, payload: Seq<u8>) -> Seq<u8> {
    le(ext_type as int, 2) + seq![msg_type] + le(payload.len() as int, 3) + payload
}

/// The extension type on the wire.
pub open spec fn wire_ext_type(data: Seq<u8>) -> int {
    le_value(data.subrange(0, 2))
}

/// The payload length that the header announces.
pub open spec fn wire_len(data: Seq<u8>) -> int {
    le_value(data.subrange(3, 6))
}

/// `data` is one whole frame and nothing more.
pub open spec fn is_frame(data: Seq<u8>) -> bool {
    data.len() >= HEADER_LEN && data.len() == HEADER_LEN + wire_len(data)
}

/// An extension type with the `channel_msg` bit set or cleared.
pub open spec fn with_channel_bit(ext_type: u16, channel_bit: bool) -> u16 {
    (ext_type % CHANNEL_MSG + if channel_bit {
        CHANNEL_MSG as int
    } else {
        0
    }) as u16
}

/// The fields of a header are where the layout puts them, and a frame of at most
/// the largest payload length is one frame.
pub proof fn lemma_frame_layout(ext_type: u16, msg_type: u8, payload: Seq<u8>)
    requires
        payload.len() <= MAX_PAYLOAD_LEN,
    ensures
        ({
            let data = frame(ext_type, msg_type, payload);
            &&& data.len() == HEADER_LEN + payload.len()
            &&& is_frame(data)
            &&& wire_ext_type(data) == ext_type
            &&& data[2] == msg_type
            &&& wire_len(data) == payload.len()
            &&& data.skip(HEADER_LEN as int) == payload
        }),
{
    let data = frame(ext_type, msg_type, payload);
    reveal_with_fuel(span, 4);
    lemma_le_len(ext_type as int, 2);
    lemma_le_len(payload.len() as int, 3);
    lemma_le_round_trip(ext_type as int, 2);
    lemma_le_round_trip(payload.len() as int, 3);
    assert(data.subrange(0, 2) =~= le(ext_type as int, 2));
    assert(data.subrange(3, 6) =~= le(payload.len() as int, 3));
    assert(data.skip(6) =~= payload);
}

/// Every frame is the frame of the fields that its header spells and of what
/// follows the header.
pub proof fn lemma_frame_of_fields(data: Seq<u8>)
    requires
        is_frame(data),
    ensures
        0 <= wire_ext_type(data) <= u16::MAX,
        data == frame(wire_ext_type(data) as u16, data[2], data.skip(HEADER_LEN as int)),
{
    reveal_with_fuel(span, 4);
    lemma_le_value_bound(data.subrange(0, 2));
    crate::bytes::lemma_le_bytes_of_value(data.subrange(0, 2));
    crate::bytes::lemma_le_bytes_of_value(data.subrange(3, 6));
    assert(data =~= frame(wire_ext_type(data) as u16, data[2], data.skip(HEADER_LEN as int)));
}

/// A header cannot announce more than three bytes can spell.
pub proof fn lemma_frame_is_short(data: Seq<u8>)
    requires
        is_frame(data),
    ensures
        data.len() <= HEADER_LEN + MAX_PAYLOAD_LEN <= usize::MAX / 2,
{
    reveal_with_fuel(span, 4);
    lemma_le_value_bound(data.subrange(3, 6));
}

/// The fields of a header, as the implementation reads them.
#[derive(Clone, Copy, Debug, PartialEq, Eq, Structural)]
pub struct HeaderFields {
    pub ext_type: u16,
    pub msg_type: u8,
    pub channel_msg: bool,
    /// The extension type without the `channel_msg` bit.
    pub plain_ext_type: u16,
}

/// How some bytes relate to the frame that they begin with.
#[derive(Clone, Copy, Debug, PartialEq, Eq, Structural)]
pub enum SizeHint {
    /// They are the frame.
    Exact,
    /// That many bytes are still to come.
    Missing(usize),
    /// That many bytes follow the frame.
    Surplus(usize),
}

/// The fields of the header that `data` begins with.
pub open spec fn header_fields(data: Seq<u8>) -> HeaderFields {
    HeaderFields {
        ext_type: wire_ext_type(data) as u16,
        msg_type: data[2],
        channel_msg: wire_ext_type(data) >= CHANNEL_MSG,
        plain_ext_type: (wire_ext_type(data) % CHANNEL_MSG as int) as u16,
    }
}

/// The fields of the header that `data` begins with, if there are enough bytes for one.
pub open spec fn read_header(data: Seq<u8>) -> Option<HeaderFields> {
    if data.len() < HEADER_LEN {
        None
    } else {
        Some(header_fields(data))
    }
}

/// How the number of bytes compares with the length of the frame that they begin: for part
/// of a header, the rest of it is missing.
pub open spec fn compared(data: Seq<u8>) -> SizeHint {
    if data.len() < HEADER_LEN {
        SizeHint::Missing((HEADER_LEN - data.len()) as usize)
    } else if data.len() < HEADER_LEN + wire_len(data) {
        SizeHint::Missing((HEADER_LEN + wire_len(data) - data.len()) as usize)
    } else if data.len() == HEADER_LEN + wire_len(data) {
        SizeHint::Exact
    } else {
        SizeHint::Surplus((data.len() - HEADER_LEN - wire_len(data)) as usize)
    }
}

/// Calls `Header::from_bytes` of `framing_sv2` and reads the header that it
/// returns: a little-endian extension type whose top bit is `channel_msg`, and the
/// message type behind it. Fewer than six bytes hold no header.
#[verifier::external_body]
pub(crate) fn header_from_bytes(data: &[u8]) -> (r: Option<HeaderFields>)
    ensures
        r == read_header(data@),
{
    match Header::from_bytes(data) {
        Ok(header) => Some(HeaderFields {
            ext_type: header.ext_type(),
            msg_type: header.msg_type(),
            channel_msg: header.channel_msg(),
            plain_ext_type: header.ext_type_without_channel_msg(),
        }),
        Err(_) => None,
    }
}

/// Calls `SerializedFrame::parse_header` of `framing_sv2`, which compares the
/// number of bytes with the length of the frame that they begin with, and asks for
/// the rest of the header if that is not there yet.
#[verifier::external_body]
pub(crate) fn size_hint(data: &[u8]) -> (r: SizeHint)
    ensures
        r == compared(data@),
{
    match SerializedFrame::<Vec<u8>>::parse_header(data) {
        Ok(_) => SizeHint::Exact,
        Err(framing_sv2::framing::SizeHint::Missing(n)) => SizeHint::Missing(n),
        Err(framing_sv2::framing::SizeHint::Surplus(n)) => SizeHint::Surplus(n),
    }
}

/// A frame as the implementation takes it apart.
pub struct FrameParts {
    pub encoded_len: usize,
    pub payload: Vec<u8>,
}

/// Calls `SerializedFrame::from_bytes` of `framing_sv2`, which accepts exactly the
/// bytes of one whole frame, and reads the length and the payload of the frame.
#[verifier::external_body]
pub(crate) fn frame_from_bytes(data: &[u8]) -> (r: Option<FrameParts>)
    ensures
        match r {
            Some(parts) => {
                &&& is_frame(data@)
                &&& parts.encoded_len == data@.len()
                &&& parts.payload@ == data@.skip(HEADER_LEN as int)
            },
            None => !is_frame(data@),
        },
{
    match SerializedFrame::from_bytes(data.to_vec()) {
        Ok(mut frame) => Some(FrameParts {
            encoded_len: frame.encoded_length(),
            payload: frame.payload().to_vec(),
        }),
        Err(_) => None,
    }
}

/// What the implementation made of some bytes.
pub struct HeaderRun {
    pub header: Option<HeaderFields>,
    pub hint: SizeHint,
}

/// What must hold of headers, in the order of checking.
#[derive(Clone, Copy, Debug, PartialEq, Eq, Structural)]
pub enum HeaderRule {
    /// Fewer than six bytes hold no header.
    ShortHeader,
    /// For part of a header, the hint asks for the rest of it.
    ShortHint,
    /// Six or more bytes always hold a header.
    Header,
    /// The extension type is the first two bytes, the lower one first.
    ExtType,
    /// The message type is the third byte.
    MsgType,
    /// `channel_msg` is the top bit of the extension type.
    ChannelMsg,
    /// The extension is looked up without the `channel_msg` bit.
    PlainExtType,
    /// The hint agrees with the announced length.
    Hint,
}

impl Rule for HeaderRule {
    type Run = (Seq<u8>, HeaderRun);

    open spec fn rank(self) -> int {
        match self {
            HeaderRule::ShortHeader => 0,
            HeaderRule::ShortHint => 1,
            HeaderRule::Header => 2,
            HeaderRule::ExtType => 3,
            HeaderRule::MsgType => 4,
            HeaderRule::ChannelMsg => 5,
            HeaderRule::PlainExtType => 6,
            HeaderRule::Hint => 7,
        }
    }

    open spec fn holds(self, run: (Seq<u8>, HeaderRun)) -> bool {
        let data = run.0;
        let short = data.len() < HEADER_LEN;
        let header = run.1.header;
        let read = !short && header is Some;
        match self {
            HeaderRule::ShortHeader => short ==> header is None,
            HeaderRule::ShortHint => short ==> run.1.hint == SizeHint::Missing(
                (HEADER_LEN - data.len()) as usize,
            ),
            HeaderRule::Header => !short ==> header is Some,
            HeaderRule::ExtType => read ==> header->0.ext_type == wire_ext_type(data),
            HeaderRule::MsgType => read ==> header->0.msg_type == data[2],
            HeaderRule::ChannelMsg => read ==> header->0.channel_msg == (wire_ext_type(data)
                >= CHANNEL_MSG),
            HeaderRule::PlainExtType => read ==> header->0.plain_ext_type == wire_ext_type(data)
                % CHANNEL_MSG as int,
            HeaderRule::Hint => !short ==> match run.1.hint {
                SizeHint::Exact => data.len() == HEADER_LEN + wire_len(data),
                SizeHint::Missing(missing) => data.len() + missing == HEADER_LEN + wire_len(data),
                SizeHint::Surplus(surplus) => data.len() - surplus == HEADER_LEN + wire_len(data),
            },
        }
    }
}

/// Judges what an implementation made of some bytes: the first rule that it
/// breaks, if there is one.
pub fn judge_header(data: &[u8], run: &HeaderRun) -> (r: Result<(), HeaderRule>)
    ensures
        decides(r, (data@, *run)),
{
    if data.len() < HEADER_LEN {
        if run.header.is_some() {
            assert(!HeaderRule::ShortHeader.holds((data@, *run)));
            return Err(HeaderRule::ShortHeader);
        }
        if run.hint != SizeHint::Missing(HEADER_LEN - data.len()) {
            assert(!HeaderRule::ShortHint.holds((data@, *run)));
            return Err(HeaderRule::ShortHint);
        }
        return Ok(());
    }
    proof {
        reveal_with_fuel(span, 4);
        lemma_le_value_bound(data@.subrange(0, 2));
        lemma_le_value_bound(data@.subrange(3, 6));
    }
    let ext_type: u64 = read_le(data, 0, 2);
    let len: u64 = read_le(data, 3, 3);
    let header = match &run.header {
        Some(header) => header,
        None => {
            assert(!HeaderRule::Header.holds((data@, *run)));
            return Err(HeaderRule::Header);
        },
    };
    if header.ext_type as u64 != ext_type {
        assert(!HeaderRule::ExtType.holds((data@, *run)));
        return Err(HeaderRule::ExtType);
    }
    if header.msg_type != data[2] {
        assert(!HeaderRule::MsgType.holds((data@, *run)));
        return Err(HeaderRule::MsgType);
    }
    if header.channel_msg != (ext_type >= CHANNEL_MSG as u64) {
        assert(!HeaderRule::ChannelMsg.holds((data@, *run)));
        return Err(HeaderRule::ChannelMsg);
    }
    if header.plain_ext_type as u64 != ext_type % CHANNEL_MSG as u64 {
        assert(!HeaderRule::PlainExtType.holds((data@, *run)));
        return Err(HeaderRule::PlainExtType);
    }
    let total: usize = HEADER_LEN + len as usize;
    let agrees = match run.hint {
        SizeHint::Exact => data.len() == total,
        SizeHint::Missing(missing) => data.len() <= total && total - data.len() == missing,
        SizeHint::Surplus(surplus) => surplus <= data.len() && data.len() - surplus == total,
    };
    if !agrees {
        assert(!HeaderRule::Hint.holds((data@, *run)));
        return Err(HeaderRule::Hint);
    }
    Ok(())
}

/// Reads a header with the implementation. It breaks no rule.
pub fn observe_header(data: &[u8]) -> (run: HeaderRun)
    ensures
        run == (HeaderRun { header: read_header(data@), hint: compared(data@) }),
        forall|rule: HeaderRule| #[trigger] rule.holds((data@, run)),
{
    proof {
        if data@.len() >= HEADER_LEN {
            reveal_with_fuel(span, 4);
            lemma_le_value_bound(data@.subrange(0, 2));
            lemma_le_value_bound(data@.subrange(3, 6));
        }
    }
    let run = HeaderRun { header: header_from_bytes(data), hint: size_hint(data) };
    proof {
        assert(data.len() == data@.len());
        assert forall|rule: HeaderRule| #[trigger] rule.holds((data@, run)) by {}
    }
    run
}

/// Checks how the implementation reads a header. The run comes back with the verdict on
/// it: it breaks no rule.
pub fn check_header_layout(data: &[u8]) -> (r: (HeaderRun, Result<(), HeaderRule>))
    ensures
        r.0 == (HeaderRun { header: read_header(data@), hint: compared(data@) }),
        decides(r.1, (data@, r.0)),
        r.1 == Ok::<(), HeaderRule>(()),
{
    let run = observe_header(data);
    match judge_header(data, &run) {
        Ok(()) => (run, Ok(())),
        Err(rule) => (run, Err(rule)),
    }
}

/// The number that two or three bytes spell.
pub(crate) proof fn lemma_short_numbers(data: Seq<u8>)
    requires
        data.len() >= 6,
    ensures
        wire_ext_type(data) == data[0] + 0x100 * data[1],
        wire_len(data) == data[3] + 0x100 * data[4] + 0x1_0000 * data[5],
{
    reveal_with_fuel(le_value, 4);
    let e = data.subrange(0, 2);
    let l = data.subrange(3, 6);
    assert(e.skip(1).skip(1) =~= Seq::<u8>::empty());
    assert(e.skip(1)[0] == data[1]);
    assert(l.skip(1)[0] == data[4]);
    assert(l.skip(1).skip(1)[0] == data[5]);
    assert(l.skip(1).skip(1).skip(1) =~= Seq::<u8>::empty());
}

/// What was made of some bytes passes exactly if fewer than six hold no header and ask for the
/// rest of one, and if six or more hold one: the first two bytes spell the extension type,
/// whose highest bit is the channel bit, the third is the message type, the next three spell
/// the length of the payload, all least significant byte first, and the hint is by how much
/// the bytes fall short of the frame or exceed it. If not, the verdict names the first of these
/// things that is wrong.
pub proof fn law_header(data: &[u8], run: &HeaderRun, verdict: Result<(), HeaderRule>)
    requires
        call_ensures(judge_header, (data, run), verdict),
    ensures
        data@.len() < 6 ==> (verdict is Ok <==> run.header is None && run.hint
            == SizeHint::Missing((6 - data@.len()) as usize)),
        data@.len() >= 6 ==> (verdict is Ok <==> {
            let header = run.header->0;
            let whole = 6 + data@[3] + 0x100 * data@[4] + 0x1_0000 * data@[5];
            &&& run.header is Some
            &&& header.ext_type == data@[0] + 0x100 * data@[1]
            &&& header.msg_type == data@[2]
            &&& header.channel_msg <==> data@[1] >= 0x80
            &&& header.plain_ext_type == data@[0] + 0x100 * (data@[1] % 0x80)
            &&& match run.hint {
                SizeHint::Exact => data@.len() == whole,
                SizeHint::Missing(missing) => data@.len() + missing == whole,
                SizeHint::Surplus(surplus) => whole + surplus == data@.len(),
            }
        }),
        verdict matches Err(rule) ==> {
            let header = run.header->0;
            rule == (if data@.len() < 6 && run.header is Some {
                HeaderRule::ShortHeader
            } else if data@.len() < 6 {
                HeaderRule::ShortHint
            } else if run.header is None {
                HeaderRule::Header
            } else if header.ext_type != data@[0] + 0x100 * data@[1] {
                HeaderRule::ExtType
            } else if header.msg_type != data@[2] {
                HeaderRule::MsgType
            } else if header.channel_msg != (data@[1] >= 0x80) {
                HeaderRule::ChannelMsg
            } else if header.plain_ext_type != data@[0] + 0x100 * (data@[1] % 0x80) {
                HeaderRule::PlainExtType
            } else {
                HeaderRule::Hint
            })
        },
{
    if data@.len() >= 6 {
        lemma_short_numbers(data@);
    }
    if verdict is Ok {
        assert(HeaderRule::ShortHeader.holds((data@, *run)));
        assert(HeaderRule::ShortHint.holds((data@, *run)));
        assert(HeaderRule::Header.holds((data@, *run)));
        assert(HeaderRule::ExtType.holds((data@, *run)));
        assert(HeaderRule::MsgType.holds((data@, *run)));
        assert(HeaderRule::ChannelMsg.holds((data@, *run)));
        assert(HeaderRule::PlainExtType.holds((data@, *run)));
        assert(HeaderRule::Hint.holds((data@, *run)));
    }
    if let Err(broken) = verdict {
        if HeaderRule::ShortHeader.rank() < broken.rank() {
            assert(HeaderRule::ShortHeader.holds((data@, *run)));
        }
        if HeaderRule::ShortHint.rank() < broken.rank() {
            assert(HeaderRule::ShortHint.holds((data@, *run)));
        }
        if HeaderRule::Header.rank() < broken.rank() {
            assert(HeaderRule::Header.holds((data@, *run)));
        }
        if HeaderRule::ExtType.rank() < broken.rank() {
            assert(HeaderRule::ExtType.holds((data@, *run)));
        }
        if HeaderRule::MsgType.rank() < broken.rank() {
            assert(HeaderRule::MsgType.holds((data@, *run)));
        }
        if HeaderRule::ChannelMsg.rank() < broken.rank() {
            assert(HeaderRule::ChannelMsg.holds((data@, *run)));
        }
        if HeaderRule::PlainExtType.rank() < broken.rank() {
            assert(HeaderRule::PlainExtType.holds((data@, *run)));
        }
    }
}

/// The implementation reads every header as the layout says, and passes.
pub proof fn law_check_header(data: &[u8], r: (HeaderRun, Result<(), HeaderRule>))
    requires
        call_ensures(check_header_layout, (data,), r),
    ensures
        r.1 is Ok,
        r.0.header is Some <==> data@.len() >= 6,
        data@.len() < 6 ==> r.0.hint == SizeHint::Missing((6 - data@.len()) as usize),
        data@.len() >= 6 ==> {
            let header = r.0.header->0;
            let whole = 6 + data@[3] + 0x100 * data@[4] + 0x1_0000 * data@[5];
            &&& header.ext_type == data@[0] + 0x100 * data@[1]
            &&& header.msg_type == data@[2]
            &&& header.channel_msg <==> data@[1] >= 0x80
            &&& header.plain_ext_type == data@[0] + 0x100 * (data@[1] % 0x80)
            &&& data@.len() == whole ==> r.0.hint == SizeHint::Exact
            &&& data@.len() < whole ==> r.0.hint == SizeHint::Missing(
                (whole - data@.len()) as usize,
            )
            &&& data@.len() > whole ==> r.0.hint == SizeHint::Surplus(
                (data@.len() - whole) as usize,
            )
        },
{
    if data@.len() >= 6 {
        lemma_short_numbers(data@);
    }
}

/// A frame is its header, with both types and the length of the payload least significant byte
/// first, and the payload; and bytes are one whole frame exactly if the header announces as many
/// bytes as follow it.
pub proof fn law_frame(ext_type: u16, msg_type: u8, payload: Seq<u8>, data: Seq<u8>)
    requires
        payload.len() <= 0xff_ffff,
    ensures
        frame(ext_type, msg_type, payload).len() == 6 + payload.len(),
        frame(ext_type, msg_type, payload)[0] == ext_type % 0x100,
        frame(ext_type, msg_type, payload)[1] == ext_type / 0x100,
        frame(ext_type, msg_type, payload)[2] == msg_type,
        frame(ext_type, msg_type, payload)[3] == payload.len() % 0x100,
        frame(ext_type, msg_type, payload)[4] == payload.len() / 0x100 % 0x100,
        frame(ext_type, msg_type, payload)[5] == payload.len() / 0x1_0000,
        frame(ext_type, msg_type, payload).skip(6) == payload,
        is_frame(data) <==> data.len() >= 6 && data.len() == 6 + data[3] + 0x100 * data[4]
            + 0x1_0000 * data[5],
{
    let whole = frame(ext_type, msg_type, payload);
    lemma_frame_layout(ext_type, msg_type, payload);
    lemma_short_numbers(whole);
    if data.len() >= 6 {
        lemma_short_numbers(data);
    }
}

} // verus!
