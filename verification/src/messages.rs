//! Messages in frames: the message table, channel routing, and framing a parsed
//! message again.

use crate::bytes::{read_le, same_bytes};
#[allow(unused_imports)]
use crate::bytes::{le_value, lemma_le_value_bound, seen, span};
use crate::frames::{
    check_header_layout, frame_from_bytes, header_from_bytes, FrameParts, HeaderFields, HeaderRule,
    HeaderRun, CHANNEL_MSG, HEADER_LEN,
};
#[allow(unused_imports)]
use crate::frames::{
    compared, frame, header_fields, is_frame, lemma_frame_is_short, lemma_frame_layout,
    lemma_short_numbers,
    read_header, wire_ext_type, with_channel_bit, MAX_PAYLOAD_LEN,
};
#[allow(unused_imports)]
use crate::rules::{decides, decides_between, Rule};
use crate::structure::spec_channel_bit;
#[allow(unused_imports)]
use crate::structure::{is_channel_message, is_defined, table_bit};
use binary_sv2::GetSize;
use framing_sv2::framing::{EncodableFrame, MessageFrame};
use framing_sv2::header::Header;
use parsers_sv2::{AnyMessage, CommonMessages, IsSv2Message, Mining};
use vstd::prelude::*;

verus! {

/// A message, as far as it addresses a channel: the channel id that it carries as
/// its first field. All other messages look the same.
#[derive(Clone, Copy, Debug, PartialEq, Eq, Structural)]
pub enum Message {
    ChannelEndpointChanged(u32),
    CloseChannel(u32),
    NewExtendedMiningJob(u32),
    NewMiningJob(u32),
    SetCustomMiningJob(u32),
    SetCustomMiningJobError(u32),
    SetCustomMiningJobSuccess(u32),
    SetExtranoncePrefix(u32),
    SetNewPrevHash(u32),
    SetTarget(u32),
    SubmitSharesError(u32),
    SubmitSharesExtended(u32),
    SubmitSharesStandard(u32),
    SubmitSharesSuccess(u32),
    UpdateChannel(u32),
    UpdateChannelError(u32),
    Other,
}

/// The channel id that a channel message carries.
pub open spec fn carried_channel_id(message: Message) -> Option<u32> {
    match message {
        Message::Other => None,
        Message::ChannelEndpointChanged(id) => Some(id),
        Message::CloseChannel(id) => Some(id),
        Message::NewExtendedMiningJob(id) => Some(id),
        Message::NewMiningJob(id) => Some(id),
        Message::SetCustomMiningJob(id) => Some(id),
        Message::SetCustomMiningJobError(id) => Some(id),
        Message::SetCustomMiningJobSuccess(id) => Some(id),
        Message::SetExtranoncePrefix(id) => Some(id),
        Message::SetNewPrevHash(id) => Some(id),
        Message::SetTarget(id) => Some(id),
        Message::SubmitSharesError(id) => Some(id),
        Message::SubmitSharesExtended(id) => Some(id),
        Message::SubmitSharesStandard(id) => Some(id),
        Message::SubmitSharesSuccess(id) => Some(id),
        Message::UpdateChannel(id) => Some(id),
        Message::UpdateChannelError(id) => Some(id),
    }
}

/// The `channel_id` that a channel message carries as its first field.
pub fn channel_id_of(message: &Message) -> (r: Option<u32>)
    ensures
        r == carried_channel_id(*message),
{
    match message {
        Message::ChannelEndpointChanged(id) => Some(*id),
        Message::CloseChannel(id) => Some(*id),
        Message::NewExtendedMiningJob(id) => Some(*id),
        Message::NewMiningJob(id) => Some(*id),
        Message::SetCustomMiningJob(id) => Some(*id),
        Message::SetCustomMiningJobError(id) => Some(*id),
        Message::SetCustomMiningJobSuccess(id) => Some(*id),
        Message::SetExtranoncePrefix(id) => Some(*id),
        Message::SetNewPrevHash(id) => Some(*id),
        Message::SetTarget(id) => Some(*id),
        Message::SubmitSharesError(id) => Some(*id),
        Message::SubmitSharesExtended(id) => Some(*id),
        Message::SubmitSharesStandard(id) => Some(*id),
        Message::SubmitSharesSuccess(id) => Some(*id),
        Message::UpdateChannel(id) => Some(*id),
        Message::UpdateChannelError(id) => Some(*id),
        Message::Other => None,
    }
}

/// What the implementation says of a message that it parsed.
pub struct MessageFacts {
    pub msg_type: u8,
    pub ext_type: u16,
    pub channel_bit: bool,
    pub size: usize,
    /// The message in words.
    pub display: String,
}

/// The same, with the words as characters.
pub struct FactsView {
    pub msg_type: u8,
    pub ext_type: u16,
    pub channel_bit: bool,
    pub size: usize,
    pub display: Seq<char>,
}

impl View for MessageFacts {
    type V = FactsView;

    open spec fn view(&self) -> FactsView {
        FactsView {
            msg_type: self.msg_type,
            ext_type: self.ext_type,
            channel_bit: self.channel_bit,
            size: self.size,
            display: self.display@,
        }
    }
}

/// What was said of a message, if anything was.
pub open spec fn said(facts: Option<MessageFacts>) -> Option<FactsView> {
    match facts {
        Some(facts) => Some(facts@),
        None => None,
    }
}

/// What the implementation says of the message in a frame; nothing if it finds
/// none there.
pub uninterp spec fn message_facts(frame: Seq<u8>) -> Option<FactsView>;

/// The message in a frame, as far as it addresses a channel.
pub uninterp spec fn message_of(frame: Seq<u8>) -> Message;

/// The bytes that the message in a frame is encoded to.
pub uninterp spec fn message_encoding(frame: Seq<u8>) -> Seq<u8>;

/// The facts about a message agree with the frame that it came from: its types are those
/// of the header, a core message has a type that the protocol defines and the channel bit
/// of the message table, and its encoding is no longer than the payload.
pub open spec fn follows_header(frame: Seq<u8>, facts: FactsView) -> bool {
    &&& facts.msg_type == frame[2]
    &&& facts.ext_type == wire_ext_type(frame) % CHANNEL_MSG as int
    &&& facts.ext_type == 0 ==> {
        &&& is_defined(facts.msg_type)
        &&& facts.channel_bit == is_channel_message(facts.msg_type)
    }
    &&& facts.size <= frame.len() - HEADER_LEN
}

/// The channel that a message in a frame addresses: with the channel bit, the one whose id
/// the payload begins with; without it, none.
pub open spec fn addressed_channel(frame: Seq<u8>, facts: FactsView) -> Option<u32> {
    if facts.channel_bit {
        Some(le_value(frame.subrange(6, 10)) as u32)
    } else {
        None
    }
}

/// A message carries the id of the channel that it addresses, and has room for it; a message
/// that addresses none carries none.
pub open spec fn is_routed(frame: Seq<u8>, facts: FactsView, message: Message) -> bool {
    &&& carried_channel_id(message) == addressed_channel(frame, facts)
    &&& facts.channel_bit ==> facts.size >= 4
}

/// Calls `AnyMessage::try_from` of `parsers_sv2` on the header and payload of a
/// frame, and reads the type, extension, channel bit and size of the message and
/// its text. All of this depends on the bytes of the frame alone, and the size is
/// the length of the encoding. The message is chosen by the types in the header, which are
/// constants of its variant, as is the channel bit; every field is decoded from the bytes
/// that its encoding takes, one behind the other. The variants with the channel bit are those
/// whose first field is the id of the channel that they address; [`Message::Other`] stands for all
/// variants without it, those of the extensions among them.
#[verifier::external_body]
fn parse_message(frame: &[u8]) -> (r: Option<MessageFacts>)
    requires
        frame@.len() >= HEADER_LEN,
    ensures
        said(r) == message_facts(frame@),
        r matches Some(facts) ==> facts.size == message_encoding(frame@).len(),
        r matches Some(facts) ==> follows_header(frame@, facts@),
        r matches Some(facts) ==> is_routed(frame@, facts@, message_of(frame@)),
{
    let header = Header::from_bytes(frame).ok()?;
    let mut payload = frame[HEADER_LEN..].to_vec();
    let message = AnyMessage::try_from((header, payload.as_mut_slice())).ok()?;
    Some(MessageFacts {
        msg_type: message.message_type(),
        ext_type: message.extension_type(),
        channel_bit: message.channel_bit(),
        size: message.get_size(),
        display: message.to_string(),
    })
}

/// The messages that [`job_message`] tells apart.
pub open spec fn is_job_message(message: Message) -> bool {
    match message {
        Message::NewExtendedMiningJob(_) => true,
        Message::NewMiningJob(_) => true,
        Message::SetCustomMiningJob(_) => true,
        Message::SetCustomMiningJobError(_) => true,
        Message::SetCustomMiningJobSuccess(_) => true,
        Message::SetExtranoncePrefix(_) => true,
        _ => false,
    }
}

/// The messages that [`share_message`] tells apart.
pub open spec fn is_share_message(message: Message) -> bool {
    match message {
        Message::SetNewPrevHash(_) => true,
        Message::SetTarget(_) => true,
        Message::SubmitSharesError(_) => true,
        Message::SubmitSharesExtended(_) => true,
        Message::SubmitSharesStandard(_) => true,
        Message::SubmitSharesSuccess(_) => true,
        _ => false,
    }
}

/// The messages that [`update_message`] tells apart.
pub open spec fn is_update_message(message: Message) -> bool {
    match message {
        Message::ChannelEndpointChanged(_) => true,
        Message::CloseChannel(_) => true,
        Message::UpdateChannel(_) => true,
        Message::UpdateChannelError(_) => true,
        _ => false,
    }
}

/// Calls `AnyMessage::try_from` of `parsers_sv2` and tells apart the messages about
/// jobs and prefixes.
#[verifier::external_body]
fn job_message(frame: &[u8]) -> (r: Option<Message>)
    requires
        frame@.len() >= HEADER_LEN,
    ensures
        r == (if is_job_message(message_of(frame@)) {
            Some(message_of(frame@))
        } else {
            None
        }),
{
    let header = Header::from_bytes(frame).ok()?;
    let mut payload = frame[HEADER_LEN..].to_vec();
    match AnyMessage::try_from((header, payload.as_mut_slice())) {
        Ok(AnyMessage::Mining(m)) => match m {
            Mining::NewExtendedMiningJob(m) => Some(Message::NewExtendedMiningJob(m.channel_id)),
            Mining::NewMiningJob(m) => Some(Message::NewMiningJob(m.channel_id)),
            Mining::SetCustomMiningJob(m) => Some(Message::SetCustomMiningJob(m.channel_id)),
            Mining::SetCustomMiningJobError(m) => Some(Message::SetCustomMiningJobError(m.channel_id)),
            Mining::SetCustomMiningJobSuccess(m) => Some(Message::SetCustomMiningJobSuccess(m.channel_id)),
            Mining::SetExtranoncePrefix(m) => Some(Message::SetExtranoncePrefix(m.channel_id)),
            _ => None,
        },
        _ => None,
    }
}

/// Calls `AnyMessage::try_from` of `parsers_sv2` and tells apart the messages about
/// shares, targets and the previous hash.
#[verifier::external_body]
fn share_message(frame: &[u8]) -> (r: Option<Message>)
    requires
        frame@.len() >= HEADER_LEN,
    ensures
        r == (if is_share_message(message_of(frame@)) {
            Some(message_of(frame@))
        } else {
            None
        }),
{
    let header = Header::from_bytes(frame).ok()?;
    let mut payload = frame[HEADER_LEN..].to_vec();
    match AnyMessage::try_from((header, payload.as_mut_slice())) {
        Ok(AnyMessage::Mining(m)) => match m {
            Mining::SetNewPrevHash(m) => Some(Message::SetNewPrevHash(m.channel_id)),
            Mining::SetTarget(m) => Some(Message::SetTarget(m.channel_id)),
            Mining::SubmitSharesError(m) => Some(Message::SubmitSharesError(m.channel_id)),
            Mining::SubmitSharesExtended(m) => Some(Message::SubmitSharesExtended(m.channel_id)),
            Mining::SubmitSharesStandard(m) => Some(Message::SubmitSharesStandard(m.channel_id)),
            Mining::SubmitSharesSuccess(m) => Some(Message::SubmitSharesSuccess(m.channel_id)),
            _ => None,
        },
        _ => None,
    }
}

/// Calls `AnyMessage::try_from` of `parsers_sv2` and tells apart the messages about
/// the channel itself.
#[verifier::external_body]
fn update_message(frame: &[u8]) -> (r: Option<Message>)
    requires
        frame@.len() >= HEADER_LEN,
    ensures
        r == (if is_update_message(message_of(frame@)) {
            Some(message_of(frame@))
        } else {
            None
        }),
{
    let header = Header::from_bytes(frame).ok()?;
    let mut payload = frame[HEADER_LEN..].to_vec();
    match AnyMessage::try_from((header, payload.as_mut_slice())) {
        Ok(AnyMessage::Common(CommonMessages::ChannelEndpointChanged(m))) => {
            Some(Message::ChannelEndpointChanged(m.channel_id))
        },
        Ok(AnyMessage::Mining(Mining::CloseChannel(m))) => Some(Message::CloseChannel(m.channel_id)),
        Ok(AnyMessage::Mining(Mining::UpdateChannel(m))) => Some(Message::UpdateChannel(m.channel_id)),
        Ok(AnyMessage::Mining(Mining::UpdateChannelError(m))) => Some(Message::UpdateChannelError(m.channel_id)),
        _ => None,
    }
}

/// The message in a frame, as far as it addresses a channel.
fn classify(frame: &[u8]) -> (r: Message)
    requires
        frame@.len() >= HEADER_LEN,
    ensures
        r == message_of(frame@),
{
    if let Some(message) = job_message(frame) {
        return message;
    }
    if let Some(message) = share_message(frame) {
        return message;
    }
    if let Some(message) = update_message(frame) {
        return message;
    }
    Message::Other
}

/// The frame that is put around the message in a frame, with the given message
/// type, extension type and channel bit; none if there is no message, or if its encoding
/// is too long for a frame.
pub open spec fn framed(
    data: Seq<u8>,
    msg_type: u8,
    ext_type: u16,
    channel_bit: bool,
) -> Option<Seq<u8>> {
    if message_facts(data) is Some && message_encoding(data).len() <= MAX_PAYLOAD_LEN {
        Some(frame(with_channel_bit(ext_type, channel_bit), msg_type, message_encoding(data)))
    } else {
        None
    }
}

/// The message in `again` is the one in `frame`.
pub open spec fn same_message(frame: Seq<u8>, again: Seq<u8>) -> bool {
    &&& message_facts(again) == message_facts(frame)
    &&& message_encoding(again) == message_encoding(frame)
}

/// Calls `MessageFrame::from_message` of `framing_sv2` on the message in a frame,
/// with the given message type, extension type and channel bit, and encodes the
/// result: a frame around the encoding of the message, unless that is too long. Decoding
/// and encoding go field by field, so that a frame with the types of the old one holds the
/// same message.
#[verifier::external_body]
fn frame_message(frame: &[u8], msg_type: u8, ext_type: u16, channel_bit: bool) -> (r: Option<
    Vec<u8>,
>)
    requires
        frame@.len() >= HEADER_LEN,
    ensures
        seen(r) == framed(frame@, msg_type, ext_type, channel_bit),
        r matches Some(out) ==> msg_type == frame@[2] && ext_type % CHANNEL_MSG == wire_ext_type(
            frame@,
        ) % CHANNEL_MSG as int ==> same_message(frame@, out@),
{
    let header = Header::from_bytes(frame).ok()?;
    let mut payload = frame[HEADER_LEN..].to_vec();
    let message = AnyMessage::try_from((header, payload.as_mut_slice())).ok()?;
    let framed = MessageFrame::from_message(message, msg_type, ext_type, channel_bit).ok()?;
    let mut out = vec![0u8; framed.encoded_length()];
    framed.encode_into(&mut out).ok()?;
    Some(out)
}

/// The frame that is put around the message in a frame, with the given facts about
/// the message.
pub open spec fn reframing(frame: Seq<u8>, facts: FactsView) -> Option<Seq<u8>> {
    framed(frame, facts.msg_type, facts.ext_type, facts.channel_bit)
}

/// The header that shows the given facts about a message.
pub open spec fn shown(facts: FactsView) -> HeaderFields {
    HeaderFields {
        ext_type: with_channel_bit(facts.ext_type, facts.channel_bit),
        msg_type: facts.msg_type,
        channel_msg: facts.channel_bit,
        plain_ext_type: facts.ext_type % CHANNEL_MSG,
    }
}

/// Frames the message in `frame` again, with what the implementation says of its
/// type, extension and channel bit. What comes out is one frame, its header shows
/// those fields, and it is as long as header and message together.
pub fn reframe(frame: &[u8], facts: &MessageFacts) -> (r: Option<Vec<u8>>)
    requires
        frame@.len() >= HEADER_LEN,
    ensures
        seen(r) == reframing(frame@, facts@),
        r matches Some(out) ==> {
            &&& is_frame(out@)
            &&& out@.len() == HEADER_LEN + message_encoding(frame@).len()
            &&& out@.skip(HEADER_LEN as int) == message_encoding(frame@)
            &&& header_fields(out@) == shown(facts@)
            &&& follows_header(frame@, facts@) ==> same_message(frame@, out@)
        },
{
    let r = frame_message(frame, facts.msg_type, facts.ext_type, facts.channel_bit);
    proof {
        if r is Some {
            lemma_frame_layout(
                with_channel_bit(facts.ext_type, facts.channel_bit),
                facts.msg_type,
                message_encoding(frame@),
            );
        }
    }
    r
}

/// What the implementation made of some bytes: the frame, the message in it, the
/// frame around that message again, and the message in that frame.
pub struct MessageRun {
    pub parts: Option<FrameParts>,
    pub facts: Option<MessageFacts>,
    pub message: Message,
    pub reframed: Option<Vec<u8>>,
    pub new_header: Option<HeaderFields>,
    pub new_is_frame: bool,
    pub new_facts: Option<MessageFacts>,
    pub reframed_again: Option<Vec<u8>>,
}

/// What must hold of a message in a frame, in the order of checking.
#[derive(Clone, Copy, Debug, PartialEq, Eq, Structural)]
pub enum MessageRule {
    /// A frame is as long as its bytes.
    EncodedLength,
    /// The payload is what follows the header.
    Payload,
    /// The message reports the message type of the header.
    MsgType,
    /// The message reports the extension type of the header.
    ExtType,
    /// A core message has a type that the protocol defines.
    Defined,
    /// The channel bit of a core message is the one of the message table.
    ChannelBit,
    /// A message is no longer than the payload.
    Size,
    /// A channel message has room for a channel id.
    ChannelSize,
    /// A channel message carries a channel id.
    ChannelField,
    /// The channel id is the first four bytes of the payload.
    ChannelId,
    /// A message that came from a frame fits in a frame.
    Reframed,
    /// The new frame is as long as header and message together.
    NewLength,
    /// The new header shows the message type.
    NewMsgType,
    /// The new header shows the extension type.
    NewExtType,
    /// The new header shows the channel bit.
    NewChannelBit,
    /// A core message is framed with extension type zero, but for the channel bit.
    CoreExtType,
    /// The new frame is one frame.
    NewFrame,
    /// The new frame holds a message.
    NewMessage,
    /// That message reads the same.
    Display,
    /// That message is as long.
    NewSize,
    /// That message has the same type.
    SameMsgType,
    /// That message has the same channel bit.
    SameChannelBit,
    /// Framing that message gives the same frame.
    Stable,
}

impl Rule for MessageRule {
    type Run = (Seq<u8>, MessageRun);

    open spec fn rank(self) -> int {
        match self {
            MessageRule::EncodedLength => 0,
            MessageRule::Payload => 1,
            MessageRule::MsgType => 2,
            MessageRule::ExtType => 3,
            MessageRule::Defined => 4,
            MessageRule::ChannelBit => 5,
            MessageRule::Size => 6,
            MessageRule::ChannelSize => 7,
            MessageRule::ChannelField => 8,
            MessageRule::ChannelId => 9,
            MessageRule::Reframed => 10,
            MessageRule::NewLength => 11,
            MessageRule::NewMsgType => 12,
            MessageRule::NewExtType => 13,
            MessageRule::NewChannelBit => 14,
            MessageRule::CoreExtType => 15,
            MessageRule::NewFrame => 16,
            MessageRule::NewMessage => 17,
            MessageRule::Display => 18,
            MessageRule::NewSize => 19,
            MessageRule::SameMsgType => 20,
            MessageRule::SameChannelBit => 21,
            MessageRule::Stable => 22,
        }
    }

    open spec fn holds(self, run: (Seq<u8>, MessageRun)) -> bool {
        let data = run.0;
        let framed = run.1.parts is Some;
        let payload = run.1.parts->0.payload@;
        let parsed = framed && run.1.facts is Some && data.len() >= HEADER_LEN;
        let facts = run.1.facts->0@;
        let core = parsed && facts.ext_type == 0;
        let channel = core && facts.channel_bit;
        let again = parsed && run.1.reframed is Some;
        let header = run.1.new_header;
        let new_parsed = again && run.1.new_facts is Some;
        let new_facts = run.1.new_facts->0@;
        match self {
            MessageRule::EncodedLength => framed ==> run.1.parts->0.encoded_len == data.len(),
            MessageRule::Payload => framed ==> data.len() >= HEADER_LEN && payload == data.skip(
                HEADER_LEN as int,
            ),
            MessageRule::MsgType => parsed ==> facts.msg_type == data[2],
            MessageRule::ExtType => parsed ==> facts.ext_type == wire_ext_type(data)
                % CHANNEL_MSG as int,
            MessageRule::Defined => core ==> is_defined(facts.msg_type),
            MessageRule::ChannelBit => core && is_defined(facts.msg_type) ==> facts.channel_bit
                == is_channel_message(facts.msg_type),
            MessageRule::Size => parsed ==> facts.size <= payload.len(),
            MessageRule::ChannelSize => channel ==> facts.size >= 4,
            MessageRule::ChannelField => channel ==> carried_channel_id(run.1.message) is Some,
            MessageRule::ChannelId => channel && carried_channel_id(run.1.message) is Some
                && data.len() >= HEADER_LEN + 4 ==> carried_channel_id(run.1.message)->0
                == le_value(data.subrange(6, 10)),
            MessageRule::Reframed => parsed ==> run.1.reframed is Some,
            MessageRule::NewLength => again ==> run.1.reframed->0@.len() == HEADER_LEN
                + facts.size,
            MessageRule::NewMsgType => again ==> header is Some && header->0.msg_type
                == facts.msg_type,
            MessageRule::NewExtType => again && header is Some ==> header->0.plain_ext_type
                == facts.ext_type,
            MessageRule::NewChannelBit => again && header is Some ==> header->0.channel_msg
                == facts.channel_bit,
            MessageRule::CoreExtType => again && header is Some && facts.ext_type == 0
                ==> header->0.ext_type % CHANNEL_MSG == 0,
            MessageRule::NewFrame => again ==> run.1.new_is_frame,
            MessageRule::NewMessage => again ==> run.1.new_facts is Some,
            MessageRule::Display => new_parsed ==> new_facts.display == facts.display,
            MessageRule::NewSize => new_parsed ==> new_facts.size == facts.size,
            MessageRule::SameMsgType => new_parsed ==> new_facts.msg_type == facts.msg_type,
            MessageRule::SameChannelBit => new_parsed ==> new_facts.channel_bit
                == facts.channel_bit,
            MessageRule::Stable => new_parsed ==> run.1.reframed_again is Some
                && run.1.reframed_again->0@ == run.1.reframed->0@,
        }
    }
}

/// Judges the message in a frame against the header, the message table and the
/// payload.
fn judge_parsed(data: &[u8], run: &MessageRun, parts: &FrameParts, facts: &MessageFacts) -> (r:
    Result<(), MessageRule>)
    requires
        data@.len() >= HEADER_LEN,
        parts.payload@ == data@.skip(HEADER_LEN as int),
        run.parts == Some(*parts),
        run.facts == Some(*facts),
    ensures
        decides_between(r, (data@, *run), 2, 10),
{
    proof {
        reveal_with_fuel(span, 3);
        lemma_le_value_bound(data@.subrange(0, 2));
    }
    if facts.msg_type != data[2] {
        assert(!MessageRule::MsgType.holds((data@, *run)));
        return Err(MessageRule::MsgType);
    }
    let ext_type: u64 = read_le(data, 0, 2);
    if facts.ext_type as u64 != ext_type % CHANNEL_MSG as u64 {
        assert(!MessageRule::ExtType.holds((data@, *run)));
        return Err(MessageRule::ExtType);
    }
    if facts.ext_type == 0 {
        match spec_channel_bit(facts.msg_type) {
            None => {
                assert(!MessageRule::Defined.holds((data@, *run)));
                return Err(MessageRule::Defined);
            },
            Some(expected) => {
                if facts.channel_bit != expected {
                    assert(!MessageRule::ChannelBit.holds((data@, *run)));
                    return Err(MessageRule::ChannelBit);
                }
            },
        }
    }
    if facts.size > parts.payload.len() {
        assert(!MessageRule::Size.holds((data@, *run)));
        return Err(MessageRule::Size);
    }
    if facts.ext_type == 0 && facts.channel_bit {
        if facts.size < 4 {
            assert(!MessageRule::ChannelSize.holds((data@, *run)));
            return Err(MessageRule::ChannelSize);
        }
        match channel_id_of(&run.message) {
            None => {
                assert(!MessageRule::ChannelField.holds((data@, *run)));
                return Err(MessageRule::ChannelField);
            },
            Some(id) => {
                if id as u64 != read_le(data, HEADER_LEN, 4) {
                    assert(!MessageRule::ChannelId.holds((data@, *run)));
                    return Err(MessageRule::ChannelId);
                }
            },
        }
    }
    Ok(())
}

/// Judges the frame around the message again, and the message in that frame.
fn judge_reframed(data: &[u8], run: &MessageRun, facts: &MessageFacts) -> (r: Result<
    (),
    MessageRule,
>)
    requires
        data@.len() >= HEADER_LEN,
        run.parts is Some,
        run.facts == Some(*facts),
    ensures
        decides_between(r, (data@, *run), 10, 23),
{
    let reframed = match &run.reframed {
        Some(reframed) => reframed,
        None => {
            assert(!MessageRule::Reframed.holds((data@, *run)));
            return Err(MessageRule::Reframed);
        },
    };
    if reframed.len() < HEADER_LEN || reframed.len() - HEADER_LEN != facts.size {
        assert(!MessageRule::NewLength.holds((data@, *run)));
        return Err(MessageRule::NewLength);
    }
    let header = match &run.new_header {
        Some(header) => header,
        None => {
            assert(!MessageRule::NewMsgType.holds((data@, *run)));
            return Err(MessageRule::NewMsgType);
        },
    };
    if header.msg_type != facts.msg_type {
        assert(!MessageRule::NewMsgType.holds((data@, *run)));
        return Err(MessageRule::NewMsgType);
    }
    if header.plain_ext_type != facts.ext_type {
        assert(!MessageRule::NewExtType.holds((data@, *run)));
        return Err(MessageRule::NewExtType);
    }
    if header.channel_msg != facts.channel_bit {
        assert(!MessageRule::NewChannelBit.holds((data@, *run)));
        return Err(MessageRule::NewChannelBit);
    }
    if facts.ext_type == 0 && header.ext_type % CHANNEL_MSG != 0 {
        assert(!MessageRule::CoreExtType.holds((data@, *run)));
        return Err(MessageRule::CoreExtType);
    }
    if !run.new_is_frame {
        assert(!MessageRule::NewFrame.holds((data@, *run)));
        return Err(MessageRule::NewFrame);
    }
    let new_facts = match &run.new_facts {
        Some(new_facts) => new_facts,
        None => {
            assert(!MessageRule::NewMessage.holds((data@, *run)));
            return Err(MessageRule::NewMessage);
        },
    };
    if new_facts.display != facts.display {
        assert(!MessageRule::Display.holds((data@, *run)));
        return Err(MessageRule::Display);
    }
    if new_facts.size != facts.size {
        assert(!MessageRule::NewSize.holds((data@, *run)));
        return Err(MessageRule::NewSize);
    }
    if new_facts.msg_type != facts.msg_type {
        assert(!MessageRule::SameMsgType.holds((data@, *run)));
        return Err(MessageRule::SameMsgType);
    }
    if new_facts.channel_bit != facts.channel_bit {
        assert(!MessageRule::SameChannelBit.holds((data@, *run)));
        return Err(MessageRule::SameChannelBit);
    }
    let stable = match &run.reframed_again {
        Some(again) => same_bytes(again.as_slice(), reframed.as_slice()),
        None => false,
    };
    if !stable {
        assert(!MessageRule::Stable.holds((data@, *run)));
        return Err(MessageRule::Stable);
    }
    Ok(())
}

/// Judges what an implementation made of some bytes: the first rule that it
/// breaks, if there is one. Bytes that are no frame, or hold no message, break
/// none.
pub fn judge_message(data: &[u8], run: &MessageRun) -> (r: Result<(), MessageRule>)
    ensures
        decides(r, (data@, *run)),
{
    let parts = match &run.parts {
        Some(parts) => parts,
        None => {
            return Ok(());
        },
    };
    if parts.encoded_len != data.len() {
        assert(!MessageRule::EncodedLength.holds((data@, *run)));
        return Err(MessageRule::EncodedLength);
    }
    if data.len() < HEADER_LEN || !same_bytes(
        parts.payload.as_slice(),
        &data[HEADER_LEN..data.len()],
    ) {
        assert(!MessageRule::Payload.holds((data@, *run)));
        return Err(MessageRule::Payload);
    }
    assert(parts.payload@ =~= data@.skip(HEADER_LEN as int));
    let facts = match &run.facts {
        Some(facts) => facts,
        None => {
            return Ok(());
        },
    };
    match judge_parsed(data, run, parts, facts) {
        Err(rule) => {
            return Err(rule);
        },
        Ok(()) => {},
    }
    judge_reframed(data, run, facts)
}

/// `run` is what the implementation makes of `data`: frame, message, frame again,
/// message again, frame once more, each step taken on what the step before gave.
pub open spec fn is_run(data: Seq<u8>, run: MessageRun) -> bool {
    &&& run.parts is Some <==> is_frame(data)
    &&& run.parts matches Some(parts) ==> {
        &&& parts.encoded_len == data.len()
        &&& parts.payload@ == data.skip(HEADER_LEN as int)
    }
    &&& said(run.facts) == (if is_frame(data) {
        message_facts(data)
    } else {
        None
    })
    &&& match run.facts {
        Some(facts) => facts.size == message_encoding(data).len() && run.message == message_of(
            data,
        ),
        None => run.message == Message::Other,
    }
    &&& seen(run.reframed) == (match said(run.facts) {
        Some(facts) => reframing(data, facts),
        None => None,
    })
    &&& run.reframed matches Some(out) ==> {
        &&& run.new_is_frame
        &&& run.new_header == Some(header_fields(out@))
        &&& header_fields(out@) == shown(run.facts->0@)
        &&& out@.len() == HEADER_LEN + message_encoding(data).len()
        &&& said(run.new_facts) == message_facts(out@)
    }
    &&& seen(run.reframed_again) == (match (seen(run.reframed), said(run.new_facts)) {
        (Some(out), Some(facts)) => reframing(out, facts),
        _ => None,
    })
}

/// The message of a run carries a channel id exactly if it has the channel bit, and then the
/// one that the payload begins with: what [`channel_id_of`] finds in a core message, it finds
/// there exactly if [`spec_channel_bit`] is true of the message type.
pub open spec fn carries_channel(data: Seq<u8>, run: MessageRun) -> bool {
    match run.facts {
        Some(facts) => {
            &&& carried_channel_id(run.message) == addressed_channel(data, facts@)
            &&& facts.ext_type == 0 ==> (carried_channel_id(run.message) is Some <==> table_bit(
                facts.msg_type,
            ) == Some(true))
        },
        None => carried_channel_id(run.message) is None,
    }
}

/// Runs the implementation on some bytes. Whatever they are, no rule is broken: the message
/// agrees with the message table and with the channel id in the payload, one that addresses no
/// channel carries no id, and the frame around it again holds the same message.
pub fn observe_message(data: &[u8]) -> (run: MessageRun)
    ensures
        is_run(data@, run),
        carries_channel(data@, run),
        forall|rule: MessageRule| #[trigger] rule.holds((data@, run)),
{
    let mut run = MessageRun {
        parts: frame_from_bytes(data),
        facts: None,
        message: Message::Other,
        reframed: None,
        new_header: None,
        new_is_frame: false,
        new_facts: None,
        reframed_again: None,
    };
    if run.parts.is_none() {
        return run;
    }
    let facts = match parse_message(data) {
        Some(facts) => facts,
        None => {
            return run;
        },
    };
    proof {
        reveal_with_fuel(span, 5);
        lemma_frame_is_short(data@);
        lemma_le_value_bound(data@.subrange(0, 2));
        if data@.len() >= HEADER_LEN + 4 {
            lemma_le_value_bound(data@.subrange(6, 10));
        }
    }
    run.message = classify(data);
    let reframed = reframe(data, &facts);
    run.facts = Some(facts);
    let reframed = match reframed {
        Some(reframed) => reframed,
        None => {
            return run;
        },
    };
    run.new_header = header_from_bytes(reframed.as_slice());
    run.new_is_frame = frame_from_bytes(reframed.as_slice()).is_some();
    let new_facts = parse_message(reframed.as_slice());
    if let Some(new_facts) = new_facts {
        run.reframed_again = reframe(reframed.as_slice(), &new_facts);
        run.new_facts = Some(new_facts);
    }
    run.reframed = Some(reframed);
    run
}

/// A frame that breaks a rule: one about its header, or one about its message.
#[derive(Clone, Copy, Debug, PartialEq, Eq, Structural)]
pub enum FrameViolation {
    Header(HeaderRule),
    Message(MessageRule),
}

/// What was seen of a frame: of its header, and of its message.
pub struct FrameRun {
    pub header: HeaderRun,
    pub message: MessageRun,
}

/// Checks the frame and the message that some bytes hold. The run comes back
/// with the verdict on it: neither the header nor the message breaks a rule.
pub fn check_frame(data: &[u8]) -> (r: (FrameRun, Result<(), FrameViolation>))
    ensures
        r.0.header == (HeaderRun { header: read_header(data@), hint: compared(data@) }),
        is_run(data@, r.0.message),
        carries_channel(data@, r.0.message),
        decides(Ok::<(), HeaderRule>(()), (data@, r.0.header)),
        decides(Ok::<(), MessageRule>(()), (data@, r.0.message)),
        r.1 == Ok::<(), FrameViolation>(()),
{
    let (header, header_verdict) = check_header_layout(data);
    let run = FrameRun { header, message: observe_message(data) };
    if let Err(rule) = header_verdict {
        return (run, Err(FrameViolation::Header(rule)));
    }
    match judge_message(data, &run.message) {
        Ok(()) => (run, Ok(())),
        Err(rule) => (run, Err(FrameViolation::Message(rule))),
    }
}

/// A message gives the channel id that it was made with, and only a message that addresses no
/// channel gives none.
pub proof fn law_channel_id_of(message: &Message, id: u32, r: Option<u32>)
    requires
        call_ensures(channel_id_of, (message,), r),
    ensures
        r is None <==> *message == Message::Other,
        *message == Message::ChannelEndpointChanged(id) ==> r == Some(id),
        *message == Message::CloseChannel(id) ==> r == Some(id),
        *message == Message::NewExtendedMiningJob(id) ==> r == Some(id),
        *message == Message::NewMiningJob(id) ==> r == Some(id),
        *message == Message::SetCustomMiningJob(id) ==> r == Some(id),
        *message == Message::SetCustomMiningJobError(id) ==> r == Some(id),
        *message == Message::SetCustomMiningJobSuccess(id) ==> r == Some(id),
        *message == Message::SetExtranoncePrefix(id) ==> r == Some(id),
        *message == Message::SetNewPrevHash(id) ==> r == Some(id),
        *message == Message::SetTarget(id) ==> r == Some(id),
        *message == Message::SubmitSharesError(id) ==> r == Some(id),
        *message == Message::SubmitSharesExtended(id) ==> r == Some(id),
        *message == Message::SubmitSharesStandard(id) ==> r == Some(id),
        *message == Message::SubmitSharesSuccess(id) ==> r == Some(id),
        *message == Message::UpdateChannel(id) ==> r == Some(id),
        *message == Message::UpdateChannelError(id) ==> r == Some(id),
{
}

/// The number that four bytes spell.
proof fn lemma_channel_number(data: Seq<u8>)
    requires
        data.len() >= 10,
    ensures
        le_value(data.subrange(6, 10)) == data[6] + 0x100 * data[7] + 0x1_0000 * data[8]
            + 0x100_0000 * data[9],
{
    reveal_with_fuel(le_value, 5);
    let l = data.subrange(6, 10);
    assert(l.skip(1)[0] == data[7]);
    assert(l.skip(1).skip(1)[0] == data[8]);
    assert(l.skip(1).skip(1).skip(1)[0] == data[9]);
    assert(l.skip(1).skip(1).skip(1).skip(1) =~= Seq::<u8>::empty());
}

/// What was made of some bytes passes exactly if they are taken apart at the sixth byte, and,
/// if a message was found: if it has the types of the header; if, for a core message, the
/// message table knows its type, with its channel bit; if it fits the payload; if a core message
/// with the channel bit gives as its channel id the number that the payload begins with; and if
/// the frame around it again has that message's length and types, is one frame, and holds a
/// message that reads the same and is framed to the same bytes. If not, the verdict names the
/// first of these things that is wrong. `bit` and `id` are what the message table and the
/// message give.
pub proof fn law_message(
    data: &[u8],
    run: &MessageRun,
    bit: Option<bool>,
    id: Option<u32>,
    verdict: Result<(), MessageRule>,
)
    requires
        call_ensures(judge_message, (data, run), verdict),
        run.facts matches Some(facts) ==> call_ensures(spec_channel_bit, (facts.msg_type,), bit),
        call_ensures(channel_id_of, (&run.message,), id),
    ensures
        run.parts is None ==> verdict is Ok,
        run.parts is Some ==> (verdict is Ok <==> {
            &&& run.parts->0.encoded_len == data@.len()
            &&& data@.len() >= 6
            &&& run.parts->0.payload@ == data@.skip(6)
            &&& run.facts is Some ==> {
                let facts = run.facts->0;
                let out = run.reframed->0@;
                let header = run.new_header->0;
                let again = run.new_facts->0;
                &&& facts.msg_type == data@[2]
                &&& facts.ext_type == data@[0] + 0x100 * (data@[1] % 0x80)
                &&& facts.ext_type == 0 ==> bit == Some(facts.channel_bit)
                &&& facts.size <= data@.len() - 6
                &&& facts.ext_type == 0 && facts.channel_bit ==> {
                    &&& facts.size >= 4
                    &&& id is Some
                    &&& id->0 == data@[6] + 0x100 * data@[7] + 0x1_0000 * data@[8]
                        + 0x100_0000 * data@[9]
                }
                &&& run.reframed is Some
                &&& out.len() == 6 + facts.size
                &&& run.new_header is Some
                &&& header.msg_type == facts.msg_type
                &&& header.plain_ext_type == facts.ext_type
                &&& header.channel_msg == facts.channel_bit
                &&& facts.ext_type == 0 ==> header.ext_type % 0x8000 == 0
                &&& run.new_is_frame
                &&& run.new_facts is Some
                &&& again.display@ == facts.display@
                &&& again.size == facts.size
                &&& again.msg_type == facts.msg_type
                &&& again.channel_bit == facts.channel_bit
                &&& run.reframed_again is Some
                &&& run.reframed_again->0@ == out
            }
        }),
        verdict matches Err(rule) ==> {
            let facts = run.facts->0;
            let header = run.new_header->0;
            let channel = facts.ext_type == 0 && facts.channel_bit;
            rule == (if run.parts->0.encoded_len != data@.len() {
                MessageRule::EncodedLength
            } else if data@.len() < 6 || run.parts->0.payload@ != data@.skip(6) {
                MessageRule::Payload
            } else if facts.msg_type != data@[2] {
                MessageRule::MsgType
            } else if facts.ext_type != data@[0] + 0x100 * (data@[1] % 0x80) {
                MessageRule::ExtType
            } else if facts.ext_type == 0 && bit is None {
                MessageRule::Defined
            } else if facts.ext_type == 0 && bit != Some(facts.channel_bit) {
                MessageRule::ChannelBit
            } else if facts.size > data@.len() - 6 {
                MessageRule::Size
            } else if channel && facts.size < 4 {
                MessageRule::ChannelSize
            } else if channel && id is None {
                MessageRule::ChannelField
            } else if channel && id->0 != data@[6] + 0x100 * data@[7] + 0x1_0000 * data@[8]
                + 0x100_0000 * data@[9] {
                MessageRule::ChannelId
            } else if run.reframed is None {
                MessageRule::Reframed
            } else if run.reframed->0@.len() != 6 + facts.size {
                MessageRule::NewLength
            } else if run.new_header is None || header.msg_type != facts.msg_type {
                MessageRule::NewMsgType
            } else if header.plain_ext_type != facts.ext_type {
                MessageRule::NewExtType
            } else if header.channel_msg != facts.channel_bit {
                MessageRule::NewChannelBit
            } else if facts.ext_type == 0 && header.ext_type % 0x8000 != 0 {
                MessageRule::CoreExtType
            } else if !run.new_is_frame {
                MessageRule::NewFrame
            } else if run.new_facts is None {
                MessageRule::NewMessage
            } else if run.new_facts->0.display@ != facts.display@ {
                MessageRule::Display
            } else if run.new_facts->0.size != facts.size {
                MessageRule::NewSize
            } else if run.new_facts->0.msg_type != facts.msg_type {
                MessageRule::SameMsgType
            } else if run.new_facts->0.channel_bit != facts.channel_bit {
                MessageRule::SameChannelBit
            } else {
                MessageRule::Stable
            })
        },
{
    if data@.len() >= 6 {
        lemma_short_numbers(data@);
    }
    if data@.len() >= 10 {
        lemma_channel_number(data@);
    }
    if verdict is Ok {
        assert(MessageRule::EncodedLength.holds((data@, *run)));
        assert(MessageRule::Payload.holds((data@, *run)));
        assert(MessageRule::MsgType.holds((data@, *run)));
        assert(MessageRule::ExtType.holds((data@, *run)));
        assert(MessageRule::Defined.holds((data@, *run)));
        assert(MessageRule::ChannelBit.holds((data@, *run)));
        assert(MessageRule::Size.holds((data@, *run)));
        assert(MessageRule::ChannelSize.holds((data@, *run)));
        assert(MessageRule::ChannelField.holds((data@, *run)));
        assert(MessageRule::ChannelId.holds((data@, *run)));
        assert(MessageRule::Reframed.holds((data@, *run)));
        assert(MessageRule::NewLength.holds((data@, *run)));
        assert(MessageRule::NewMsgType.holds((data@, *run)));
        assert(MessageRule::NewExtType.holds((data@, *run)));
        assert(MessageRule::NewChannelBit.holds((data@, *run)));
        assert(MessageRule::CoreExtType.holds((data@, *run)));
        assert(MessageRule::NewFrame.holds((data@, *run)));
        assert(MessageRule::NewMessage.holds((data@, *run)));
        assert(MessageRule::Display.holds((data@, *run)));
        assert(MessageRule::NewSize.holds((data@, *run)));
        assert(MessageRule::SameMsgType.holds((data@, *run)));
        assert(MessageRule::SameChannelBit.holds((data@, *run)));
        assert(MessageRule::Stable.holds((data@, *run)));
    }
    if let Err(broken) = verdict {
        if MessageRule::EncodedLength.rank() < broken.rank() {
            assert(MessageRule::EncodedLength.holds((data@, *run)));
        }
        if MessageRule::Payload.rank() < broken.rank() {
            assert(MessageRule::Payload.holds((data@, *run)));
        }
        if MessageRule::MsgType.rank() < broken.rank() {
            assert(MessageRule::MsgType.holds((data@, *run)));
        }
        if MessageRule::ExtType.rank() < broken.rank() {
            assert(MessageRule::ExtType.holds((data@, *run)));
        }
        if MessageRule::Defined.rank() < broken.rank() {
            assert(MessageRule::Defined.holds((data@, *run)));
        }
        if MessageRule::ChannelBit.rank() < broken.rank() {
            assert(MessageRule::ChannelBit.holds((data@, *run)));
        }
        if MessageRule::Size.rank() < broken.rank() {
            assert(MessageRule::Size.holds((data@, *run)));
        }
        if MessageRule::ChannelSize.rank() < broken.rank() {
            assert(MessageRule::ChannelSize.holds((data@, *run)));
        }
        if MessageRule::ChannelField.rank() < broken.rank() {
            assert(MessageRule::ChannelField.holds((data@, *run)));
        }
        if MessageRule::ChannelId.rank() < broken.rank() {
            assert(MessageRule::ChannelId.holds((data@, *run)));
        }
        if MessageRule::Reframed.rank() < broken.rank() {
            assert(MessageRule::Reframed.holds((data@, *run)));
        }
        if MessageRule::NewLength.rank() < broken.rank() {
            assert(MessageRule::NewLength.holds((data@, *run)));
        }
        if MessageRule::NewMsgType.rank() < broken.rank() {
            assert(MessageRule::NewMsgType.holds((data@, *run)));
        }
        if MessageRule::NewExtType.rank() < broken.rank() {
            assert(MessageRule::NewExtType.holds((data@, *run)));
        }
        if MessageRule::NewChannelBit.rank() < broken.rank() {
            assert(MessageRule::NewChannelBit.holds((data@, *run)));
        }
        if MessageRule::CoreExtType.rank() < broken.rank() {
            assert(MessageRule::CoreExtType.holds((data@, *run)));
        }
        if MessageRule::NewFrame.rank() < broken.rank() {
            assert(MessageRule::NewFrame.holds((data@, *run)));
        }
        if MessageRule::NewMessage.rank() < broken.rank() {
            assert(MessageRule::NewMessage.holds((data@, *run)));
        }
        if MessageRule::Display.rank() < broken.rank() {
            assert(MessageRule::Display.holds((data@, *run)));
        }
        if MessageRule::NewSize.rank() < broken.rank() {
            assert(MessageRule::NewSize.holds((data@, *run)));
        }
        if MessageRule::SameMsgType.rank() < broken.rank() {
            assert(MessageRule::SameMsgType.holds((data@, *run)));
        }
        if MessageRule::SameChannelBit.rank() < broken.rank() {
            assert(MessageRule::SameChannelBit.holds((data@, *run)));
        }
    }
}

/// A frame around a message spells the types that it is given, with the channel bit on top of
/// the extension type, and as many bytes as the message is long.
pub proof fn law_reframe(frame: &[u8], facts: &MessageFacts, r: Option<Vec<u8>>)
    requires
        frame@.len() >= 6,
        call_ensures(reframe, (frame, facts), r),
    ensures
        r matches Some(out) ==> {
            let len = out@.len() - 6;
            &&& len >= 0
            &&& out@[0] == facts.ext_type % 0x100
            &&& out@[1] % 0x80 == facts.ext_type / 0x100 % 0x80
            &&& out@[1] >= 0x80 <==> facts.channel_bit
            &&& out@[2] == facts.msg_type
            &&& out@[3] + 0x100 * out@[4] + 0x1_0000 * out@[5] == len
            &&& out@.skip(6) == message_encoding(frame@)
        },
        r is Some <==> message_facts(frame@) is Some && message_encoding(frame@).len()
            <= 0xff_ffff,
{
    if let Some(out) = r {
        lemma_short_numbers(out@);
        assert(header_fields(out@).ext_type == with_channel_bit(facts.ext_type, facts.channel_bit));
    }
}

/// Whatever the bytes are, the implementation passes. Bytes hold a frame exactly if the header
/// announces as many as follow it. A core message in it has the types of the header and the
/// channel bit of the message table, and it gives a channel id exactly if it has that bit: the
/// one that the payload begins with.
pub proof fn law_check_frame(
    data: &[u8],
    bit: Option<bool>,
    id: Option<u32>,
    r: (FrameRun, Result<(), FrameViolation>),
)
    requires
        call_ensures(check_frame, (data,), r),
        r.0.message.facts matches Some(facts) ==> call_ensures(
            spec_channel_bit,
            (facts.msg_type,),
            bit,
        ),
        call_ensures(channel_id_of, (&r.0.message.message,), id),
    ensures
        r.1 is Ok,
        r.0.message.parts is Some <==> data@.len() >= 6 && data@.len() == 6 + data@[3] + 0x100
            * data@[4] + 0x1_0000 * data@[5],
        r.0.message.facts is None ==> id is None,
        r.0.message.facts matches Some(facts) ==> {
            &&& r.0.message.parts is Some
            &&& facts.msg_type == data@[2]
            &&& facts.ext_type == data@[0] + 0x100 * (data@[1] % 0x80)
            &&& facts.size <= data@.len() - 6
            &&& facts.ext_type == 0 ==> bit == Some(facts.channel_bit)
            &&& id is Some <==> facts.channel_bit
            &&& id is Some && facts.ext_type == 0 ==> data@.len() >= 10 && id->0 == data@[6] + 0x100
                * data@[7] + 0x1_0000 * data@[8] + 0x100_0000 * data@[9]
            &&& r.0.message.reframed matches Some(out) && out@.len() == 6 + facts.size
                && out@.skip(6) == message_encoding(data@)
        },
{
    let run = r.0.message;
    if data@.len() >= 6 {
        lemma_short_numbers(data@);
    }
    if data@.len() >= 10 {
        lemma_channel_number(data@);
    }
    assert(MessageRule::EncodedLength.holds((data@, run)));
    assert(MessageRule::Payload.holds((data@, run)));
    assert(MessageRule::MsgType.holds((data@, run)));
    assert(MessageRule::ExtType.holds((data@, run)));
    assert(MessageRule::Defined.holds((data@, run)));
    assert(MessageRule::ChannelBit.holds((data@, run)));
    assert(MessageRule::Size.holds((data@, run)));
    assert(MessageRule::ChannelSize.holds((data@, run)));
    assert(MessageRule::ChannelField.holds((data@, run)));
    assert(MessageRule::ChannelId.holds((data@, run)));
    assert(MessageRule::Reframed.holds((data@, run)));
    if let Some(facts) = run.facts {
        lemma_frame_is_short(data@);
        lemma_frame_layout(
            with_channel_bit(facts.ext_type, facts.channel_bit),
            facts.msg_type,
            message_encoding(data@),
        );
    }
}

} // verus!
