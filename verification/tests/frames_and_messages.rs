use sv2_conformance::frames::{
    check_header_layout, judge_header, observe_header, FrameParts, HeaderFields, HeaderRule, HeaderRun, SizeHint,
};
use sv2_conformance::messages::{
    channel_id_of, check_frame, judge_message, observe_message, reframe, Message, MessageFacts,
    MessageRule, MessageRun,
};
use sv2_conformance::structure::spec_channel_bit;

/// A `CloseChannel` for channel 7 with the reason `"bye"`.
fn close_channel() -> Vec<u8> {
    vec![0x00, 0x80, 0x18, 8, 0, 0, 7, 0, 0, 0, 3, b'b', b'y', b'e']
}

#[test]
fn header_fields_are_read_little_endian() {
    let (run, verdict) = check_header_layout(&[0x34, 0x92, 0x1f, 1, 2, 0]);
    assert_eq!(verdict, Ok(()));
    assert_eq!(
        run.header.unwrap(),
        HeaderFields { ext_type: 0x9234, msg_type: 0x1f, channel_msg: true, plain_ext_type: 0x1234 }
    );
    assert_eq!(run.hint, SizeHint::Missing(513));
    let (run, verdict) = check_header_layout(&[0x34, 0x12, 0x00, 0, 0, 0, 5, 5]);
    assert_eq!(verdict, Ok(()));
    assert_eq!(
        run.header.unwrap(),
        HeaderFields { ext_type: 0x1234, msg_type: 0, channel_msg: false, plain_ext_type: 0x1234 }
    );
    assert_eq!(run.hint, SizeHint::Surplus(2));
    for (data, missing) in [(vec![1, 2, 3, 4, 5], 1), (vec![], 6)] {
        let (run, verdict) = check_header_layout(&data);
        assert_eq!(verdict, Ok(()));
        assert!(run.header.is_none());
        assert_eq!(run.hint, SizeHint::Missing(missing));
    }
    assert_eq!(observe_header(&[0, 0, 0, 0, 0, 0]).hint, SizeHint::Exact);
}

fn good_header() -> (Vec<u8>, HeaderRun) {
    let data = vec![0x00, 0x80, 0x18, 2, 0, 0, 1, 1];
    let header = HeaderFields { ext_type: 0x8000, msg_type: 0x18, channel_msg: true, plain_ext_type: 0 };
    (data, HeaderRun { header: Some(header), hint: SizeHint::Exact })
}

#[test]
fn headers_that_are_read_right_break_no_rule() {
    let (data, run) = good_header();
    assert_eq!(judge_header(&data, &run), Ok(()));
    let run = HeaderRun { header: None, hint: SizeHint::Missing(4) };
    assert_eq!(judge_header(&[1, 2], &run), Ok(()));
}

#[test]
fn every_header_rule_can_be_broken() {
    let (data, good) = good_header();
    let fields = good.header.unwrap();
    let judge = |fields: HeaderFields, hint: SizeHint| {
        judge_header(&data, &HeaderRun { header: Some(fields), hint })
    };
    assert_eq!(
        judge_header(&[1], &HeaderRun { header: Some(fields), hint: SizeHint::Missing(5) }),
        Err(HeaderRule::ShortHeader)
    );
    assert_eq!(
        judge_header(&[1], &HeaderRun { header: None, hint: SizeHint::Missing(4) }),
        Err(HeaderRule::ShortHint)
    );
    assert_eq!(
        judge_header(&data, &HeaderRun { header: None, hint: SizeHint::Exact }),
        Err(HeaderRule::Header)
    );
    assert_eq!(
        judge(HeaderFields { ext_type: 0x0080, ..fields }, SizeHint::Exact),
        Err(HeaderRule::ExtType)
    );
    assert_eq!(
        judge(HeaderFields { msg_type: 0x19, ..fields }, SizeHint::Exact),
        Err(HeaderRule::MsgType)
    );
    assert_eq!(
        judge(HeaderFields { channel_msg: false, ..fields }, SizeHint::Exact),
        Err(HeaderRule::ChannelMsg)
    );
    assert_eq!(
        judge(HeaderFields { plain_ext_type: 0x8000, ..fields }, SizeHint::Exact),
        Err(HeaderRule::PlainExtType)
    );
    assert_eq!(judge(fields, SizeHint::Missing(1)), Err(HeaderRule::Hint));
    assert_eq!(judge(fields, SizeHint::Surplus(1)), Err(HeaderRule::Hint));
}

#[test]
fn a_channel_message_goes_through_a_frame_and_back() {
    let data = close_channel();
    let (run, verdict) = check_frame(&data);
    assert_eq!(verdict, Ok(()));
    let run = run.message;
    let facts = run.facts.unwrap();
    assert_eq!((facts.msg_type, facts.ext_type, facts.channel_bit, facts.size), (0x18, 0, true, 8));
    assert_eq!(run.message, Message::CloseChannel(7));
    assert_eq!(run.reframed.as_ref(), Some(&data));
    assert_eq!(run.reframed_again.as_ref(), Some(&data));
    assert!(run.new_is_frame);
}

#[test]
fn bytes_behind_a_message_are_dropped_when_it_is_framed_again() {
    let mut data = close_channel();
    data.push(0xee);
    data[3] = 9;
    let (run, verdict) = check_frame(&data);
    assert_eq!(verdict, Ok(()));
    let run = run.message;
    assert_eq!(run.parts.unwrap().payload.len(), 9);
    assert_eq!(run.reframed, Some(close_channel()));
}

#[test]
fn what_is_no_frame_or_no_message_breaks_no_rule() {
    let (run, verdict) = check_frame(&[0x00, 0x80, 0x18, 9, 0, 0, 7]);
    assert_eq!(verdict, Ok(()));
    let run = run.message;
    assert!(run.parts.is_none());
    let (run, verdict) = check_frame(&[0x00, 0x00, 0x1e, 1, 0, 0, 7]);
    assert_eq!(verdict, Ok(()));
    let run = run.message;
    assert!(run.parts.is_some());
    assert!(run.facts.is_none());
    let (run, verdict) = check_frame(&[]);
    assert_eq!(verdict, Ok(()));
    assert_eq!(run.header.hint, SizeHint::Missing(6));
    let run = run.message;
    assert!(run.parts.is_none());
}

#[test]
fn messages_of_other_kinds_address_no_channel() {
    // SetupConnection.Success with version 2 and flags 5.
    let data = vec![0x00, 0x00, 0x01, 6, 0, 0, 2, 0, 5, 0, 0, 0];
    let (run, verdict) = check_frame(&data);
    assert_eq!(verdict, Ok(()));
    let run = run.message;
    assert_eq!(run.message, Message::Other);
    assert_eq!(run.facts.unwrap().channel_bit, false);
}

#[test]
fn a_message_carries_a_channel_exactly_if_the_table_says_so() {
    let mut payload = vec![1, 0, 0, 0];
    payload.extend_from_slice(&[0; 300]);
    for msg_type in 0..=255u8 {
        for channel_byte in [0x00, 0x80] {
            let mut data = vec![0x00, channel_byte, msg_type, 48, 1, 0];
            data.extend_from_slice(&payload);
            let (run, verdict) = check_frame(&data);
            assert_eq!(verdict, Ok(()));
            let id = channel_id_of(&run.message.message);
            match run.message.facts {
                Some(facts) => {
                    let expected = spec_channel_bit(msg_type).unwrap();
                    assert_eq!(facts.channel_bit, expected);
                    assert_eq!(id, if expected { Some(1) } else { None });
                }
                None => assert_eq!(id, None),
            }
        }
    }
}

#[test]
fn messages_that_name_a_channel_without_addressing_it_carry_none() {
    // SetGroupChannel for group 3, without channels.
    let data = vec![0x00, 0x00, 0x25, 6, 0, 0, 3, 0, 0, 0, 0, 0];
    let run = observe_message(&data);
    assert_eq!(run.facts.unwrap().msg_type, 0x25);
    assert_eq!(channel_id_of(&run.message), None);

    // OpenStandardMiningChannel.Success with request 1 and channel 9.
    let mut data = vec![0x00, 0x00, 0x11, 45, 0, 0, 1, 0, 0, 0, 9, 0, 0, 0];
    data.extend_from_slice(&[0x11; 32]);
    data.extend_from_slice(&[0, 4, 0, 0, 0]);
    let run = observe_message(&data);
    assert_eq!(run.facts.unwrap().msg_type, 0x11);
    assert_eq!(channel_id_of(&run.message), None);

    // The SetNewPrevHash of template distribution, and AllocateMiningJobToken.
    for (msg_type, len) in [(0x72, 80), (0x50, 5)] {
        let mut data = vec![0x00, 0x00, msg_type, len, 0, 0];
        data.resize(6 + len as usize, 0);
        let run = observe_message(&data);
        assert_eq!(run.facts.unwrap().msg_type, msg_type);
        assert_eq!(channel_id_of(&run.message), None);
    }

    // RequestExtensions with request 1, of the extension that negotiates extensions.
    let data = vec![0x01, 0x00, 0x00, 4, 0, 0, 1, 0, 0, 0];
    let run = observe_message(&data);
    assert_eq!(run.facts.unwrap().ext_type, 1);
    assert_eq!(channel_id_of(&run.message), None);
}

#[test]
fn job_share_and_update_messages_are_told_apart() {
    // SetTarget for channel 9.
    let mut data = vec![0x00, 0x80, 0x21, 36, 0, 0, 9, 0, 0, 0];
    data.extend_from_slice(&[0x11; 32]);
    let (run, verdict) = check_frame(&data);
    assert_eq!(verdict, Ok(()));
    let run = run.message;
    assert_eq!(run.message, Message::SetTarget(9));

    // SubmitSharesStandard for channel 0x01020304.
    let mut data = vec![0x00, 0x80, 0x1a, 24, 0, 0, 4, 3, 2, 1];
    data.extend_from_slice(&[0x22; 20]);
    let (run, verdict) = check_frame(&data);
    assert_eq!(verdict, Ok(()));
    let run = run.message;
    assert_eq!(run.message, Message::SubmitSharesStandard(0x0102_0304));
}

#[test]
fn reframing_a_message_keeps_its_header() {
    let data = close_channel();
    let run = observe_message(&data);
    let facts = run.facts.unwrap();
    assert_eq!(reframe(&data, &facts), Some(data.clone()));
}

fn facts() -> MessageFacts {
    MessageFacts {
        msg_type: 0x18,
        ext_type: 0,
        channel_bit: true,
        size: 8,
        display: "bye".to_string(),
    }
}

fn good_run() -> (Vec<u8>, MessageRun) {
    let data = close_channel();
    let header = HeaderFields { ext_type: 0x8000, msg_type: 0x18, channel_msg: true, plain_ext_type: 0 };
    let run = MessageRun {
        parts: Some(FrameParts { encoded_len: 14, payload: data[6..].to_vec() }),
        facts: Some(facts()),
        message: Message::CloseChannel(7),
        reframed: Some(data.clone()),
        new_header: Some(header),
        new_is_frame: true,
        new_facts: Some(facts()),
        reframed_again: Some(data.clone()),
    };
    (data, run)
}

fn broken(change: fn(&mut MessageRun)) -> Result<(), MessageRule> {
    let (data, mut run) = good_run();
    change(&mut run);
    judge_message(&data, &run)
}

#[test]
fn every_message_rule_can_be_broken() {
    assert_eq!(broken(|_| {}), Ok(()));
    assert_eq!(
        broken(|run| run.parts.as_mut().unwrap().encoded_len = 13),
        Err(MessageRule::EncodedLength)
    );
    assert_eq!(
        broken(|run| run.parts.as_mut().unwrap().payload[0] = 8),
        Err(MessageRule::Payload)
    );
    assert_eq!(
        broken(|run| run.facts.as_mut().unwrap().msg_type = 0x19),
        Err(MessageRule::MsgType)
    );
    assert_eq!(
        broken(|run| run.facts.as_mut().unwrap().ext_type = 1),
        Err(MessageRule::ExtType)
    );
    assert_eq!(
        broken(|run| run.facts.as_mut().unwrap().channel_bit = false),
        Err(MessageRule::ChannelBit)
    );
    assert_eq!(broken(|run| run.facts.as_mut().unwrap().size = 9), Err(MessageRule::Size));
    assert_eq!(broken(|run| run.facts.as_mut().unwrap().size = 3), Err(MessageRule::ChannelSize));
    assert_eq!(broken(|run| run.message = Message::Other), Err(MessageRule::ChannelField));
    assert_eq!(broken(|run| run.message = Message::CloseChannel(8)), Err(MessageRule::ChannelId));
    assert_eq!(broken(|run| run.reframed = None), Err(MessageRule::Reframed));
    assert_eq!(
        broken(|run| run.reframed.as_mut().unwrap().push(0)),
        Err(MessageRule::NewLength)
    );
    assert_eq!(broken(|run| run.new_header = None), Err(MessageRule::NewMsgType));
    assert_eq!(
        broken(|run| run.new_header.as_mut().unwrap().plain_ext_type = 1),
        Err(MessageRule::NewExtType)
    );
    assert_eq!(
        broken(|run| run.new_header.as_mut().unwrap().channel_msg = false),
        Err(MessageRule::NewChannelBit)
    );
    assert_eq!(
        broken(|run| run.new_header.as_mut().unwrap().ext_type = 0x8001),
        Err(MessageRule::CoreExtType)
    );
    assert_eq!(broken(|run| run.new_is_frame = false), Err(MessageRule::NewFrame));
    assert_eq!(broken(|run| run.new_facts = None), Err(MessageRule::NewMessage));
    assert_eq!(
        broken(|run| run.new_facts.as_mut().unwrap().display = "oh".to_string()),
        Err(MessageRule::Display)
    );
    assert_eq!(
        broken(|run| run.new_facts.as_mut().unwrap().size = 7),
        Err(MessageRule::NewSize)
    );
    assert_eq!(
        broken(|run| run.new_facts.as_mut().unwrap().msg_type = 0x19),
        Err(MessageRule::SameMsgType)
    );
    assert_eq!(
        broken(|run| run.new_facts.as_mut().unwrap().channel_bit = false),
        Err(MessageRule::SameChannelBit)
    );
    assert_eq!(broken(|run| run.reframed_again = None), Err(MessageRule::Stable));
}

#[test]
fn a_core_message_needs_a_defined_type() {
    let mut data = close_channel();
    data[2] = 0x1e;
    let (_, mut run) = good_run();
    run.facts.as_mut().unwrap().msg_type = 0x1e;
    assert_eq!(judge_message(&data, &run), Err(MessageRule::Defined));
}
