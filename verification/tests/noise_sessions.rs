use sv2_conformance::noise::{
    build_frame, handshake, judge_handshake, spec_encrypted_len, Authority, Finish, HandshakeRule,
    HandshakeSeen, NoiseInput, ACT_2_LEN, MAX_PIECE_LEN,
};
use sv2_conformance::transport::{
    check_noise, encrypt_twice, flip_bit, judge_noise, judge_transport, next_move, Ciphertexts,
    Decoded, Move, NoiseRule, NoiseRun, TransportRule, TransportRun,
};

fn input() -> NoiseInput {
    NoiseInput {
        rand_seed: 42,
        now_responder: 1_000_000,
        cert_validity: 100,
        initiator_clock_skew: 5,
        authority: Authority::Known,
        msg_type: 7,
        ext_type: 0x1234,
        payload: vec![1, 2, 3],
        extra_chunks: 0,
        handshake_corruption: None,
        transport_corruption: None,
    }
}

#[test]
fn encrypted_frames_have_a_known_length() {
    assert_eq!(spec_encrypted_len(0), 22);
    assert_eq!(spec_encrypted_len(1), 39);
    assert_eq!(spec_encrypted_len(65519), 22 + 65519 + 16);
    assert_eq!(spec_encrypted_len(65520), 22 + 65520 + 32);
    assert_eq!(spec_encrypted_len(2 * 65519), 22 + 2 * 65519 + 32);
}

#[test]
fn frames_are_built_with_filler() {
    assert_eq!(build_frame(&input()), Some(vec![0x34, 0x12, 7, 3, 0, 0, 1, 2, 3]));
    let mut longer = input();
    longer.extra_chunks = 4;
    let frame = build_frame(&longer).unwrap();
    assert_eq!(frame.len(), 6 + MAX_PIECE_LEN + 3);
    assert_eq!(&frame[3..6], &[0xf2, 0xff, 0]);
    assert_eq!(frame[6], 0x5a);
    assert_eq!(&frame[6 + MAX_PIECE_LEN..], &[1, 2, 3]);
    longer.payload = vec![0; 0x00ff_ffff];
    assert_eq!(build_frame(&longer), None);
}

#[test]
fn handshakes_end_as_authority_and_clock_say() {
    let finish = |authority: Authority, skew: i32| {
        let mut input = input();
        input.authority = authority;
        input.initiator_clock_skew = skew;
        let (seen, session) = handshake(&input, true);
        assert_eq!(seen.act_1, Some(64));
        assert_eq!(seen.act_2, Some(234));
        assert_eq!(session.is_some(), seen.finish == Some(Finish::Accepted));
        assert_eq!(judge_handshake(&input, false, &seen), Ok(()));
        seen.finish.unwrap()
    };
    assert_eq!(finish(Authority::Known, 0), Finish::Accepted);
    assert_eq!(finish(Authority::Known, 100), Finish::Accepted);
    assert_eq!(finish(Authority::Known, 111), Finish::BadCertificate);
    assert_eq!(finish(Authority::Known, -11), Finish::BadCertificate);
    assert_eq!(finish(Authority::Unknown, -11), Finish::Accepted);
    assert_eq!(finish(Authority::Wrong, 0), Finish::BadCertificate);
}

#[test]
fn a_corrupted_answer_is_refused() {
    for place in [0u32, 63, 64, 143, 144, 233, 234 + 70] {
        let mut input = input();
        input.handshake_corruption = Some(place);
        let (seen, session) = handshake(&input, true);
        assert_ne!(seen.finish, Some(Finish::Accepted));
        assert!(session.is_none());
        assert_eq!(judge_handshake(&input, true, &seen), Ok(()));
        let (seen, session) = handshake(&input, false);
        assert_eq!(seen.finish, Some(Finish::Accepted));
        assert!(session.is_some());
    }
}

#[test]
fn one_seed_gives_one_session() {
    let frame = build_frame(&input()).unwrap();
    let session = handshake(&input(), false).1.unwrap();
    let first = encrypt_twice(session.initiator, &frame).unwrap();
    let session = handshake(&input(), false).1.unwrap();
    let again = encrypt_twice(session.initiator, &frame).unwrap();
    assert_eq!(first.first, again.first);
    assert_eq!(first.second, again.second);
    assert_ne!(first.first, first.second);
    let mut other = input();
    other.rand_seed = 43;
    let session = handshake(&other, false).1.unwrap();
    let different = encrypt_twice(session.initiator, &frame).unwrap();
    assert_ne!(first.first, different.first);
}

#[test]
fn sessions_break_no_rule() {
    let (seen, verdict) = check_noise(&input()).unwrap();
    assert_eq!(verdict, Ok(()));
    let transport = seen.transport.unwrap();
    let frame = build_frame(&input()).unwrap();
    assert_eq!(transport.sent.unwrap().first.len(), spec_encrypted_len(3));
    match transport.first {
        Decoded::Frame(bytes, consumed) => {
            assert_eq!(bytes, frame);
            assert_eq!(consumed, spec_encrypted_len(3));
        }
        _ => panic!("nothing came out"),
    }
    assert!(matches!(transport.second, Decoded::Frame(_, _)));
    assert!(matches!(transport.replayed, Some(Decoded::Rejected)));
    assert!(matches!(seen.out_of_order, Some(Decoded::Rejected)));
}

#[test]
fn sessions_with_long_and_empty_frames_break_no_rule() {
    let mut long = input();
    long.extra_chunks = 2;
    assert_eq!(check_noise(&long).unwrap().1, Ok(()));
    let mut empty = input();
    empty.payload = vec![];
    assert_eq!(check_noise(&empty).unwrap().1, Ok(()));
}

#[test]
fn a_flipped_bit_is_noticed() {
    for (byte, bit) in [(0u32, 0u8), (21, 7), (22, 9), (1000, 3)] {
        let mut input = input();
        input.transport_corruption = Some((byte, bit));
        let (seen, verdict) = check_noise(&input).unwrap();
        assert_eq!(verdict, Ok(()));
        let transport = seen.transport.unwrap();
        assert!(!matches!(transport.second, Decoded::Frame(_, _)));
        assert!(transport.replayed.is_none());
    }
}

#[test]
fn a_refused_handshake_has_no_session() {
    let mut wrong = input();
    wrong.authority = Authority::Wrong;
    let (seen, verdict) = check_noise(&wrong).unwrap();
    assert_eq!(verdict, Ok(()));
    assert!(seen.transport.is_none());
    assert!(seen.second.is_none());
    assert!(seen.out_of_order.is_none());
}

#[test]
fn frames_that_are_too_long_are_not_checked() {
    let mut input = input();
    input.payload = vec![0; 0x0100_0000];
    assert!(check_noise(&input).is_none());
}

#[test]
fn a_bit_is_flipped_in_its_byte() {
    assert_eq!(flip_bit(&vec![0, 0, 0], 4, 9), vec![0, 2, 0]);
    assert_eq!(flip_bit(&vec![0xff], 0, 7), vec![0x7f]);
}

#[test]
fn a_decoder_is_fed_at_its_own_pace() {
    assert_eq!(next_move(22, 0, 22), Move::Feed);
    assert_eq!(next_move(22, 2, 30), Move::Feed);
    assert_eq!(next_move(22, 0, 21), Move::Starved);
    assert_eq!(next_move(0, 0, 0), Move::Ask);
    assert_eq!(next_move(0, 1, 5), Move::Ask);
    assert_eq!(next_move(0, 2, 5), Move::Stalled);
}

fn seen(finish: Finish) -> HandshakeSeen {
    HandshakeSeen { act_1: Some(64), act_2: Some(ACT_2_LEN), finish: Some(finish) }
}

#[test]
fn every_handshake_rule_can_be_broken() {
    let known = input();
    let accepted = seen(Finish::Accepted);
    let judge = |input: &NoiseInput, corrupted: bool, seen: HandshakeSeen| {
        judge_handshake(input, corrupted, &seen)
    };
    assert_eq!(judge(&known, false, accepted), Ok(()));
    assert_eq!(
        judge(&known, false, HandshakeSeen { act_1: None, ..accepted }),
        Err(HandshakeRule::Act1)
    );
    assert_eq!(
        judge(&known, false, HandshakeSeen { act_2: None, ..accepted }),
        Err(HandshakeRule::Act2)
    );
    assert_eq!(
        judge(&known, false, HandshakeSeen { act_2: Some(233), ..accepted }),
        Err(HandshakeRule::Act2Length)
    );
    assert_eq!(
        judge(&known, false, HandshakeSeen { finish: None, ..accepted }),
        Err(HandshakeRule::Act2Length)
    );
    assert_eq!(judge(&known, true, accepted), Err(HandshakeRule::Corrupted));
    let wrong = NoiseInput { authority: Authority::Wrong, ..input() };
    assert_eq!(judge(&wrong, false, accepted), Err(HandshakeRule::WrongAuthority));
    let late = NoiseInput { initiator_clock_skew: 111, ..input() };
    assert_eq!(judge(&late, false, accepted), Err(HandshakeRule::OutsideWindow));
    let near = NoiseInput { initiator_clock_skew: 110, ..input() };
    assert_eq!(judge(&near, false, accepted), Ok(()));
    assert_eq!(judge(&near, false, seen(Finish::BadCertificate)), Ok(()));
    let anonymous = NoiseInput { authority: Authority::Unknown, ..input() };
    assert_eq!(
        judge(&anonymous, false, seen(Finish::BadCertificate)),
        Err(HandshakeRule::Anonymous)
    );
    assert_eq!(
        judge(&wrong, false, seen(Finish::Failed)),
        Err(HandshakeRule::WrongAuthorityReason)
    );
    assert_eq!(
        judge(&known, false, seen(Finish::BadCertificate)),
        Err(HandshakeRule::InsideWindow)
    );
    assert_eq!(
        judge(&late, false, seen(Finish::Failed)),
        Err(HandshakeRule::OutsideWindowReason)
    );
    assert_eq!(judge(&known, true, seen(Finish::Failed)), Ok(()));
}

fn good_transport(frame: &Vec<u8>) -> TransportRun {
    let mut second = vec![1u8; spec_encrypted_len(3)];
    second[0] = 2;
    TransportRun {
        sent: Some(Ciphertexts { first: vec![1; spec_encrypted_len(3)], second }),
        first: Decoded::Frame(frame.clone(), spec_encrypted_len(3)),
        second: Decoded::Frame(frame.clone(), spec_encrypted_len(3)),
        replayed: Some(Decoded::Rejected),
    }
}

fn broken_transport(flipped: bool, change: fn(&mut TransportRun)) -> Result<(), TransportRule> {
    let mut input = input();
    if flipped {
        input.transport_corruption = Some((1, 1));
    }
    let frame = build_frame(&input).unwrap();
    let mut run = good_transport(&frame);
    change(&mut run);
    judge_transport(&input, &frame, &run)
}

#[test]
fn every_transport_rule_can_be_broken() {
    assert_eq!(broken_transport(false, |_| {}), Ok(()));
    assert_eq!(broken_transport(false, |run| run.sent = None), Err(TransportRule::Encrypts));
    assert_eq!(
        broken_transport(false, |run| run.sent.as_mut().unwrap().first.push(0)),
        Err(TransportRule::Length)
    );
    assert_eq!(
        broken_transport(false, |run| run.sent.as_mut().unwrap().second.push(0)),
        Err(TransportRule::SameLength)
    );
    assert_eq!(
        broken_transport(false, |run| run.sent.as_mut().unwrap().second[0] = 1),
        Err(TransportRule::Fresh)
    );
    assert_eq!(
        broken_transport(false, |run| run.first = Decoded::Stalled),
        Err(TransportRule::FirstProgress)
    );
    assert_eq!(
        broken_transport(false, |run| run.first = Decoded::Rejected),
        Err(TransportRule::FirstAccepted)
    );
    assert_eq!(
        broken_transport(false, |run| run.first = Decoded::Frame(vec![], 55)),
        Err(TransportRule::FirstFrame)
    );
    assert_eq!(
        broken_transport(false, |run| {
            if let Decoded::Frame(_, consumed) = &mut run.first {
                *consumed -= 1;
            }
        }),
        Err(TransportRule::FirstConsumed)
    );
    assert_eq!(
        broken_transport(false, |run| run.second = Decoded::Stalled),
        Err(TransportRule::SecondProgress)
    );
    assert_eq!(broken_transport(true, |_| {}), Err(TransportRule::Integrity));
    assert_eq!(
        broken_transport(true, |run| {
            run.second = Decoded::Rejected;
            run.replayed = None;
        }),
        Ok(())
    );
    assert_eq!(
        broken_transport(false, |run| run.second = Decoded::Rejected),
        Err(TransportRule::SecondAccepted)
    );
    assert_eq!(
        broken_transport(false, |run| run.second = Decoded::Frame(vec![], 55)),
        Err(TransportRule::SecondFrame)
    );
    assert_eq!(
        broken_transport(false, |run| run.replayed = None),
        Err(TransportRule::ReplayProgress)
    );
    assert_eq!(
        broken_transport(false, |run| run.replayed = Some(Decoded::Stalled)),
        Err(TransportRule::ReplayProgress)
    );
    assert_eq!(
        broken_transport(false, |run| run.replayed = Some(Decoded::Frame(vec![], 1))),
        Err(TransportRule::Replay)
    );
}

#[test]
fn every_stage_of_a_check_is_judged() {
    let input = input();
    let frame = build_frame(&input).unwrap();
    let run = || NoiseRun {
        corrupted: seen(Finish::Accepted),
        first: seen(Finish::Accepted),
        transport: Some(good_transport(&frame)),
        second: Some(seen(Finish::Accepted)),
        out_of_order: Some(Decoded::Rejected),
    };
    let judge = |run: NoiseRun| judge_noise(&input, &frame, &run);
    assert_eq!(judge(run()), Ok(()));
    assert_eq!(
        judge(NoiseRun { corrupted: seen(Finish::Failed), ..run() }),
        Err(NoiseRule::Corrupted(HandshakeRule::InsideWindow))
    );
    assert_eq!(
        judge(NoiseRun { first: seen(Finish::Failed), ..run() }),
        Err(NoiseRule::First(HandshakeRule::InsideWindow))
    );
    assert_eq!(
        judge(NoiseRun { transport: None, ..run() }),
        Err(NoiseRule::Transport(TransportRule::Encrypts))
    );
    assert_eq!(
        judge(NoiseRun { second: None, ..run() }),
        Err(NoiseRule::Second(HandshakeRule::Act1))
    );
    assert_eq!(
        judge(NoiseRun { out_of_order: Some(Decoded::Stalled), ..run() }),
        Err(NoiseRule::OutOfOrder)
    );
    assert_eq!(judge(NoiseRun { out_of_order: None, ..run() }), Err(NoiseRule::OutOfOrder));
}
