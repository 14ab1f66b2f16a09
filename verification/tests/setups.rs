use sv2_conformance::setup::{
    check_setup, judge_setup, observe_setup, setup_connection, str0255, Peer, Protocol, SetupRule,
    SetupRun, SetupViolation,
};

fn peer(min_version: u16, max_version: u16, flags: u32) -> Peer {
    Peer {
        protocol: 0,
        min_version,
        max_version,
        flags,
        endpoint_port: 3333,
        endpoint_host: "pool.example".to_string(),
        vendor: "acme".to_string(),
    }
}

#[test]
fn strings_are_cut_at_a_character() {
    assert_eq!(str0255("short"), "short");
    let long = "a".repeat(300);
    assert_eq!(str0255(&long).len(), 255);
    let exact = "a".repeat(255);
    assert_eq!(str0255(&exact), exact);
    // The character at byte 254 takes two bytes.
    let mut cut = "a".repeat(254);
    cut.push('\u{e9}');
    cut.push('b');
    assert_eq!(str0255(&cut), "a".repeat(254));
    let mut wide = "a".repeat(252);
    wide.push('\u{1f600}');
    assert_eq!(str0255(&wide).len(), 252);
}

#[test]
fn the_highest_common_version_is_negotiated() {
    let version = |a: (u16, u16), b: (u16, u16)| {
        let (run, verdict) = check_setup(&peer(a.0, a.1, 0), &peer(b.0, b.1, 0));
        assert!(verdict.is_ok());
        run.version_ab
    };
    assert_eq!(version((2, 5), (3, 9)), Some(5));
    assert_eq!(version((3, 9), (2, 5)), Some(5));
    assert_eq!(version((2, 2), (2, 2)), Some(2));
    assert_eq!(version((2, 3), (4, 5)), None);
    assert_eq!(version((4, 5), (2, 3)), None);
    assert_eq!(version((0, u16::MAX), (7, 7)), Some(7));
}

#[test]
fn flags_and_strings_of_any_kind_break_no_rule() {
    let mut a = peer(2, 2, 0xffff_ffff);
    a.protocol = 9;
    a.endpoint_host = "h".repeat(400);
    a.vendor = String::new();
    let (run, verdict) = check_setup(&a, &peer(2, 2, 6));
    assert!(verdict.is_ok());
    assert_eq!(run.version_ab, Some(2));
    assert_eq!(run.message.host, "h".repeat(255));
    assert!(check_setup(&peer(5, 2, 1), &peer(2, 2, 2)).1.is_ok());
}

#[test]
fn a_setup_message_is_for_the_protocol_that_was_asked_for() {
    let mut a = peer(2, 3, 5);
    a.protocol = 9;
    for protocol in [Protocol::Mining, Protocol::JobDeclaration, Protocol::TemplateDistribution] {
        let message = setup_connection(&a, protocol);
        assert_eq!(message.protocol, protocol);
        assert_eq!((message.min_version, message.max_version, message.flags), (2, 3, 5));
        assert_eq!((message.host.as_str(), message.port), ("pool.example", 3333));
        assert_eq!(message.vendor, "acme");
        assert_eq!(message.hardware_version, "");
        assert_eq!(message.firmware, "");
        assert_eq!(message.device_id, "");
    }
    assert_eq!(Protocol::Mining.number(), 0);
    assert_eq!(Protocol::JobDeclaration.number(), 1);
    assert_eq!(Protocol::TemplateDistribution.number(), 2);
}

#[test]
fn a_setup_message_has_its_wire_format() {
    let a = peer(2, 0x0304, 0x0a0b_0c0d);
    let run = observe_setup(&a, &peer(2, 2, 0));
    let mut expected = vec![0, 2, 0, 4, 3, 0x0d, 0x0c, 0x0b, 0x0a, 12];
    expected.extend_from_slice(b"pool.example");
    expected.extend_from_slice(&[0x05, 0x0d, 4]);
    expected.extend_from_slice(b"acme");
    expected.extend_from_slice(&[0, 0, 0]);
    assert_eq!(run.encoded, expected);
    let decoded = run.decoded.unwrap();
    assert_eq!(decoded.protocol, 0);
    assert_eq!((decoded.min_version, decoded.max_version), (2, 0x0304));
    assert_eq!(decoded.flags, 0x0a0b_0c0d);
    assert_eq!(decoded.host, b"pool.example".to_vec());
    assert_eq!(decoded.port, 3333);
    assert_eq!(decoded.vendor, b"acme".to_vec());
    assert!(decoded.hardware_version.is_empty());
    assert!(decoded.firmware.is_empty());
    assert!(decoded.device_id.is_empty());
}

#[test]
fn flags_are_read_bit_by_bit() {
    let a = peer(2, 2, 0b110);
    let b = peer(2, 2, 0b001);
    let run = observe_setup(&a, &b);
    assert!(!run.reads_a.std_job);
    assert!(run.reads_a.work_selection);
    assert!(run.reads_a.version_rolling);
    assert!(!run.reads_a.declare_tx_data);
    assert!(run.reads_b.std_job);
    assert!(!run.reads_b.work_selection);
    assert!(!run.reads_b.version_rolling);
    assert!(run.reads_b.declare_tx_data);
    assert!(!run.standard_job);
    assert_eq!(run.flags_set, 0b111);
    assert_eq!(run.protocol_a, Some(0));
    assert!(run.mining_reflexive);
    assert!(run.jd_reflexive);
}

#[test]
fn only_three_protocols_exist() {
    let mut a = peer(2, 2, 0);
    let b = peer(2, 2, 0);
    for value in 0..=255u8 {
        a.protocol = value;
        let run = observe_setup(&a, &b);
        assert_eq!(run.protocol_a, if value <= 2 { Some(value) } else { None });
    }
}

#[test]
fn compatibility_of_flags_ignores_undefined_bits() {
    let a = peer(2, 2, 0xffff_fff8);
    let b = peer(2, 2, 0);
    let run = observe_setup(&a, &b);
    assert!(run.mining);
    assert!(run.mining_defined);
    assert!(run.jd);
    assert!(run.jd_defined);
    let a = peer(2, 2, 1);
    let run = observe_setup(&a, &b);
    assert!(!run.jd);
    assert!(!run.jd_defined);
    assert!(!run.mining);
    assert!(!run.mining_defined);
}

fn broken(change: fn(&mut SetupRun, &mut Peer, &mut Peer)) -> Result<(), SetupRule> {
    let mut a = peer(2, 5, 0b101);
    let mut b = peer(3, 9, 0b010);
    let mut run = observe_setup(&a, &b);
    change(&mut run, &mut a, &mut b);
    judge_setup(&a, &b, &run)
}

#[test]
fn every_setup_rule_can_be_broken() {
    assert_eq!(broken(|_, _, _| {}), Ok(()));
    assert_eq!(broken(|run, _, _| run.protocol_a = None), Err(SetupRule::ProtocolA));
    assert_eq!(broken(|run, _, _| run.protocol_b = Some(1)), Err(SetupRule::ProtocolB));
    assert_eq!(broken(|run, _, _| run.reads_a.std_job = false), Err(SetupRule::StdJobA));
    assert_eq!(
        broken(|run, _, _| run.reads_a.work_selection = true),
        Err(SetupRule::WorkSelectionA)
    );
    assert_eq!(
        broken(|run, _, _| run.reads_a.version_rolling = false),
        Err(SetupRule::VersionRollingA)
    );
    assert_eq!(
        broken(|run, _, _| run.reads_a.declare_tx_data = false),
        Err(SetupRule::DeclareTxDataA)
    );
    assert_eq!(broken(|run, _, _| run.reads_b.std_job = true), Err(SetupRule::StdJobB));
    assert_eq!(
        broken(|run, _, _| run.reads_b.work_selection = false),
        Err(SetupRule::WorkSelectionB)
    );
    assert_eq!(
        broken(|run, _, _| run.reads_b.version_rolling = true),
        Err(SetupRule::VersionRollingB)
    );
    assert_eq!(
        broken(|run, _, _| run.reads_b.declare_tx_data = true),
        Err(SetupRule::DeclareTxDataB)
    );
    assert_eq!(broken(|run, _, _| run.standard_job = false), Err(SetupRule::Accessor));
    assert_eq!(broken(|run, _, _| run.flags_set = 0), Err(SetupRule::Setter));
    assert_eq!(broken(|run, _, _| run.decoded = None), Err(SetupRule::RoundTrip));
    assert_eq!(
        broken(|run, _, _| run.decoded.as_mut().unwrap().port = 1),
        Err(SetupRule::RoundTrip)
    );
    assert_eq!(
        broken(|run, _, _| run.decoded.as_mut().unwrap().protocol = 1),
        Err(SetupRule::RoundTrip)
    );
    assert_eq!(
        broken(|run, _, _| run.decoded.as_mut().unwrap().firmware.push(1)),
        Err(SetupRule::RoundTrip)
    );
    assert_eq!(broken(|run, _, _| run.encoded[0] = 1), Err(SetupRule::Discriminant));
    assert_eq!(broken(|run, _, _| run.encoded[1] = 9), Err(SetupRule::MinVersion));
    assert_eq!(broken(|run, _, _| run.encoded[4] = 9), Err(SetupRule::MaxVersion));
    assert_eq!(broken(|run, _, _| run.encoded[8] = 9), Err(SetupRule::Flags));
    assert_eq!(broken(|run, _, _| run.version_ba = None), Err(SetupRule::Symmetric));
    assert_eq!(
        broken(|run, _, _| {
            run.version_ab = None;
            run.version_ba = None;
        }),
        Err(SetupRule::Overlap)
    );
    assert_eq!(
        broken(|run, _, _| {
            run.version_ab = Some(4);
            run.version_ba = Some(4);
        }),
        Err(SetupRule::Highest)
    );
    assert_eq!(broken(|run, _, _| run.mining_reflexive = false), Err(SetupRule::MiningReflexive));
    assert_eq!(broken(|run, _, _| run.jd_reflexive = false), Err(SetupRule::JdReflexive));
    assert_eq!(broken(|run, _, _| run.jd = !run.jd), Err(SetupRule::JdBits));
    assert_eq!(broken(|run, _, _| run.mining = !run.mining), Err(SetupRule::MiningBits));
}

#[test]
fn an_inverted_range_is_not_judged() {
    let a = peer(9, 2, 0);
    let b = peer(3, 4, 0);
    let mut run = observe_setup(&a, &b);
    run.version_ab = Some(1000);
    run.version_ba = None;
    assert_eq!(judge_setup(&a, &b, &run), Ok(()));
}

#[test]
fn violations_name_a_code_or_a_rule() {
    assert!(matches!(SetupViolation::ErrorCode("x"), SetupViolation::ErrorCode("x")));
    assert!(matches!(
        SetupViolation::Peers(SetupRule::Flags),
        SetupViolation::Peers(SetupRule::Flags)
    ));
}
