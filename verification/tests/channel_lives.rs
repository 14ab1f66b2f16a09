use bitcoin::Target;
use channels_sv2::server::extended::ExtendedChannel;
use sv2_conformance::lifecycle::{
    check_channel, observe_activation, observe_shares, observe_stale, observe_template,
    ChannelInput, ChannelRun, ChannelViolation,
};
use sv2_conformance::shares::{Expected, Reason, ShareInput};
use sv2_conformance::tips::{ActivationPlan, ActivationRule, TipReply};
use sv2_conformance::trials::{ShareReply, Tally};

fn share(nonce: u32) -> ShareInput {
    ShareInput {
        nonce,
        ntime_offset: 0,
        version_xor: 0,
        version_mode: 0,
        sequence_number: nonce,
        extranonce: vec![nonce as u8],
        wrong_job_id: false,
        wrong_extranonce_len: false,
        repeat_previous: false,
    }
}

fn input() -> ChannelInput {
    ChannelInput {
        local_prefix: vec![0xaa; 3],
        rollable: 4,
        version_rolling_allowed: true,
        job_target: [0xff; 32],
        template_id: 9,
        version: 0x2000_0000,
        coinbase_prefix: vec![3, 1, 2, 3],
        input_sequence: 0xffff_fffe,
        value_remaining: 5_000_000_000,
        locktime: 17,
        template_output_script: vec![0x6a, 1, 2],
        reward_script: vec![0x51],
        path: vec![[0x11; 32], [0x22; 32]],
        prev_hash: [0x33; 32],
        header_timestamp: 1_700_000_000,
        shares: vec![],
    }
}

fn open(input: &ChannelInput) -> (ExtendedChannel, Vec<u8>) {
    open_tagged(input, "tag")
}

fn open_tagged(input: &ChannelInput, tag: &str) -> (ExtendedChannel, Vec<u8>) {
    let prefix = input.lease().unwrap();
    let bytes = prefix.as_bytes().to_vec();
    let channel = ExtendedChannel::new_for_pool(
        7,
        "user".to_string(),
        prefix,
        Target::MAX,
        1_000_000.0,
        input.version_rolling_allowed,
        input.rollable_size() as u16,
        4,
        6.0,
        tag.to_string(),
        None,
    );
    match channel {
        Ok(channel) => (channel, bytes),
        Err(_) => panic!("the channel does not open"),
    }
}

fn checked(input: &ChannelInput) -> (ChannelRun, Result<(), ChannelViolation>) {
    let (mut channel, prefix) = open(input);
    check_channel(&mut channel, &prefix, input)
}

#[test]
fn a_slot_is_leased_for_the_channel() {
    let prefix = input().lease().unwrap();
    assert_eq!(prefix.len(), 4);
    assert_eq!(&prefix.as_bytes()[..3], &[0xaa; 3]);
    assert_eq!(prefix.as_bytes()[3], 0);
    let long = ChannelInput { local_prefix: vec![1; 99], rollable: 0xff, ..input() };
    assert_eq!(long.rollable_size(), 15);
    assert_eq!(long.lease().unwrap().len(), 13);
}

#[test]
fn templates_are_cut_to_size() {
    let long = ChannelInput {
        coinbase_prefix: vec![1; 20],
        template_output_script: vec![2; 90],
        reward_script: vec![3; 90],
        path: vec![[4; 32]; 20],
        ..input()
    };
    let plan = long.template(&[5, 6]);
    assert_eq!(plan.coinbase_prefix, vec![1; 8]);
    assert_eq!(plan.output_script, vec![2; 40]);
    assert_eq!(plan.reward_script, vec![3; 40]);
    assert_eq!(plan.path.len(), 8);
    assert_eq!(plan.extranonce_prefix, vec![5, 6]);
    assert_eq!(plan.rollable, 4);
    assert_eq!(plan.template_id, 9);
}

#[test]
fn a_template_becomes_a_future_job() {
    let input = input();
    let (mut channel, prefix) = open(&input);
    let plan = input.template(&prefix);
    let run = observe_template(&mut channel, &plan);
    let overpaid = run.overpaid.unwrap();
    assert!(!overpaid.accepted);
    assert!(!overpaid.registered);
    assert!(run.accepted);
    assert!(!run.active);
    assert_eq!(run.full_size, 8);
    let job = run.job.unwrap();
    assert_eq!(Some(job.job_id), run.job_id);
    assert!(job.future);
    assert_eq!(job.min_ntime, None);
    assert_eq!(job.version, 0x2000_0000);
    assert_eq!(job.extranonce_prefix, prefix);
    assert_eq!(job.message.channel_id, 7);
    assert_eq!(job.message.path, vec![[0x11; 32], [0x22; 32]]);
    let coinbase = run.coinbase.unwrap();
    assert!(coinbase.is_coinbase);
    assert_eq!(coinbase.version, 2);
    assert_eq!(coinbase.lock_time, 17);
    assert_eq!(coinbase.inputs[0].sequence, 0xffff_fffe);
    assert_eq!(&coinbase.inputs[0].script[..4], &[3, 1, 2, 3]);
    assert_eq!(coinbase.outputs.len(), 2);
    assert_eq!((coinbase.outputs[0].value, &coinbase.outputs[0].script), (5_000_000_000, &vec![0x51]));
    assert_eq!((coinbase.outputs[1].value, &coinbase.outputs[1].script), (0, &vec![0x6a, 1, 2]));
}

#[test]
fn the_input_script_pushes_a_tag_and_the_extranonce() {
    let input = input();
    let (mut channel, prefix) = open(&input);
    let run = observe_template(&mut channel, &input.template(&prefix));
    let script = run.coinbase.unwrap().inputs[0].script.clone();
    let mut expected = vec![3, 1, 2, 3, 9];
    expected.extend(b"Sv2/tag//");
    expected.push(8);
    expected.extend([0; 8]);
    assert_eq!(script, expected);
}

#[test]
fn a_tag_that_one_opcode_cannot_push_is_refused() {
    let short = ChannelInput { local_prefix: vec![], rollable: 0, ..input() };
    let (mut channel, prefix) = open_tagged(&short, &"t".repeat(69));
    let (run, verdict) = check_channel(&mut channel, &prefix, &short);
    assert_eq!(verdict, Ok(()));
    assert!(run.template.accepted);
    assert!(run.stale.is_some());
    let (mut channel, prefix) = open_tagged(&short, &"t".repeat(70));
    let (run, verdict) = check_channel(&mut channel, &prefix, &short);
    assert_eq!(verdict, Ok(()));
    assert!(!run.template.accepted);
    assert!(run.activation.is_none());
}

#[test]
fn an_input_script_beyond_a_hundred_bytes_is_refused() {
    let input = input();
    for (len, accepted) in [(81, true), (82, false)] {
        let (mut channel, prefix) = open(&input);
        let mut plan = input.template(&prefix);
        plan.coinbase_prefix = vec![1; len];
        let run = observe_template(&mut channel, &plan);
        assert_eq!(run.accepted, accepted);
    }
}

#[test]
fn only_a_known_template_is_activated() {
    let input = input();
    let (mut channel, prefix) = open(&input);
    let run = observe_template(&mut channel, &input.template(&prefix));
    let plan = ActivationPlan {
        template_id: 9,
        job_id: run.job_id.unwrap(),
        target: input.job_target,
        prev_hash: input.prev_hash,
        header_timestamp: input.header_timestamp,
    };
    let run = observe_activation(&mut channel, &plan);
    assert!(run.target_accepted);
    assert_eq!(run.target, [0xff; 32]);
    assert_eq!(run.unknown, TipReply::NotFound);
    assert!(!run.unknown_active);
    assert_eq!(run.known, TipReply::Accepted);
    let active = run.active.unwrap();
    assert_eq!(active.job_id, plan.job_id);
    assert!(!active.future);
    assert_eq!(active.min_ntime, Some(1_700_000_000));
    let tip = run.tip.unwrap();
    assert_eq!((tip.prev_hash, tip.nbits, tip.min_ntime), ([0x33; 32], 0x1d00_ffff, 1_700_000_000));
}

#[test]
fn a_channel_without_jobs_takes_any_tip() {
    let input = input();
    let (mut channel, _) = open(&input);
    let plan = ActivationPlan {
        template_id: 9,
        job_id: 1,
        target: input.job_target,
        prev_hash: input.prev_hash,
        header_timestamp: 5,
    };
    let run = observe_activation(&mut channel, &plan);
    assert_eq!(run.unknown, TipReply::Accepted);
    assert!(run.active.is_none());
    assert_eq!(run.tip.unwrap().min_ntime, 5);
}

#[test]
fn a_channel_that_refuses_a_target_of_zero_breaks_a_rule() {
    let zero = ChannelInput { job_target: [0; 32], ..input() };
    let (run, verdict) = checked(&zero);
    assert_eq!(
        verdict,
        Err(ChannelViolation::Activation(ActivationRule::TargetAccepted))
    );
    assert!(run.template.accepted);
    let (_, activation) = run.activation.unwrap();
    assert!(!activation.target_accepted);
    assert_ne!(activation.target, [0; 32]);
    assert_eq!(activation.unknown, TipReply::NotFound);
    assert_eq!(activation.known, TipReply::Accepted);
    assert!(activation.active.is_some());
    assert!(run.shares.is_none());
    assert!(run.stale.is_none());
}

#[test]
fn a_channel_goes_through_the_life_of_a_job() {
    let mut lively = input();
    lively.shares = vec![
        share(1),
        share(2),
        ShareInput { repeat_previous: true, ..share(3) },
        ShareInput { wrong_job_id: true, ..share(4) },
        ShareInput { wrong_extranonce_len: true, ..share(5) },
        ShareInput { ntime_offset: -1, ..share(6) },
        ShareInput { ntime_offset: 7201, ..share(7) },
        ShareInput { version_mode: 1, version_xor: u32::MAX, ..share(8) },
        ShareInput { version_mode: 2, version_xor: 1, ..share(9) },
        ShareInput { wrong_job_id: true, ntime_offset: -5, ..share(10) },
    ];
    let (run, verdict) = checked(&lively);
    assert_eq!(verdict, Ok(()));
    let (_, trials) = run.shares.unwrap();
    let expected: Vec<Expected> = trials.iter().map(|trial| trial.expected).collect();
    assert_eq!(
        expected,
        vec![
            Expected::Accept { block: false },
            Expected::Accept { block: false },
            Expected::Duplicate,
            Expected::RejectExactly(Reason::InvalidJobId),
            Expected::RejectExactly(Reason::BadExtranonceSize),
            Expected::RejectExactly(Reason::InvalidShare),
            Expected::RejectExactly(Reason::InvalidShare),
            Expected::Accept { block: false },
            Expected::RejectExactly(Reason::InvalidVersionBit),
            Expected::Reject,
        ]
    );
    assert_eq!(
        trials[9].tally,
        Tally { accepted: 3, rejected: 7, blocks: 0, last_sequence: 8 }
    );
    assert!(matches!(trials[0].reply, ShareReply::Valid { hash } if hash == trials[0].hash));
    assert!(matches!(trials[2].reply, ShareReply::Duplicate { .. }));
    assert!(matches!(trials[3].reply, ShareReply::Refused { code: "invalid-job-id" }));
    let stale = run.stale.unwrap();
    assert_eq!(stale.tip, TipReply::Accepted);
    assert!(!stale.active);
    assert!(matches!(stale.reply, ShareReply::Stale { .. }));
}

#[test]
fn hard_targets_and_fixed_versions_are_kept() {
    let mut hard = input();
    hard.job_target = [0; 32];
    hard.job_target[0] = 1;
    hard.version_rolling_allowed = false;
    hard.shares = vec![
        share(1),
        ShareInput { version_mode: 1, version_xor: 0x20, ..share(2) },
    ];
    let (run, verdict) = checked(&hard);
    assert_eq!(verdict, Ok(()));
    let (_, trials) = run.shares.unwrap();
    assert_eq!(trials[0].expected, Expected::RejectExactly(Reason::DifficultyTooLow));
    assert_eq!(trials[1].expected, Expected::RejectExactly(Reason::VersionRollingNotAllowed));
    assert!(matches!(trials[1].reply, ShareReply::Refused { code: "version-rolling-not-allowed" }));
}

#[test]
fn at_most_twenty_four_shares_are_submitted() {
    let mut many = input();
    many.shares = (0..40).map(share).collect();
    let (run, verdict) = checked(&many);
    assert_eq!(verdict, Ok(()));
    let (_, trials) = run.shares.unwrap();
    assert_eq!(trials.len(), 24);
    assert_eq!(trials[23].tally.accepted, 24);
}

#[test]
fn the_largest_value_cannot_be_overpaid() {
    let rich = ChannelInput { value_remaining: u64::MAX, ..input() };
    let (run, verdict) = checked(&rich);
    assert_eq!(verdict, Ok(()));
    assert!(run.template.overpaid.is_none());
}

#[test]
fn template_ids_wrap_around() {
    let last = ChannelInput { template_id: u64::MAX, shares: vec![share(1)], ..input() };
    let (run, verdict) = checked(&last);
    assert_eq!(verdict, Ok(()));
    assert!(run.stale.is_some());
}

#[test]
fn a_channel_that_has_counted_before_breaks_a_rule() {
    let mut lively = input();
    lively.shares = vec![share(1)];
    let (mut channel, prefix) = open(&lively);
    let (_, verdict) = check_channel(&mut channel, &prefix, &lively);
    assert_eq!(verdict, Ok(()));
    let next = ChannelInput { template_id: 10, ..lively };
    let (run, verdict) = check_channel(&mut channel, &prefix, &next);
    assert!(matches!(verdict, Err(ChannelViolation::Share(violation)) if violation.index == 0));
    assert!(run.stale.is_none());
}

#[test]
fn shares_and_tips_can_be_observed_one_by_one() {
    let input = input();
    let (mut channel, prefix) = open(&input);
    let (run, verdict) = check_channel(&mut channel, &prefix, &input);
    assert_eq!(verdict, Ok(()));
    let (job, trials) = run.shares.unwrap();
    assert!(trials.is_empty());
    // The chain tip has moved on: the job is stale.
    let trials = observe_shares(&mut channel, &job, 9, &vec![share(1)]);
    assert!(matches!(trials[0].reply, ShareReply::Stale { .. }));
    let stale = observe_stale(&mut channel, &job, 9);
    assert_eq!(stale.tip, TipReply::Accepted);
}
