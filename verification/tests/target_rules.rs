use sv2_conformance::targets::{
    harder_target, judge_open, judge_target, judge_update, OpenPlan, OpenReply, OpenRule, OpenRun,
    TargetRule, TargetRun, UpdateReply, UpdateRule, UpdateRun,
};

/// A target whose most significant byte is `top`.
fn target(top: u8) -> [u8; 32] {
    let mut bytes = [0; 32];
    bytes[31] = top;
    bytes
}

fn targets(change: fn(&mut TargetRun)) -> Result<(), TargetRule> {
    let mut run = TargetRun {
        first_at_most: true,
        first: Some(target(5)),
        second: Some(target(4)),
        eased: Some(target(9)),
        comes_back: Some(true),
        zero_rate: false,
        negative_rate: false,
        negative_hashrate: false,
    };
    change(&mut run);
    judge_target(&run)
}

#[test]
fn every_target_rule_can_be_broken() {
    assert_eq!(targets(|_| {}), Ok(()));
    assert_eq!(targets(|run| run.comes_back = None), Ok(()));
    assert_eq!(targets(|run| run.second = Some(target(5))), Ok(()));
    assert_eq!(targets(|run| run.first = None), Err(TargetRule::First));
    assert_eq!(targets(|run| run.second = None), Err(TargetRule::Second));
    assert_eq!(targets(|run| run.second = Some(target(6))), Err(TargetRule::Monotone));
    assert_eq!(targets(|run| run.first_at_most = false), Err(TargetRule::Monotone));
    assert_eq!(
        targets(|run| {
            run.first = Some([0; 32]);
            run.second = Some([0; 32]);
        }),
        Err(TargetRule::Nonzero)
    );
    assert_eq!(targets(|run| run.eased = None), Err(TargetRule::Eased));
    assert_eq!(targets(|run| run.eased = Some(target(4))), Err(TargetRule::EasedMonotone));
    assert_eq!(targets(|run| run.comes_back = Some(false)), Err(TargetRule::ComesBack));
    assert_eq!(targets(|run| run.zero_rate = true), Err(TargetRule::ZeroRate));
    assert_eq!(targets(|run| run.negative_rate = true), Err(TargetRule::NegativeRate));
    assert_eq!(targets(|run| run.negative_hashrate = true), Err(TargetRule::NegativeHashrate));
}

#[test]
fn the_harder_target_is_the_smaller_number() {
    let mut low = [0xff; 32];
    low[31] = 1;
    assert_eq!(harder_target(low, target(2)), low);
    assert_eq!(harder_target(target(2), low), low);
    assert_eq!(harder_target(target(2), target(2)), target(2));
}

fn opened(change: fn(&mut OpenRun)) -> Result<(), OpenRule> {
    let plan =
        OpenPlan { max_target: target(4), extranonce_prefix: vec![1, 2], rollable: 3 };
    let mut run = OpenRun {
        reply: OpenReply::Opened,
        hashrate_target: Some(target(5)),
        target: target(4),
        requested_max_target: target(4),
        channel_id: 7,
        extranonce_prefix: vec![1, 2],
        rollable: 3,
        full_size: 5,
        hashrate_kept: true,
        active: false,
        tip: false,
    };
    change(&mut run);
    judge_open(&plan, &run)
}

#[test]
fn every_rule_about_opening_can_be_broken() {
    assert_eq!(opened(|_| {}), Ok(()));
    assert_eq!(opened(|run| run.hashrate_target = None), Err(OpenRule::Hashrate));
    assert_eq!(
        opened(|run| run.reply = OpenReply::InvalidHashrate),
        Err(OpenRule::Hashrate)
    );
    assert_eq!(
        opened(|run| {
            run.reply = OpenReply::InvalidHashrate;
            run.hashrate_target = None;
            run.active = true;
        }),
        Ok(())
    );
    assert_eq!(opened(|run| run.reply = OpenReply::Refused), Ok(()));
    assert_eq!(opened(|run| run.target = target(3)), Err(OpenRule::Target));
    assert_eq!(
        opened(|run| {
            run.hashrate_target = Some(target(3));
            run.target = target(3);
        }),
        Ok(())
    );
    assert_eq!(opened(|run| run.target = target(5)), Err(OpenRule::Target));
    assert_eq!(opened(|run| run.requested_max_target = target(5)), Err(OpenRule::MaxTarget));
    assert_eq!(opened(|run| run.channel_id = 8), Err(OpenRule::ChannelId));
    assert_eq!(
        opened(|run| run.extranonce_prefix = vec![1]),
        Err(OpenRule::ExtranoncePrefix)
    );
    assert_eq!(opened(|run| run.rollable = 4), Err(OpenRule::Rollable));
    assert_eq!(opened(|run| run.full_size = 4), Err(OpenRule::FullSize));
    assert_eq!(opened(|run| run.full_size = 2), Err(OpenRule::FullSize));
    assert_eq!(opened(|run| run.hashrate_kept = false), Err(OpenRule::HashrateKept));
    assert_eq!(opened(|run| run.active = true), Err(OpenRule::NoneActive));
    assert_eq!(opened(|run| run.tip = true), Err(OpenRule::NoTip));
}

fn updated(change: fn(&mut UpdateRun)) -> Result<(), UpdateRule> {
    let mut run = UpdateRun {
        reply: UpdateReply::Updated,
        hashrate_target: Some(target(5)),
        requested: Some(target(3)),
        target_before: target(9),
        max_target_before: target(9),
        target: target(3),
        max_target: target(3),
        hashrate_kept: true,
    };
    change(&mut run);
    judge_update(&run)
}

#[test]
fn every_rule_about_updating_can_be_broken() {
    assert_eq!(updated(|_| {}), Ok(()));
    assert_eq!(
        updated(|run| {
            run.requested = None;
            run.target = target(5);
            run.max_target = target(9);
        }),
        Ok(())
    );
    assert_eq!(updated(|run| run.reply = UpdateReply::Refused), Err(UpdateRule::Reply));
    assert_eq!(
        updated(|run| {
            run.reply = UpdateReply::Refused;
            run.requested = Some([0; 32]);
        }),
        Err(UpdateRule::Reply)
    );
    assert_eq!(updated(|run| run.hashrate_target = None), Err(UpdateRule::Hashrate));
    assert_eq!(
        updated(|run| run.reply = UpdateReply::InvalidHashrate),
        Err(UpdateRule::Hashrate)
    );
    assert_eq!(updated(|run| run.target = target(5)), Err(UpdateRule::Target));
    assert_eq!(updated(|run| run.max_target = target(9)), Err(UpdateRule::MaxTarget));
    assert_eq!(updated(|run| run.hashrate_kept = false), Err(UpdateRule::HashrateKept));
}

#[test]
fn a_refused_update_changes_nothing() {
    let refused = |change: fn(&mut UpdateRun)| {
        let mut run = UpdateRun {
            reply: UpdateReply::InvalidHashrate,
            hashrate_target: None,
            requested: Some(target(3)),
            target_before: target(9),
            max_target_before: target(8),
            target: target(9),
            max_target: target(8),
            hashrate_kept: false,
        };
        change(&mut run);
        judge_update(&run)
    };
    assert_eq!(refused(|_| {}), Ok(()));
    assert_eq!(refused(|run| run.target = target(3)), Err(UpdateRule::TargetUnchanged));
    assert_eq!(refused(|run| run.max_target = target(3)), Err(UpdateRule::MaxTargetUnchanged));
    assert_eq!(
        refused(|run| run.hashrate_target = Some(target(1))),
        Err(UpdateRule::Hashrate)
    );
    assert_eq!(refused(|run| run.reply = UpdateReply::Refused), Err(UpdateRule::Reply));
}
