use sv2_conformance::jobs::{
    adds_up, judge_template, same_path, zeros_at_end, JobMessage, JobSeen, OverpaidSeen,
    TemplatePlan, TemplateRule, TemplateRun, TxInput, TxSeen,
};
use sv2_conformance::merkle::Output;
use sv2_conformance::tips::{
    judge_activation, judge_stale, ActivationPlan, ActivationRule, ActivationRun, StaleRule,
    StaleRun, TipReply, TipSeen,
};
use sv2_conformance::trials::ShareReply;

fn plan() -> TemplatePlan {
    TemplatePlan {
        template_id: 5,
        version: 0x2000_0000,
        coinbase_prefix: vec![3, 1, 2, 3],
        input_sequence: 8,
        value_remaining: 50,
        locktime: 9,
        output_script: vec![0x6a],
        reward_script: vec![0x51],
        path: vec![[4; 32]],
        extranonce_prefix: vec![1, 0],
        rollable: 2,
        version_rolling_allowed: true,
    }
}

fn job() -> JobSeen {
    JobSeen {
        job_id: 1,
        future: true,
        version: 0x2000_0000,
        version_rolling_allowed: true,
        min_ntime: None,
        extranonce_prefix: vec![1, 0],
        prefix: vec![7],
        suffix: vec![8],
        message: JobMessage {
            channel_id: 7,
            job_id: 1,
            version: 0x2000_0000,
            version_rolling_allowed: true,
            min_ntime: None,
            path: vec![[4; 32]],
            prefix: vec![7],
            suffix: vec![8],
        },
    }
}

fn coinbase() -> TxSeen {
    TxSeen {
        is_coinbase: true,
        version: 2,
        lock_time: 9,
        inputs: vec![TxInput { sequence: 8, script: vec![3, 1, 2, 3, 9, 0, 0, 0, 0] }],
        outputs: vec![
            Output { value: 50, script: vec![0x51] },
            Output { value: 0, script: vec![0x6a] },
        ],
    }
}

fn run() -> TemplateRun {
    TemplateRun {
        overpaid: Some(OverpaidSeen { accepted: false, registered: false }),
        accepted: true,
        active: false,
        job_id: Some(1),
        job: Some(job()),
        full_size: 4,
        coinbase: Some(coinbase()),
    }
}

fn broken(change: fn(&mut TemplateRun)) -> Result<(), TemplateRule> {
    let mut run = run();
    change(&mut run);
    judge_template(&plan(), &run)
}

fn broken_job(change: fn(&mut JobSeen)) -> Result<(), TemplateRule> {
    let mut run = run();
    change(run.job.as_mut().unwrap());
    judge_template(&plan(), &run)
}

fn broken_coinbase(change: fn(&mut TxSeen)) -> Result<(), TemplateRule> {
    let mut run = run();
    change(run.coinbase.as_mut().unwrap());
    judge_template(&plan(), &run)
}

#[test]
fn every_template_rule_can_be_broken() {
    assert_eq!(broken(|_| {}), Ok(()));
    assert_eq!(broken(|run| run.overpaid = None), Ok(()));
    assert_eq!(
        broken(|run| run.overpaid.as_mut().unwrap().accepted = true),
        Err(TemplateRule::OverpaidRefused)
    );
    assert_eq!(
        broken(|run| run.overpaid.as_mut().unwrap().registered = true),
        Err(TemplateRule::OverpaidUnregistered)
    );
    assert_eq!(broken(|run| run.active = true), Err(TemplateRule::NotActive));
    assert_eq!(broken(|run| run.job_id = None), Err(TemplateRule::Registered));
    assert_eq!(broken(|run| run.job = None), Err(TemplateRule::Retrievable));
    assert_eq!(broken(|run| run.coinbase = None), Err(TemplateRule::Transaction));
}

#[test]
fn a_refused_template_breaks_no_rule_about_its_job() {
    assert_eq!(
        broken(|run| {
            run.accepted = false;
            run.active = true;
            run.job = None;
            run.coinbase = None;
        }),
        Ok(())
    );
    assert_eq!(
        broken(|run| {
            run.accepted = false;
            run.overpaid.as_mut().unwrap().accepted = true;
        }),
        Err(TemplateRule::OverpaidRefused)
    );
}

#[test]
fn every_rule_about_a_job_can_be_broken() {
    assert_eq!(broken_job(|job| job.future = false), Err(TemplateRule::Future));
    assert_eq!(broken_job(|job| job.job_id = 2), Err(TemplateRule::JobId));
    assert_eq!(broken_job(|job| job.version = 2), Err(TemplateRule::Version));
    assert_eq!(
        broken_job(|job| job.version_rolling_allowed = false),
        Err(TemplateRule::Rolling)
    );
    assert_eq!(
        broken_job(|job| job.extranonce_prefix = vec![]),
        Err(TemplateRule::ExtranoncePrefix)
    );
    assert_eq!(broken_job(|job| job.message.channel_id = 8), Err(TemplateRule::MessageChannel));
    assert_eq!(broken_job(|job| job.message.job_id = 8), Err(TemplateRule::MessageJobId));
    assert_eq!(broken_job(|job| job.message.version = 8), Err(TemplateRule::MessageVersion));
    assert_eq!(
        broken_job(|job| job.message.version_rolling_allowed = false),
        Err(TemplateRule::MessageRolling)
    );
    assert_eq!(
        broken_job(|job| job.message.min_ntime = Some(1)),
        Err(TemplateRule::MessageMinNtime)
    );
    assert_eq!(broken_job(|job| job.message.path = vec![]), Err(TemplateRule::MessagePath));
    assert_eq!(broken_job(|job| job.prefix = vec![]), Err(TemplateRule::Prefix));
    assert_eq!(broken_job(|job| job.suffix = vec![]), Err(TemplateRule::Suffix));
}

#[test]
fn every_rule_about_a_coinbase_can_be_broken() {
    assert_eq!(broken_coinbase(|tx| tx.is_coinbase = false), Err(TemplateRule::Coinbase));
    assert_eq!(broken_coinbase(|tx| tx.version = 1), Err(TemplateRule::TxVersion));
    assert_eq!(broken_coinbase(|tx| tx.lock_time = 1), Err(TemplateRule::LockTime));
    assert_eq!(broken_coinbase(|tx| tx.inputs.clear()), Err(TemplateRule::OneInput));
    assert_eq!(
        broken_coinbase(|tx| tx.inputs[0].sequence = 1),
        Err(TemplateRule::InputSequence)
    );
    assert_eq!(
        broken_coinbase(|tx| {
            let mut script = vec![3, 1, 2, 3];
            script.resize(101, 0);
            tx.inputs[0].script = script;
        }),
        Err(TemplateRule::ScriptLength)
    );
    assert_eq!(
        broken_coinbase(|tx| tx.inputs[0].script[0] = 9),
        Err(TemplateRule::ScriptPrefix)
    );
    assert_eq!(
        broken_coinbase(|tx| tx.inputs[0].script[5] = 9),
        Err(TemplateRule::ScriptExtranonce)
    );
    assert_eq!(broken_coinbase(|tx| tx.outputs[0].value = 49), Err(TemplateRule::RewardFirst));
    assert_eq!(broken_coinbase(|tx| tx.outputs.clear()), Err(TemplateRule::RewardFirst));
    assert_eq!(
        broken_coinbase(|tx| tx.outputs[1].script = vec![]),
        Err(TemplateRule::TemplateLast)
    );
    assert_eq!(
        broken_coinbase(|tx| tx.outputs.insert(1, Output { value: 1, script: vec![] })),
        Err(TemplateRule::Value)
    );
}

#[test]
fn amounts_are_summed_without_wrapping() {
    let outputs = |values: &[u64]| -> Vec<Output> {
        values.iter().map(|value| Output { value: *value, script: vec![] }).collect()
    };
    assert!(adds_up(&outputs(&[]), 0));
    assert!(adds_up(&outputs(&[1, 2, 3]), 6));
    assert!(!adds_up(&outputs(&[1, 2, 3]), 7));
    assert!(!adds_up(&outputs(&[u64::MAX, 1]), 0));
    assert!(adds_up(&outputs(&[u64::MAX, 0]), u64::MAX));
}

#[test]
fn paths_and_zeros_are_compared() {
    assert!(same_path(&[[1; 32], [2; 32]], &[[1; 32], [2; 32]]));
    assert!(!same_path(&[[1; 32], [2; 32]], &[[1; 32]]));
    assert!(!same_path(&[[1; 32]], &[[2; 32]]));
    assert!(zeros_at_end(&[1, 0, 0], 2));
    assert!(zeros_at_end(&[1, 0, 0], 0));
    assert!(!zeros_at_end(&[1, 0, 0], 3));
    assert!(!zeros_at_end(&[0], 2));
}

fn activation(change: fn(&mut ActivationRun)) -> Result<(), ActivationRule> {
    let plan = ActivationPlan {
        template_id: 5,
        job_id: 1,
        target: [1; 32],
        prev_hash: [2; 32],
        header_timestamp: 1000,
    };
    let mut run = ActivationRun {
        target_accepted: true,
        target: [1; 32],
        unknown: TipReply::NotFound,
        unknown_active: false,
        known: TipReply::Accepted,
        active: Some(JobSeen { future: false, min_ntime: Some(1000), ..job() }),
        tip: Some(TipSeen { prev_hash: [2; 32], nbits: 0x1d00_ffff, min_ntime: 1000 }),
    };
    change(&mut run);
    judge_activation(&plan, &run)
}

#[test]
fn every_activation_rule_can_be_broken() {
    assert_eq!(activation(|_| {}), Ok(()));
    assert_eq!(
        activation(|run| run.target_accepted = false),
        Err(ActivationRule::TargetAccepted)
    );
    assert_eq!(activation(|run| run.target = [3; 32]), Err(ActivationRule::Target));
    assert_eq!(
        activation(|run| run.unknown = TipReply::Accepted),
        Err(ActivationRule::UnknownRefused)
    );
    assert_eq!(
        activation(|run| run.unknown = TipReply::Refused),
        Err(ActivationRule::UnknownRefused)
    );
    assert_eq!(
        activation(|run| run.unknown_active = true),
        Err(ActivationRule::UnknownInactive)
    );
    assert_eq!(
        activation(|run| run.known = TipReply::NotFound),
        Err(ActivationRule::KnownAccepted)
    );
    assert_eq!(activation(|run| run.active = None), Err(ActivationRule::Activated));
    assert_eq!(
        activation(|run| run.active.as_mut().unwrap().job_id = 2),
        Err(ActivationRule::ActiveJobId)
    );
    assert_eq!(
        activation(|run| run.active.as_mut().unwrap().future = true),
        Err(ActivationRule::ActiveNotFuture)
    );
    assert_eq!(
        activation(|run| run.active.as_mut().unwrap().min_ntime = None),
        Err(ActivationRule::ActiveMinNtime)
    );
    assert_eq!(activation(|run| run.tip = None), Err(ActivationRule::TipSet));
    assert_eq!(
        activation(|run| run.tip.as_mut().unwrap().min_ntime = 1),
        Err(ActivationRule::TipMinNtime)
    );
    assert_eq!(
        activation(|run| run.tip.as_mut().unwrap().nbits = 1),
        Err(ActivationRule::TipNbits)
    );
    assert_eq!(
        activation(|run| run.tip.as_mut().unwrap().prev_hash = [0; 32]),
        Err(ActivationRule::TipPrevHash)
    );
}

#[test]
fn a_target_of_zero_must_be_accepted_too() {
    let plan = ActivationPlan {
        template_id: 5,
        job_id: 1,
        target: [0; 32],
        prev_hash: [2; 32],
        header_timestamp: 1000,
    };
    let mut run = ActivationRun {
        target_accepted: false,
        target: [0; 32],
        unknown: TipReply::NotFound,
        unknown_active: false,
        known: TipReply::Accepted,
        active: Some(JobSeen { future: false, min_ntime: Some(1000), ..job() }),
        tip: Some(TipSeen { prev_hash: [2; 32], nbits: 0x1d00_ffff, min_ntime: 1000 }),
    };
    assert_eq!(judge_activation(&plan, &run), Err(ActivationRule::TargetAccepted));
    run.target_accepted = true;
    assert_eq!(judge_activation(&plan, &run), Ok(()));
    run.target = [1; 32];
    assert_eq!(judge_activation(&plan, &run), Err(ActivationRule::Target));
}

#[test]
fn every_stale_rule_can_be_broken() {
    let run = |tip, active, reply| judge_stale(&StaleRun { tip, active, reply });
    let stale = || ShareReply::Stale { code: "stale-share" };
    assert_eq!(run(TipReply::Accepted, false, stale()), Ok(()));
    assert_eq!(run(TipReply::NotFound, false, stale()), Err(StaleRule::TipAccepted));
    assert_eq!(run(TipReply::Accepted, true, stale()), Err(StaleRule::NoneActive));
    assert_eq!(run(TipReply::Accepted, false, ShareReply::Uncoded), Err(StaleRule::Stale));
}
