use bitcoin::hashes::{sha256d, Hash as Digest};
use sv2_conformance::shares::{
    build_share, expected_verdict, share_hash, Expected, Job, Reason, Share, ShareInput,
};
use sv2_conformance::trials::{
    judge_trial, judge_trials, ShareReply, ShareRule, ShareTrial, Tally, TrialViolation,
};

fn job() -> Job {
    Job {
        job_id: 3,
        version: 0x2000_0000,
        prefix: vec![1, 2],
        suffix: vec![3],
        path: vec![[9; 32]],
        extranonce_prefix: vec![4, 5],
        rollable: 4,
        target: [0xff; 32],
        prev_hash: [7; 32],
        min_ntime: 1000,
        version_rolling_allowed: true,
    }
}

fn input() -> ShareInput {
    ShareInput {
        nonce: 11,
        ntime_offset: 60,
        version_xor: 0,
        version_mode: 0,
        sequence_number: 21,
        extranonce: vec![8, 8],
        wrong_job_id: false,
        wrong_extranonce_len: false,
        repeat_previous: false,
    }
}

fn share() -> Share {
    build_share(&job(), &input(), None)
}

#[test]
fn shares_are_derived_from_a_job() {
    let share = share();
    assert_eq!(share.sequence_number, 21);
    assert_eq!(share.job_id, 3);
    assert_eq!(share.nonce, 11);
    assert_eq!(share.ntime, 1060);
    assert_eq!(share.version, 0x2000_0000);
    assert_eq!(share.extranonce, vec![8, 8, 0, 0]);
}

#[test]
fn shares_can_be_derived_wrong_on_purpose() {
    let wrong = ShareInput {
        wrong_job_id: true,
        wrong_extranonce_len: true,
        ntime_offset: -1001,
        version_xor: 0xffff_ffff,
        version_mode: 4,
        ..input()
    };
    let share = build_share(&job(), &wrong, None);
    assert_eq!(share.job_id, 4);
    assert_eq!(share.extranonce, vec![8, 8, 0, 0, 0]);
    assert_eq!(share.ntime, u32::MAX);
    assert_eq!(share.version, 0x2000_0000 ^ 0x1fff_ffe0);
    let any = ShareInput { version_mode: 2, ..wrong };
    assert_eq!(build_share(&job(), &any, None).version, !0x2000_0000);
    let full = Job { rollable: 32, job_id: u32::MAX, ..job() };
    let share = build_share(&full, &any, None);
    assert_eq!(share.extranonce.len(), 31);
    assert_eq!(share.job_id, 0);
}

#[test]
fn a_share_can_be_repeated() {
    let first = share();
    let repeat = ShareInput { nonce: 99, repeat_previous: true, ..input() };
    let again = build_share(&job(), &repeat, Some(&first));
    assert_eq!(again.nonce, 11);
    assert_eq!(again.extranonce, first.extranonce);
    assert_eq!(build_share(&job(), &repeat, None).nonce, 99);
}

#[test]
fn a_share_hashes_to_its_block_header() {
    let hash = |bytes: &[u8]| <sha256d::Hash as Digest>::hash(bytes).to_byte_array();
    let coinbase = [1, 2, 4, 5, 8, 8, 0, 0, 3];
    let mut node = hash(&coinbase).to_vec();
    node.extend_from_slice(&[9; 32]);
    let mut header = vec![0, 0, 0, 0x20];
    header.extend_from_slice(&[7; 32]);
    header.extend_from_slice(&hash(&node));
    header.extend_from_slice(&1060u32.to_le_bytes());
    header.extend_from_slice(&0x1d00_ffffu32.to_le_bytes());
    header.extend_from_slice(&11u32.to_le_bytes());
    assert_eq!(share_hash(&job(), &share()), hash(&header));
}

fn verdict(change: fn(&mut Share), job: Job) -> Expected {
    let mut share = share();
    change(&mut share);
    expected_verdict(&job, &share, &vec![])
}

#[test]
fn one_reason_is_named_and_several_are_not() {
    assert_eq!(verdict(|_| {}, job()), Expected::Accept { block: false });
    assert_eq!(
        verdict(|share| share.job_id = 4, job()),
        Expected::RejectExactly(Reason::InvalidJobId)
    );
    assert_eq!(
        verdict(|share| share.extranonce.push(0), job()),
        Expected::RejectExactly(Reason::BadExtranonceSize)
    );
    assert_eq!(
        verdict(|share| share.ntime = 999, job()),
        Expected::RejectExactly(Reason::InvalidShare)
    );
    assert_eq!(verdict(|share| share.ntime = 1000, job()), Expected::Accept { block: false });
    assert_eq!(verdict(|share| share.ntime = 8200, job()), Expected::Accept { block: false });
    assert_eq!(
        verdict(|share| share.ntime = 8201, job()),
        Expected::RejectExactly(Reason::InvalidShare)
    );
    assert_eq!(
        verdict(|share| share.version ^= 0x20, job()),
        Expected::Accept { block: false }
    );
    assert_eq!(
        verdict(|share| share.version ^= 0x10, job()),
        Expected::RejectExactly(Reason::InvalidVersionBit)
    );
    assert_eq!(
        verdict(
            |share| share.version ^= 0x20,
            Job { version_rolling_allowed: false, ..job() }
        ),
        Expected::RejectExactly(Reason::VersionRollingNotAllowed)
    );
    assert_eq!(
        verdict(
            |share| {
                share.job_id = 4;
                share.ntime = 0;
            },
            job()
        ),
        Expected::Reject
    );
    assert_eq!(
        verdict(
            |share| {
                share.version ^= 0x10;
                share.extranonce.push(0);
            },
            job()
        ),
        Expected::Reject
    );
}

#[test]
fn times_near_the_end_do_not_wrap() {
    let late = Job { min_ntime: u32::MAX - 10, ..job() };
    assert_eq!(
        verdict(|share| share.ntime = u32::MAX, late),
        Expected::Accept { block: false }
    );
}

#[test]
fn the_hash_decides_where_nothing_else_does() {
    let hash = share_hash(&job(), &share());
    let exact = Job { target: hash, ..job() };
    assert_eq!(verdict(|_| {}, exact), Expected::Accept { block: false });
    let none = Job { target: [0; 32], ..job() };
    assert_eq!(verdict(|_| {}, none), Expected::RejectExactly(Reason::DifficultyTooLow));
}

#[test]
fn an_accepted_share_is_a_duplicate_afterwards() {
    let hash = share_hash(&job(), &share());
    assert_eq!(
        expected_verdict(&job(), &share(), &vec![[0; 32], hash]),
        Expected::Duplicate
    );
    assert_eq!(
        expected_verdict(&job(), &share(), &vec![[0; 32]]),
        Expected::Accept { block: false }
    );
    let mut wrong = share();
    wrong.job_id = 9;
    assert_eq!(
        expected_verdict(&job(), &wrong, &vec![hash]),
        Expected::RejectExactly(Reason::InvalidJobId)
    );
}

#[test]
fn the_genesis_block_solves_a_block() {
    // The coinbase of the first block, cut around four of its bytes.
    let coinbase = bitcoin::consensus::serialize(
        &bitcoin::constants::genesis_block(bitcoin::Network::Bitcoin).txdata[0],
    );
    let genesis = Job {
        job_id: 1,
        version: 1,
        prefix: coinbase[..50].to_vec(),
        suffix: coinbase[56..].to_vec(),
        path: vec![],
        extranonce_prefix: coinbase[50..52].to_vec(),
        rollable: 4,
        target: [0; 32],
        prev_hash: [0; 32],
        min_ntime: 1_231_006_505,
        version_rolling_allowed: false,
    };
    let share = Share {
        sequence_number: 1,
        job_id: 1,
        nonce: 2_083_236_893,
        ntime: 1_231_006_505,
        version: 1,
        extranonce: coinbase[52..56].to_vec(),
    };
    let hash = share_hash(&genesis, &share);
    assert_eq!(&hash[26..], &[0x19, 0, 0, 0, 0, 0]);
    assert_eq!(hash[0], 0x6f);
    assert_eq!(expected_verdict(&genesis, &share, &vec![]), Expected::Accept { block: true });
    assert_eq!(expected_verdict(&genesis, &share, &vec![hash]), Expected::Duplicate);
}

#[test]
fn reasons_have_their_error_codes() {
    assert_eq!(Reason::InvalidJobId.code(), "invalid-job-id");
    assert_eq!(Reason::BadExtranonceSize.code(), "bad-extranonce-size");
    assert_eq!(Reason::InvalidShare.code(), "invalid-share");
    assert_eq!(Reason::VersionRollingNotAllowed.code(), "version-rolling-not-allowed");
    assert_eq!(Reason::InvalidVersionBit.code(), "invalid-non-rollable-version-bit");
    assert_eq!(Reason::DifficultyTooLow.code(), "difficulty-too-low");
}

#[test]
fn shares_are_counted() {
    let tally = Tally { accepted: 1, rejected: 2, blocks: 0, last_sequence: 5 };
    assert_eq!(
        tally.count(Expected::Accept { block: false }, 9),
        Tally { accepted: 2, rejected: 2, blocks: 0, last_sequence: 9 }
    );
    assert_eq!(
        tally.count(Expected::Accept { block: true }, 9),
        Tally { accepted: 2, rejected: 2, blocks: 1, last_sequence: 9 }
    );
    assert_eq!(
        tally.count(Expected::Duplicate, 9),
        Tally { accepted: 1, rejected: 3, blocks: 0, last_sequence: 5 }
    );
    assert_eq!(
        tally.count(Expected::RejectExactly(Reason::InvalidShare), 9),
        Tally { accepted: 1, rejected: 3, blocks: 0, last_sequence: 5 }
    );
}

fn trial(expected: Expected, reply: ShareReply) -> ShareTrial {
    let due = Tally { accepted: 1, rejected: 1, blocks: 0, last_sequence: 2 };
    ShareTrial {
        share: share(),
        hash: [5; 32],
        expected,
        template_id: 77,
        reply,
        block_coinbase: true,
        due,
        tally: due,
    }
}

fn judged(expected: Expected, reply: ShareReply) -> Result<(), ShareRule> {
    judge_trial(&trial(expected, reply))
}

#[test]
fn replies_must_suit_the_verdict() {
    let valid = || ShareReply::Valid { hash: [5; 32] };
    let block =
        || ShareReply::Block { hash: [5; 32], template_id: Some(77), coinbase: vec![1] };
    let duplicate = || ShareReply::Duplicate { code: "duplicate-share" };
    let stale = || ShareReply::Stale { code: "stale-share" };
    let refused = |code| ShareReply::Refused { code };
    let accept = Expected::Accept { block: false };
    let solve = Expected::Accept { block: true };
    let exactly = Expected::RejectExactly(Reason::InvalidShare);
    assert_eq!(judged(accept, valid()), Ok(()));
    assert_eq!(judged(accept, block()), Err(ShareRule::Outcome));
    assert_eq!(judged(accept, duplicate()), Err(ShareRule::Outcome));
    assert_eq!(judged(solve, block()), Ok(()));
    assert_eq!(judged(solve, valid()), Err(ShareRule::Outcome));
    assert_eq!(judged(Expected::Duplicate, duplicate()), Ok(()));
    assert_eq!(judged(Expected::Duplicate, stale()), Err(ShareRule::Outcome));
    assert_eq!(judged(Expected::Duplicate, valid()), Err(ShareRule::Outcome));
    assert_eq!(judged(Expected::Reject, stale()), Ok(()));
    assert_eq!(judged(Expected::Reject, ShareReply::Uncoded), Ok(()));
    assert_eq!(judged(Expected::Reject, refused("x")), Ok(()));
    assert_eq!(judged(Expected::Reject, block()), Err(ShareRule::Outcome));
    assert_eq!(judged(exactly, refused("invalid-share")), Ok(()));
    assert_eq!(judged(exactly, refused("stale-share")), Err(ShareRule::ErrorCode));
    assert_eq!(judged(exactly, ShareReply::Stale { code: "invalid-share" }), Ok(()));
    assert_eq!(judged(exactly, ShareReply::Uncoded), Err(ShareRule::Outcome));
    assert_eq!(judged(exactly, valid()), Err(ShareRule::Outcome));
}

#[test]
fn every_rule_about_an_accepted_share_can_be_broken() {
    let accept = Expected::Accept { block: false };
    let solve = Expected::Accept { block: true };
    assert_eq!(judged(accept, ShareReply::Valid { hash: [6; 32] }), Err(ShareRule::ShareHash));
    let block = |hash, template_id| ShareReply::Block { hash, template_id, coinbase: vec![] };
    assert_eq!(judged(solve, block([6; 32], Some(77))), Err(ShareRule::ShareHash));
    assert_eq!(judged(solve, block([5; 32], Some(78))), Err(ShareRule::TemplateId));
    assert_eq!(judged(solve, block([5; 32], None)), Err(ShareRule::TemplateId));
    let mut run = trial(solve, block([5; 32], Some(77)));
    run.block_coinbase = false;
    assert_eq!(judge_trial(&run), Err(ShareRule::BlockCoinbase));
    let counted = |change: fn(&mut Tally)| {
        let mut run = trial(accept, ShareReply::Valid { hash: [5; 32] });
        change(&mut run.tally);
        judge_trial(&run)
    };
    assert_eq!(counted(|tally| tally.accepted = 2), Err(ShareRule::Accepted));
    assert_eq!(counted(|tally| tally.rejected = 2), Err(ShareRule::Rejected));
    assert_eq!(counted(|tally| tally.blocks = 2), Err(ShareRule::Blocks));
    assert_eq!(counted(|tally| tally.last_sequence = 9), Err(ShareRule::LastSequence));
}

#[test]
fn the_first_trial_that_breaks_a_rule_is_named() {
    let good = || trial(Expected::Accept { block: false }, ShareReply::Valid { hash: [5; 32] });
    let bad = || trial(Expected::Accept { block: false }, ShareReply::Uncoded);
    assert_eq!(judge_trials(&vec![]), Ok(()));
    assert_eq!(judge_trials(&vec![good(), good()]), Ok(()));
    assert_eq!(
        judge_trials(&vec![good(), bad(), bad()]),
        Err(TrialViolation { index: 1, rule: ShareRule::Outcome })
    );
}
