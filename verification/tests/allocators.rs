use sv2_conformance::allocator::{
    check_allocator, judge_allocator, judge_grant, observe_allocator, AllocatorInput,
    AllocatorRule, AllocatorRun, GrantRule, OpenRun, Round,
};
use sv2_conformance::bytes::is_prefix_free;
use sv2_conformance::slots::{lease, SlotError, SlotPool};

fn input() -> AllocatorInput {
    AllocatorInput {
        upstream_prefix: vec![0xaa, 0xbb],
        local_prefix: vec![0xcc],
        total_len: 10,
        max_channels: 3,
        min_rollable: 0,
        release_index: 1,
    }
}

#[test]
fn a_pool_hands_out_disjoint_prefixes() {
    let mut pool = SlotPool::open(vec![0xaa], vec![0xcc], 6, 3).unwrap();
    assert_eq!(pool.count(), 0);
    let first = pool.take_extended(3).unwrap();
    let second = pool.take_standard().unwrap();
    let third = pool.take_extended(0).unwrap();
    assert_eq!(first.len(), 3);
    assert_eq!(second.len(), 6);
    assert_eq!(third.len(), 3);
    assert_eq!(&first[..2], &[0xaa, 0xcc]);
    assert_eq!(&second[..2], &[0xaa, 0xcc]);
    assert_eq!(&second[3..], &[0, 0, 0]);
    assert!(is_prefix_free(&first, &second));
    assert!(is_prefix_free(&first, &third));
    assert!(is_prefix_free(&second, &third));
    assert_eq!(pool.count(), 3);
    assert_eq!(pool.prefix(1), (second.clone(), 6, 1));
    assert_eq!(pool.take_extended(0), Err(SlotError::CapacityExhausted));
    assert_eq!(pool.take_standard(), Err(SlotError::CapacityExhausted));
    assert_eq!(pool.count(), 3);
}

#[test]
fn a_released_slot_is_taken_again() {
    let mut pool = SlotPool::open(vec![], vec![], 4, 2).unwrap();
    let first = pool.take_extended(1).unwrap();
    let second = pool.take_extended(1).unwrap();
    pool.release(0);
    assert_eq!(pool.count(), 1);
    assert_eq!(pool.prefix(0).0, second);
    assert_eq!(pool.take_extended(1).unwrap(), first);
    assert_eq!(pool.count(), 2);
}

#[test]
fn slots_are_taken_one_after_the_other() {
    let mut pool = SlotPool::open(vec![], vec![], 4, 3).unwrap();
    assert_eq!(pool.take_extended(0), Ok(vec![0]));
    assert_eq!(pool.take_standard(), Ok(vec![1, 0, 0, 0]));
    pool.release(0);
    // The search goes on behind the slot that was taken last, and starts over at the end.
    assert_eq!(pool.take_extended(0), Ok(vec![2]));
    assert_eq!(pool.take_extended(9), Err(SlotError::InvalidRollableSize));
    pool.release(0);
    assert_eq!(pool.take_extended(0), Ok(vec![0]));
    assert_eq!(pool.take_extended(0), Ok(vec![1]));
    assert_eq!(pool.take_extended(0), Err(SlotError::CapacityExhausted));
}

#[test]
fn each_round_gets_the_slot_of_its_number() {
    let few = observe_allocator(&AllocatorInput { release_index: 1, ..input() }).opened.unwrap();
    let index = few.report.full_prefix_len as usize - 1;
    for (i, round) in few.rounds.iter().enumerate() {
        assert_eq!(round.grant.as_ref().unwrap().bytes[index], i as u8);
    }
    assert_eq!(few.reuse.unwrap().bytes.unwrap()[index], 1);
    let many = AllocatorInput { release_index: 1, max_channels: 100, ..input() };
    let many = observe_allocator(&many).opened.unwrap();
    assert_eq!(many.rounds[63].grant.as_ref().unwrap().bytes[index], 63);
    assert_eq!(many.reuse.unwrap().bytes.unwrap()[index], 64);
}

#[test]
fn a_request_for_too_much_takes_no_slot() {
    let mut pool = SlotPool::open(vec![1], vec![2], 6, 2).unwrap();
    assert_eq!(pool.take_extended(4), Err(SlotError::InvalidRollableSize));
    assert_eq!(pool.count(), 0);
    assert!(pool.take_extended(3).is_ok());
}

#[test]
fn impossible_plans_are_refused() {
    let refusal = |upstream: usize, local: usize, total: u8, channels: u32| {
        SlotPool::open(vec![1; upstream], vec![2; local], total, channels).err()
    };
    assert_eq!(refusal(0, 0, 33, 1), Some(SlotError::ExceedsMaxLength));
    assert_eq!(refusal(0, 0, 33, 0), Some(SlotError::ExceedsMaxLength));
    assert_eq!(refusal(0, 0, 32, 0), Some(SlotError::ZeroMaxChannels));
    assert_eq!(refusal(20, 12, 32, 1), Some(SlotError::PrefixExceedsTotalLength));
    assert_eq!(refusal(20, 11, 32, 257), Some(SlotError::PrefixExceedsTotalLength));
    assert_eq!(refusal(20, 11, 32, 256), None);
    assert_eq!(refusal(20, 10, 32, 65536), None);
    assert_eq!(refusal(20, 10, 32, 65537), Some(SlotError::PrefixExceedsTotalLength));
    assert_eq!(refusal(400, 0, 32, 1), Some(SlotError::PrefixExceedsTotalLength));
}

#[test]
fn a_pool_reports_its_plan() {
    let pool = SlotPool::open(vec![1, 2], vec![3], 12, 300).unwrap();
    let report = pool.report();
    assert_eq!(report.upstream, vec![1, 2]);
    assert_eq!(report.local, vec![3]);
    assert_eq!((report.upstream_len, report.local_len, report.index_len), (2, 1, 2));
    assert_eq!((report.full_prefix_len, report.total_len, report.rollable), (5, 12, 7));
    assert_eq!((report.max_channels, report.count), (300, 0));
}

#[test]
fn one_slot_can_be_leased() {
    let prefix = lease(vec![7, 8], 6, 4, 3).unwrap();
    assert_eq!(prefix.len(), 3);
    assert_eq!(&prefix.as_bytes()[..2], &[7, 8]);
    assert_eq!(prefix.as_bytes()[2], 0);
    assert_eq!(lease(vec![7, 8], 6, 4, 4).err(), Some(SlotError::InvalidRollableSize));
    assert_eq!(lease(vec![7, 8], 33, 4, 4).err(), Some(SlotError::ExceedsMaxLength));
    assert_eq!(lease(vec![7, 8], 6, 0, 4).err(), Some(SlotError::ZeroMaxChannels));
    assert_eq!(lease(vec![7, 8], 2, 4, 0).err(), Some(SlotError::PrefixExceedsTotalLength));
}

/// How many channels are opened without breaking a rule; none if there is no allocator.
fn channels_opened(input: AllocatorInput) -> usize {
    let (run, verdict) = check_allocator(&input);
    assert_eq!(verdict, Ok(()));
    run.opened.map_or(0, |open| open.rounds.len())
}

#[test]
fn allocators_break_no_rule() {
    assert_eq!(channels_opened(input()), 3);
    for max_channels in [1u8, 2, 63, 64, 65, 200, 255] {
        for min_rollable in 0..4u8 {
            let checked = AllocatorInput { max_channels, min_rollable, ..input() };
            let rounds = if max_channels < 64 { max_channels as usize } else { 64 };
            assert_eq!(channels_opened(checked), rounds);
        }
    }
    assert_eq!(channels_opened(AllocatorInput { max_channels: 0, ..input() }), 0);
    assert_eq!(channels_opened(AllocatorInput { total_len: 3, ..input() }), 0);
    assert_eq!(channels_opened(AllocatorInput { total_len: 4, ..input() }), 3);
    assert_eq!(channels_opened(AllocatorInput { total_len: 40, ..input() }), 0);
    assert_eq!(channels_opened(AllocatorInput { total_len: 48, ..input() }), 0);
    assert_eq!(channels_opened(AllocatorInput { upstream_prefix: vec![1; 90], ..input() }), 0);
}

fn broken(change: fn(&mut OpenRun)) -> Result<(), AllocatorRule> {
    let input = input();
    let mut run = observe_allocator(&input);
    change(run.opened.as_mut().unwrap());
    judge_allocator(&input, &run)
}

#[test]
fn every_allocator_rule_can_be_broken() {
    assert_eq!(broken(|_| {}), Ok(()));
    assert_eq!(
        judge_allocator(&input(), &AllocatorRun { opened: None }),
        Err(AllocatorRule::Refused)
    );
    let run = observe_allocator(&input());
    assert_eq!(
        judge_allocator(&AllocatorInput { max_channels: 0, ..input() }, &run),
        Err(AllocatorRule::Accepted)
    );
    assert_eq!(broken(|run| run.report.upstream[0] = 0), Err(AllocatorRule::Upstream));
    assert_eq!(broken(|run| run.report.local[0] = 0), Err(AllocatorRule::Local));
    assert_eq!(broken(|run| run.report.upstream_len = 3), Err(AllocatorRule::UpstreamLen));
    assert_eq!(broken(|run| run.report.local_len = 3), Err(AllocatorRule::LocalLen));
    assert_eq!(broken(|run| run.report.index_len = 3), Err(AllocatorRule::IndexLen));
    assert_eq!(broken(|run| run.report.full_prefix_len = 3), Err(AllocatorRule::PrefixLen));
    assert_eq!(broken(|run| run.report.total_len = 3), Err(AllocatorRule::TotalLen));
    assert_eq!(broken(|run| run.report.rollable = 3), Err(AllocatorRule::Rollable));
    assert_eq!(broken(|run| run.report.max_channels = 2), Err(AllocatorRule::MaxChannels));
    assert_eq!(broken(|run| run.report.max_channels = 8), Ok(()));
    assert_eq!(broken(|run| run.report.count = 1), Err(AllocatorRule::FreshCount));
    assert_eq!(broken(|run| run.over_request = None), Err(AllocatorRule::OverRequest));
    assert_eq!(
        broken(|run| run.over_request.as_mut().unwrap().refusal = None),
        Err(AllocatorRule::OverRequest)
    );
    assert_eq!(
        broken(|run| run.over_request.as_mut().unwrap().count = 1),
        Err(AllocatorRule::OverRequestCount)
    );
    assert_eq!(
        broken(|run| run.rounds[2].grant = None),
        Err(AllocatorRule::Round(2, GrantRule::Granted))
    );
    assert_eq!(broken(|run| run.full = None), Err(AllocatorRule::FullExtended));
    assert_eq!(
        broken(|run| run.full.as_mut().unwrap().standard = None),
        Err(AllocatorRule::FullStandard)
    );
    assert_eq!(
        broken(|run| run.full.as_mut().unwrap().count = 2),
        Err(AllocatorRule::FullCount)
    );
    assert_eq!(
        broken(|run| run.reuse.as_mut().unwrap().count = 3),
        Err(AllocatorRule::ReleaseCount)
    );
    assert_eq!(
        broken(|run| run.reuse.as_mut().unwrap().bytes = None),
        Err(AllocatorRule::ReuseGranted)
    );
    assert_eq!(
        broken(|run| {
            let other = run.rounds[0].grant.as_ref().unwrap().bytes.clone();
            run.reuse.as_mut().unwrap().bytes = Some(other);
        }),
        Err(AllocatorRule::ReuseDisjoint)
    );
    assert_eq!(
        broken(|run| run.reuse.as_mut().unwrap().bytes = Some(vec![0xaa, 0xbb, 0xcc, 0x77])),
        Err(AllocatorRule::ReuseSlot)
    );
}

fn granted(change: fn(&mut Vec<Round>)) -> Result<(), GrantRule> {
    let input = input();
    let mut rounds = observe_allocator(&input).opened.unwrap().rounds;
    change(&mut rounds);
    judge_grant(&input, &rounds, 1)
}

#[test]
fn every_rule_about_a_grant_can_be_broken() {
    assert_eq!(granted(|_| {}), Ok(()));
    assert_eq!(granted(|rounds| rounds[1].grant = None), Err(GrantRule::Granted));
    assert_eq!(
        granted(|rounds| rounds[1].grant.as_mut().unwrap().len = 9),
        Err(GrantRule::Length)
    );
    assert_eq!(
        granted(|rounds| rounds[1].grant.as_mut().unwrap().upstream_len = 9),
        Err(GrantRule::UpstreamLength)
    );
    assert_eq!(
        granted(|rounds| {
            let grant = rounds[1].grant.as_mut().unwrap();
            grant.bytes.resize(33, 0);
            grant.len = 33;
        }),
        Err(GrantRule::MaxLength)
    );
    assert_eq!(
        granted(|rounds| rounds[1].grant.as_mut().unwrap().bytes[0] = 0),
        Err(GrantRule::Upstream)
    );
    assert_eq!(
        granted(|rounds| rounds[1].grant.as_mut().unwrap().bytes[2] = 0),
        Err(GrantRule::Local)
    );
    assert_eq!(
        granted(|rounds| {
            let grant = rounds[1].grant.as_mut().unwrap();
            grant.bytes.push(0);
            grant.len += 1;
        }),
        Err(GrantRule::Kind)
    );
    assert_eq!(
        granted(|rounds| {
            let other = rounds[0].grant.as_ref().unwrap().bytes[3];
            rounds[1].grant.as_mut().unwrap().bytes[3] = other;
        }),
        Err(GrantRule::Disjoint)
    );
    assert_eq!(granted(|rounds| rounds[1].count = 1), Err(GrantRule::Count));
}
