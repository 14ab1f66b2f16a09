//! Targets: those of hashrates, and those of channels that are opened and updated.

use crate::bytes::{le_at_most, same_bytes, zeros_only};
#[allow(unused_imports)]
use crate::bytes::{
    le_value, lemma_le_value_bound, lemma_le_value_injective, lemma_zeros_value, zeros,
};
#[allow(unused_imports)]
use crate::rules::{decides, Rule};
use crate::shares::CHANNEL_ID;
use vstd::prelude::*;

verus! {

/// What was seen of the targets that hashrates give. All targets are spelled least
/// significant byte first; there is none where the computation failed.
pub struct TargetRun {
    /// The first hashrate is at most the second.
    pub first_at_most: bool,
    pub first: Option<[u8; 32]>,
    pub second: Option<[u8; 32]>,
    /// The target of the first hashrate at twice the share rate.
    pub eased: Option<[u8; 32]>,
    /// Whether the first hashrate comes back from its target, up to a small error; nothing
    /// is said of hashrates that are too small or too large for that.
    pub comes_back: Option<bool>,
    /// A share rate of zero gives a target.
    pub zero_rate: bool,
    /// A negative share rate gives a target.
    pub negative_rate: bool,
    /// A negative hashrate gives a target.
    pub negative_hashrate: bool,
}

/// The rules about targets of hashrates, in the order in which they are checked.
#[derive(Clone, Copy, Debug, PartialEq, Eq, Structural)]
pub enum TargetRule {
    /// The first hashrate gives a target.
    First,
    /// The second hashrate gives a target.
    Second,
    /// A higher hashrate gives no easier target.
    Monotone,
    /// No target is zero.
    Nonzero,
    /// The first hashrate gives a target at twice the share rate.
    Eased,
    /// A higher share rate gives no harder target.
    EasedMonotone,
    /// A hashrate comes back from its target.
    ComesBack,
    /// A share rate of zero gives no target.
    ZeroRate,
    /// A negative share rate gives no target.
    NegativeRate,
    /// A negative hashrate gives no target.
    NegativeHashrate,
}

/// The target `a` is at most as easy as `b`.
pub open spec fn at_most(a: [u8; 32], b: [u8; 32]) -> bool {
    le_value(a@) <= le_value(b@)
}

impl Rule for TargetRule {
    type Run = TargetRun;

    open spec fn rank(self) -> int {
        match self {
            TargetRule::First => 0,
            TargetRule::Second => 1,
            TargetRule::Monotone => 2,
            TargetRule::Nonzero => 3,
            TargetRule::Eased => 4,
            TargetRule::EasedMonotone => 5,
            TargetRule::ComesBack => 6,
            TargetRule::ZeroRate => 7,
            TargetRule::NegativeRate => 8,
            TargetRule::NegativeHashrate => 9,
        }
    }

    open spec fn holds(self, run: TargetRun) -> bool {
        match self {
            TargetRule::First => run.first is Some,
            TargetRule::Second => run.second is Some,
            TargetRule::Monotone => match (run.first, run.second) {
                (Some(a), Some(b)) => if run.first_at_most {
                    at_most(b, a)
                } else {
                    at_most(a, b)
                },
                _ => true,
            },
            TargetRule::Nonzero => run.first matches Some(a) ==> a@ != zeros(32),
            TargetRule::Eased => run.eased is Some,
            TargetRule::EasedMonotone => match (run.first, run.eased) {
                (Some(a), Some(b)) => at_most(a, b),
                _ => true,
            },
            TargetRule::ComesBack => run.comes_back != Some(false),
            TargetRule::ZeroRate => !run.zero_rate,
            TargetRule::NegativeRate => !run.negative_rate,
            TargetRule::NegativeHashrate => !run.negative_hashrate,
        }
    }
}

/// Judges the targets of hashrates: the first rule that they break, if there is one.
pub fn judge_target(run: &TargetRun) -> (r: Result<(), TargetRule>)
    ensures
        decides(r, *run),
{
    let first = match &run.first {
        Some(first) => first,
        None => {
            assert(!TargetRule::First.holds(*run));
            return Err(TargetRule::First);
        },
    };
    let second = match &run.second {
        Some(second) => second,
        None => {
            assert(!TargetRule::Second.holds(*run));
            return Err(TargetRule::Second);
        },
    };
    let monotone = if run.first_at_most {
        le_at_most(second.as_slice(), first.as_slice())
    } else {
        le_at_most(first.as_slice(), second.as_slice())
    };
    if !monotone {
        assert(!TargetRule::Monotone.holds(*run));
        return Err(TargetRule::Monotone);
    }
    if zeros_only(first.as_slice()) {
        assert(!TargetRule::Nonzero.holds(*run));
        return Err(TargetRule::Nonzero);
    }
    let eased = match &run.eased {
        Some(eased) => eased,
        None => {
            assert(!TargetRule::Eased.holds(*run));
            return Err(TargetRule::Eased);
        },
    };
    if !le_at_most(first.as_slice(), eased.as_slice()) {
        assert(!TargetRule::EasedMonotone.holds(*run));
        return Err(TargetRule::EasedMonotone);
    }
    if let Some(false) = run.comes_back {
        assert(!TargetRule::ComesBack.holds(*run));
        return Err(TargetRule::ComesBack);
    }
    if run.zero_rate {
        assert(!TargetRule::ZeroRate.holds(*run));
        return Err(TargetRule::ZeroRate);
    }
    if run.negative_rate {
        assert(!TargetRule::NegativeRate.holds(*run));
        return Err(TargetRule::NegativeRate);
    }
    if run.negative_hashrate {
        assert(!TargetRule::NegativeHashrate.holds(*run));
        return Err(TargetRule::NegativeHashrate);
    }
    Ok(())
}

/// How an attempt to open a channel ended.
#[derive(Clone, Copy, Debug, PartialEq, Eq, Structural)]
pub enum OpenReply {
    Opened,
    /// Refused because of the hashrate.
    InvalidHashrate,
    /// Refused for another reason.
    Refused,
}

/// A channel to open.
pub struct OpenPlan {
    /// The easiest target that the miner accepts.
    pub max_target: [u8; 32],
    pub extranonce_prefix: Vec<u8>,
    pub rollable: usize,
}

/// What was seen of an attempt to open a channel. All but the first two fields speak of a
/// channel that was opened.
pub struct OpenRun {
    pub reply: OpenReply,
    /// The target that the hashrate gives, if it gives one.
    pub hashrate_target: Option<[u8; 32]>,
    pub target: [u8; 32],
    pub requested_max_target: [u8; 32],
    pub channel_id: u32,
    pub extranonce_prefix: Vec<u8>,
    pub rollable: usize,
    pub full_size: usize,
    /// The channel has the hashrate that it was opened with.
    pub hashrate_kept: bool,
    pub active: bool,
    pub tip: bool,
}

/// The rules about opening a channel, in the order in which they are checked. All but the
/// first speak of a channel that was opened.
#[derive(Clone, Copy, Debug, PartialEq, Eq, Structural)]
pub enum OpenRule {
    /// A hashrate is refused only if it gives no target, and accepted only if it gives one.
    Hashrate,
    /// The target is that of the hashrate, or the easiest one, whichever is harder.
    Target,
    /// The target is no easier than the easiest one.
    TargetBound,
    /// The channel has the easiest target that it was asked for.
    MaxTarget,
    /// The channel has its number.
    ChannelId,
    /// The channel has its extranonce prefix.
    ExtranoncePrefix,
    /// The channel has its rollable bytes.
    Rollable,
    /// The extranonce is its prefix and the rollable bytes.
    FullSize,
    /// The channel has the hashrate that it was opened with.
    HashrateKept,
    /// No job is active.
    NoneActive,
    /// There is no chain tip.
    NoTip,
}

/// The harder of two targets.
pub open spec fn harder(a: [u8; 32], b: [u8; 32]) -> [u8; 32] {
    if at_most(a, b) {
        a
    } else {
        b
    }
}

/// The harder of two targets.
pub fn harder_target(a: [u8; 32], b: [u8; 32]) -> (r: [u8; 32])
    ensures
        r == harder(a, b),
{
    if le_at_most(a.as_slice(), b.as_slice()) {
        a
    } else {
        b
    }
}

/// The harder of two targets is no easier than either.
pub proof fn lemma_harder(a: [u8; 32], b: [u8; 32])
    ensures
        at_most(harder(a, b), a),
        at_most(harder(a, b), b),
        harder(a, b) == a || harder(a, b) == b,
{
}

impl Rule for OpenRule {
    type Run = (OpenPlan, OpenRun);

    open spec fn rank(self) -> int {
        match self {
            OpenRule::Hashrate => 0,
            OpenRule::Target => 1,
            OpenRule::TargetBound => 2,
            OpenRule::MaxTarget => 3,
            OpenRule::ChannelId => 4,
            OpenRule::ExtranoncePrefix => 5,
            OpenRule::Rollable => 6,
            OpenRule::FullSize => 7,
            OpenRule::HashrateKept => 8,
            OpenRule::NoneActive => 9,
            OpenRule::NoTip => 10,
        }
    }

    open spec fn holds(self, run: (OpenPlan, OpenRun)) -> bool {
        let (plan, run) = run;
        match self {
            OpenRule::Hashrate => match run.reply {
                OpenReply::Opened => run.hashrate_target is Some,
                OpenReply::InvalidHashrate => run.hashrate_target is None,
                OpenReply::Refused => true,
            },
            _ => run.reply == OpenReply::Opened ==> self.holds_open(plan, run),
        }
    }
}

impl OpenRule {
    /// What the rule says of a channel that was opened.
    pub open spec fn holds_open(self, plan: OpenPlan, run: OpenRun) -> bool {
        match self {
            OpenRule::Hashrate => true,
            OpenRule::Target => run.hashrate_target matches Some(target) ==> run.target@ == harder(
                target,
                plan.max_target,
            )@,
            OpenRule::TargetBound => at_most(run.target, plan.max_target),
            OpenRule::MaxTarget => run.requested_max_target@ == plan.max_target@,
            OpenRule::ChannelId => run.channel_id == CHANNEL_ID,
            OpenRule::ExtranoncePrefix => run.extranonce_prefix@ == plan.extranonce_prefix@,
            OpenRule::Rollable => run.rollable == plan.rollable,
            OpenRule::FullSize => run.full_size == plan.extranonce_prefix@.len() + plan.rollable,
            OpenRule::HashrateKept => run.hashrate_kept,
            OpenRule::NoneActive => !run.active,
            OpenRule::NoTip => !run.tip,
        }
    }
}

/// Judges the attempt to open a channel: the first rule that it breaks, if there is one.
pub fn judge_open(plan: &OpenPlan, run: &OpenRun) -> (r: Result<(), OpenRule>)
    ensures
        decides(r, (*plan, *run)),
{
    match (run.reply, &run.hashrate_target) {
        (OpenReply::Opened, None) | (OpenReply::InvalidHashrate, Some(_)) => {
            assert(!OpenRule::Hashrate.holds((*plan, *run)));
            return Err(OpenRule::Hashrate);
        },
        _ => {},
    }
    if run.reply != OpenReply::Opened {
        return Ok(());
    }
    if let Some(target) = run.hashrate_target {
        let expected = harder_target(target, plan.max_target);
        if !same_bytes(run.target.as_slice(), expected.as_slice()) {
            assert(!OpenRule::Target.holds((*plan, *run)));
            return Err(OpenRule::Target);
        }
    }
    if !le_at_most(run.target.as_slice(), plan.max_target.as_slice()) {
        assert(!OpenRule::TargetBound.holds((*plan, *run)));
        return Err(OpenRule::TargetBound);
    }
    if !same_bytes(run.requested_max_target.as_slice(), plan.max_target.as_slice()) {
        assert(!OpenRule::MaxTarget.holds((*plan, *run)));
        return Err(OpenRule::MaxTarget);
    }
    if run.channel_id != CHANNEL_ID {
        assert(!OpenRule::ChannelId.holds((*plan, *run)));
        return Err(OpenRule::ChannelId);
    }
    if !same_bytes(run.extranonce_prefix.as_slice(), plan.extranonce_prefix.as_slice()) {
        assert(!OpenRule::ExtranoncePrefix.holds((*plan, *run)));
        return Err(OpenRule::ExtranoncePrefix);
    }
    if run.rollable != plan.rollable {
        assert(!OpenRule::Rollable.holds((*plan, *run)));
        return Err(OpenRule::Rollable);
    }
    if run.full_size < plan.rollable || run.full_size - plan.rollable
        != plan.extranonce_prefix.len() {
        assert(!OpenRule::FullSize.holds((*plan, *run)));
        return Err(OpenRule::FullSize);
    }
    if !run.hashrate_kept {
        assert(!OpenRule::HashrateKept.holds((*plan, *run)));
        return Err(OpenRule::HashrateKept);
    }
    if run.active {
        assert(!OpenRule::NoneActive.holds((*plan, *run)));
        return Err(OpenRule::NoneActive);
    }
    if run.tip {
        assert(!OpenRule::NoTip.holds((*plan, *run)));
        return Err(OpenRule::NoTip);
    }
    Ok(())
}

/// How an attempt to update a channel ended.
#[derive(Clone, Copy, Debug, PartialEq, Eq, Structural)]
pub enum UpdateReply {
    Updated,
    /// Refused because of the hashrate.
    InvalidHashrate,
    /// Refused for another reason.
    Refused,
}

/// What was seen of an attempt to update a channel.
pub struct UpdateRun {
    pub reply: UpdateReply,
    /// The target that the new hashrate gives, if it gives one.
    pub hashrate_target: Option<[u8; 32]>,
    /// The easiest target that the miner accepts from now on, if it names one.
    pub requested: Option<[u8; 32]>,
    pub target_before: [u8; 32],
    pub max_target_before: [u8; 32],
    pub target: [u8; 32],
    pub max_target: [u8; 32],
    /// The channel has the new hashrate.
    pub hashrate_kept: bool,
}

impl UpdateRun {
    /// The easiest target that is in force.
    pub open spec fn bound(self) -> [u8; 32] {
        match self.requested {
            Some(target) => target,
            None => self.max_target_before,
        }
    }
}

/// The rules about updating a channel, in the order in which they are checked.
#[derive(Clone, Copy, Debug, PartialEq, Eq, Structural)]
pub enum UpdateRule {
    /// Nothing but the hashrate is a reason to refuse.
    Reply,
    /// A hashrate is refused only if it gives no target, and accepted only if it gives one.
    Hashrate,
    /// The target is that of the hashrate, or the easiest one, whichever is harder.
    Target,
    /// The target is no easier than the easiest one.
    TargetBound,
    /// The channel has the easiest target that is in force.
    MaxTarget,
    /// The channel has the new hashrate.
    HashrateKept,
    /// An update that was refused does not change the target.
    TargetUnchanged,
    /// An update that was refused does not change the easiest target.
    MaxTargetUnchanged,
}

impl Rule for UpdateRule {
    type Run = UpdateRun;

    open spec fn rank(self) -> int {
        match self {
            UpdateRule::Reply => 0,
            UpdateRule::Hashrate => 1,
            UpdateRule::Target => 2,
            UpdateRule::TargetBound => 3,
            UpdateRule::MaxTarget => 4,
            UpdateRule::HashrateKept => 5,
            UpdateRule::TargetUnchanged => 6,
            UpdateRule::MaxTargetUnchanged => 7,
        }
    }

    open spec fn holds(self, run: UpdateRun) -> bool {
        match self {
            UpdateRule::Reply => run.reply != UpdateReply::Refused,
            UpdateRule::Hashrate => run.reply == UpdateReply::Updated
                <==> run.hashrate_target is Some,
            UpdateRule::TargetUnchanged => run.reply != UpdateReply::Updated ==> run.target@
                == run.target_before@,
            UpdateRule::MaxTargetUnchanged => run.reply != UpdateReply::Updated
                ==> run.max_target@ == run.max_target_before@,
            UpdateRule::Target => run.reply == UpdateReply::Updated ==> (
            run.hashrate_target matches Some(target) ==> run.target@ == harder(
                target,
                run.bound(),
            )@),
            UpdateRule::TargetBound => run.reply == UpdateReply::Updated ==> at_most(
                run.target,
                run.bound(),
            ),
            UpdateRule::MaxTarget => run.reply == UpdateReply::Updated ==> run.max_target@
                == run.bound()@,
            UpdateRule::HashrateKept => run.reply == UpdateReply::Updated ==> run.hashrate_kept,
        }
    }
}

/// Judges the attempt to update a channel: the first rule that it breaks, if there is one.
pub fn judge_update(run: &UpdateRun) -> (r: Result<(), UpdateRule>)
    ensures
        decides(r, *run),
{
    let bound = match run.requested {
        Some(target) => target,
        None => run.max_target_before,
    };
    if run.reply == UpdateReply::Refused {
        assert(!UpdateRule::Reply.holds(*run));
        return Err(UpdateRule::Reply);
    }
    if run.hashrate_target.is_some() != (run.reply == UpdateReply::Updated) {
        assert(!UpdateRule::Hashrate.holds(*run));
        return Err(UpdateRule::Hashrate);
    }
    if run.reply == UpdateReply::Updated {
        if let Some(target) = run.hashrate_target {
            let expected = harder_target(target, bound);
            if !same_bytes(run.target.as_slice(), expected.as_slice()) {
                assert(!UpdateRule::Target.holds(*run));
                return Err(UpdateRule::Target);
            }
        }
        if !le_at_most(run.target.as_slice(), bound.as_slice()) {
            assert(!UpdateRule::TargetBound.holds(*run));
            return Err(UpdateRule::TargetBound);
        }
        if !same_bytes(run.max_target.as_slice(), bound.as_slice()) {
            assert(!UpdateRule::MaxTarget.holds(*run));
            return Err(UpdateRule::MaxTarget);
        }
        if !run.hashrate_kept {
            assert(!UpdateRule::HashrateKept.holds(*run));
            return Err(UpdateRule::HashrateKept);
        }
        return Ok(());
    }
    if !same_bytes(run.target.as_slice(), run.target_before.as_slice()) {
        assert(!UpdateRule::TargetUnchanged.holds(*run));
        return Err(UpdateRule::TargetUnchanged);
    }
    if !same_bytes(run.max_target.as_slice(), run.max_target_before.as_slice()) {
        assert(!UpdateRule::MaxTargetUnchanged.holds(*run));
        return Err(UpdateRule::MaxTargetUnchanged);
    }
    Ok(())
}

/// The target of a channel that was opened or updated without breaking a rule is never
/// easier than the easiest one that its miner accepts.
pub proof fn lemma_target_bounded(plan: OpenPlan, open: OpenRun, update: UpdateRun)
    requires
        decides(Ok::<(), OpenRule>(()), (plan, open)),
        decides(Ok::<(), UpdateRule>(()), update),
    ensures
        open.reply == OpenReply::Opened ==> at_most(open.target, plan.max_target),
        update.reply == UpdateReply::Updated ==> at_most(update.target, update.bound()),
{
    assert(OpenRule::TargetBound.holds((plan, open)));
    assert(UpdateRule::TargetBound.holds(update));
}

/// A channel that was opened passes exactly if the number that its target spells is the
/// smaller of the numbers that the target of the hashrate and the easiest target spell,
/// whichever of the two that is, and if it kept all else that it was opened with. An attempt
/// that failed passes unless it was blamed on a hashrate that gives a target. If not, the
/// verdict names the first of these things that is wrong.
pub proof fn law_open(plan: &OpenPlan, run: &OpenRun, verdict: Result<(), OpenRule>)
    requires
        call_ensures(judge_open, (plan, run), verdict),
    ensures
        run.reply == OpenReply::Opened ==> (verdict is Ok <==> {
            &&& run.hashrate_target is Some
            &&& le_value(run.target@) <= le_value(run.hashrate_target->0@)
            &&& le_value(run.target@) <= le_value(plan.max_target@)
            &&& le_value(run.target@) == le_value(run.hashrate_target->0@) || le_value(run.target@)
                == le_value(plan.max_target@)
            &&& run.requested_max_target@ == plan.max_target@
            &&& run.channel_id == 7
            &&& run.extranonce_prefix@ == plan.extranonce_prefix@
            &&& run.rollable == plan.rollable
            &&& run.full_size == run.extranonce_prefix@.len() + run.rollable
            &&& run.hashrate_kept
            &&& !run.active
            &&& !run.tip
        }),
        run.reply == OpenReply::InvalidHashrate ==> (verdict is Ok <==> run.hashrate_target is None),
        run.reply == OpenReply::Refused ==> verdict is Ok,
        verdict matches Err(rule) ==> {
            let given = run.hashrate_target->0@;
            rule == (if (run.reply == OpenReply::Opened) != (run.hashrate_target is Some) {
                OpenRule::Hashrate
            } else if run.target@ != given && run.target@ != plan.max_target@ || le_value(run.target@)
                > le_value(given) || le_value(run.target@) > le_value(plan.max_target@) {
                OpenRule::Target
            } else if le_value(run.target@) > le_value(plan.max_target@) {
                OpenRule::TargetBound
            } else if run.requested_max_target@ != plan.max_target@ {
                OpenRule::MaxTarget
            } else if run.channel_id != 7 {
                OpenRule::ChannelId
            } else if run.extranonce_prefix@ != plan.extranonce_prefix@ {
                OpenRule::ExtranoncePrefix
            } else if run.rollable != plan.rollable {
                OpenRule::Rollable
            } else if run.full_size != plan.extranonce_prefix@.len() + plan.rollable {
                OpenRule::FullSize
            } else if !run.hashrate_kept {
                OpenRule::HashrateKept
            } else if run.active {
                OpenRule::NoneActive
            } else {
                OpenRule::NoTip
            })
        },
{
    if run.hashrate_target is Some {
        lemma_le_value_injective(run.target@, run.hashrate_target->0@);
        lemma_le_value_injective(run.hashrate_target->0@, plan.max_target@);
    }
    lemma_le_value_injective(run.target@, plan.max_target@);
    if verdict is Ok {
        assert(OpenRule::Hashrate.holds((*plan, *run)));
        assert(OpenRule::Target.holds((*plan, *run)));
        assert(OpenRule::TargetBound.holds((*plan, *run)));
        assert(OpenRule::MaxTarget.holds((*plan, *run)));
        assert(OpenRule::ChannelId.holds((*plan, *run)));
        assert(OpenRule::ExtranoncePrefix.holds((*plan, *run)));
        assert(OpenRule::Rollable.holds((*plan, *run)));
        assert(OpenRule::FullSize.holds((*plan, *run)));
        assert(OpenRule::HashrateKept.holds((*plan, *run)));
        assert(OpenRule::NoneActive.holds((*plan, *run)));
        assert(OpenRule::NoTip.holds((*plan, *run)));
    }
    if let Err(broken) = verdict {
        if OpenRule::Hashrate.rank() < broken.rank() {
            assert(OpenRule::Hashrate.holds((*plan, *run)));
        }
        if OpenRule::Target.rank() < broken.rank() {
            assert(OpenRule::Target.holds((*plan, *run)));
        }
        if OpenRule::TargetBound.rank() < broken.rank() {
            assert(OpenRule::TargetBound.holds((*plan, *run)));
        }
        if OpenRule::MaxTarget.rank() < broken.rank() {
            assert(OpenRule::MaxTarget.holds((*plan, *run)));
        }
        if OpenRule::ChannelId.rank() < broken.rank() {
            assert(OpenRule::ChannelId.holds((*plan, *run)));
        }
        if OpenRule::ExtranoncePrefix.rank() < broken.rank() {
            assert(OpenRule::ExtranoncePrefix.holds((*plan, *run)));
        }
        if OpenRule::Rollable.rank() < broken.rank() {
            assert(OpenRule::Rollable.holds((*plan, *run)));
        }
        if OpenRule::FullSize.rank() < broken.rank() {
            assert(OpenRule::FullSize.holds((*plan, *run)));
        }
        if OpenRule::HashrateKept.rank() < broken.rank() {
            assert(OpenRule::HashrateKept.holds((*plan, *run)));
        }
        if OpenRule::NoneActive.rank() < broken.rank() {
            assert(OpenRule::NoneActive.holds((*plan, *run)));
        }
    }
}

/// An update that was accepted passes exactly if the hashrate gives a target, and the target
/// of the channel is the smaller one of that and the easiest target in force: the one that was
/// asked for, or else the one before. One that was refused passes exactly if the hashrate gives
/// no target and nothing changed. If not, the verdict names the first of these things that is
/// wrong.
pub proof fn law_update(run: &UpdateRun, verdict: Result<(), UpdateRule>)
    requires
        call_ensures(judge_update, (run,), verdict),
    ensures
        run.reply == UpdateReply::Updated ==> (verdict is Ok <==> {
            let bound = if run.requested is Some {
                run.requested->0@
            } else {
                run.max_target_before@
            };
            &&& run.hashrate_target is Some
            &&& le_value(run.target@) <= le_value(run.hashrate_target->0@)
            &&& le_value(run.target@) <= le_value(bound)
            &&& le_value(run.target@) == le_value(run.hashrate_target->0@) || le_value(run.target@)
                == le_value(bound)
            &&& run.max_target@ == bound
            &&& run.hashrate_kept
        }),
        run.reply == UpdateReply::InvalidHashrate ==> (verdict is Ok <==> {
            &&& run.hashrate_target is None
            &&& run.target@ == run.target_before@
            &&& run.max_target@ == run.max_target_before@
        }),
        run.reply == UpdateReply::Refused ==> verdict is Err,
        verdict matches Err(rule) ==> {
            let updated = run.reply == UpdateReply::Updated;
            let given = run.hashrate_target->0@;
            let bound = if run.requested is Some {
                run.requested->0@
            } else {
                run.max_target_before@
            };
            rule == (if run.reply == UpdateReply::Refused {
                UpdateRule::Reply
            } else if (run.reply == UpdateReply::Updated) != (run.hashrate_target is Some) {
                UpdateRule::Hashrate
            } else if updated && (run.target@ != given && run.target@ != bound || le_value(run.target@)
                > le_value(given) || le_value(run.target@) > le_value(bound)) {
                UpdateRule::Target
            } else if updated && le_value(run.target@) > le_value(bound) {
                UpdateRule::TargetBound
            } else if updated && run.max_target@ != bound {
                UpdateRule::MaxTarget
            } else if updated && !run.hashrate_kept {
                UpdateRule::HashrateKept
            } else if !updated && run.target@ != run.target_before@ {
                UpdateRule::TargetUnchanged
            } else {
                UpdateRule::MaxTargetUnchanged
            })
        },
{
    if run.hashrate_target is Some {
        lemma_le_value_injective(run.target@, run.hashrate_target->0@);
        lemma_le_value_injective(run.hashrate_target->0@, run.bound()@);
    }
    lemma_le_value_injective(run.target@, run.bound()@);
    if verdict is Ok {
        assert(UpdateRule::Reply.holds(*run));
        assert(UpdateRule::Hashrate.holds(*run));
        assert(UpdateRule::Target.holds(*run));
        assert(UpdateRule::TargetBound.holds(*run));
        assert(UpdateRule::MaxTarget.holds(*run));
        assert(UpdateRule::HashrateKept.holds(*run));
        assert(UpdateRule::TargetUnchanged.holds(*run));
        assert(UpdateRule::MaxTargetUnchanged.holds(*run));
    }
    if let Err(broken) = verdict {
        if UpdateRule::Reply.rank() < broken.rank() {
            assert(UpdateRule::Reply.holds(*run));
        }
        if UpdateRule::Hashrate.rank() < broken.rank() {
            assert(UpdateRule::Hashrate.holds(*run));
        }
        if UpdateRule::Target.rank() < broken.rank() {
            assert(UpdateRule::Target.holds(*run));
        }
        if UpdateRule::TargetBound.rank() < broken.rank() {
            assert(UpdateRule::TargetBound.holds(*run));
        }
        if UpdateRule::MaxTarget.rank() < broken.rank() {
            assert(UpdateRule::MaxTarget.holds(*run));
        }
        if UpdateRule::HashrateKept.rank() < broken.rank() {
            assert(UpdateRule::HashrateKept.holds(*run));
        }
        if UpdateRule::TargetUnchanged.rank() < broken.rank() {
            assert(UpdateRule::TargetUnchanged.holds(*run));
        }
    }
}

/// The targets of hashrates pass exactly if there are three, none spells zero, the one of the
/// higher hashrate spells no larger number, the one at the higher share rate no smaller one,
/// the hashrate comes back where that was tried, and nothing else gives a target. If not, the
/// verdict names the first of these things that is wrong.
pub proof fn law_target(run: &TargetRun, verdict: Result<(), TargetRule>)
    requires
        call_ensures(judge_target, (run,), verdict),
    ensures
        verdict is Ok <==> {
            let first = le_value(run.first->0@);
            let second = le_value(run.second->0@);
            &&& run.first is Some
            &&& run.second is Some
            &&& run.eased is Some
            &&& run.first_at_most ==> second <= first
            &&& !run.first_at_most ==> first <= second
            &&& first > 0
            &&& first <= le_value(run.eased->0@)
            &&& run.comes_back is Some ==> run.comes_back->0
            &&& !run.zero_rate
            &&& !run.negative_rate
            &&& !run.negative_hashrate
        },
        verdict matches Err(rule) ==> {
            let first = run.first->0@;
            let second = run.second->0@;
            rule == (if run.first is None {
                TargetRule::First
            } else if run.second is None {
                TargetRule::Second
            } else if run.first_at_most && le_value(first) < le_value(second) || !run.first_at_most && le_value(
                second,
            ) < le_value(first) {
                TargetRule::Monotone
            } else if le_value(first) == 0 {
                TargetRule::Nonzero
            } else if run.eased is None {
                TargetRule::Eased
            } else if le_value(run.eased->0@) < le_value(first) {
                TargetRule::EasedMonotone
            } else if run.comes_back == Some(false) {
                TargetRule::ComesBack
            } else if run.zero_rate {
                TargetRule::ZeroRate
            } else if run.negative_rate {
                TargetRule::NegativeRate
            } else {
                TargetRule::NegativeHashrate
            })
        },
{
    lemma_zeros_value(32);
    if run.first is Some {
        lemma_le_value_injective(run.first->0@, zeros(32));
        lemma_le_value_bound(run.first->0@);
    }
    if verdict is Ok {
        assert(TargetRule::First.holds(*run));
        assert(TargetRule::Second.holds(*run));
        assert(TargetRule::Monotone.holds(*run));
        assert(TargetRule::Nonzero.holds(*run));
        assert(TargetRule::Eased.holds(*run));
        assert(TargetRule::EasedMonotone.holds(*run));
        assert(TargetRule::ComesBack.holds(*run));
        assert(TargetRule::ZeroRate.holds(*run));
        assert(TargetRule::NegativeRate.holds(*run));
        assert(TargetRule::NegativeHashrate.holds(*run));
    }
    if let Err(broken) = verdict {
        if TargetRule::First.rank() < broken.rank() {
            assert(TargetRule::First.holds(*run));
        }
        if TargetRule::Second.rank() < broken.rank() {
            assert(TargetRule::Second.holds(*run));
        }
        if TargetRule::Monotone.rank() < broken.rank() {
            assert(TargetRule::Monotone.holds(*run));
        }
        if TargetRule::Nonzero.rank() < broken.rank() {
            assert(TargetRule::Nonzero.holds(*run));
        }
        if TargetRule::Eased.rank() < broken.rank() {
            assert(TargetRule::Eased.holds(*run));
        }
        if TargetRule::EasedMonotone.rank() < broken.rank() {
            assert(TargetRule::EasedMonotone.holds(*run));
        }
        if TargetRule::ComesBack.rank() < broken.rank() {
            assert(TargetRule::ComesBack.holds(*run));
        }
        if TargetRule::ZeroRate.rank() < broken.rank() {
            assert(TargetRule::ZeroRate.holds(*run));
        }
        if TargetRule::NegativeRate.rank() < broken.rank() {
            assert(TargetRule::NegativeRate.holds(*run));
        }
    }
}

/// The harder of two targets is one of them, and spells the smaller number.
pub proof fn law_harder_target(a: [u8; 32], b: [u8; 32], r: [u8; 32])
    requires
        call_ensures(harder_target, (a, b), r),
    ensures
        r@ == a@ || r@ == b@,
        le_value(r@) <= le_value(a@),
        le_value(r@) <= le_value(b@),
{
}

} // verus!
