//! Chain tips: which jobs a channel must activate, and which it must give up.

use crate::bytes::same_bytes;
use crate::jobs::JobSeen;
#[allow(unused_imports)]
use crate::rules::{decides, Rule};
use crate::shares::NBITS;
use crate::trials::ShareReply;
use vstd::prelude::*;

verus! {

/// A chain tip that a channel is told.
#[derive(Clone, Copy, Debug, PartialEq, Eq)]
pub struct TipUpdate {
    pub template_id: u64,
    pub prev_hash: [u8; 32],
    pub header_timestamp: u32,
    pub nbits: u32,
    /// The network target, least significant byte first.
    pub target: [u8; 32],
}

/// The same, with sequences.
pub struct UpdateView {
    pub template_id: u64,
    pub prev_hash: Seq<u8>,
    pub header_timestamp: u32,
    pub nbits: u32,
    pub target: Seq<u8>,
}

impl View for TipUpdate {
    type V = UpdateView;

    open spec fn view(&self) -> UpdateView {
        UpdateView {
            template_id: self.template_id,
            prev_hash: self.prev_hash@,
            header_timestamp: self.header_timestamp,
            nbits: self.nbits,
            target: self.target@,
        }
    }
}

/// What a channel tells about its chain tip.
#[derive(Clone, Copy, Debug, PartialEq, Eq)]
pub struct TipSeen {
    pub prev_hash: [u8; 32],
    pub nbits: u32,
    pub min_ntime: u32,
}

/// The same, with a sequence.
pub struct TipView {
    pub prev_hash: Seq<u8>,
    pub nbits: u32,
    pub min_ntime: u32,
}

impl View for TipSeen {
    type V = TipView;

    open spec fn view(&self) -> TipView {
        TipView { prev_hash: self.prev_hash@, nbits: self.nbits, min_ntime: self.min_ntime }
    }
}

/// What a channel tells about its chain tip, if it has one.
pub open spec fn named(tip: Option<TipSeen>) -> Option<TipView> {
    match tip {
        Some(tip) => Some(tip@),
        None => None,
    }
}

/// A channel's answer to a chain tip.
#[derive(Clone, Copy, Debug, PartialEq, Eq, Structural)]
pub enum TipReply {
    Accepted,
    /// There are future jobs, but none for the template.
    NotFound,
    /// Refused for another reason.
    Refused,
}

/// A job to activate.
#[derive(Clone, Copy, Debug, PartialEq, Eq)]
pub struct ActivationPlan {
    pub template_id: u64,
    pub job_id: u32,
    /// The target of the channel, least significant byte first.
    pub target: [u8; 32],
    pub prev_hash: [u8; 32],
    pub header_timestamp: u32,
}

/// What a channel was seen to do when it was given a target, then a chain tip for a
/// template that it does not know, then one for a template that it knows.
pub struct ActivationRun {
    pub target_accepted: bool,
    /// The target of the channel afterwards.
    pub target: [u8; 32],
    pub unknown: TipReply,
    /// The channel has an active job after the unknown template.
    pub unknown_active: bool,
    pub known: TipReply,
    pub active: Option<JobSeen>,
    pub tip: Option<TipSeen>,
}

/// The rules about activating a job, in the order in which they are checked.
#[derive(Clone, Copy, Debug, PartialEq, Eq, Structural)]
pub enum ActivationRule {
    /// The target is accepted, whatever it is.
    TargetAccepted,
    /// The channel has the target that it was given.
    Target,
    /// A chain tip for an unknown template is refused as such.
    UnknownRefused,
    /// It activates no job.
    UnknownInactive,
    /// A chain tip for a known template is accepted.
    KnownAccepted,
    /// It activates a job.
    Activated,
    /// The active job is the one for the template.
    ActiveJobId,
    /// The active job is no future job.
    ActiveNotFuture,
    /// The earliest time of the active job is that of the chain tip.
    ActiveMinNtime,
    /// The channel has a chain tip.
    TipSet,
    /// It has the time that the channel was told.
    TipMinNtime,
    /// It has the compact target that the channel was told.
    TipNbits,
    /// It has the hash that the channel was told.
    TipPrevHash,
}

impl Rule for ActivationRule {
    type Run = (ActivationPlan, ActivationRun);

    open spec fn rank(self) -> int {
        match self {
            ActivationRule::TargetAccepted => 0,
            ActivationRule::Target => 1,
            ActivationRule::UnknownRefused => 2,
            ActivationRule::UnknownInactive => 3,
            ActivationRule::KnownAccepted => 4,
            ActivationRule::Activated => 5,
            ActivationRule::ActiveJobId => 6,
            ActivationRule::ActiveNotFuture => 7,
            ActivationRule::ActiveMinNtime => 8,
            ActivationRule::TipSet => 9,
            ActivationRule::TipMinNtime => 10,
            ActivationRule::TipNbits => 11,
            ActivationRule::TipPrevHash => 12,
        }
    }

    open spec fn holds(self, run: (ActivationPlan, ActivationRun)) -> bool {
        let (plan, run) = run;
        match self {
            ActivationRule::TargetAccepted => run.target_accepted,
            ActivationRule::Target => run.target@ == plan.target@,
            ActivationRule::UnknownRefused => run.unknown == TipReply::NotFound,
            ActivationRule::UnknownInactive => !run.unknown_active,
            ActivationRule::KnownAccepted => run.known == TipReply::Accepted,
            ActivationRule::Activated => run.active is Some,
            ActivationRule::ActiveJobId => run.active matches Some(job) ==> job.job_id
                == plan.job_id,
            ActivationRule::ActiveNotFuture => run.active matches Some(job) ==> !job.future,
            ActivationRule::ActiveMinNtime => run.active matches Some(job) ==> job.min_ntime
                == Some(plan.header_timestamp),
            ActivationRule::TipSet => run.tip is Some,
            ActivationRule::TipMinNtime => run.tip matches Some(tip) ==> tip.min_ntime
                == plan.header_timestamp,
            ActivationRule::TipNbits => run.tip matches Some(tip) ==> tip.nbits == NBITS,
            ActivationRule::TipPrevHash => run.tip matches Some(tip) ==> tip.prev_hash@
                == plan.prev_hash@,
        }
    }
}

/// Judges how a channel activated a job: the first rule that it breaks, if there is one.
pub fn judge_activation(plan: &ActivationPlan, run: &ActivationRun) -> (r: Result<
    (),
    ActivationRule,
>)
    ensures
        decides(r, (*plan, *run)),
{
    if !run.target_accepted {
        assert(!ActivationRule::TargetAccepted.holds((*plan, *run)));
        return Err(ActivationRule::TargetAccepted);
    }
    if !same_bytes(run.target.as_slice(), plan.target.as_slice()) {
        assert(!ActivationRule::Target.holds((*plan, *run)));
        return Err(ActivationRule::Target);
    }
    if run.unknown != TipReply::NotFound {
        assert(!ActivationRule::UnknownRefused.holds((*plan, *run)));
        return Err(ActivationRule::UnknownRefused);
    }
    if run.unknown_active {
        assert(!ActivationRule::UnknownInactive.holds((*plan, *run)));
        return Err(ActivationRule::UnknownInactive);
    }
    if run.known != TipReply::Accepted {
        assert(!ActivationRule::KnownAccepted.holds((*plan, *run)));
        return Err(ActivationRule::KnownAccepted);
    }
    let job = match &run.active {
        Some(job) => job,
        None => {
            assert(!ActivationRule::Activated.holds((*plan, *run)));
            return Err(ActivationRule::Activated);
        },
    };
    if job.job_id != plan.job_id {
        assert(!ActivationRule::ActiveJobId.holds((*plan, *run)));
        return Err(ActivationRule::ActiveJobId);
    }
    if job.future {
        assert(!ActivationRule::ActiveNotFuture.holds((*plan, *run)));
        return Err(ActivationRule::ActiveNotFuture);
    }
    if job.min_ntime != Some(plan.header_timestamp) {
        assert(!ActivationRule::ActiveMinNtime.holds((*plan, *run)));
        return Err(ActivationRule::ActiveMinNtime);
    }
    let tip = match &run.tip {
        Some(tip) => tip,
        None => {
            assert(!ActivationRule::TipSet.holds((*plan, *run)));
            return Err(ActivationRule::TipSet);
        },
    };
    if tip.min_ntime != plan.header_timestamp {
        assert(!ActivationRule::TipMinNtime.holds((*plan, *run)));
        return Err(ActivationRule::TipMinNtime);
    }
    if tip.nbits != NBITS {
        assert(!ActivationRule::TipNbits.holds((*plan, *run)));
        return Err(ActivationRule::TipNbits);
    }
    if !same_bytes(tip.prev_hash.as_slice(), plan.prev_hash.as_slice()) {
        assert(!ActivationRule::TipPrevHash.holds((*plan, *run)));
        return Err(ActivationRule::TipPrevHash);
    }
    Ok(())
}

/// What a channel without future jobs was seen to do when it was given another chain tip,
/// then a share for the job that was active before.
pub struct StaleRun {
    pub tip: TipReply,
    /// The channel has an active job after the chain tip.
    pub active: bool,
    pub reply: ShareReply,
}

/// The rules about a chain tip that no future job is for, in the order in which they are
/// checked.
#[derive(Clone, Copy, Debug, PartialEq, Eq, Structural)]
pub enum StaleRule {
    /// The chain tip is accepted.
    TipAccepted,
    /// No job stays active.
    NoneActive,
    /// A share for a job of the chain tip before is stale.
    Stale,
}

impl Rule for StaleRule {
    type Run = StaleRun;

    open spec fn rank(self) -> int {
        match self {
            StaleRule::TipAccepted => 0,
            StaleRule::NoneActive => 1,
            StaleRule::Stale => 2,
        }
    }

    open spec fn holds(self, run: StaleRun) -> bool {
        match self {
            StaleRule::TipAccepted => run.tip == TipReply::Accepted,
            StaleRule::NoneActive => !run.active,
            StaleRule::Stale => run.reply is Stale,
        }
    }
}

/// Judges how a channel gave up a job: the first rule that it breaks, if there is one.
pub fn judge_stale(run: &StaleRun) -> (r: Result<(), StaleRule>)
    ensures
        decides(r, *run),
{
    if run.tip != TipReply::Accepted {
        assert(!StaleRule::TipAccepted.holds(*run));
        return Err(StaleRule::TipAccepted);
    }
    if run.active {
        assert(!StaleRule::NoneActive.holds(*run));
        return Err(StaleRule::NoneActive);
    }
    match &run.reply {
        ShareReply::Stale { .. } => Ok(()),
        _ => {
            assert(!StaleRule::Stale.holds(*run));
            Err(StaleRule::Stale)
        },
    }
}

/// An activation passes exactly if the channel took the target that it was given, refused the
/// chain tip for the unknown template as such and activated nothing, and accepted the one for
/// the known template: then the job of that template is active, no longer a future job, with
/// the time of the chain tip, and the channel has that chain tip. If not, the verdict names the
/// first of these things that is wrong.
pub proof fn law_activation(
    plan: &ActivationPlan,
    run: &ActivationRun,
    verdict: Result<(), ActivationRule>,
)
    requires
        call_ensures(judge_activation, (plan, run), verdict),
    ensures
        verdict is Ok <==> {
            &&& run.target_accepted
            &&& run.target@ == plan.target@
            &&& run.unknown == TipReply::NotFound
            &&& !run.unknown_active
            &&& run.known == TipReply::Accepted
            &&& run.active is Some
            &&& run.active->0.job_id == plan.job_id
            &&& !run.active->0.future
            &&& run.active->0.min_ntime == Some(plan.header_timestamp)
            &&& run.tip is Some
            &&& run.tip->0.min_ntime == plan.header_timestamp
            &&& run.tip->0.nbits == 0x1d00_ffff
            &&& run.tip->0.prev_hash@ == plan.prev_hash@
        },
        verdict matches Err(rule) ==> rule == (if !run.target_accepted {
            ActivationRule::TargetAccepted
        } else if run.target@ != plan.target@ {
            ActivationRule::Target
        } else if run.unknown != TipReply::NotFound {
            ActivationRule::UnknownRefused
        } else if run.unknown_active {
            ActivationRule::UnknownInactive
        } else if run.known != TipReply::Accepted {
            ActivationRule::KnownAccepted
        } else if run.active is None {
            ActivationRule::Activated
        } else if run.active->0.job_id != plan.job_id {
            ActivationRule::ActiveJobId
        } else if run.active->0.future {
            ActivationRule::ActiveNotFuture
        } else if run.active->0.min_ntime != Some(plan.header_timestamp) {
            ActivationRule::ActiveMinNtime
        } else if run.tip is None {
            ActivationRule::TipSet
        } else if run.tip->0.min_ntime != plan.header_timestamp {
            ActivationRule::TipMinNtime
        } else if run.tip->0.nbits != 0x1d00_ffff {
            ActivationRule::TipNbits
        } else {
            ActivationRule::TipPrevHash
        }),
{
    if verdict is Ok {
        assert(ActivationRule::TargetAccepted.holds((*plan, *run)));
        assert(ActivationRule::Target.holds((*plan, *run)));
        assert(ActivationRule::UnknownRefused.holds((*plan, *run)));
        assert(ActivationRule::UnknownInactive.holds((*plan, *run)));
        assert(ActivationRule::KnownAccepted.holds((*plan, *run)));
        assert(ActivationRule::Activated.holds((*plan, *run)));
        assert(ActivationRule::ActiveJobId.holds((*plan, *run)));
        assert(ActivationRule::ActiveNotFuture.holds((*plan, *run)));
        assert(ActivationRule::ActiveMinNtime.holds((*plan, *run)));
        assert(ActivationRule::TipSet.holds((*plan, *run)));
        assert(ActivationRule::TipMinNtime.holds((*plan, *run)));
        assert(ActivationRule::TipNbits.holds((*plan, *run)));
        assert(ActivationRule::TipPrevHash.holds((*plan, *run)));
    }
    if let Err(broken) = verdict {
        if ActivationRule::TargetAccepted.rank() < broken.rank() {
            assert(ActivationRule::TargetAccepted.holds((*plan, *run)));
        }
        if ActivationRule::Target.rank() < broken.rank() {
            assert(ActivationRule::Target.holds((*plan, *run)));
        }
        if ActivationRule::UnknownRefused.rank() < broken.rank() {
            assert(ActivationRule::UnknownRefused.holds((*plan, *run)));
        }
        if ActivationRule::UnknownInactive.rank() < broken.rank() {
            assert(ActivationRule::UnknownInactive.holds((*plan, *run)));
        }
        if ActivationRule::KnownAccepted.rank() < broken.rank() {
            assert(ActivationRule::KnownAccepted.holds((*plan, *run)));
        }
        if ActivationRule::Activated.rank() < broken.rank() {
            assert(ActivationRule::Activated.holds((*plan, *run)));
        }
        if ActivationRule::ActiveJobId.rank() < broken.rank() {
            assert(ActivationRule::ActiveJobId.holds((*plan, *run)));
        }
        if ActivationRule::ActiveNotFuture.rank() < broken.rank() {
            assert(ActivationRule::ActiveNotFuture.holds((*plan, *run)));
        }
        if ActivationRule::ActiveMinNtime.rank() < broken.rank() {
            assert(ActivationRule::ActiveMinNtime.holds((*plan, *run)));
        }
        if ActivationRule::TipSet.rank() < broken.rank() {
            assert(ActivationRule::TipSet.holds((*plan, *run)));
        }
        if ActivationRule::TipMinNtime.rank() < broken.rank() {
            assert(ActivationRule::TipMinNtime.holds((*plan, *run)));
        }
        if ActivationRule::TipNbits.rank() < broken.rank() {
            assert(ActivationRule::TipNbits.holds((*plan, *run)));
        }
    }
}

/// Giving up a job passes exactly if the chain tip was accepted, no job stayed active, and a
/// share for the job of before was found stale, not merely refused. If not, the verdict names
/// the first of these things that is wrong.
pub proof fn law_stale(run: &StaleRun, verdict: Result<(), StaleRule>)
    requires
        call_ensures(judge_stale, (run,), verdict),
    ensures
        verdict is Ok <==> run.tip == TipReply::Accepted && !run.active && run.reply is Stale,
        verdict matches Err(rule) ==> rule == (if run.tip != TipReply::Accepted {
            StaleRule::TipAccepted
        } else if run.active {
            StaleRule::NoneActive
        } else {
            StaleRule::Stale
        }),
{
    if verdict is Ok {
        assert(StaleRule::TipAccepted.holds(*run));
        assert(StaleRule::NoneActive.holds(*run));
        assert(StaleRule::Stale.holds(*run));
    }
    if let Err(broken) = verdict {
        if StaleRule::TipAccepted.rank() < broken.rank() {
            assert(StaleRule::TipAccepted.holds(*run));
        }
        if StaleRule::NoneActive.rank() < broken.rank() {
            assert(StaleRule::NoneActive.holds(*run));
        }
    }
}

} // verus!
