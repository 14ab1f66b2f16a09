//! The life of a job: a channel is offered a template, told chain tips and sent shares.

use crate::bytes::cap;
#[allow(unused_imports)]
use crate::bytes::{capped, le_value, lemma_le_len, zeros};
use crate::channel::{
    get_target, on_new_template, on_set_new_prev_hash, read_active, read_job, read_tip,
    read_tally, read_transaction, serialize_output, set_target, validate_share, Offer,
};
#[allow(unused_imports)]
use crate::channel::{
    activated, after_tip, channel_view, does, future_job, is_stripped, is_whole, lists, lookup,
    mines, only_future, reads, rest_after_tip, same_but_future, share_step, template_step,
    tip_reply, transaction_of, ChannelView, OfferView, ShareStep, TemplateStep, MIN_REMEMBERED,
};
use crate::jobs::{judge_template, JobSeen, OverpaidSeen, TemplatePlan, TemplateRule, TemplateRun};
use crate::jobs::{TxSeen, COINBASE_VERSION};
#[allow(unused_imports)]
use crate::jobs::{read, told, total, JobView, MAX_SCRIPT_SIG};
use crate::merkle::Output;
#[allow(unused_imports)]
use crate::merkle::{outputs_bytes, outputs_view};
#[allow(unused_imports)]
use crate::rules::{decides, Rule};
use crate::shares::{
    build_share, copy_share, expected_verdict, network_target, share_hash, Expected, Job, Share,
    ShareInput, CHANNEL_ID, NBITS,
};
#[allow(unused_imports)]
use crate::shares::{
    hash_of, is_verdict, law_network_target, network_target_bytes, share_coinbase, Reason,
    ShareView,
    MAX_SHARE_EXTRANONCE,
};
use crate::slots::{lease, SlotError};
#[allow(unused_imports)]
use crate::slots::{prefix_bytes, SlotPlan};
use crate::tips::{
    judge_activation, judge_stale, ActivationPlan, ActivationRule, ActivationRun, StaleRule,
    StaleRun, TipReply, TipUpdate,
};
#[allow(unused_imports)]
use crate::tips::{named, UpdateView};
use crate::trials::{judge_trials, ShareReply, ShareTrial, Tally, TrialViolation};
#[allow(unused_imports)]
use crate::trials::{
    credited, decides_trials, law_planned, lemma_planned_push, planned, planned_at, tallied,
    ReplyView, ShareRule,
};
use channels_sv2::extranonce_manager::AllocatedExtranoncePrefix;
use channels_sv2::server::extended::ExtendedChannel;
#[allow(unused_imports)]
use vstd::arithmetic::power::pow;
use vstd::prelude::*;

verus! {

impl TemplatePlan {
    /// Every part fits the field of the message that carries it.
    pub open spec fn fits(self) -> bool {
        &&& self.coinbase_prefix@.len() <= 255
        &&& self.output_script@.len() < 253
        &&& self.path@.len() <= 255
    }

    /// The template, with a reward of `reward` satoshis: a future template whose one output
    /// is worth nothing.
    pub open spec fn offer(self, reward: u64) -> OfferView {
        OfferView {
            template_id: self.template_id,
            future: true,
            version: self.version,
            coinbase_version: COINBASE_VERSION,
            coinbase_prefix: self.coinbase_prefix@,
            input_sequence: self.input_sequence,
            value_remaining: self.value_remaining,
            outputs_count: 1,
            outputs: outputs_bytes(seq![(0, self.output_script@)]),
            locktime: self.locktime,
            path: self.path@,
            reward_value: reward,
            reward_script: self.reward_script@,
        }
    }

    /// Builds the template, with a reward of `reward` satoshis.
    fn build_offer(&self, reward: u64) -> (r: Offer)
        requires
            self.fits(),
        ensures
            r@ == self.offer(reward),
            r.coinbase_prefix@.len() <= 255,
            r.outputs@.len() <= 65535,
            r.path@.len() <= 255,
    {
        let outputs = serialize_output(0, self.output_script.as_slice());
        proof {
            reveal_with_fuel(outputs_bytes, 2);
            lemma_le_len(0, 8);
        }
        Offer {
            template_id: self.template_id,
            future: true,
            version: self.version,
            coinbase_version: COINBASE_VERSION,
            coinbase_prefix: vstd::slice::slice_to_vec(self.coinbase_prefix.as_slice()),
            input_sequence: self.input_sequence,
            value_remaining: self.value_remaining,
            outputs_count: 1,
            outputs,
            locktime: self.locktime,
            path: vstd::slice::slice_to_vec(self.path.as_slice()),
            reward: Output {
                value: reward,
                script: vstd::slice::slice_to_vec(self.reward_script.as_slice()),
            },
        }
    }
}

/// The state of a channel after the attempt to overpay a template.
pub open spec fn after_overpaid(channel: ChannelView, plan: TemplatePlan) -> ChannelView {
    if plan.value_remaining < u64::MAX {
        template_step(channel, plan.offer((plan.value_remaining + 1) as u64)).next
    } else {
        channel
    }
}

/// What a channel makes of a template, after the attempt to overpay it.
pub open spec fn fair_step(channel: ChannelView, plan: TemplatePlan) -> TemplateStep {
    template_step(after_overpaid(channel, plan), plan.offer(plan.value_remaining))
}

/// The coinbase transaction of a job, with an extranonce of `full_size` zeros.
pub open spec fn empty_coinbase(job: JobView, full_size: usize) -> Seq<u8> {
    job.message.prefix + zeros(full_size as nat) + job.message.suffix
}

/// `run` is what a channel in this state makes of a template.
pub open spec fn is_template_run(
    channel: ChannelView,
    plan: TemplatePlan,
    run: TemplateRun,
) -> bool {
    let next = fair_step(channel, plan).next;
    &&& run.overpaid == (if plan.value_remaining < u64::MAX {
        Some(
            OverpaidSeen {
                accepted: template_step(
                    channel,
                    plan.offer((plan.value_remaining + 1) as u64),
                ).accepted,
                registered: after_overpaid(channel, plan).future_ids.contains_key(
                    plan.template_id,
                ),
            },
        )
    } else {
        None
    })
    &&& run.accepted == fair_step(channel, plan).accepted
    &&& run.accepted ==> {
        &&& run.active == next.active is Some
        &&& run.job_id == lookup(next.future_ids, plan.template_id)
        &&& told(run.job) == future_job(next, plan.template_id)
        &&& run.full_size == next.full_size()
        &&& read(run.coinbase) == (match told(run.job) {
            Some(job) => transaction_of(empty_coinbase(job, run.full_size)),
            None => None,
        })
    }
}

impl TemplatePlan {
    /// The outputs of the template.
    pub open spec fn outputs(self) -> Seq<(u64, Seq<u8>)> {
        seq![(0, self.output_script@)]
    }

    /// The template is for this channel.
    pub open spec fn is_for(self, channel: ChannelView) -> bool {
        &&& channel.channel_id == CHANNEL_ID
        &&& channel.extranonce_prefix == self.extranonce_prefix@
        &&& channel.rollable == self.rollable
        &&& channel.version_rolling_allowed == self.version_rolling_allowed
        &&& self.reward_script@.len() < 253
    }
}

/// The coinbase transaction for a template keeps the rules about it.
proof fn lemma_coinbase_rules(plan: TemplatePlan, full_size: usize, tag: Seq<u8>, tx: TxSeen)
    requires
        tx@ == plan.offer(plan.value_remaining).coinbase(
            plan.outputs(),
            tag,
            zeros(full_size as nat),
        ).seen(),
        plan.coinbase_prefix@.len() + tag.len() + full_size + 2 <= MAX_SCRIPT_SIG,
    ensures
        forall|rule: TemplateRule| #![trigger rule.tx_holds(plan, full_size, tx)]
            19 <= rule.rank() ==> rule.tx_holds(plan, full_size, tx),
{
    let coinbase = plan.offer(plan.value_remaining).coinbase(
        plan.outputs(),
        tag,
        zeros(full_size as nat),
    );
    assert(tx@.inputs == seq![(coinbase.sequence, coinbase.script)]);
    assert(tx@.inputs.len() == tx.inputs@.len());
    assert(tx@.inputs[0] == (coinbase.sequence, coinbase.script));
    assert(tx.inputs@[0].sequence == coinbase.sequence);
    let script = tx.inputs@[0].script@;
    assert(script == coinbase.script);
    assert(script.take(plan.coinbase_prefix@.len() as int) =~= plan.coinbase_prefix@);
    assert(script.skip(script.len() - full_size) =~= zeros(full_size as nat));
    let view = outputs_view(tx.outputs@);
    assert(view.len() == tx.outputs@.len());
    assert(view == coinbase.outputs);
    assert(coinbase.outputs.len() == 2);
    assert(view[0] == (plan.value_remaining, plan.reward_script@));
    assert(view[1] == (0u64, plan.output_script@));
    reveal_with_fuel(total, 3);
}

/// The outputs of a template are well formed.
proof fn lemma_plain(plan: TemplatePlan)
    requires
        plan.fits(),
        plan.reward_script@.len() < 253,
    ensures
        plan.offer(plan.value_remaining).is_plain(plan.outputs()),
{
    reveal_with_fuel(outputs_bytes, 2);
    lemma_le_len(0, 8);
}

/// The coinbase transaction for a template that suits a channel is short.
proof fn lemma_short(plan: TemplatePlan, channel: ChannelView, extranonce: Seq<u8>)
    requires
        plan.offer(plan.value_remaining).is_plain(plan.outputs()),
        plan.offer(plan.value_remaining).suits(channel),
        extranonce.len() == channel.full_size(),
    ensures
        plan.offer(plan.value_remaining).coinbase(plan.outputs(), channel.tag, extranonce).short(),
{
}

/// A channel that makes of a template what it should keeps the rules.
proof fn lemma_template_rules(
    plan: TemplatePlan,
    before: ChannelView,
    after: ChannelView,
    run: TemplateRun,
)
    requires
        plan.is_for(before),
        plan.offer(plan.value_remaining).is_plain(plan.outputs()),
        plan.offer(plan.value_remaining).suits(before),
        run.overpaid matches Some(over) ==> !over.accepted && !over.registered,
        run.accepted,
        !run.active,
        run.job_id matches Some(id) && told(run.job) == Some(after.future_jobs[id])
            && after.future_jobs[id].job_id == id && plan.offer(plan.value_remaining).makes(
            plan.outputs(),
            before,
            after.future_jobs[id],
            after.future_makings[id],
        ),
        run.full_size == before.full_size(),
        run.job matches Some(job) && reads(empty_coinbase(job@, run.full_size), read(run.coinbase)),
    ensures
        decides(Ok::<(), TemplateRule>(()), (plan, run)),
{
    let job = run.job->0;
    let coinbase = plan.offer(plan.value_remaining).coinbase(
        plan.outputs(),
        before.tag,
        zeros(run.full_size as nat),
    );
    assert(empty_coinbase(job@, run.full_size) =~= job@.coinbase(zeros(run.full_size as nat)));
    lemma_short(plan, before, zeros(run.full_size as nat));
    assert(empty_coinbase(job@, run.full_size) == coinbase.stripped());
    lemma_coinbase_rules(plan, run.full_size, before.tag, run.coinbase->0);
}

/// Reads the coinbase transaction of a job, with an extranonce of `full_size` zeros.
fn read_coinbase(job: &JobSeen, full_size: usize) -> (r: Option<TxSeen>)
    ensures
        read(r) == transaction_of(empty_coinbase(job@, full_size)),
        reads(empty_coinbase(job@, full_size), read(r)),
{
    let mut coinbase = vstd::slice::slice_to_vec(job.message.prefix.as_slice());
    let mut i: usize = 0;
    assert(coinbase@ =~= job@.message.prefix + zeros(0));
    while i < full_size
        invariant
            i <= full_size,
            coinbase@ == job@.message.prefix + zeros(i as nat),
        decreases full_size - i,
    {
        coinbase.push(0);
        i += 1;
        assert(coinbase@ =~= job@.message.prefix + zeros(i as nat));
    }
    coinbase.extend_from_slice(job.message.suffix.as_slice());
    assert(coinbase@ =~= empty_coinbase(job@, full_size));
    read_transaction(coinbase.as_slice())
}

/// Offers a channel a template, first with a reward that is too high, then with the right
/// one.
pub fn observe_template(channel: &mut ExtendedChannel, plan: &TemplatePlan) -> (run: TemplateRun)
    requires
        plan.fits(),
    ensures
        is_template_run(channel_view(*old(channel)), *plan, run),
        channel_view(*final(channel)) == fair_step(channel_view(*old(channel)), *plan).next,
        TemplateRule::OverpaidRefused.holds((*plan, run)),
        same_but_future(channel_view(*old(channel)), channel_view(*final(channel))),
        channel_view(*old(channel)).jobless() ==> {
            &&& TemplateRule::OverpaidUnregistered.holds((*plan, run))
            &&& TemplateRule::NotActive.holds((*plan, run))
            &&& TemplateRule::Registered.holds((*plan, run))
            &&& TemplateRule::Retrievable.holds((*plan, run))
            &&& TemplateRule::JobId.holds((*plan, run))
            &&& run.accepted ==> only_future(
                channel_view(*old(channel)),
                channel_view(*final(channel)),
                plan.template_id,
            )
        },
        channel_view(*old(channel)).jobless() && plan.is_for(channel_view(*old(channel))) ==> {
            let id = channel_view(*final(channel)).future_ids[plan.template_id];
            &&& decides(Ok::<(), TemplateRule>(()), (*plan, run))
            &&& run.accepted == plan.offer(plan.value_remaining).suits(
                channel_view(*old(channel)),
            )
            &&& run.accepted ==> plan.offer(plan.value_remaining).makes(
                plan.outputs(),
                channel_view(*old(channel)),
                channel_view(*final(channel)).future_jobs[id],
                channel_view(*final(channel)).future_makings[id],
            )
        },
{
    let ghost before = channel_view(*channel);
    let mut run = TemplateRun {
        overpaid: None,
        accepted: false,
        active: false,
        job_id: None,
        job: None,
        full_size: 0,
        coinbase: None,
    };
    if plan.value_remaining < u64::MAX {
        let offer = plan.build_offer(plan.value_remaining + 1);
        let accepted = on_new_template(channel, offer);
        let registered = channel.get_future_job_id_from_template_id(plan.template_id).is_some();
        run.overpaid = Some(OverpaidSeen { accepted, registered });
    }
    let ghost between = channel_view(*channel);
    let offer = plan.build_offer(plan.value_remaining);
    run.accepted = on_new_template(channel, offer);
    let ghost after = channel_view(*channel);
    let ghost fair = before.jobless() && plan.is_for(before);
    proof {
        if fair {
            lemma_plain(*plan);
            assert(plan.offer(plan.value_remaining).is_plain(plan.outputs()));
            assert(plan.offer(plan.value_remaining).suits(before) == plan.offer(
                plan.value_remaining,
            ).suits(between));
            if run.accepted {
                let id = after.future_ids[plan.template_id];
                assert(plan.offer(plan.value_remaining).makes(
                    plan.outputs(),
                    between,
                    after.future_jobs[id],
                    after.future_makings[id],
                ));
                assert(plan.offer(plan.value_remaining).makes(
                    plan.outputs(),
                    before,
                    after.future_jobs[id],
                    after.future_makings[id],
                ));
            }
        }
    }
    if run.accepted {
        run.active = channel.get_active_job().is_some();
        run.job_id = channel.get_future_job_id_from_template_id(plan.template_id);
        run.full_size = channel.get_full_extranonce_size();
        if let Some(id) = run.job_id {
            if let Some(job) = channel.get_future_job(id) {
                let job = read_job(job);
                run.coinbase = read_coinbase(&job, run.full_size);
                run.job = Some(job);
            }
        }
    }
    proof {
        if fair && run.accepted {
            lemma_template_rules(*plan, before, after, run);
        }
    }
    run
}

/// A chain tip on the network with the compact target [`NBITS`].
pub open spec fn update_view(
    template_id: u64,
    prev_hash: Seq<u8>,
    header_timestamp: u32,
) -> UpdateView {
    UpdateView {
        template_id,
        prev_hash,
        header_timestamp,
        nbits: NBITS,
        target: network_target_bytes(),
    }
}

/// Builds a chain tip on the network with the compact target [`NBITS`].
fn build_update(template_id: u64, prev_hash: [u8; 32], header_timestamp: u32) -> (r: TipUpdate)
    ensures
        r@ == update_view(template_id, prev_hash@, header_timestamp),
{
    TipUpdate {
        template_id,
        prev_hash,
        header_timestamp,
        nbits: NBITS,
        target: network_target(),
    }
}

/// The state of a channel after a chain tip.
pub open spec fn tipped(channel: ChannelView, update: UpdateView) -> ChannelView {
    after_tip(channel, update, rest_after_tip(channel, update))
}

impl ActivationPlan {
    /// The chain tip for the template that is `steps` after the one to activate.
    pub open spec fn update(self, steps: int) -> UpdateView {
        update_view(
            ((self.template_id + steps) % 0x1_0000_0000_0000_0000) as u64,
            self.prev_hash@,
            self.header_timestamp,
        )
    }
}

/// The state of a channel after it was given a target.
pub open spec fn retargeted(channel: ChannelView, target: Seq<u8>) -> ChannelView {
    if target == zeros(32) {
        channel
    } else {
        ChannelView { target, ..channel }
    }
}

/// The state of a channel after the attempt to activate an unknown template.
pub open spec fn after_unknown(channel: ChannelView, plan: ActivationPlan) -> ChannelView {
    tipped(retargeted(channel, plan.target@), plan.update(1))
}

/// The state of a channel after the attempt to activate a job.
pub open spec fn after_activation(channel: ChannelView, plan: ActivationPlan) -> ChannelView {
    tipped(after_unknown(channel, plan), plan.update(0))
}

/// `run` is how a channel in this state activates a job.
pub open spec fn is_activation_run(
    channel: ChannelView,
    plan: ActivationPlan,
    run: ActivationRun,
) -> bool {
    let next = after_activation(channel, plan);
    &&& run.target_accepted == (plan.target@ != zeros(32))
    &&& run.target@ == retargeted(channel, plan.target@).target
    &&& run.unknown == tip_reply(retargeted(channel, plan.target@), plan.update(1))
    &&& run.unknown_active == after_unknown(channel, plan).active is Some
    &&& run.known == tip_reply(after_unknown(channel, plan), plan.update(0))
    &&& told(run.active) == next.active
    &&& named(run.tip) == next.tip
}

/// Gives a channel a target, a chain tip for a template that follows the one to activate,
/// and a chain tip for that one.
pub fn observe_activation(channel: &mut ExtendedChannel, plan: &ActivationPlan) -> (run:
    ActivationRun)
    ensures
        is_activation_run(channel_view(*old(channel)), *plan, run),
        channel_view(*final(channel)) == after_activation(channel_view(*old(channel)), *plan),
{
    let target_accepted = set_target(channel, plan.target);
    let target = get_target(channel);
    let next: u64 = plan.template_id.wrapping_add(1);
    let update = build_update(next, plan.prev_hash, plan.header_timestamp);
    assert(update@ == plan.update(1));
    let unknown = on_set_new_prev_hash(channel, update);
    let unknown_active = channel.get_active_job().is_some();
    let update = build_update(plan.template_id, plan.prev_hash, plan.header_timestamp);
    assert(update@ == plan.update(0));
    let known = on_set_new_prev_hash(channel, update);
    let active = read_active(channel);
    let tip = read_tip(channel);
    ActivationRun { target_accepted, target, unknown, unknown_active, known, active, tip }
}

/// A channel with no active job that has a future job for the template to activate, and
/// none for the template that follows, breaks no rule if its target is to be other than
/// zero: the chain tip for the other template is refused and activates nothing, and the
/// chain tip for the template activates its job.
pub proof fn lemma_activates_known(
    channel: ChannelView,
    plan: ActivationPlan,
    run: ActivationRun,
)
    requires
        is_activation_run(channel, plan, run),
        plan.target@ != zeros(32),
        channel.active is None,
        future_job(channel, plan.template_id) matches Some(job) && job.job_id == plan.job_id,
        future_job(channel, plan.update(1).template_id) is None,
    ensures
        decides(Ok::<(), ActivationRule>(()), (plan, run)),
{
    assert(plan.update(0).template_id == plan.template_id);
    assert(plan.update(1).template_id != plan.template_id);
    let first = retargeted(channel, plan.target@);
    assert(future_job(first, plan.template_id) == future_job(channel, plan.template_id));
    assert(future_job(first, plan.update(1).template_id) == future_job(
        channel,
        plan.update(1).template_id,
    ));
    assert(!first.none_future()) by {
        assert(channel.future_jobs.contains_key(channel.future_ids[plan.template_id]));
    }
    let second = after_unknown(channel, plan);
    assert(future_job(second, plan.template_id) == future_job(channel, plan.template_id));
    assert(second.future_jobs == channel.future_jobs);
}

/// A chain tip activates nothing but the future job for its template: the active job
/// afterwards is that one, or none, or, if the chain tip was refused, the one before.
pub proof fn lemma_only_known_activated(channel: ChannelView, update: UpdateView)
    ensures
        match tip_reply(channel, update) {
            TipReply::Accepted => match tipped(channel, update).active {
                Some(job) => future_job(channel, update.template_id) matches Some(future)
                    && job == activated(future, update.header_timestamp),
                None => channel.none_future(),
            },
            _ => {
                &&& future_job(channel, update.template_id) is None
                &&& tipped(channel, update).active == channel.active
                &&& tipped(channel, update).tip == channel.tip
                &&& tipped(channel, update).future_jobs == channel.future_jobs
            },
        },
{
}

/// The state of a channel after a list of trials.
pub open spec fn after_trials(channel: ChannelView, trials: Seq<ShareTrial>) -> ChannelView
    decreases trials.len(),
{
    if trials.len() == 0 {
        channel
    } else {
        share_step(
            after_trials(channel, trials.drop_last()),
            CHANNEL_ID,
            trials.last().share@,
        ).next
    }
}

/// The trial at `i` shows what a channel makes of its share after the trials before it.
pub open spec fn is_trial(channel: ChannelView, trials: Seq<ShareTrial>, i: int) -> bool {
    let run = trials[i];
    let step = share_step(after_trials(channel, trials.take(i)), CHANNEL_ID, run.share@);
    &&& run.reply@ == step.reply
    &&& run.tally == step.next.tally
    &&& run.block_coinbase == (step.reply matches ReplyView::Block { coinbase, .. } && (
    transaction_of(coinbase) matches Some(tx) && tx.is_coinbase))
}

/// Every trial shows what a channel in this state makes of its share.
pub open spec fn are_trials(channel: ChannelView, trials: Seq<ShareTrial>) -> bool {
    forall|i: int| 0 <= i < trials.len() ==> #[trigger] is_trial(channel, trials, i)
}

/// One more trial after the others.
proof fn lemma_trials_push(channel: ChannelView, trials: Seq<ShareTrial>, run: ShareTrial)
    requires
        are_trials(channel, trials),
        is_trial(channel, trials.push(run), trials.len() as int),
    ensures
        are_trials(channel, trials.push(run)),
{
    assert forall|i: int| 0 <= i < trials.push(run).len() implies #[trigger] is_trial(
        channel,
        trials.push(run),
        i,
    ) by {
        if i < trials.len() {
            assert(is_trial(channel, trials, i));
            assert(trials.push(run).take(i) =~= trials.take(i));
        }
    }
}

/// At most this many shares are submitted.
pub const MAX_TRIALS: usize = 24;

/// Whether the coinbase of a block that a channel found is a coinbase transaction.
fn finds_coinbase(reply: &ShareReply) -> (r: bool)
    ensures
        r == (reply@ matches ReplyView::Block { coinbase, .. } && (transaction_of(
            coinbase,
        ) matches Some(tx) && tx.is_coinbase)),
        reply@ matches ReplyView::Block { coinbase, .. } ==> (is_whole(coinbase) ==> r),
{
    match reply {
        ShareReply::Block { coinbase, .. } => match read_transaction(coinbase.as_slice()) {
            Some(tx) => tx.is_coinbase,
            None => false,
        },
        _ => false,
    }
}

/// Where the accounting starts: nothing counted, and the sequence number that the channel
/// shows.
pub open spec fn fresh_tally(channel: ChannelView) -> Tally {
    Tally { accepted: 0, rejected: 0, blocks: 0, last_sequence: channel.tally.last_sequence }
}

/// A channel is ready for shares of a job: it mines the job, which it made from this
/// template, with any extranonce there is a coinbase transaction, and no share was counted
/// or is remembered.
pub open spec fn ready(channel: ChannelView, job: Job, template_id: u64) -> bool {
    &&& mines(channel, job)
    &&& channel.tally == fresh_tally(channel)
    &&& channel.hashes == Set::<Seq<u8>>::empty()
    &&& channel.active_making matches Some(making) && {
        &&& making.template_id == Some(template_id)
        &&& forall|share: ShareView|
            share.extranonce.len() == job.rollable ==> {
                &&& is_stripped(#[trigger] share_coinbase(job, share))
                &&& is_whole(making.coinbase(job.extranonce_prefix@ + share.extranonce))
            }
    }
}

/// One more hash in a list.
proof fn lemma_lists_push(accepted: Seq<[u8; 32]>, hashes: Set<Seq<u8>>, hash: [u8; 32])
    requires
        lists(accepted, hashes),
    ensures
        lists(accepted.push(hash), hashes.insert(hash@)),
{
    let more = accepted.push(hash);
    assert forall|other: Seq<u8>| #[trigger]
        hashes.insert(hash@).contains(other) <==> exists|i: int|
            0 <= i < more.len() && (#[trigger] more[i])@ == other by {
        if hashes.contains(other) {
            let i = choose|i: int| 0 <= i < accepted.len() && (#[trigger] accepted[i])@ == other;
            assert(more[i]@ == other);
        }
        assert(more[accepted.len() as int]@ == hash@);
        if exists|i: int| 0 <= i < more.len() && (#[trigger] more[i])@ == other {
            let i = choose|i: int| 0 <= i < more.len() && (#[trigger] more[i])@ == other;
            if i < accepted.len() {
                assert(accepted[i]@ == other);
            }
        }
    }
}

/// A trial in which the channel does what must become of the share breaks no rule.
proof fn lemma_trial_passes(
    before: ChannelView,
    job: Job,
    accepted: Seq<[u8; 32]>,
    run: ShareTrial,
    step: ShareStep,
)
    requires
        is_verdict(job, run.share@, accepted, run.expected),
        does(before, job, run.share@, run.expected, step),
        run.hash@ == hash_of(job, run.share@),
        run.reply@ == step.reply,
        run.tally == step.next.tally,
        run.due == before.tally.after(run.expected, run.share.sequence_number),
        before.active_making matches Some(making) && making.template_id == Some(
            run.template_id,
        ),
        run.reply@ is Block ==> run.block_coinbase,
    ensures
        decides(Ok::<(), ShareRule>(()), run),
{
}

/// Submits the shares that the inputs describe, the first [`MAX_TRIALS`] of them.
pub fn observe_shares(
    channel: &mut ExtendedChannel,
    job: &Job,
    template_id: u64,
    inputs: &Vec<ShareInput>,
) -> (trials: Vec<ShareTrial>)
    requires
        job.rollable <= MAX_SHARE_EXTRANONCE,
    ensures
        trials@.len() == if inputs@.len() < MAX_TRIALS {
            inputs@.len() as int
        } else {
            MAX_TRIALS as int
        },
        planned(
            *job,
            inputs@,
            template_id,
            fresh_tally(channel_view(*old(channel))),
            trials@,
        ),
        are_trials(channel_view(*old(channel)), trials@),
        channel_view(*final(channel)) == after_trials(channel_view(*old(channel)), trials@),
        channel_view(*final(channel)) == (ChannelView {
            tally: channel_view(*final(channel)).tally,
            hashes: channel_view(*final(channel)).hashes,
            rest: channel_view(*final(channel)).rest,
            ..channel_view(*old(channel))
        }),
        ready(channel_view(*old(channel)), *job, template_id) ==> {
            &&& decides_trials(Ok(()), trials@)
            &&& channel_view(*final(channel)).tally.accepted <= trials@.len()
        },
{
    let ghost before = channel_view(*channel);
    let ghost start = fresh_tally(before);
    let ghost fair = ready(before, *job, template_id);
    let mut due = Tally {
        accepted: 0,
        rejected: 0,
        blocks: 0,
        last_sequence: read_tally(channel).last_sequence,
    };
    let mut accepted: Vec<[u8; 32]> = Vec::new();
    let mut trials: Vec<ShareTrial> = Vec::new();
    let mut i: usize = 0;
    while i < inputs.len() && i < MAX_TRIALS
        invariant
            i == trials@.len(),
            i <= inputs@.len(),
            i <= MAX_TRIALS,
            job.rollable <= MAX_SHARE_EXTRANONCE,
            before == channel_view(*old(channel)),
            start == fresh_tally(before),
            planned(*job, inputs@, template_id, start, trials@),
            are_trials(before, trials@),
            channel_view(*channel) == after_trials(before, trials@),
            channel_view(*channel) == (ChannelView {
                tally: channel_view(*channel).tally,
                hashes: channel_view(*channel).hashes,
                rest: channel_view(*channel).rest,
                ..before
            }),
            accepted@ == credited(trials@),
            due == if i == 0 {
                start
            } else {
                trials@[i - 1].due
            },
            fair == ready(before, *job, template_id),
            fair ==> channel_view(*channel).tally == due,
            fair ==> lists(accepted@, channel_view(*channel).hashes),
            fair ==> decides_trials(Ok(()), trials@),
            due.accepted + due.rejected == i,
            due.blocks <= due.accepted,
            forall|j: int|
                0 <= j < i ==> (#[trigger] trials@[j]).share.extranonce@.len()
                    <= MAX_SHARE_EXTRANONCE,
        decreases inputs@.len() - i,
    {
        let previous = if i > 0 {
            Some(&trials[i - 1].share)
        } else {
            None
        };
        let share = build_share(job, &inputs[i], previous);
        let hash = share_hash(job, &share);
        let expected = expected_verdict(job, &share, &accepted);
        due = due.count(expected, share.sequence_number);
        let ghost now = channel_view(*channel);
        let reply = validate_share(channel, CHANNEL_ID, copy_share(&share));
        let ghost step = ShareStep { reply: reply@, next: channel_view(*channel) };
        let block_coinbase = finds_coinbase(&reply);
        let tally = read_tally(channel);
        let run = ShareTrial {
            share,
            hash,
            expected,
            template_id,
            reply,
            block_coinbase,
            due,
            tally,
        };
        proof {
            if fair {
                assert(mines(now, *job));
                assert(does(now, *job, run.share@, expected, step));
                if reply@ is Block {
                    assert(!Reason::BadExtranonceSize.applies(*job, run.share@));
                    assert(is_stripped(share_coinbase(*job, run.share@)));
                }
                lemma_trial_passes(now, *job, accepted@, run, step);
                if expected is Accept {
                    lemma_lists_push(accepted@, now.hashes, hash);
                }
            }
        }
        if let Expected::Accept { .. } = expected {
            accepted.push(hash);
        }
        proof {
            let more = trials@.push(run);
            assert(more.take(i as int) =~= trials@);
            assert(more.drop_last() =~= trials@);
            lemma_planned_push(*job, inputs@, template_id, start, trials@, run);
            lemma_trials_push(before, trials@, run);
        }
        trials.push(run);
        i += 1;
    }
    trials
}

/// The hash of the chain tip that makes a job stale.
pub open spec fn next_prev_hash() -> Seq<u8> {
    Seq::new(32, |i: int| 0xaau8)
}

/// A share for a job, all zeros where it can be.
pub open spec fn late_share(job: Job) -> ShareView {
    ShareView {
        sequence_number: u32::MAX,
        job_id: job.job_id,
        nonce: 0,
        ntime: job.min_ntime,
        version: job.version,
        extranonce: zeros(job.rollable as nat),
    }
}

/// The state of a channel after another chain tip.
pub open spec fn after_next_tip(channel: ChannelView, job: Job, template_id: u64) -> ChannelView {
    tipped(channel, next_update(job, template_id))
}

/// The chain tip after the one that a job is for, for a template that nobody offered.
pub open spec fn next_update(job: Job, template_id: u64) -> UpdateView {
    update_view(
        ((template_id + 2) % 0x1_0000_0000_0000_0000) as u64,
        next_prev_hash(),
        job.min_ntime,
    )
}

/// `run` is how a channel in this state gives up a job.
pub open spec fn is_stale_run(
    channel: ChannelView,
    job: Job,
    template_id: u64,
    run: StaleRun,
) -> bool {
    let next = after_next_tip(channel, job, template_id);
    &&& run.tip == tip_reply(channel, next_update(job, template_id))
    &&& run.active == next.active is Some
    &&& run.reply@ == share_step(next, CHANNEL_ID, late_share(job)).reply
}

/// Gives a channel another chain tip, and submits a share for a job of the one before.
pub fn observe_stale(channel: &mut ExtendedChannel, job: &Job, template_id: u64) -> (run:
    StaleRun)
    requires
        job.rollable <= MAX_SHARE_EXTRANONCE,
    ensures
        is_stale_run(channel_view(*old(channel)), *job, template_id, run),
        channel_view(*final(channel)) == share_step(
            after_next_tip(channel_view(*old(channel)), *job, template_id),
            CHANNEL_ID,
            late_share(*job),
        ).next,
        channel_view(*old(channel)).none_future() && channel_view(*old(channel)).tally.accepted
            < MIN_REMEMBERED && (channel_view(*old(channel)).active matches Some(active)
            && active.job_id == job.job_id) ==> decides(Ok::<(), StaleRule>(()), run),
{
    let prev_hash: [u8; 32] = [0xaau8;32];
    assert(prev_hash@ =~= next_prev_hash());
    let update = build_update(template_id.wrapping_add(2), prev_hash, job.min_ntime);
    assert(update@ == next_update(*job, template_id));
    let tip = on_set_new_prev_hash(channel, update);
    let active = channel.get_active_job().is_some();
    let mut extranonce: Vec<u8> = Vec::new();
    extranonce.resize(job.rollable, 0);
    assert(extranonce@ =~= zeros(job.rollable as nat));
    let share = Share {
        sequence_number: u32::MAX,
        job_id: job.job_id,
        nonce: 0,
        ntime: job.min_ntime,
        version: job.version,
        extranonce,
    };
    let reply = validate_share(channel, CHANNEL_ID, share);
    StaleRun { tip, active, reply }
}

/// A channel without future jobs accepts any chain tip and keeps no job active.
pub proof fn lemma_tip_ends_job(channel: ChannelView, job: Job, template_id: u64, run: StaleRun)
    requires
        is_stale_run(channel, job, template_id, run),
        channel.none_future(),
    ensures
        StaleRule::TipAccepted.holds(run),
        StaleRule::NoneActive.holds(run),
{
}

/// What to do with a channel.
pub struct ChannelInput {
    pub local_prefix: Vec<u8>,
    pub rollable: u8,
    pub version_rolling_allowed: bool,
    /// The target of the job, least significant byte first.
    pub job_target: [u8; 32],
    pub template_id: u64,
    pub version: u32,
    pub coinbase_prefix: Vec<u8>,
    pub input_sequence: u32,
    pub value_remaining: u64,
    pub locktime: u32,
    pub template_output_script: Vec<u8>,
    pub reward_script: Vec<u8>,
    pub path: Vec<[u8; 32]>,
    pub prev_hash: [u8; 32],
    pub header_timestamp: u32,
    pub shares: Vec<ShareInput>,
}

/// How many channels share an extranonce.
pub const MAX_CHANNELS: u32 = 4;

impl ChannelInput {
    /// How the extranonce is divided: at most 12 bytes for all channels, one for this
    /// channel, and fewer than 16 to roll.
    pub open spec fn slot_plan(self) -> SlotPlan {
        SlotPlan {
            upstream: Seq::empty(),
            local: capped(self.local_prefix@, 12),
            total: capped(self.local_prefix@, 12).len() + 1 + self.rollable % 16,
            max_channels: MAX_CHANNELS as int,
        }
    }

    /// How many bytes of extranonce a share carries.
    pub fn rollable_size(&self) -> (r: usize)
        ensures
            r == self.slot_plan().rollable(),
            r == self.rollable % 16,
    {
        (self.rollable % 16) as usize
    }

    /// Takes a slot for the channel: the first one.
    pub fn lease(&self) -> (r: Result<AllocatedExtranoncePrefix, SlotError>)
        ensures
            r matches Ok(prefix) && prefix_bytes(prefix) == self.slot_plan().extended(0),
    {
        let local = cap(self.local_prefix.as_slice(), 12);
        let rollable = self.rollable_size();
        let total: u8 = (local.len() + 1 + rollable) as u8;
        lease(local, total, MAX_CHANNELS, rollable)
    }

    /// The template for a channel with this extranonce prefix.
    pub open spec fn is_template(self, extranonce_prefix: Seq<u8>, plan: TemplatePlan) -> bool {
        &&& plan.template_id == self.template_id
        &&& plan.version == self.version
        &&& plan.coinbase_prefix@ == capped(self.coinbase_prefix@, 8)
        &&& plan.input_sequence == self.input_sequence
        &&& plan.value_remaining == self.value_remaining
        &&& plan.locktime == self.locktime
        &&& plan.output_script@ == capped(self.template_output_script@, 40)
        &&& plan.reward_script@ == capped(self.reward_script@, 40)
        &&& plan.path@ == self.path@.take(
            if self.path@.len() < 8 {
                self.path@.len() as int
            } else {
                8
            },
        )
        &&& plan.extranonce_prefix@ == extranonce_prefix
        &&& plan.rollable == self.rollable % 16
        &&& plan.version_rolling_allowed == self.version_rolling_allowed
    }

    /// Builds the template for a channel with this extranonce prefix.
    pub fn template(&self, extranonce_prefix: &[u8]) -> (r: TemplatePlan)
        ensures
            self.is_template(extranonce_prefix@, r),
            r.fits(),
    {
        let len: usize = if self.path.len() < 8 {
            self.path.len()
        } else {
            8
        };
        let path = vstd::slice::slice_to_vec(&self.path.as_slice()[0..len]);
        assert(path@ =~= self.path@.take(len as int));
        TemplatePlan {
            template_id: self.template_id,
            version: self.version,
            coinbase_prefix: cap(self.coinbase_prefix.as_slice(), 8),
            input_sequence: self.input_sequence,
            value_remaining: self.value_remaining,
            locktime: self.locktime,
            output_script: cap(self.template_output_script.as_slice(), 40),
            reward_script: cap(self.reward_script.as_slice(), 40),
            path,
            extranonce_prefix: vstd::slice::slice_to_vec(extranonce_prefix),
            rollable: self.rollable_size(),
            version_rolling_allowed: self.version_rolling_allowed,
        }
    }
}

/// How far a channel was taken, and what was seen of it. The run ends after the template if
/// it is refused or breaks a rule, and after the activation or the shares if they break a
/// rule.
pub struct ChannelRun {
    pub plan: TemplatePlan,
    pub template: TemplateRun,
    pub activation: Option<(ActivationPlan, ActivationRun)>,
    pub shares: Option<(Job, Vec<ShareTrial>)>,
    pub stale: Option<StaleRun>,
}

/// A channel that breaks a rule: about the template, about the activation of its job, about
/// a share, or about the chain tip that ends the job.
#[derive(Clone, Copy, Debug, PartialEq, Eq, Structural)]
pub enum ChannelViolation {
    Template(TemplateRule),
    Activation(ActivationRule),
    Share(TrialViolation),
    Stale(StaleRule),
}

impl ChannelInput {
    /// How the job is to be activated.
    pub open spec fn is_activation(self, job_id: Option<u32>, plan: ActivationPlan) -> bool {
        &&& plan.template_id == self.template_id
        &&& job_id == Some(plan.job_id)
        &&& plan.target@ == self.job_target@
        &&& plan.prev_hash@ == self.prev_hash@
        &&& plan.header_timestamp == self.header_timestamp
    }

    /// The channel is one for this input, with this extranonce prefix.
    pub open spec fn opens(self, channel: ChannelView, extranonce_prefix: Seq<u8>) -> bool {
        &&& channel.channel_id == CHANNEL_ID
        &&& channel.extranonce_prefix == extranonce_prefix
        &&& channel.rollable == self.rollable % 16
        &&& channel.version_rolling_allowed == self.version_rolling_allowed
    }

    /// The job that shares are submitted for, put together from the template and from the
    /// message about the job.
    pub open spec fn is_job(self, plan: TemplatePlan, seen: JobView, job: Job) -> bool {
        &&& job.job_id == seen.job_id
        &&& job.version == plan.version
        &&& job.prefix@ == seen.message.prefix
        &&& job.suffix@ == seen.message.suffix
        &&& job.path@ == plan.path@
        &&& job.extranonce_prefix@ == plan.extranonce_prefix@
        &&& job.rollable == plan.rollable
        &&& job.target@ == self.job_target@
        &&& job.prev_hash@ == self.prev_hash@
        &&& job.min_ntime == self.header_timestamp
        &&& job.version_rolling_allowed == plan.version_rolling_allowed
    }
}

impl ChannelRun {
    /// What became of the channel with its target and its active job, from state `channel`
    /// on.
    pub open spec fn ends(
        self,
        channel: ChannelView,
        input: ChannelInput,
        verdict: Result<(), ChannelViolation>,
    ) -> bool {
        match self.shares {
            None => false,
            Some((job, trials)) => {
                &&& told(self.template.job) matches Some(seen) && input.is_job(
                    self.plan,
                    seen,
                    job,
                )
                &&& planned(
                    job,
                    input.shares@,
                    input.template_id,
                    fresh_tally(channel),
                    trials@,
                )
                &&& trials@.len() == if input.shares@.len() < MAX_TRIALS {
                    input.shares@.len() as int
                } else {
                    MAX_TRIALS as int
                }
                &&& are_trials(channel, trials@)
                &&& match self.stale {
                    None => verdict matches Err(ChannelViolation::Share(violation))
                        && decides_trials(Err(violation), trials@),
                    Some(run) => {
                        &&& decides_trials(Ok(()), trials@)
                        &&& is_stale_run(
                            after_trials(channel, trials@),
                            job,
                            input.template_id,
                            run,
                        )
                        &&& match verdict {
                            Ok(()) => decides(Ok::<(), StaleRule>(()), run),
                            Err(ChannelViolation::Stale(rule)) => decides(
                                Err::<(), StaleRule>(rule),
                                run,
                            ),
                            Err(_) => false,
                        }
                    },
                }
            },
        }
    }

    /// What became of the channel with its future job, from state `channel` on.
    pub open spec fn goes_on(
        self,
        channel: ChannelView,
        input: ChannelInput,
        verdict: Result<(), ChannelViolation>,
    ) -> bool {
        match self.activation {
            None => false,
            Some((plan, run)) => {
                &&& input.is_activation(self.template.job_id, plan)
                &&& is_activation_run(channel, plan, run)
                &&& match verdict {
                    Err(ChannelViolation::Activation(rule)) => {
                        &&& decides(Err::<(), ActivationRule>(rule), (plan, run))
                        &&& self.shares is None
                        &&& self.stale is None
                    },
                    _ => {
                        &&& decides(Ok::<(), ActivationRule>(()), (plan, run))
                        &&& self.ends(after_activation(channel, plan), input, verdict)
                    },
                }
            },
        }
    }

    /// This is how far a channel in state `channel` was taken, and `verdict` is right about
    /// it: it names the first rule that is broken, if there is one.
    pub open spec fn is_run(
        self,
        channel: ChannelView,
        input: ChannelInput,
        extranonce_prefix: Seq<u8>,
        verdict: Result<(), ChannelViolation>,
    ) -> bool {
        &&& input.is_template(extranonce_prefix, self.plan)
        &&& is_template_run(channel, self.plan, self.template)
        &&& match verdict {
            Err(ChannelViolation::Template(rule)) => {
                &&& decides(Err::<(), TemplateRule>(rule), (self.plan, self.template))
                &&& self.activation is None
                &&& self.shares is None
                &&& self.stale is None
            },
            _ => {
                &&& decides(Ok::<(), TemplateRule>(()), (self.plan, self.template))
                &&& if self.template.accepted {
                    self.goes_on(fair_step(channel, self.plan).next, input, verdict)
                } else {
                    &&& self.activation is None
                    &&& self.shares is None
                    &&& self.stale is None
                    &&& verdict is Ok
                }
            },
        }
    }

    /// The state that a channel is left in, from state `channel` on.
    pub open spec fn end_state(self, channel: ChannelView, input: ChannelInput) -> ChannelView {
        let offered = fair_step(channel, self.plan).next;
        match (self.activation, self.shares, self.stale) {
            (None, _, _) => offered,
            (Some((plan, _)), None, _) => after_activation(offered, plan),
            (Some((plan, _)), Some((_, trials)), None) => after_trials(
                after_activation(offered, plan),
                trials@,
            ),
            (Some((plan, _)), Some((job, trials)), Some(_)) => share_step(
                after_next_tip(
                    after_trials(after_activation(offered, plan), trials@),
                    job,
                    input.template_id,
                ),
                CHANNEL_ID,
                late_share(job),
            ).next,
        }
    }
}

/// Builds the job that shares are submitted for.
fn build_job(input: &ChannelInput, plan: &TemplatePlan, seen: &JobSeen) -> (r: Job)
    ensures
        input.is_job(*plan, seen@, r),
{
    Job {
        job_id: seen.job_id,
        version: plan.version,
        prefix: vstd::slice::slice_to_vec(seen.message.prefix.as_slice()),
        suffix: vstd::slice::slice_to_vec(seen.message.suffix.as_slice()),
        path: vstd::slice::slice_to_vec(plan.path.as_slice()),
        extranonce_prefix: vstd::slice::slice_to_vec(plan.extranonce_prefix.as_slice()),
        rollable: plan.rollable,
        target: input.job_target,
        prev_hash: input.prev_hash,
        min_ntime: input.header_timestamp,
        version_rolling_allowed: plan.version_rolling_allowed,
    }
}

/// A channel that made a job of its first template and was given a target and a chain tip
/// for it is ready for shares.
proof fn lemma_ready(
    before: ChannelView,
    offered: ChannelView,
    input: ChannelInput,
    template: TemplatePlan,
    activation: ActivationPlan,
    job: Job,
)
    requires
        before.opened(),
        template.is_for(before),
        template.template_id == input.template_id,
        template.offer(template.value_remaining).is_plain(template.outputs()),
        template.offer(template.value_remaining).suits(before),
        same_but_future(before, offered),
        only_future(before, offered, input.template_id),
        template.offer(template.value_remaining).makes(
            template.outputs(),
            before,
            offered.future_jobs[offered.future_ids[input.template_id]],
            offered.future_makings[offered.future_ids[input.template_id]],
        ),
        input.is_activation(Some(offered.future_ids[input.template_id]), activation),
        input.is_job(
            template,
            offered.future_jobs[offered.future_ids[input.template_id]],
            job,
        ),
        activation.target@ != zeros(32),
    ensures
        ready(after_activation(offered, activation), job, input.template_id),
        after_activation(offered, activation).none_future(),
{
    let id = offered.future_ids[input.template_id];
    let seen = offered.future_jobs[id];
    let making = offered.future_makings[id];
    let first = retargeted(offered, activation.target@);
    let second = after_unknown(offered, activation);
    let next = after_activation(offered, activation);
    assert(activation.update(0).template_id == activation.template_id);
    assert(activation.update(1).template_id != activation.template_id);
    assert(offered.future_jobs.dom().contains(id));
    assert(offered.future_makings.dom().contains(id));
    assert(!first.none_future());
    assert(future_job(first, activation.update(1).template_id) is None);
    assert(future_job(second, activation.template_id) == Some(seen));
    assert(second.future_ids[activation.template_id] == id);
    assert(next.active == Some(activated(seen, activation.header_timestamp)));
    assert(next.stale =~= Set::<u32>::empty());
    assert(next.active_making == Some(making));
    assert forall|share: ShareView| share.extranonce.len() == job.rollable implies {
        &&& is_stripped(#[trigger] share_coinbase(job, share))
        &&& is_whole(making.coinbase(job.extranonce_prefix@ + share.extranonce))
    } by {
        let extranonce = job.extranonce_prefix@ + share.extranonce;
        let tx = template.offer(template.value_remaining).coinbase(
            template.outputs(),
            before.tag,
            extranonce,
        );
        lemma_short(template, before, extranonce);
        assert(share_coinbase(job, share) =~= seen.coinbase(extranonce));
        assert(share_coinbase(job, share) == tx.stripped());
        assert(making.coinbase(extranonce) == tx.whole());
    }
}

/// Takes a channel that has just been opened, with this extranonce prefix, through the life
/// of a job, and stops at the first rule that it breaks. What was seen comes back with the
/// verdict on it. A newly opened channel accepts the template exactly if the input script of
/// its coinbase transaction is no longer than it may be. It breaks no rule, but for the one
/// about its target: once it has a job, it refuses a target of zero.
pub fn check_channel(
    channel: &mut ExtendedChannel,
    extranonce_prefix: &[u8],
    input: &ChannelInput,
) -> (r: (ChannelRun, Result<(), ChannelViolation>))
    ensures
        r.0.is_run(channel_view(*old(channel)), *input, extranonce_prefix@, r.1),
        channel_view(*final(channel)) == r.0.end_state(channel_view(*old(channel)), *input),
        channel_view(*old(channel)).jobless() ==> match r.1 {
            Err(ChannelViolation::Activation(rule)) => input.job_target@ == zeros(32) && rule
                == ActivationRule::TargetAccepted,
            Err(ChannelViolation::Stale(rule)) => rule == StaleRule::Stale,
            _ => true,
        },
        r.0.activation is Some && input.job_target@ == zeros(32) ==> r.1 == Err::<
            (),
            ChannelViolation,
        >(ChannelViolation::Activation(ActivationRule::TargetAccepted)),
        channel_view(*old(channel)).opened() && input.opens(
            channel_view(*old(channel)),
            extranonce_prefix@,
        ) ==> {
            &&& r.0.template.accepted == r.0.plan.offer(r.0.plan.value_remaining).suits(
                channel_view(*old(channel)),
            )
            &&& r.1 == if r.0.template.accepted && input.job_target@ == zeros(32) {
                Err(ChannelViolation::Activation(ActivationRule::TargetAccepted))
            } else {
                Ok(())
            }
        },
{
    let ghost before = channel_view(*channel);
    let ghost fair = before.opened() && input.opens(before, extranonce_prefix@);
    let plan = input.template(extranonce_prefix);
    assert(fair ==> plan.is_for(before));
    let template = observe_template(channel, &plan);
    let mut run = ChannelRun { plan, template, activation: None, shares: None, stale: None };
    match judge_template(&run.plan, &run.template) {
        Ok(()) => {},
        Err(rule) => {
            return (run, Err(ChannelViolation::Template(rule)));
        },
    }
    if !run.template.accepted {
        return (run, Ok(()));
    }
    proof {
        assert(TemplateRule::Registered.holds((run.plan, run.template)));
        assert(TemplateRule::Retrievable.holds((run.plan, run.template)));
        assert(TemplateRule::JobId.holds((run.plan, run.template)));
    }
    let (job_id, job): (u32, Job) = match (run.template.job_id, &run.template.job) {
        (Some(id), Some(seen)) => (id, build_job(input, &run.plan, seen)),
        _ => {
            return (run, Ok(()));
        },
    };
    let activation_plan = ActivationPlan {
        template_id: input.template_id,
        job_id,
        target: input.job_target,
        prev_hash: input.prev_hash,
        header_timestamp: input.header_timestamp,
    };
    let ghost offered = channel_view(*channel);
    let activation = observe_activation(channel, &activation_plan);
    proof {
        if activation_plan.target@ == zeros(32) {
            assert(!ActivationRule::TargetAccepted.holds((activation_plan, activation)));
        } else if channel_view(*old(channel)).jobless() {
            assert(activation_plan.update(1).template_id != input.template_id);
            lemma_activates_known(offered, activation_plan, activation);
        }
    }
    let verdict = judge_activation(&activation_plan, &activation);
    run.activation = Some((activation_plan, activation));
    match verdict {
        Ok(()) => {},
        Err(rule) => {
            return (run, Err(ChannelViolation::Activation(rule)));
        },
    }
    proof {
        if fair {
            lemma_plain(run.plan);
            lemma_ready(before, offered, *input, run.plan, activation_plan, job);
        }
    }
    let trials = observe_shares(channel, &job, input.template_id, &input.shares);
    match judge_trials(&trials) {
        Ok(()) => {},
        Err(violation) => {
            run.shares = Some((job, trials));
            return (run, Err(ChannelViolation::Share(violation)));
        },
    }
    let ghost mined = channel_view(*channel);
    let stale = observe_stale(channel, &job, input.template_id);
    proof {
        if channel_view(*old(channel)).jobless() {
            assert(mined.none_future());
            lemma_tip_ends_job(mined, job, input.template_id, stale);
        }
    }
    let verdict = judge_stale(&stale);
    run.shares = Some((job, trials));
    run.stale = Some(stale);
    match verdict {
        Ok(()) => (run, Ok(())),
        Err(rule) => (run, Err(ChannelViolation::Stale(rule))),
    }
}

/// The template for a channel has the fields of the input, with at most 8 bytes of prefix, 40
/// bytes of each script and 8 nodes of the path, and the extranonce of the channel.
pub proof fn law_template_plan(input: &ChannelInput, extranonce_prefix: &[u8], r: TemplatePlan)
    requires
        call_ensures(ChannelInput::template, (input, extranonce_prefix), r),
    ensures
        r.template_id == input.template_id,
        r.version == input.version,
        r.input_sequence == input.input_sequence,
        r.value_remaining == input.value_remaining,
        r.locktime == input.locktime,
        r.extranonce_prefix@ == extranonce_prefix@,
        r.rollable == input.rollable % 16,
        r.version_rolling_allowed == input.version_rolling_allowed,
        r.coinbase_prefix@.is_prefix_of(input.coinbase_prefix@),
        r.coinbase_prefix@.len() <= 8,
        r.coinbase_prefix@.len() == 8 || r.coinbase_prefix@.len() == input.coinbase_prefix@.len(),
        r.output_script@.is_prefix_of(input.template_output_script@),
        r.output_script@.len() <= 40,
        r.output_script@.len() == 40 || r.output_script@.len()
            == input.template_output_script@.len(),
        r.reward_script@.is_prefix_of(input.reward_script@),
        r.reward_script@.len() <= 40,
        r.reward_script@.len() == 40 || r.reward_script@.len() == input.reward_script@.len(),
        r.path@.is_prefix_of(input.path@),
        r.path@.len() <= 8,
        r.path@.len() == 8 || r.path@.len() == input.path@.len(),
{
    assert(r.path@ =~= input.path@.subrange(0, r.path@.len() as int));
    assert(r.coinbase_prefix@ =~= input.coinbase_prefix@.subrange(
        0,
        r.coinbase_prefix@.len() as int,
    ));
    assert(r.output_script@ =~= input.template_output_script@.subrange(
        0,
        r.output_script@.len() as int,
    ));
    assert(r.reward_script@ =~= input.reward_script@.subrange(0, r.reward_script@.len() as int));
}

/// A channel has fewer than 16 bytes to roll, and the first slot: at most 12 bytes of the local
/// prefix, and one zero behind them.
pub proof fn law_lease(
    input: &ChannelInput,
    rollable: usize,
    r: Result<AllocatedExtranoncePrefix, SlotError>,
)
    requires
        call_ensures(ChannelInput::rollable_size, (input,), rollable),
        call_ensures(ChannelInput::lease, (input,), r),
    ensures
        rollable == input.rollable % 16,
        r matches Ok(prefix) && prefix_bytes(prefix) == input.local_prefix@.take(
            if input.local_prefix@.len() < 12 {
                input.local_prefix@.len() as int
            } else {
                12
            },
        ).push(0),
{
    let local = capped(input.local_prefix@, 12);
    lemma_le_len(0, 1);
    reveal_with_fuel(crate::bytes::le, 2);
    assert(input.slot_plan().extended(0) =~= local.push(0));
}

/// A template is offered as a future one, whose coinbase transaction of version 2 is to pay the
/// given reward and one output that is worth nothing. It is offered with one satoshi more than
/// there is first, if there is such an amount, and then with all that there is.
pub proof fn law_offers(channel: ChannelView, plan: TemplatePlan, reward: u64, run: TemplateRun)
    requires
        is_template_run(channel, plan, run),
    ensures
        plan.offer(reward).template_id == plan.template_id,
        plan.offer(reward).future,
        plan.offer(reward).version == plan.version,
        plan.offer(reward).coinbase_version == 2,
        plan.offer(reward).coinbase_prefix == plan.coinbase_prefix@,
        plan.offer(reward).input_sequence == plan.input_sequence,
        plan.offer(reward).value_remaining == plan.value_remaining,
        plan.offer(reward).outputs_count == 1,
        plan.offer(reward).outputs == outputs_bytes(seq![(0u64, plan.output_script@)]),
        plan.offer(reward).locktime == plan.locktime,
        plan.offer(reward).path == plan.path@,
        plan.offer(reward).reward_value == reward,
        plan.offer(reward).reward_script == plan.reward_script@,
        run.overpaid is None <==> plan.value_remaining == 0xffff_ffff_ffff_ffff,
        run.overpaid is None ==> run.accepted == template_step(
            channel,
            plan.offer(plan.value_remaining),
        ).accepted,
        run.overpaid matches Some(over) ==> reward == plan.value_remaining + 1 ==> {
            let step = template_step(channel, plan.offer(reward));
            &&& over.accepted == step.accepted
            &&& over.registered == step.next.future_ids.contains_key(plan.template_id)
            &&& run.accepted == template_step(
                step.next,
                plan.offer(plan.value_remaining),
            ).accepted
        },
{
}

/// A channel is first told a chain tip for the template whose number follows, around the end of
/// the range, which is another one, and then the one for the template, both with the same hash
/// and time and with difficulty one.
pub proof fn law_updates(plan: ActivationPlan)
    ensures
        plan.update(0).template_id == plan.template_id,
        plan.template_id < u64::MAX ==> plan.update(1).template_id == plan.template_id + 1,
        plan.template_id == u64::MAX ==> plan.update(1).template_id == 0,
        plan.update(0).prev_hash == plan.prev_hash@,
        plan.update(1).prev_hash == plan.prev_hash@,
        plan.update(0).header_timestamp == plan.header_timestamp,
        plan.update(1).header_timestamp == plan.header_timestamp,
        plan.update(0).nbits == 0x1d00_ffff,
        plan.update(1).nbits == 0x1d00_ffff,
        le_value(plan.update(0).target) == 0xffff * pow(256, 26),
        le_value(plan.update(1).target) == 0xffff * pow(256, 26),
{
    law_network_target();
}

/// What ends a job is a chain tip for the template two further on, around the end of the range,
/// with a hash of nothing but 0xaa; and the share that comes too late is one for the job that
/// nothing but the chain tip speaks against.
pub proof fn law_late(job: Job, template_id: u64)
    ensures
        (next_update(job, template_id).template_id - template_id - 2) % 0x1_0000_0000_0000_0000
            == 0,
        next_update(job, template_id).prev_hash.len() == 32,
        forall|i: int| 0 <= i < 32 ==> next_update(job, template_id).prev_hash[i] == 0xaa,
        next_update(job, template_id).header_timestamp == job.min_ntime,
        next_update(job, template_id).nbits == 0x1d00_ffff,
        late_share(job).job_id == job.job_id,
        late_share(job).sequence_number == 0xffff_ffff,
        late_share(job).nonce == 0,
        late_share(job).ntime == job.min_ntime,
        late_share(job).version == job.version,
        late_share(job).extranonce.len() == job.rollable,
        forall|reason: Reason| !#[trigger] reason.applies(job, late_share(job)),
{
}

/// A channel that breaks no rule and accepts the template has been taken through its whole
/// life: its job pays the reward to the given script first, and all of it; the job that was
/// activated is that one, with the target and the chain tip of the input; every share, up to 24
/// of them, was answered as it must be, with the accounting that is due; and the chain tip that
/// came last left no job active and a share for the old one stale.
pub proof fn law_channel_run(
    run: ChannelRun,
    channel: ChannelView,
    input: ChannelInput,
    extranonce_prefix: Seq<u8>,
    i: int,
)
    requires
        run.is_run(channel, input, extranonce_prefix, Ok(())),
        run.template.accepted,
    ensures
        run.template.coinbase matches Some(tx) && {
            &&& tx.is_coinbase
            &&& tx.outputs@.len() > 0
            &&& tx.outputs@[0].value == input.value_remaining
            &&& tx.outputs@[0].script@ == input.reward_script@.take(
                if input.reward_script@.len() < 40 {
                    input.reward_script@.len() as int
                } else {
                    40
                },
            )
            &&& total(tx.outputs@) == input.value_remaining
        },
        run.activation matches Some((plan, seen)) && {
            &&& run.template.job_id == Some(plan.job_id)
            &&& plan.template_id == input.template_id
            &&& seen.target@ == input.job_target@
            &&& !seen.unknown_active
            &&& seen.active matches Some(active) && active.job_id == plan.job_id && !active.future
                && active.min_ntime == Some(input.header_timestamp)
            &&& seen.tip matches Some(tip) && tip.prev_hash@ == input.prev_hash@ && tip.min_ntime
                == input.header_timestamp
        },
        run.shares matches Some((job, trials)) && {
            &&& trials@.len() == (if input.shares@.len() < 24 {
                input.shares@.len() as int
            } else {
                24
            })
            &&& job.version == input.version
            &&& job.target@ == input.job_target@
            &&& job.prev_hash@ == input.prev_hash@
            &&& job.min_ntime == input.header_timestamp
            &&& job.rollable == input.rollable % 16
            &&& job.version_rolling_allowed == input.version_rolling_allowed
            &&& job.extranonce_prefix@ == extranonce_prefix
            &&& run.template.job matches Some(made) && job.job_id == made.job_id && job.prefix@
                == made.message.prefix@ && job.suffix@ == made.message.suffix@ && job.path@
                == made.message.path@
            &&& 0 <= i < trials@.len() ==> {
                let trial = trials@[i];
                &&& trial.hash@ == hash_of(job, trial.share@)
                &&& trial.tally == trial.due
                &&& trial.expected == (Expected::Accept { block: true }) <==> trial.reply is Block
                &&& trial.expected == (Expected::Accept { block: false }) <==> trial.reply is Valid
                &&& trial.expected == Expected::Duplicate ==> trial.reply is Duplicate
                &&& trial.template_id == input.template_id
            }
        },
        run.stale matches Some(stale) && stale.tip == TipReply::Accepted && !stale.active
            && stale.reply is Stale,
{
    let seen = (run.plan, run.template);
    assert(TemplateRule::Retrievable.holds(seen));
    assert(TemplateRule::Registered.holds(seen));
    assert(TemplateRule::Transaction.holds(seen));
    assert(TemplateRule::Coinbase.holds(seen));
    assert(TemplateRule::RewardFirst.holds(seen));
    assert(TemplateRule::Value.holds(seen));
    assert(TemplateRule::MessagePath.holds(seen));
    let (plan, activation) = run.activation->0;
    assert(ActivationRule::Target.holds((plan, activation)));
    assert(ActivationRule::UnknownInactive.holds((plan, activation)));
    assert(ActivationRule::Activated.holds((plan, activation)));
    assert(ActivationRule::ActiveJobId.holds((plan, activation)));
    assert(ActivationRule::ActiveNotFuture.holds((plan, activation)));
    assert(ActivationRule::ActiveMinNtime.holds((plan, activation)));
    assert(ActivationRule::TipSet.holds((plan, activation)));
    assert(ActivationRule::TipMinNtime.holds((plan, activation)));
    assert(ActivationRule::TipPrevHash.holds((plan, activation)));
    let (job, trials) = run.shares->0;
    if 0 <= i < trials@.len() {
        let trial = trials@[i];
        assert(decides(Ok::<(), ShareRule>(()), trial));
        assert(ShareRule::Outcome.holds(trial));
        assert(ShareRule::Accepted.holds(trial));
        assert(ShareRule::Rejected.holds(trial));
        assert(ShareRule::Blocks.holds(trial));
        assert(ShareRule::LastSequence.holds(trial));
        assert(planned_at(
            job,
            input.shares@,
            input.template_id,
            fresh_tally(after_activation(fair_step(channel, run.plan).next, plan)),
            trials@,
            i,
        ));
    }
    let stale = run.stale->0;
    assert(StaleRule::TipAccepted.holds(stale));
    assert(StaleRule::NoneActive.holds(stale));
    assert(StaleRule::Stale.holds(stale));
}

/// Where a channel breaks a rule, that rule does not hold of what was seen, everything before it
/// was found in order, and nothing after it was done. A template that is refused without breaking
/// a rule ends the run without a verdict against the channel.
pub proof fn law_channel_stops(
    run: ChannelRun,
    channel: ChannelView,
    input: ChannelInput,
    extranonce_prefix: Seq<u8>,
    verdict: Result<(), ChannelViolation>,
)
    requires
        run.is_run(channel, input, extranonce_prefix, verdict),
    ensures
        match verdict {
            Ok(()) => run.template.accepted <==> run.stale is Some,
            Err(ChannelViolation::Template(rule)) => {
                &&& !rule.holds((run.plan, run.template))
                &&& run.activation is None && run.shares is None && run.stale is None
            },
            Err(ChannelViolation::Activation(rule)) => {
                &&& run.template.accepted
                &&& run.activation is Some && run.shares is None && run.stale is None
                &&& !rule.holds(run.activation->0)
            },
            Err(ChannelViolation::Share(violation)) => {
                &&& run.template.accepted
                &&& run.activation is Some && run.shares is Some && run.stale is None
                &&& violation.index < (run.shares->0).1@.len()
                &&& !violation.rule.holds((run.shares->0).1@[violation.index as int])
            },
            Err(ChannelViolation::Stale(rule)) => {
                &&& run.template.accepted
                &&& run.activation is Some && run.shares is Some && run.stale is Some
                &&& !rule.holds(run.stale->0)
            },
        },
        !(verdict matches Err(ChannelViolation::Template(_))) ==> forall|rule: TemplateRule|
            #[trigger] rule.holds((run.plan, run.template)),
        run.shares is Some ==> forall|rule: ActivationRule| #[trigger] rule.holds(run.activation->0),
{
}

/// A channel that has just been opened, with the extranonce of the input, breaks no rule, unless
/// it accepts the template and is then given a target of zero, which it refuses.
pub proof fn law_check_channel(
    channel: &mut ExtendedChannel,
    extranonce_prefix: &[u8],
    input: &ChannelInput,
    r: (ChannelRun, Result<(), ChannelViolation>),
)
    requires
        call_ensures(check_channel, (channel, extranonce_prefix, input), r),
    ensures
        r.0.is_run(channel_view(*old(channel)), *input, extranonce_prefix@, r.1),
        ({
            let before = channel_view(*old(channel));
            let zero = forall|i: int| 0 <= i < 32 ==> input.job_target@[i] == 0;
            before.opened() && before.channel_id == 7 && before.extranonce_prefix
                == extranonce_prefix@ && before.rollable == input.rollable % 16
                && before.version_rolling_allowed == input.version_rolling_allowed ==> {
                &&& r.1 is Err <==> r.0.template.accepted && zero
                &&& r.1 is Err ==> r.1 == Err::<(), ChannelViolation>(
                    ChannelViolation::Activation(ActivationRule::TargetAccepted),
                )
            }
        }),
{
    let zero = forall|i: int| 0 <= i < 32 ==> input.job_target@[i] == 0;
    if zero {
        assert(input.job_target@ =~= zeros(32));
    }
    if input.job_target@ == zeros(32) {
        assert forall|i: int| 0 <= i < 32 implies input.job_target@[i] == 0 by {
            assert(zeros(32)[i] == 0);
        }
    }
}

/// Shares are submitted one for each input, up to 24; each is the one that its input describes,
/// and what is due after each is what counting gives.
pub proof fn law_observe_shares(
    channel: &mut ExtendedChannel,
    job: &Job,
    template_id: u64,
    inputs: &Vec<ShareInput>,
    trials: Vec<ShareTrial>,
    i: int,
)
    requires
        job.rollable <= 32,
        call_ensures(observe_shares, (channel, job, template_id, inputs), trials),
    ensures
        trials@.len() == (if inputs@.len() < 24 {
            inputs@.len() as int
        } else {
            24
        }),
        0 <= i < trials@.len() ==> {
            &&& trials@[i].hash@ == hash_of(*job, trials@[i].share@)
            &&& trials@[i].template_id == template_id
            &&& trials@[i].due.accepted == tallied(trials@, i + 1).0
            &&& trials@[i].due.rejected == i + 1 - tallied(trials@, i + 1).0
            &&& trials@[i].due.blocks == tallied(trials@, i + 1).1
            &&& trials@[i].expected is Accept ==> forall|j: int|
                0 <= j < i && (#[trigger] trials@[j]).expected is Accept ==> trials@[j].hash@
                    != trials@[i].hash@
            &&& i > 0 && inputs@[i].repeat_previous ==> trials@[i].share@ == trials@[i - 1].share@
        },
{
    let start = fresh_tally(channel_view(*old(channel)));
    if 0 <= i < trials@.len() {
        law_planned(*job, inputs@, template_id, start, trials@, i);
        assert(planned_at(*job, inputs@, template_id, start, trials@, i));
    }
}

/// A template that would pay more than there is is always refused; on a channel without a job it
/// leaves none behind. Offered with all that there is, it is accepted if the input script has
/// room, by a channel with the extranonce of the template; then there is one future job, the
/// template has its number, none is active, and the coinbase transaction pays the reward first,
/// the output of the template last, and in all what there is. Nothing but the future jobs
/// changes.
pub proof fn law_observe_template(
    channel: &mut ExtendedChannel,
    plan: &TemplatePlan,
    run: TemplateRun,
)
    requires
        plan.fits(),
        call_ensures(observe_template, (channel, plan), run),
    ensures
        ({
            let before = channel_view(*old(channel));
            let after = channel_view(*final(channel));
            let own = before.channel_id == 7 && before.extranonce_prefix
                == plan.extranonce_prefix@ && before.rollable == plan.rollable
                && before.version_rolling_allowed == plan.version_rolling_allowed
                && plan.reward_script@.len() < 253;
            &&& run.overpaid is None <==> plan.value_remaining == 0xffff_ffff_ffff_ffff
            &&& run.overpaid matches Some(over) ==> !over.accepted
            &&& after.active == before.active
            &&& after.target == before.target
            &&& after.tally == before.tally
            &&& after.tip == before.tip
            &&& after.hashes == before.hashes
            &&& before.jobless() ==> (run.overpaid matches Some(over) ==> !over.registered)
            &&& before.jobless() && run.accepted ==> {
                &&& !run.active
                &&& run.job_id matches Some(id) && {
                    &&& after.future_ids.contains_key(plan.template_id)
                    &&& after.future_ids[plan.template_id] == id
                    &&& after.future_jobs.contains_key(id)
                    &&& forall|other: u32| after.future_jobs.contains_key(other) ==> other == id
                }
            }
            &&& before.jobless() && own ==> {
                &&& run.accepted <==> before.tag.len() <= 75 && plan.coinbase_prefix@.len()
                    + before.tag.len() + before.extranonce_prefix.len() + before.rollable + 2
                    <= 100
                &&& run.accepted ==> (run.coinbase matches Some(tx) && {
                    &&& tx.is_coinbase
                    &&& tx.outputs@.len() > 0
                    &&& tx.outputs@[0].value == plan.value_remaining
                    &&& tx.outputs@[0].script@ == plan.reward_script@
                    &&& tx.outputs@.last().value == 0
                    &&& tx.outputs@.last().script@ == plan.output_script@
                    &&& total(tx.outputs@) == plan.value_remaining
                })
            }
        }),
{
    let seen = (*plan, run);
    assert(TemplateRule::OverpaidRefused.holds(seen));
    if channel_view(*old(channel)).jobless() {
        assert(TemplateRule::OverpaidUnregistered.holds(seen));
        assert(TemplateRule::NotActive.holds(seen));
        assert(TemplateRule::Registered.holds(seen));
        if plan.is_for(channel_view(*old(channel))) && run.accepted {
            assert(TemplateRule::Retrievable.holds(seen));
            assert(TemplateRule::Transaction.holds(seen));
            assert(TemplateRule::Coinbase.holds(seen));
            assert(TemplateRule::RewardFirst.holds(seen));
            assert(TemplateRule::TemplateLast.holds(seen));
            assert(TemplateRule::Value.holds(seen));
        }
    }
}

/// A target of zero is refused and changes nothing; any other is taken. What is seen last of the
/// active job and of the chain tip is what the channel is left with. If no job is active, and
/// the template to activate has a future job but the next one, around the end of the range, has
/// none, a chain tip for the next one finds nothing and activates nothing, and one for the
/// template makes its job the active one, from the time of the chain tip on.
pub proof fn law_observe_activation(
    channel: &mut ExtendedChannel,
    plan: &ActivationPlan,
    run: ActivationRun,
)
    requires
        call_ensures(observe_activation, (channel, plan), run),
    ensures
        ({
            let before = channel_view(*old(channel));
            let after = channel_view(*final(channel));
            let zero = forall|i: int| 0 <= i < 32 ==> plan.target@[i] == 0;
            &&& run.target_accepted <==> !zero
            &&& run.target@ == (if zero {
                before.target
            } else {
                plan.target@
            })
            &&& told(run.active) == after.active
            &&& named(run.tip) == after.tip
            &&& !zero && before.active is None && before.future_ids.contains_key(plan.template_id)
                && before.future_jobs.contains_key(before.future_ids[plan.template_id])
                && before.future_jobs[before.future_ids[plan.template_id]].job_id == plan.job_id
                && !before.future_ids.contains_key(
                if plan.template_id == u64::MAX {
                    0
                } else {
                    (plan.template_id + 1) as u64
                },
            ) ==> {
                &&& run.unknown == TipReply::NotFound
                &&& !run.unknown_active
                &&& run.known == TipReply::Accepted
                &&& run.active matches Some(job) && job.job_id == plan.job_id && !job.future
                    && job.min_ntime == Some(plan.header_timestamp)
                &&& run.tip matches Some(tip) && tip.min_ntime == plan.header_timestamp
                    && tip.nbits == 0x1d00_ffff && tip.prev_hash@ == plan.prev_hash@
            }
        }),
{
    let zero = forall|i: int| 0 <= i < 32 ==> plan.target@[i] == 0;
    if zero {
        assert(plan.target@ =~= zeros(32));
    }
    if plan.target@ == zeros(32) {
        assert forall|i: int| 0 <= i < 32 implies plan.target@[i] == 0 by {
            assert(zeros(32)[i] == 0);
        }
    }
    let before = channel_view(*old(channel));
    let next = plan.update(1).template_id;
    if !zero && before.active is None && before.future_ids.contains_key(plan.template_id)
        && before.future_jobs.contains_key(before.future_ids[plan.template_id])
        && before.future_jobs[before.future_ids[plan.template_id]].job_id == plan.job_id
        && !before.future_ids.contains_key(next) {
        let seen = (*plan, run);
        lemma_activates_known(before, *plan, run);
        assert(ActivationRule::UnknownRefused.holds(seen));
        assert(ActivationRule::UnknownInactive.holds(seen));
        assert(ActivationRule::KnownAccepted.holds(seen));
        assert(ActivationRule::Activated.holds(seen));
        assert(ActivationRule::ActiveJobId.holds(seen));
        assert(ActivationRule::ActiveNotFuture.holds(seen));
        assert(ActivationRule::ActiveMinNtime.holds(seen));
        assert(ActivationRule::TipSet.holds(seen));
        assert(ActivationRule::TipMinNtime.holds(seen));
        assert(ActivationRule::TipNbits.holds(seen));
        assert(ActivationRule::TipPrevHash.holds(seen));
    }
}

/// On a channel with nothing but an active job, the next chain tip is accepted and leaves no job
/// active, and a share for the job that was active is stale.
pub proof fn law_observe_stale(
    channel: &mut ExtendedChannel,
    job: &Job,
    template_id: u64,
    run: StaleRun,
)
    requires
        job.rollable <= 32,
        call_ensures(observe_stale, (channel, job, template_id), run),
        channel_view(*old(channel)).future_jobs == Map::<u32, JobView>::empty(),
        channel_view(*old(channel)).tally.accepted < 4096,
        channel_view(*old(channel)).active matches Some(active) && active.job_id == job.job_id,
    ensures
        run.tip == TipReply::Accepted,
        !run.active,
        run.reply is Stale,
{
    assert(StaleRule::TipAccepted.holds(run));
    assert(StaleRule::NoneActive.holds(run));
    assert(StaleRule::Stale.holds(run));
}

/// The channel is asked about the shares in their order, and nothing else happens to it: what is
/// seen of each is its answer in the state that the shares before it left, with the accounting
/// that it left, and the last state is the one that the channel ends in.
pub proof fn law_asked_in_order(
    channel: &mut ExtendedChannel,
    job: &Job,
    template_id: u64,
    inputs: &Vec<ShareInput>,
    trials: Vec<ShareTrial>,
    states: Seq<ChannelView>,
    i: int,
)
    requires
        job.rollable <= 32,
        call_ensures(observe_shares, (channel, job, template_id, inputs), trials),
        states.len() == trials@.len() + 1,
        states[0] == channel_view(*old(channel)),
        forall|k: int|
            0 <= k < trials@.len() ==> #[trigger] states[k + 1] == share_step(
                states[k],
                7,
                trials@[k].share@,
            ).next,
    ensures
        0 <= i < trials@.len() ==> {
            &&& trials@[i].reply@ == share_step(states[i], 7, trials@[i].share@).reply
            &&& trials@[i].tally == states[i + 1].tally
            &&& trials@[i].block_coinbase ==> trials@[i].reply is Block
        },
        channel_view(*final(channel)) == states.last(),
{
    lemma_states(channel_view(*old(channel)), trials@, states, trials@.len() as int);
    assert(trials@.take(trials@.len() as int) =~= trials@);
    if 0 <= i < trials@.len() {
        lemma_states(channel_view(*old(channel)), trials@, states, i);
        assert(is_trial(channel_view(*old(channel)), trials@, i));
        assert(states[i + 1] == share_step(states[i], 7, trials@[i].share@).next);
    }
}

/// The state after some trials is the one that a list of states has there.
proof fn lemma_states(
    before: ChannelView,
    trials: Seq<ShareTrial>,
    states: Seq<ChannelView>,
    n: int,
)
    requires
        states.len() == trials.len() + 1,
        states[0] == before,
        forall|k: int|
            0 <= k < trials.len() ==> #[trigger] states[k + 1] == share_step(
                states[k],
                7,
                trials[k].share@,
            ).next,
        0 <= n <= trials.len(),
    ensures
        after_trials(before, trials.take(n)) == states[n],
    decreases n,
{
    if n > 0 {
        lemma_states(before, trials, states, n - 1);
        assert(trials.take(n).drop_last() =~= trials.take(n - 1));
        assert(states[n - 1 + 1] == share_step(states[n - 1], 7, trials[n - 1].share@).next);
    }
}

} // verus!
