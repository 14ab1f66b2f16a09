//! Extended channels: their state, and what their operations make of it.

#[allow(unused_imports)]
use crate::bytes::zeros;
use crate::jobs::{JobMessage, JobSeen, TxInput, TxSeen};
#[allow(unused_imports)]
use crate::jobs::{read, told, CoinbaseView, JobMessageView, JobView, TxView, MAX_SCRIPT_SIG};
use crate::merkle::Output;
#[allow(unused_imports)]
use crate::merkle::outputs_bytes;
use crate::shares::Share;
#[allow(unused_imports)]
use crate::shares::{hash_of, is_verdict, share_coinbase, Expected, Job, ShareView, NBITS};
use crate::tips::{TipReply, TipSeen, TipUpdate};
#[allow(unused_imports)]
use crate::tips::{named, TipView, UpdateView};
use crate::trials::{ShareReply, Tally};
#[allow(unused_imports)]
use crate::trials::{suits, ReplyView};
use binary_sv2::U256Owned;
use bitcoin::hashes::Hash as Digest;
use bitcoin::transaction::TxOut;
use bitcoin::{Amount, ScriptBuf, Target, Transaction};
use channels_sv2::chain_tip::ChainTip;
use channels_sv2::server::error::ExtendedChannelError;
use channels_sv2::server::extended::ExtendedChannel;
use channels_sv2::server::jobs::extended::ExtendedJob;
use channels_sv2::server::share_accounting::ShareAccounting;
use channels_sv2::server::share_accounting::ShareValidationError::{
    BadExtranonceSize, DoesNotMeetTarget, DuplicateShare, Invalid, InvalidJobId, Stale,
    VersionRollingNotAllowed,
};
use channels_sv2::server::share_accounting::ShareValidationResult::{BlockFound, Valid};
use mining_sv2::SubmitSharesExtendedOwned;
use template_distribution_sv2::{NewTemplateOwned, SetNewPrevHashOwned};
use vstd::prelude::*;

verus! {

/// `ExtendedChannel` of `channels_sv2`: the server side of a channel with a miner.
#[verifier::external_type_specification]
#[verifier::external_body]
pub struct ExExtendedChannel(channels_sv2::server::extended::ExtendedChannel);

/// `ExtendedJob` of `channels_sv2`: a job that a channel made.
#[verifier::external_type_specification]
#[verifier::external_body]
pub struct ExExtendedJob(channels_sv2::server::jobs::extended::ExtendedJob);

/// `ChainTip` of `channels_sv2`: the chain tip of a channel.
#[verifier::external_type_specification]
#[verifier::external_body]
pub struct ExChainTip(channels_sv2::chain_tip::ChainTip);

/// `ShareAccounting` of `channels_sv2`: the counters of a channel.
#[verifier::external_type_specification]
#[verifier::external_body]
pub struct ExShareAccounting(channels_sv2::server::share_accounting::ShareAccounting);

/// What a channel keeps of a job besides what the job shows: the template that it was made
/// from, if there is one, and its coinbase transaction with the witness, ahead of and behind
/// the extranonce.
pub struct Making {
    pub template_id: Option<u64>,
    pub head: Seq<u8>,
    pub tail: Seq<u8>,
}

impl Making {
    /// The coinbase transaction of the job, with its witness and this extranonce.
    pub open spec fn coinbase(self, extranonce: Seq<u8>) -> Seq<u8> {
        self.head + extranonce + self.tail
    }
}

/// The state of a channel.
pub struct ChannelView {
    pub channel_id: u32,
    pub extranonce_prefix: Seq<u8>,
    /// How many bytes of extranonce a share carries.
    pub rollable: nat,
    /// Whether the jobs that the channel makes allow version rolling.
    pub version_rolling_allowed: bool,
    /// What the channel writes into the input scripts of its coinbase transactions.
    pub tag: Seq<u8>,
    /// The target, least significant byte first.
    pub target: Seq<u8>,
    /// The numbers of the future jobs, by template.
    pub future_ids: Map<u64, u32>,
    /// The future jobs, by number.
    pub future_jobs: Map<u32, JobView>,
    pub future_makings: Map<u32, Making>,
    pub active: Option<JobView>,
    pub active_making: Option<Making>,
    /// The numbers of the jobs of this chain tip that were active before.
    pub past: Set<u32>,
    /// The numbers of the jobs of the chain tip before.
    pub stale: Set<u32>,
    /// The targets of the active and the past jobs, by number.
    pub targets: Map<u32, Seq<u8>>,
    pub tip: Option<TipView>,
    pub tally: Tally,
    /// The hashes of accepted shares that the channel remembers.
    pub hashes: Set<Seq<u8>>,
    /// All other state, written down in some way.
    pub rest: Seq<u8>,
}

impl ChannelView {
    /// How long the extranonce is.
    pub open spec fn full_size(self) -> nat {
        self.extranonce_prefix.len() + self.rollable
    }

    /// There is no future job.
    pub open spec fn none_future(self) -> bool {
        self.future_jobs == Map::<u32, JobView>::empty()
    }

    /// There is no job, and no template has one.
    pub open spec fn jobless(self) -> bool {
        &&& self.none_future()
        &&& self.future_ids == Map::<u64, u32>::empty()
        &&& self.active is None
    }

    /// The channel has just been opened: there was no job and no chain tip, and no share was
    /// counted or is remembered.
    pub open spec fn opened(self) -> bool {
        &&& self.jobless()
        &&& self.past == Set::<u32>::empty()
        &&& self.stale == Set::<u32>::empty()
        &&& self.tip is None
        &&& self.tally == (Tally { accepted: 0, rejected: 0, blocks: 0, last_sequence: 0 })
        &&& self.hashes == Set::<Seq<u8>>::empty()
    }
}

/// What a channel holds.
pub uninterp spec fn channel_view(channel: ExtendedChannel) -> ChannelView;

/// What a job holds.
pub uninterp spec fn job_view(job: ExtendedJob) -> JobView;

/// What a chain tip holds.
pub uninterp spec fn tip_view(tip: ChainTip) -> TipView;

/// What the counters of a channel show.
pub uninterp spec fn tally_view(accounting: ShareAccounting) -> Tally;

/// `ExtendedJob::get_job_id` returns the number of the job.
pub assume_specification[ ExtendedJob::get_job_id ](job: &ExtendedJob) -> (r: u32)
    ensures
        r == job_view(*job).job_id,
;

/// `ExtendedJob::is_future` tells whether the job is a future job.
pub assume_specification[ ExtendedJob::is_future ](job: &ExtendedJob) -> (r: bool)
    ensures
        r == job_view(*job).future,
;

/// `ExtendedJob::get_version` returns the block version of the job.
pub assume_specification[ ExtendedJob::get_version ](job: &ExtendedJob) -> (r: u32)
    ensures
        r == job_view(*job).version,
;

/// `ExtendedJob::version_rolling_allowed` tells whether the job allows version rolling.
pub assume_specification[ ExtendedJob::version_rolling_allowed ](job: &ExtendedJob) -> (r: bool)
    ensures
        r == job_view(*job).version_rolling_allowed,
;

/// `ExtendedJob::get_min_ntime` returns the earliest time of the job, if it has one.
pub assume_specification[ ExtendedJob::get_min_ntime ](job: &ExtendedJob) -> (r: Option<u32>)
    ensures
        r == job_view(*job).min_ntime,
;

/// `ExtendedJob::get_extranonce_prefix` returns the extranonce prefix of the job.
pub assume_specification[ ExtendedJob::get_extranonce_prefix ](job: &ExtendedJob) -> (r: &[u8])
    ensures
        r@ == job_view(*job).extranonce_prefix,
;

/// `ExtendedJob::get_coinbase_tx_prefix_without_bip141` returns the coinbase transaction
/// ahead of the extranonce.
pub assume_specification[ ExtendedJob::get_coinbase_tx_prefix_without_bip141 ](
    job: &ExtendedJob,
) -> (r: Vec<u8>)
    ensures
        r@ == job_view(*job).prefix,
;

/// `ExtendedJob::get_coinbase_tx_suffix_without_bip141` returns the coinbase transaction
/// behind the extranonce.
pub assume_specification[ ExtendedJob::get_coinbase_tx_suffix_without_bip141 ](
    job: &ExtendedJob,
) -> (r: Vec<u8>)
    ensures
        r@ == job_view(*job).suffix,
;

/// Calls `ExtendedJob::get_job_message`, which returns the message about the job.
#[verifier::external_body]
fn job_message(job: &ExtendedJob) -> (r: JobMessage)
    ensures
        r@ == job_view(*job).message,
{
    let message = job.get_job_message();
    JobMessage {
        channel_id: message.channel_id,
        job_id: message.job_id,
        version: message.version,
        version_rolling_allowed: message.version_rolling_allowed,
        min_ntime: message.min_ntime.clone().into_inner(),
        path: message.merkle_path.as_slice().iter().map(|n| n.clone().into_array()).collect(),
        prefix: message.coinbase_tx_prefix.as_bytes().to_vec(),
        suffix: message.coinbase_tx_suffix.as_bytes().to_vec(),
    }
}

/// `ChainTip::nbits` returns the compact target of the chain tip.
pub assume_specification[ ChainTip::nbits ](tip: &ChainTip) -> (r: u32)
    ensures
        r == tip_view(*tip).nbits,
;

/// `ChainTip::min_ntime` returns the time of the chain tip.
pub assume_specification[ ChainTip::min_ntime ](tip: &ChainTip) -> (r: u32)
    ensures
        r == tip_view(*tip).min_ntime,
;

/// Calls `ChainTip::prev_hash`, which returns the hash of the chain tip.
#[verifier::external_body]
fn tip_prev_hash(tip: &ChainTip) -> (r: [u8; 32])
    ensures
        r@ == tip_view(*tip).prev_hash,
{
    tip.prev_hash().into_array()
}

/// `ShareAccounting::get_shares_accepted` returns how many shares were accepted.
pub assume_specification[ ShareAccounting::get_shares_accepted ](
    accounting: &ShareAccounting,
) -> (r: u32)
    ensures
        r == tally_view(*accounting).accepted,
;

/// `ShareAccounting::get_rejected_shares_count` returns how many shares were rejected.
pub assume_specification[ ShareAccounting::get_rejected_shares_count ](
    accounting: &ShareAccounting,
) -> (r: u32)
    ensures
        r == tally_view(*accounting).rejected,
;

/// `ShareAccounting::get_blocks_found` returns how many shares solved a block.
pub assume_specification[ ShareAccounting::get_blocks_found ](
    accounting: &ShareAccounting,
) -> (r: u32)
    ensures
        r == tally_view(*accounting).blocks,
;

/// `ShareAccounting::get_last_share_sequence_number` returns the sequence number of the
/// last share that was accepted.
pub assume_specification[ ShareAccounting::get_last_share_sequence_number ](
    accounting: &ShareAccounting,
) -> (r: u32)
    ensures
        r == tally_view(*accounting).last_sequence,
;

/// `ExtendedChannel::get_share_accounting` returns the counters of the channel.
pub assume_specification[ ExtendedChannel::get_share_accounting ](
    channel: &ExtendedChannel,
) -> (r: &ShareAccounting)
    ensures
        tally_view(*r) == channel_view(*channel).tally,
;

/// `ExtendedChannel::get_active_job` returns the active job, if there is one.
pub assume_specification[ ExtendedChannel::get_active_job ](
    channel: &ExtendedChannel,
) -> (r: Option<&ExtendedJob>)
    ensures
        match r {
            Some(job) => channel_view(*channel).active == Some(job_view(*job)),
            None => channel_view(*channel).active is None,
        },
;

/// `ExtendedChannel::get_future_job_id_from_template_id` returns the number of the future
/// job for a template, if there is one.
pub assume_specification[ ExtendedChannel::get_future_job_id_from_template_id ](
    channel: &ExtendedChannel,
    template_id: u64,
) -> (r: Option<u32>)
    ensures
        r == lookup(channel_view(*channel).future_ids, template_id),
;

/// `ExtendedChannel::get_future_job` returns the future job with a number, if there is one.
pub assume_specification[ ExtendedChannel::get_future_job ](
    channel: &ExtendedChannel,
    job_id: u32,
) -> (r: Option<&ExtendedJob>)
    ensures
        match r {
            Some(job) => lookup(channel_view(*channel).future_jobs, job_id) == Some(
                job_view(*job),
            ),
            None => lookup(channel_view(*channel).future_jobs, job_id) is None,
        },
;

/// `ExtendedChannel::get_chain_tip` returns the chain tip, if there is one.
pub assume_specification[ ExtendedChannel::get_chain_tip ](
    channel: &ExtendedChannel,
) -> (r: Option<&ChainTip>)
    ensures
        match r {
            Some(tip) => channel_view(*channel).tip == Some(tip_view(*tip)),
            None => channel_view(*channel).tip is None,
        },
;

/// `ExtendedChannel::get_full_extranonce_size` returns how long the extranonce is.
pub assume_specification[ ExtendedChannel::get_full_extranonce_size ](
    channel: &ExtendedChannel,
) -> (r: usize)
    ensures
        r == channel_view(*channel).full_size(),
;

/// The value of a map at a key, if it has one.
pub open spec fn lookup<K, V>(map: Map<K, V>, key: K) -> Option<V> {
    if map.contains_key(key) {
        Some(map[key])
    } else {
        None
    }
}

/// Calls `ExtendedChannel::get_target`, which returns the target of the channel.
#[verifier::external_body]
pub(crate) fn get_target(channel: &ExtendedChannel) -> (r: [u8; 32])
    ensures
        r@ == channel_view(*channel).target,
{
    channel.get_target().to_le_bytes()
}

/// Calls `ExtendedChannel::set_target`, which refuses zero, and changes the target and
/// nothing else otherwise.
#[verifier::external_body]
pub(crate) fn set_target(channel: &mut ExtendedChannel, target: [u8; 32]) -> (r: bool)
    ensures
        r == (target@ != zeros(32)),
        channel_view(*final(channel)) == if r {
            (ChannelView { target: target@, ..channel_view(*old(channel)) })
        } else {
            channel_view(*old(channel))
        },
{
    channel.set_target(Target::from_le_bytes(target)).is_ok()
}

/// A template, and the one output that its coinbase transaction pays the reward with.
pub struct Offer {
    pub template_id: u64,
    pub future: bool,
    pub version: u32,
    pub coinbase_version: u32,
    pub coinbase_prefix: Vec<u8>,
    pub input_sequence: u32,
    pub value_remaining: u64,
    pub outputs_count: u32,
    /// The wire format of the outputs of the template.
    pub outputs: Vec<u8>,
    pub locktime: u32,
    pub path: Vec<[u8; 32]>,
    pub reward: Output,
}

/// The same, with sequences.
pub struct OfferView {
    pub template_id: u64,
    pub future: bool,
    pub version: u32,
    pub coinbase_version: u32,
    pub coinbase_prefix: Seq<u8>,
    pub input_sequence: u32,
    pub value_remaining: u64,
    pub outputs_count: u32,
    pub outputs: Seq<u8>,
    pub locktime: u32,
    pub path: Seq<[u8; 32]>,
    pub reward_value: u64,
    pub reward_script: Seq<u8>,
}

impl View for Offer {
    type V = OfferView;

    open spec fn view(&self) -> OfferView {
        OfferView {
            template_id: self.template_id,
            future: self.future,
            version: self.version,
            coinbase_version: self.coinbase_version,
            coinbase_prefix: self.coinbase_prefix@,
            input_sequence: self.input_sequence,
            value_remaining: self.value_remaining,
            outputs_count: self.outputs_count,
            outputs: self.outputs@,
            locktime: self.locktime,
            path: self.path@,
            reward_value: self.reward.value,
            reward_script: self.reward.script@,
        }
    }
}

/// What a channel makes of a template: whether it accepts it, and its state afterwards.
pub struct TemplateStep {
    pub accepted: bool,
    pub next: ChannelView,
}

/// What a channel makes of a template.
pub uninterp spec fn template_step(channel: ChannelView, offer: OfferView) -> TemplateStep;

/// The two states differ at most in their future jobs and in what is not told apart.
pub open spec fn same_but_future(a: ChannelView, b: ChannelView) -> bool {
    b == ChannelView {
        future_ids: b.future_ids,
        future_jobs: b.future_jobs,
        future_makings: b.future_makings,
        rest: b.rest,
        ..a
    }
}

/// The two states have the same future jobs.
pub open spec fn same_future(a: ChannelView, b: ChannelView) -> bool {
    &&& a.future_ids == b.future_ids
    &&& a.future_jobs == b.future_jobs
    &&& a.future_makings == b.future_makings
}

/// The channel has come to have one future job, which is for this template and goes by its
/// own number.
pub open spec fn only_future(before: ChannelView, after: ChannelView, template_id: u64) -> bool {
    let id = after.future_ids[template_id];
    &&& after.future_ids == before.future_ids.insert(template_id, id)
    &&& after.future_jobs.dom() == Set::<u32>::empty().insert(id)
    &&& after.future_makings.dom() == Set::<u32>::empty().insert(id)
    &&& after.future_jobs[id].job_id == id
}

/// The longest tag that a channel can write into an input script.
pub const MAX_TAG: usize = 75;

impl OfferView {
    /// The template has these outputs, and every length fits the one-byte form of a
    /// variable-length integer.
    pub open spec fn is_plain(self, outputs: Seq<(u64, Seq<u8>)>) -> bool {
        &&& self.coinbase_version <= i32::MAX
        &&& self.outputs == outputs_bytes(outputs)
        &&& self.outputs.len() <= 65000
        &&& self.outputs_count == outputs.len() < 252
        &&& self.reward_script.len() < 253
        &&& forall|i: int| 0 <= i < outputs.len() ==> (#[trigger] outputs[i]).1.len() < 253
    }

    /// The coinbase transaction for the template, with a tag and an extranonce in its input
    /// script and the reward ahead of the outputs of the template.
    pub open spec fn coinbase(
        self,
        outputs: Seq<(u64, Seq<u8>)>,
        tag: Seq<u8>,
        extranonce: Seq<u8>,
    ) -> CoinbaseView {
        CoinbaseView {
            version: self.coinbase_version as i32,
            script: self.coinbase_prefix + seq![tag.len() as u8] + tag + seq![
                extranonce.len() as u8,
            ] + extranonce,
            sequence: self.input_sequence,
            outputs: seq![(self.reward_value, self.reward_script)] + outputs,
            lock_time: self.locktime,
        }
    }

    /// A channel accepts the template: the reward is exactly its value, and the input script
    /// of the coinbase transaction is no longer than it may be.
    pub open spec fn suits(self, channel: ChannelView) -> bool {
        &&& self.reward_value == self.value_remaining
        &&& channel.tag.len() <= MAX_TAG
        &&& self.coinbase_prefix.len() + channel.tag.len() + channel.full_size() + 2
            <= MAX_SCRIPT_SIG
    }

    /// What a channel makes of the template: a future job with what the template and the
    /// channel say, whose coinbase transaction is the one for the template.
    pub open spec fn makes(
        self,
        outputs: Seq<(u64, Seq<u8>)>,
        channel: ChannelView,
        job: JobView,
        making: Making,
    ) -> bool {
        &&& job.future
        &&& job.version == self.version
        &&& job.version_rolling_allowed == channel.version_rolling_allowed
        &&& job.min_ntime is None
        &&& job.extranonce_prefix == channel.extranonce_prefix
        &&& job.message == (JobMessageView {
            channel_id: channel.channel_id,
            job_id: job.job_id,
            version: self.version,
            version_rolling_allowed: channel.version_rolling_allowed,
            min_ntime: None,
            path: self.path,
            prefix: job.prefix,
            suffix: job.suffix,
        })
        &&& making.template_id == Some(self.template_id)
        &&& forall|extranonce: Seq<u8>|
            extranonce.len() == channel.full_size() ==> #[trigger] job.coinbase(extranonce)
                == self.coinbase(outputs, channel.tag, extranonce).stripped()
        &&& forall|extranonce: Seq<u8>|
            extranonce.len() == channel.full_size() ==> #[trigger] making.coinbase(extranonce)
                == self.coinbase(outputs, channel.tag, extranonce).whole()
    }
}

/// A channel accepts a future template exactly if it suits the channel, and if it had no
/// future job, it makes of the template what it should.
pub open spec fn honours(
    before: ChannelView,
    offer: OfferView,
    accepted: bool,
    after: ChannelView,
) -> bool {
    forall|outputs: Seq<(u64, Seq<u8>)>| #[trigger]
        offer.is_plain(outputs) ==> {
            let id = after.future_ids[offer.template_id];
            &&& accepted == offer.suits(before)
            &&& accepted && before.none_future() ==> offer.makes(
                outputs,
                before,
                after.future_jobs[id],
                after.future_makings[id],
            )
        }
}

/// Calls `ExtendedChannel::on_new_template`, whose outcome depends on the state of the
/// channel and on its arguments alone. Of a future template: it adds a future job or
/// nothing, and it is refused unless the reward is exactly the value of the template. If
/// it is accepted and the channel has no future job, the new one is the only one
/// afterwards, under its template and its number. A future template whose outputs are well
/// formed is accepted if and only if, besides, the tag can be pushed by one opcode and the
/// input script (coinbase prefix, push of the tag, push of the extranonce) is at most 100
/// bytes long; the job then has the fields of the template and the channel, and prefix and
/// suffix are cut out of the coinbase transaction for the template, without its witness for
/// the message and with it for a block.
#[verifier::external_body]
pub(crate) fn on_new_template(channel: &mut ExtendedChannel, offer: Offer) -> (r: bool)
    requires
        offer.coinbase_prefix@.len() <= 255,
        offer.outputs@.len() <= 65535,
        offer.path@.len() <= 255,
    ensures
        r == template_step(channel_view(*old(channel)), offer@).accepted,
        channel_view(*final(channel)) == template_step(channel_view(*old(channel)), offer@).next,
        offer.future ==> same_but_future(
            channel_view(*old(channel)),
            channel_view(*final(channel)),
        ),
        offer.future && r ==> offer.reward.value == offer.value_remaining,
        offer.future && !r ==> same_future(
            channel_view(*old(channel)),
            channel_view(*final(channel)),
        ),
        offer.future && r && channel_view(*old(channel)).none_future()
            ==> only_future(
            channel_view(*old(channel)),
            channel_view(*final(channel)),
            offer.template_id,
        ),
        offer.future ==> honours(
            channel_view(*old(channel)),
            offer@,
            r,
            channel_view(*final(channel)),
        ),
{
    let path: Vec<U256Owned> = offer.path.iter().map(|node| U256Owned::from(*node)).collect();
    let template = NewTemplateOwned {
        template_id: offer.template_id, future_template: offer.future, version: offer.version,
        coinbase_tx_version: offer.coinbase_version,
        coinbase_prefix: offer.coinbase_prefix.try_into().unwrap(),
        coinbase_tx_input_sequence: offer.input_sequence,
        coinbase_tx_value_remaining: offer.value_remaining,
        coinbase_tx_outputs_count: offer.outputs_count,
        coinbase_tx_outputs: offer.outputs.try_into().unwrap(),
        coinbase_tx_locktime: offer.locktime, merkle_path: path.try_into().unwrap(),
    };
    let value = Amount::from_sat(offer.reward.value);
    let script_pubkey = ScriptBuf::from_bytes(offer.reward.script);
    channel.on_new_template(template, vec![TxOut { value, script_pubkey }]).is_ok()
}

/// What a channel is left with, apart from what is told apart, after a chain tip.
pub uninterp spec fn rest_after_tip(channel: ChannelView, update: UpdateView) -> Seq<u8>;

/// A future job after it was activated.
pub open spec fn activated(job: JobView, min_ntime: u32) -> JobView {
    JobView {
        future: false,
        min_ntime: Some(min_ntime),
        message: JobMessageView { min_ntime: Some(min_ntime), ..job.message },
        ..job
    }
}

/// The future job for a template, if there is one.
pub open spec fn future_job(channel: ChannelView, template_id: u64) -> Option<JobView> {
    match lookup(channel.future_ids, template_id) {
        Some(id) => lookup(channel.future_jobs, id),
        None => None,
    }
}

/// The answer to a chain tip: it is accepted if there is a future job for its template, or
/// no future job at all.
pub open spec fn tip_reply(channel: ChannelView, update: UpdateView) -> TipReply {
    if channel.none_future() || future_job(channel, update.template_id) is Some {
        TipReply::Accepted
    } else {
        TipReply::NotFound
    }
}

/// The jobs that a chain tip ends: the active and the past ones.
pub open spec fn ended(channel: ChannelView) -> Set<u32> {
    match channel.active {
        Some(job) => channel.past.insert(job.job_id),
        None => channel.past,
    }
}

/// The hashes that are remembered after a chain tip: those of shares on the same block.
pub open spec fn kept_hashes(channel: ChannelView, update: UpdateView) -> Set<Seq<u8>> {
    match channel.tip {
        Some(tip) => if tip.prev_hash == update.prev_hash {
            channel.hashes
        } else {
            Set::empty()
        },
        None => channel.hashes,
    }
}

/// The state of a channel after a chain tip: the future job for its template becomes the
/// active job, with the target of the channel, and all other future jobs are gone; where
/// there is no future job at all, no job is active afterwards. Either way the jobs before
/// are stale. `rest` is what is not told apart.
pub open spec fn after_tip(
    channel: ChannelView,
    update: UpdateView,
    rest: Seq<u8>,
) -> ChannelView {
    let tip = TipView {
        prev_hash: update.prev_hash,
        nbits: update.nbits,
        min_ntime: update.header_timestamp,
    };
    if channel.none_future() {
        ChannelView {
            active: None,
            active_making: None,
            past: Set::empty(),
            stale: ended(channel),
            targets: Map::empty(),
            tip: Some(tip),
            hashes: kept_hashes(channel, update),
            rest,
            ..channel
        }
    } else {
        match future_job(channel, update.template_id) {
            Some(job) => ChannelView {
                active: Some(activated(job, update.header_timestamp)),
                active_making: lookup(
                    channel.future_makings,
                    channel.future_ids[update.template_id],
                ),
                past: Set::empty(),
                stale: ended(channel).remove(job.job_id),
                targets: Map::empty().insert(job.job_id, channel.target),
                tip: Some(tip),
                hashes: kept_hashes(channel, update),
                future_ids: Map::empty(),
                future_jobs: Map::empty(),
                future_makings: Map::empty(),
                rest,
                ..channel
            },
            None => ChannelView {
                future_ids: channel.future_ids.remove(update.template_id),
                ..channel
            },
        }
    }
}

/// Calls `ExtendedChannel::on_set_new_prev_hash`. It activates the future job for the
/// template of the chain tip, refuses a template that no future job is for, and activates
/// nothing if there is no future job at all. A chain tip that is accepted makes the jobs
/// before stale, and clears the hashes of accepted shares if it is on another block. What
/// else it changes depends on the state of the channel and on the chain tip alone.
#[verifier::external_body]
pub(crate) fn on_set_new_prev_hash(channel: &mut ExtendedChannel, update: TipUpdate) -> (r: TipReply)
    ensures
        r == tip_reply(channel_view(*old(channel)), update@),
        channel_view(*final(channel)) == after_tip(
            channel_view(*old(channel)),
            update@,
            rest_after_tip(channel_view(*old(channel)), update@),
        ),
{
    match channel.on_set_new_prev_hash(SetNewPrevHashOwned {
        template_id: update.template_id,
        prev_hash: update.prev_hash.into(),
        header_timestamp: update.header_timestamp,
        n_bits: update.nbits,
        target: update.target.into(),
    }) {
        Ok(()) => TipReply::Accepted,
        Err(ExtendedChannelError::TemplateIdNotFound) => TipReply::NotFound,
        Err(_) => TipReply::Refused,
    }
}

/// What a channel makes of a share: its answer, and its state afterwards.
pub struct ShareStep {
    pub reply: ReplyView,
    pub next: ChannelView,
}

/// What a channel makes of a share.
pub uninterp spec fn share_step(channel: ChannelView, channel_id: u32, share: ShareView) -> ShareStep;

/// A channel remembers the hashes of at least this many accepted shares.
pub const MIN_REMEMBERED: u32 = 4096;

/// The error code for a share of a job that a chain tip has ended.
pub open spec fn stale_code() -> Seq<char> {
    "stale-share"@
}

/// The active job of the channel is this one, and there is no other job that a share could
/// be for.
pub open spec fn mines(channel: ChannelView, job: Job) -> bool {
    &&& channel.active matches Some(active) && {
        &&& active.job_id == job.job_id
        &&& active.version == job.version
        &&& active.version_rolling_allowed == job.version_rolling_allowed
        &&& active.min_ntime == Some(job.min_ntime)
        &&& active.extranonce_prefix == job.extranonce_prefix@
        &&& active.prefix == job.prefix@
        &&& active.suffix == job.suffix@
        &&& active.message.path == job.path@
    }
    &&& channel.tip matches Some(tip) && tip.prev_hash == job.prev_hash@ && tip.nbits == NBITS
    &&& lookup(channel.targets, job.job_id) == Some(job.target@)
    &&& channel.rollable == job.rollable
    &&& channel.past == Set::<u32>::empty()
    &&& channel.stale == Set::<u32>::empty()
}

/// The hashes are those in the list.
pub open spec fn lists(accepted: Seq<[u8; 32]>, hashes: Set<Seq<u8>>) -> bool {
    forall|hash: Seq<u8>| #[trigger]
        hashes.contains(hash) <==> exists|i: int|
            0 <= i < accepted.len() && (#[trigger] accepted[i])@ == hash
}

/// The bytes are the wire format of a coinbase transaction without a witness.
pub open spec fn is_stripped(bytes: Seq<u8>) -> bool {
    exists|tx: CoinbaseView| tx.short() && bytes == #[trigger] tx.stripped()
}

/// The bytes are the wire format of a coinbase transaction with its witness.
pub open spec fn is_whole(bytes: Seq<u8>) -> bool {
    exists|tx: CoinbaseView| tx.short() && bytes == #[trigger] tx.whole()
}

/// The counters have room for one more share.
pub open spec fn has_room(tally: Tally) -> bool {
    &&& tally.accepted < MIN_REMEMBERED
    &&& tally.rejected < u32::MAX
    &&& tally.blocks < u32::MAX
}

/// A channel in state `before` does with a share what must become of it: it accepts it, with
/// its hash and, for a block, with the template and the coinbase transaction of the job, or
/// refuses it, with the error code where there is one reason, and counts it.
pub open spec fn does(
    before: ChannelView,
    job: Job,
    share: ShareView,
    expected: Expected,
    step: ShareStep,
) -> bool {
    &&& suits(expected, step.reply)
    &&& step.reply.accepted_hash() matches Some(hash) ==> hash == hash_of(job, share)
    &&& step.reply matches ReplyView::Block { template_id, coinbase, .. } ==> (
    before.active_making matches Some(making) && template_id == making.template_id && coinbase
        == making.coinbase(job.extranonce_prefix@ + share.extranonce))
    &&& expected matches Expected::RejectExactly(reason) ==> step.reply.error_code() == Some(
        reason.text(),
    )
    &&& step.next.tally == before.tally.after(expected, share.sequence_number)
    &&& step.next.hashes == if expected is Accept {
        before.hashes.insert(hash_of(job, share))
    } else {
        before.hashes
    }
}

/// A channel does with a share what must become of it, if it mines one job, if prefix,
/// extranonce and suffix of that job make a coinbase transaction, and if its counters have
/// room.
pub open spec fn judges(before: ChannelView, share: ShareView, step: ShareStep) -> bool {
    forall|job: Job, accepted: Seq<[u8; 32]>, expected: Expected| #[trigger]
        is_verdict(job, share, accepted, expected) && mines(before, job) && lists(
            accepted,
            before.hashes,
        ) && has_room(before.tally) && (share.extranonce.len() == job.rollable ==> is_stripped(
            share_coinbase(job, share),
        )) ==> does(before, job, share, expected, step)
}

/// Calls `ExtendedChannel::validate_share`, whose outcome depends on the state of the
/// channel and on its arguments alone. It changes the counters and the memory of accepted
/// shares, and neither target nor jobs nor chain tip. A share that is refused is not
/// counted as accepted. While fewer than [`MIN_REMEMBERED`] shares were accepted, there is
/// room to remember one more; then a share for a stale job is refused as stale, and a share
/// on a channel with one job is accepted or refused as the job, the hash of its header and
/// the hashes of the shares before say, and counted. The order in which the reasons to
/// refuse a share are looked at, and what becomes of shares for past jobs, is left unsaid.
#[verifier::external_body]
pub(crate) fn validate_share(channel: &mut ExtendedChannel, channel_id: u32, share: Share) -> (r: ShareReply)
    requires
        share.extranonce@.len() <= 32,
    ensures
        r@ == share_step(channel_view(*old(channel)), channel_id, share@).reply,
        channel_view(*final(channel)) == share_step(
            channel_view(*old(channel)),
            channel_id,
            share@,
        ).next,
        channel_view(*final(channel)) == (ChannelView {
            tally: channel_view(*final(channel)).tally,
            hashes: channel_view(*final(channel)).hashes,
            rest: channel_view(*final(channel)).rest,
            ..channel_view(*old(channel))
        }),
        channel_view(*old(channel)).tally.accepted < MIN_REMEMBERED && channel_view(
            *old(channel),
        ).stale.contains(share.job_id) ==> r@ == (ReplyView::Stale { code: stale_code() }),
        judges(
            channel_view(*old(channel)),
            share@,
            (ShareStep { reply: r@, next: channel_view(*final(channel)) }),
        ),
        r@.accepted_hash() is None ==> {
            &&& channel_view(*final(channel)).tally.accepted == channel_view(
                *old(channel),
            ).tally.accepted
            &&& channel_view(*final(channel)).tally.last_sequence == channel_view(
                *old(channel),
            ).tally.last_sequence
        },
{
    let Share { sequence_number, job_id, nonce, ntime, version, extranonce } = share;
    let extranonce = extranonce.try_into().unwrap();
    let share = SubmitSharesExtendedOwned { channel_id, sequence_number, job_id, nonce, ntime, version, extranonce };
    match channel.validate_share(share) {
        Ok(Valid(hash)) => ShareReply::Valid { hash: hash.to_byte_array() },
        Ok(BlockFound(hash, template_id, coinbase)) => ShareReply::Block { hash: hash.to_byte_array(), template_id, coinbase },
        Err(DuplicateShare(code)) => ShareReply::Duplicate { code },
        Err(Stale(code)) => ShareReply::Stale { code },
        Err(Invalid(code) | InvalidJobId(code) | DoesNotMeetTarget(code)) => ShareReply::Refused { code },
        Err(VersionRollingNotAllowed(code) | BadExtranonceSize(code)) => ShareReply::Refused { code },
        Err(_) => ShareReply::Uncoded,
    }
}

/// Calls `bitcoin::consensus::serialize` on a transaction output. The result is its wire
/// format.
#[verifier::external_body]
pub(crate) fn serialize_output(value: u64, script: &[u8]) -> (r: Vec<u8>)
    requires
        script@.len() < 253,
    ensures
        r@ == outputs_bytes(seq![(value, script@)]),
{
    let script_pubkey = ScriptBuf::from_bytes(script.to_vec());
    bitcoin::consensus::serialize(&TxOut { value: Amount::from_sat(value), script_pubkey })
}

/// The transaction that some bytes are the wire format of.
pub uninterp spec fn transaction_of(bytes: Seq<u8>) -> Option<TxView>;

/// If the bytes are the wire format of a coinbase transaction, `tx` is that transaction.
pub open spec fn reads(bytes: Seq<u8>, tx: Option<TxView>) -> bool {
    &&& forall|coinbase: CoinbaseView|
        coinbase.short() && bytes == #[trigger] coinbase.stripped() ==> tx == Some(
            coinbase.seen(),
        )
    &&& forall|coinbase: CoinbaseView|
        coinbase.short() && bytes == #[trigger] coinbase.whole() ==> tx == Some(
            coinbase.seen(),
        )
}

/// Calls `bitcoin::consensus::deserialize`, which depends on the bytes alone, and
/// `Transaction::is_coinbase` on the transaction that it returns. The wire format of a
/// coinbase transaction, with or without a witness, is read as that transaction.
#[verifier::external_body]
pub(crate) fn read_transaction(bytes: &[u8]) -> (r: Option<TxSeen>)
    ensures
        read(r) == transaction_of(bytes@),
        reads(bytes@, read(r)),
{
    match bitcoin::consensus::deserialize::<Transaction>(bytes) {
        Ok(tx) => Some(TxSeen {
            is_coinbase: tx.is_coinbase(),
            version: tx.version.0,
            lock_time: tx.lock_time.to_consensus_u32(),
            inputs: tx.input.iter().map(|i| TxInput { sequence: i.sequence.0, script: i.script_sig.to_bytes() }).collect(),
            outputs: tx.output.iter().map(|o| Output { value: o.value.to_sat(), script: o.script_pubkey.to_bytes() }).collect(),
        }),
        Err(_) => None,
    }
}

/// Reads what a job holds.
pub(crate) fn read_job(job: &ExtendedJob) -> (r: JobSeen)
    ensures
        r@ == job_view(*job),
{
    JobSeen {
        job_id: job.get_job_id(),
        future: job.is_future(),
        version: job.get_version(),
        version_rolling_allowed: job.version_rolling_allowed(),
        min_ntime: job.get_min_ntime(),
        extranonce_prefix: vstd::slice::slice_to_vec(job.get_extranonce_prefix()),
        prefix: job.get_coinbase_tx_prefix_without_bip141(),
        suffix: job.get_coinbase_tx_suffix_without_bip141(),
        message: job_message(job),
    }
}

/// Reads the active job of a channel.
pub(crate) fn read_active(channel: &ExtendedChannel) -> (r: Option<JobSeen>)
    ensures
        told(r) == channel_view(*channel).active,
{
    match channel.get_active_job() {
        Some(job) => Some(read_job(job)),
        None => None,
    }
}

/// Reads the chain tip of a channel.
pub(crate) fn read_tip(channel: &ExtendedChannel) -> (r: Option<TipSeen>)
    ensures
        named(r) == channel_view(*channel).tip,
{
    match channel.get_chain_tip() {
        Some(tip) => Some(
            TipSeen {
                prev_hash: tip_prev_hash(tip),
                nbits: tip.nbits(),
                min_ntime: tip.min_ntime(),
            },
        ),
        None => None,
    }
}

/// Reads the counters of a channel.
pub(crate) fn read_tally(channel: &ExtendedChannel) -> (r: Tally)
    ensures
        r == channel_view(*channel).tally,
{
    let accounting = channel.get_share_accounting();
    Tally {
        accepted: accounting.get_shares_accepted(),
        rejected: accounting.get_rejected_shares_count(),
        blocks: accounting.get_blocks_found(),
        last_sequence: accounting.get_last_share_sequence_number(),
    }
}

} // verus!
