//! Jobs: what a channel must make of a template.

use crate::bytes::{same_bytes, starts_with, zeros_only};
#[allow(unused_imports)]
use crate::bytes::{le, zeros};
use crate::merkle::Output;
#[allow(unused_imports)]
use crate::merkle::{outputs_bytes, outputs_view};
#[allow(unused_imports)]
use crate::rules::{decides, decides_between, Rule};
use crate::shares::CHANNEL_ID;
use vstd::prelude::*;

verus! {

/// The longest input script of a coinbase transaction.
pub const MAX_SCRIPT_SIG: usize = 100;

/// The version that a template asks for in its coinbase transaction.
pub const COINBASE_VERSION: u32 = 2;

/// The message about a job that a channel has for its miner.
pub struct JobMessage {
    pub channel_id: u32,
    pub job_id: u32,
    pub version: u32,
    pub version_rolling_allowed: bool,
    pub min_ntime: Option<u32>,
    pub path: Vec<[u8; 32]>,
    pub prefix: Vec<u8>,
    pub suffix: Vec<u8>,
}

/// The same, with sequences.
pub struct JobMessageView {
    pub channel_id: u32,
    pub job_id: u32,
    pub version: u32,
    pub version_rolling_allowed: bool,
    pub min_ntime: Option<u32>,
    pub path: Seq<[u8; 32]>,
    pub prefix: Seq<u8>,
    pub suffix: Seq<u8>,
}

impl View for JobMessage {
    type V = JobMessageView;

    open spec fn view(&self) -> JobMessageView {
        JobMessageView {
            channel_id: self.channel_id,
            job_id: self.job_id,
            version: self.version,
            version_rolling_allowed: self.version_rolling_allowed,
            min_ntime: self.min_ntime,
            path: self.path@,
            prefix: self.prefix@,
            suffix: self.suffix@,
        }
    }
}

/// What a channel tells about a job.
pub struct JobSeen {
    pub job_id: u32,
    pub future: bool,
    pub version: u32,
    pub version_rolling_allowed: bool,
    pub min_ntime: Option<u32>,
    pub extranonce_prefix: Vec<u8>,
    /// The coinbase transaction ahead of the extranonce, as shares are validated with it.
    pub prefix: Vec<u8>,
    /// The coinbase transaction behind the extranonce, as shares are validated with it.
    pub suffix: Vec<u8>,
    pub message: JobMessage,
}

/// The same, with sequences.
pub struct JobView {
    pub job_id: u32,
    pub future: bool,
    pub version: u32,
    pub version_rolling_allowed: bool,
    pub min_ntime: Option<u32>,
    pub extranonce_prefix: Seq<u8>,
    pub prefix: Seq<u8>,
    pub suffix: Seq<u8>,
    pub message: JobMessageView,
}

impl View for JobSeen {
    type V = JobView;

    open spec fn view(&self) -> JobView {
        JobView {
            job_id: self.job_id,
            future: self.future,
            version: self.version,
            version_rolling_allowed: self.version_rolling_allowed,
            min_ntime: self.min_ntime,
            extranonce_prefix: self.extranonce_prefix@,
            prefix: self.prefix@,
            suffix: self.suffix@,
            message: self.message@,
        }
    }
}

impl JobView {
    /// The coinbase transaction of the job with this extranonce.
    pub open spec fn coinbase(self, extranonce: Seq<u8>) -> Seq<u8> {
        self.prefix + extranonce + self.suffix
    }
}

/// What a channel tells about a job, if it has one.
pub open spec fn told(job: Option<JobSeen>) -> Option<JobView> {
    match job {
        Some(job) => Some(job@),
        None => None,
    }
}

/// An input of a transaction.
pub struct TxInput {
    pub sequence: u32,
    pub script: Vec<u8>,
}

/// A transaction that was read from its wire format.
pub struct TxSeen {
    pub is_coinbase: bool,
    pub version: i32,
    pub lock_time: u32,
    pub inputs: Vec<TxInput>,
    pub outputs: Vec<Output>,
}

/// The same, with sequences.
pub struct TxView {
    pub is_coinbase: bool,
    pub version: i32,
    pub lock_time: u32,
    pub inputs: Seq<(u32, Seq<u8>)>,
    pub outputs: Seq<(u64, Seq<u8>)>,
}

impl View for TxSeen {
    type V = TxView;

    open spec fn view(&self) -> TxView {
        TxView {
            is_coinbase: self.is_coinbase,
            version: self.version,
            lock_time: self.lock_time,
            inputs: Seq::new(
                self.inputs@.len(),
                |i: int| (self.inputs@[i].sequence, self.inputs@[i].script@),
            ),
            outputs: outputs_view(self.outputs@),
        }
    }
}

/// A transaction that was read, if there was one.
pub open spec fn read(tx: Option<TxSeen>) -> Option<TxView> {
    match tx {
        Some(tx) => Some(tx@),
        None => None,
    }
}

/// A coinbase transaction.
pub struct CoinbaseView {
    pub version: i32,
    pub script: Seq<u8>,
    pub sequence: u32,
    pub outputs: Seq<(u64, Seq<u8>)>,
    pub lock_time: u32,
}

impl CoinbaseView {
    /// Every length fits the one-byte form of a variable-length integer, and the version is
    /// not negative.
    pub open spec fn short(self) -> bool {
        &&& 0 <= self.version
        &&& self.script.len() < 253
        &&& self.outputs.len() < 253
        &&& forall|i: int|
            0 <= i < self.outputs.len() ==> (#[trigger] self.outputs[i]).1.len() < 253
    }

    /// The wire format of the input, which spends the null outpoint, and of the outputs.
    pub open spec fn body(self) -> Seq<u8> {
        seq![1u8] + zeros(32) + le(u32::MAX as int, 4) + seq![self.script.len() as u8]
            + self.script + le(self.sequence as int, 4) + seq![self.outputs.len() as u8]
            + outputs_bytes(self.outputs)
    }

    /// The wire format without a witness.
    pub open spec fn stripped(self) -> Seq<u8> {
        le(self.version as int, 4) + self.body() + le(self.lock_time as int, 4)
    }

    /// The wire format with a witness of one item, which is 32 zeros.
    pub open spec fn whole(self) -> Seq<u8> {
        le(self.version as int, 4) + seq![0u8, 1u8] + self.body() + seq![1u8, 32u8] + zeros(32)
            + le(self.lock_time as int, 4)
    }

    /// What is read from either.
    pub open spec fn seen(self) -> TxView {
        TxView {
            is_coinbase: true,
            version: self.version,
            lock_time: self.lock_time,
            inputs: seq![(self.sequence, self.script)],
            outputs: self.outputs,
        }
    }
}

/// The sum of the amounts of a list of outputs.
pub open spec fn total(outputs: Seq<Output>) -> int
    decreases outputs.len(),
{
    if outputs.len() == 0 {
        0
    } else {
        total(outputs.drop_last()) + outputs.last().value
    }
}

/// A template, the reward that its coinbase transaction must pay, and the channel that
/// makes a job of it.
pub struct TemplatePlan {
    pub template_id: u64,
    pub version: u32,
    pub coinbase_prefix: Vec<u8>,
    pub input_sequence: u32,
    pub value_remaining: u64,
    pub locktime: u32,
    /// The script of the one output of the template, which is worth nothing.
    pub output_script: Vec<u8>,
    pub reward_script: Vec<u8>,
    pub path: Vec<[u8; 32]>,
    pub extranonce_prefix: Vec<u8>,
    pub rollable: usize,
    pub version_rolling_allowed: bool,
}

/// What came of a template whose reward pays more than there is.
#[derive(Clone, Copy, Debug, PartialEq, Eq, Structural)]
pub struct OverpaidSeen {
    pub accepted: bool,
    pub registered: bool,
}

/// What a channel was seen to make of a template.
pub struct TemplateRun {
    /// The same template with a reward of one satoshi more, if there is such an amount.
    pub overpaid: Option<OverpaidSeen>,
    pub accepted: bool,
    /// The channel has an active job afterwards.
    pub active: bool,
    /// The job that the channel has for the template.
    pub job_id: Option<u32>,
    pub job: Option<JobSeen>,
    /// How long the channel says the extranonce is.
    pub full_size: usize,
    /// The coinbase transaction of the job with an extranonce of zeros.
    pub coinbase: Option<TxSeen>,
}

/// The rules about a template, in the order in which they are checked. All but the first
/// two speak of a template that was accepted.
#[derive(Clone, Copy, Debug, PartialEq, Eq, Structural)]
pub enum TemplateRule {
    /// A reward above the value of the template is refused.
    OverpaidRefused,
    /// A template that was refused leaves no job.
    OverpaidUnregistered,
    /// A future template activates no job.
    NotActive,
    /// There is a job for the template.
    Registered,
    /// The job can be looked up.
    Retrievable,
    /// The job is a future job.
    Future,
    /// The job goes by the number that it was looked up by.
    JobId,
    /// The job has the version of the template.
    Version,
    /// The job allows version rolling as the channel does.
    Rolling,
    /// The job has the extranonce prefix of the channel.
    ExtranoncePrefix,
    /// The message names the channel.
    MessageChannel,
    /// The message names the job.
    MessageJobId,
    /// The message has the version of the template.
    MessageVersion,
    /// The message allows version rolling as the channel does.
    MessageRolling,
    /// The message about a future job names no earliest time.
    MessageMinNtime,
    /// The message has the Merkle path of the template.
    MessagePath,
    /// Shares are validated with the prefix that the message has.
    Prefix,
    /// Shares are validated with the suffix that the message has.
    Suffix,
    /// Prefix, extranonce and suffix make a transaction.
    Transaction,
    /// It is a coinbase transaction.
    Coinbase,
    /// It has the version that the template asks for.
    TxVersion,
    /// It has the lock time of the template.
    LockTime,
    /// It has one input.
    OneInput,
    /// The input has the sequence number of the template.
    InputSequence,
    /// The input script is no longer than the consensus rules allow.
    ScriptLength,
    /// The input script begins with the coinbase prefix of the template.
    ScriptPrefix,
    /// The input script ends with the extranonce.
    ScriptExtranonce,
    /// The reward is the first output.
    RewardFirst,
    /// The output of the template is the last one.
    TemplateLast,
    /// The outputs are worth what the template says.
    Value,
}

/// The output at `i` has this amount and script.
pub open spec fn pays(outputs: Seq<Output>, i: int, value: u64, script: Seq<u8>) -> bool {
    &&& 0 <= i < outputs.len()
    &&& outputs[i].value == value
    &&& outputs[i].script@ == script
}

/// `bytes` end with `count` zeros.
pub open spec fn ends_with_zeros(bytes: Seq<u8>, count: nat) -> bool {
    &&& count <= bytes.len()
    &&& bytes.skip(bytes.len() - count) == zeros(count)
}

impl TemplateRule {
    /// What the rule says of a job.
    pub open spec fn job_holds(self, plan: TemplatePlan, id: Option<u32>, job: JobSeen) -> bool {
        match self {
            TemplateRule::Future => job.future,
            TemplateRule::JobId => id == Some(job.job_id),
            TemplateRule::Version => job.version == plan.version,
            TemplateRule::Rolling => job.version_rolling_allowed == plan.version_rolling_allowed,
            TemplateRule::ExtranoncePrefix => job.extranonce_prefix@ == plan.extranonce_prefix@,
            TemplateRule::MessageChannel => job.message.channel_id == CHANNEL_ID,
            TemplateRule::MessageJobId => id == Some(job.message.job_id),
            TemplateRule::MessageVersion => job.message.version == plan.version,
            TemplateRule::MessageRolling => job.message.version_rolling_allowed
                == plan.version_rolling_allowed,
            TemplateRule::MessageMinNtime => job.message.min_ntime is None,
            TemplateRule::MessagePath => job.message.path@ == plan.path@,
            TemplateRule::Prefix => job.prefix@ == job.message.prefix@,
            TemplateRule::Suffix => job.suffix@ == job.message.suffix@,
            _ => true,
        }
    }

    /// What the rule says of a coinbase transaction.
    pub open spec fn tx_holds(self, plan: TemplatePlan, full_size: usize, tx: TxSeen) -> bool {
        match self {
            TemplateRule::Coinbase => tx.is_coinbase,
            TemplateRule::TxVersion => tx.version == COINBASE_VERSION,
            TemplateRule::LockTime => tx.lock_time == plan.locktime,
            TemplateRule::OneInput => tx.inputs@.len() == 1,
            TemplateRule::RewardFirst => pays(
                tx.outputs@,
                0,
                plan.value_remaining,
                plan.reward_script@,
            ),
            TemplateRule::TemplateLast => pays(
                tx.outputs@,
                tx.outputs@.len() - 1,
                0,
                plan.output_script@,
            ),
            TemplateRule::Value => total(tx.outputs@) == plan.value_remaining,
            _ => tx.inputs@.len() > 0 ==> self.input_holds(plan, full_size, tx.inputs@[0]),
        }
    }

    /// What the rule says of the input of a coinbase transaction.
    pub open spec fn input_holds(
        self,
        plan: TemplatePlan,
        full_size: usize,
        input: TxInput,
    ) -> bool {
        match self {
            TemplateRule::InputSequence => input.sequence == plan.input_sequence,
            TemplateRule::ScriptLength => input.script@.len() <= MAX_SCRIPT_SIG,
            TemplateRule::ScriptPrefix => plan.coinbase_prefix@.is_prefix_of(input.script@),
            TemplateRule::ScriptExtranonce => ends_with_zeros(input.script@, full_size as nat),
            _ => true,
        }
    }
}

impl Rule for TemplateRule {
    type Run = (TemplatePlan, TemplateRun);

    open spec fn rank(self) -> int {
        match self {
            TemplateRule::OverpaidRefused => 0,
            TemplateRule::OverpaidUnregistered => 1,
            TemplateRule::NotActive => 2,
            TemplateRule::Registered => 3,
            TemplateRule::Retrievable => 4,
            TemplateRule::Future => 5,
            TemplateRule::JobId => 6,
            TemplateRule::Version => 7,
            TemplateRule::Rolling => 8,
            TemplateRule::ExtranoncePrefix => 9,
            TemplateRule::MessageChannel => 10,
            TemplateRule::MessageJobId => 11,
            TemplateRule::MessageVersion => 12,
            TemplateRule::MessageRolling => 13,
            TemplateRule::MessageMinNtime => 14,
            TemplateRule::MessagePath => 15,
            TemplateRule::Prefix => 16,
            TemplateRule::Suffix => 17,
            TemplateRule::Transaction => 18,
            TemplateRule::Coinbase => 19,
            TemplateRule::TxVersion => 20,
            TemplateRule::LockTime => 21,
            TemplateRule::OneInput => 22,
            TemplateRule::InputSequence => 23,
            TemplateRule::ScriptLength => 24,
            TemplateRule::ScriptPrefix => 25,
            TemplateRule::ScriptExtranonce => 26,
            TemplateRule::RewardFirst => 27,
            TemplateRule::TemplateLast => 28,
            TemplateRule::Value => 29,
        }
    }

    open spec fn holds(self, run: (TemplatePlan, TemplateRun)) -> bool {
        let (plan, run) = run;
        match self {
            TemplateRule::OverpaidRefused => run.overpaid matches Some(over) ==> !over.accepted,
            TemplateRule::OverpaidUnregistered => run.overpaid matches Some(over)
                ==> !over.registered,
            TemplateRule::NotActive => run.accepted ==> !run.active,
            TemplateRule::Registered => run.accepted ==> run.job_id is Some,
            TemplateRule::Retrievable => run.accepted ==> run.job is Some,
            TemplateRule::Transaction => run.accepted ==> run.coinbase is Some,
            _ => run.accepted ==> {
                &&& 5 <= self.rank() <= 17 ==> (run.job matches Some(job) ==> self.job_holds(
                    plan,
                    run.job_id,
                    job,
                ))
                &&& 19 <= self.rank() ==> (run.coinbase matches Some(tx) ==> self.tx_holds(
                    plan,
                    run.full_size,
                    tx,
                ))
            },
        }
    }
}

/// Whether two Merkle paths are the same.
pub fn same_path(a: &[[u8; 32]], b: &[[u8; 32]]) -> (r: bool)
    ensures
        r == (a@ == b@),
{
    if a.len() != b.len() {
        return false;
    }
    let mut i: usize = 0;
    while i < a.len()
        invariant
            i <= a@.len(),
            a@.len() == b@.len(),
            forall|j: int| 0 <= j < i ==> a@[j] == b@[j],
        decreases a@.len() - i,
    {
        if !same_bytes(a[i].as_slice(), b[i].as_slice()) {
            assert(a@[i as int]@ != b@[i as int]@);
            return false;
        }
        assert(a@[i as int] =~= b@[i as int]);
        i += 1;
    }
    assert(a@ =~= b@);
    true
}

/// Whether `bytes` end with `count` zeros.
pub fn zeros_at_end(bytes: &[u8], count: usize) -> (r: bool)
    ensures
        r == ends_with_zeros(bytes@, count as nat),
{
    if bytes.len() < count {
        return false;
    }
    let start: usize = bytes.len() - count;
    assert(bytes@.skip(start as int) =~= bytes@.subrange(start as int, bytes@.len() as int));
    zeros_only(&bytes[start..bytes.len()])
}

/// Whether the output at `i` has this amount and script.
fn output_pays(outputs: &[Output], i: usize, value: u64, script: &[u8]) -> (r: bool)
    ensures
        r == pays(outputs@, i as int, value, script@),
{
    i < outputs.len() && outputs[i].value == value && same_bytes(
        outputs[i].script.as_slice(),
        script,
    )
}

/// The amounts ahead of `i` sum up to no more than all amounts.
proof fn lemma_total_grows(outputs: Seq<Output>, i: int)
    requires
        0 <= i <= outputs.len(),
    ensures
        0 <= total(outputs.take(i)) <= total(outputs),
    decreases outputs.len(),
{
    if i == outputs.len() {
        assert(outputs.take(i) =~= outputs);
        if i > 0 {
            lemma_total_grows(outputs.drop_last(), i - 1);
        }
    } else {
        lemma_total_grows(outputs.drop_last(), i);
        assert(outputs.drop_last().take(i) =~= outputs.take(i));
    }
}

/// Whether the amounts of the outputs sum up to `value`.
pub fn adds_up(outputs: &[Output], value: u64) -> (r: bool)
    ensures
        r == (total(outputs@) == value),
{
    let mut left: u64 = value;
    let mut i: usize = 0;
    assert(outputs@.take(0) =~= Seq::<Output>::empty());
    while i < outputs.len()
        invariant
            i <= outputs@.len(),
            left + total(outputs@.take(i as int)) == value,
        decreases outputs@.len() - i,
    {
        proof {
            assert(outputs@.take(i + 1).drop_last() =~= outputs@.take(i as int));
            lemma_total_grows(outputs@, i + 1);
        }
        if outputs[i].value > left {
            return false;
        }
        left = left - outputs[i].value;
        i += 1;
    }
    assert(outputs@.take(i as int) =~= outputs@);
    left == 0
}

/// Judges the job that a channel made of a template.
fn judge_job(plan: &TemplatePlan, run: &TemplateRun, id: u32, job: &JobSeen) -> (r: Result<
    (),
    TemplateRule,
>)
    requires
        run.accepted,
        run.job_id == Some(id),
        run.job == Some(*job),
    ensures
        decides_between(r, (*plan, *run), 5, 18),
{
    if !job.future {
        assert(!TemplateRule::Future.holds((*plan, *run)));
        return Err(TemplateRule::Future);
    }
    if job.job_id != id {
        assert(!TemplateRule::JobId.holds((*plan, *run)));
        return Err(TemplateRule::JobId);
    }
    if job.version != plan.version {
        assert(!TemplateRule::Version.holds((*plan, *run)));
        return Err(TemplateRule::Version);
    }
    if job.version_rolling_allowed != plan.version_rolling_allowed {
        assert(!TemplateRule::Rolling.holds((*plan, *run)));
        return Err(TemplateRule::Rolling);
    }
    if !same_bytes(job.extranonce_prefix.as_slice(), plan.extranonce_prefix.as_slice()) {
        assert(!TemplateRule::ExtranoncePrefix.holds((*plan, *run)));
        return Err(TemplateRule::ExtranoncePrefix);
    }
    if job.message.channel_id != CHANNEL_ID {
        assert(!TemplateRule::MessageChannel.holds((*plan, *run)));
        return Err(TemplateRule::MessageChannel);
    }
    if job.message.job_id != id {
        assert(!TemplateRule::MessageJobId.holds((*plan, *run)));
        return Err(TemplateRule::MessageJobId);
    }
    if job.message.version != plan.version {
        assert(!TemplateRule::MessageVersion.holds((*plan, *run)));
        return Err(TemplateRule::MessageVersion);
    }
    if job.message.version_rolling_allowed != plan.version_rolling_allowed {
        assert(!TemplateRule::MessageRolling.holds((*plan, *run)));
        return Err(TemplateRule::MessageRolling);
    }
    if job.message.min_ntime.is_some() {
        assert(!TemplateRule::MessageMinNtime.holds((*plan, *run)));
        return Err(TemplateRule::MessageMinNtime);
    }
    if !same_path(job.message.path.as_slice(), plan.path.as_slice()) {
        assert(!TemplateRule::MessagePath.holds((*plan, *run)));
        return Err(TemplateRule::MessagePath);
    }
    if !same_bytes(job.prefix.as_slice(), job.message.prefix.as_slice()) {
        assert(!TemplateRule::Prefix.holds((*plan, *run)));
        return Err(TemplateRule::Prefix);
    }
    if !same_bytes(job.suffix.as_slice(), job.message.suffix.as_slice()) {
        assert(!TemplateRule::Suffix.holds((*plan, *run)));
        return Err(TemplateRule::Suffix);
    }
    Ok(())
}

/// Judges the coinbase transaction of the job that a channel made of a template.
fn judge_coinbase(plan: &TemplatePlan, run: &TemplateRun, tx: &TxSeen) -> (r: Result<
    (),
    TemplateRule,
>)
    requires
        run.accepted,
        run.coinbase == Some(*tx),
    ensures
        decides_between(r, (*plan, *run), 18, 30),
{
    if !tx.is_coinbase {
        assert(!TemplateRule::Coinbase.holds((*plan, *run)));
        return Err(TemplateRule::Coinbase);
    }
    if tx.version != COINBASE_VERSION as i32 {
        assert(!TemplateRule::TxVersion.holds((*plan, *run)));
        return Err(TemplateRule::TxVersion);
    }
    if tx.lock_time != plan.locktime {
        assert(!TemplateRule::LockTime.holds((*plan, *run)));
        return Err(TemplateRule::LockTime);
    }
    if tx.inputs.len() != 1 {
        assert(!TemplateRule::OneInput.holds((*plan, *run)));
        return Err(TemplateRule::OneInput);
    }
    let script = tx.inputs[0].script.as_slice();
    if tx.inputs[0].sequence != plan.input_sequence {
        assert(!TemplateRule::InputSequence.holds((*plan, *run)));
        return Err(TemplateRule::InputSequence);
    }
    if script.len() > MAX_SCRIPT_SIG {
        assert(!TemplateRule::ScriptLength.holds((*plan, *run)));
        return Err(TemplateRule::ScriptLength);
    }
    if !starts_with(script, plan.coinbase_prefix.as_slice()) {
        assert(!TemplateRule::ScriptPrefix.holds((*plan, *run)));
        return Err(TemplateRule::ScriptPrefix);
    }
    if !zeros_at_end(script, run.full_size) {
        assert(!TemplateRule::ScriptExtranonce.holds((*plan, *run)));
        return Err(TemplateRule::ScriptExtranonce);
    }
    if !output_pays(tx.outputs.as_slice(), 0, plan.value_remaining, plan.reward_script.as_slice()) {
        assert(!TemplateRule::RewardFirst.holds((*plan, *run)));
        return Err(TemplateRule::RewardFirst);
    }
    if tx.outputs.len() == 0 || !output_pays(tx.outputs.as_slice(), tx.outputs.len() - 1, 0, plan.output_script.as_slice()) {
        assert(!TemplateRule::TemplateLast.holds((*plan, *run)));
        return Err(TemplateRule::TemplateLast);
    }
    if !adds_up(tx.outputs.as_slice(), plan.value_remaining) {
        assert(!TemplateRule::Value.holds((*plan, *run)));
        return Err(TemplateRule::Value);
    }
    Ok(())
}

/// Judges what a channel made of a template: the first rule that it breaks, if there is
/// one. A template that was refused breaks none but the first two.
pub fn judge_template(plan: &TemplatePlan, run: &TemplateRun) -> (r: Result<(), TemplateRule>)
    ensures
        decides(r, (*plan, *run)),
{
    if let Some(over) = &run.overpaid {
        if over.accepted {
            assert(!TemplateRule::OverpaidRefused.holds((*plan, *run)));
            return Err(TemplateRule::OverpaidRefused);
        }
        if over.registered {
            assert(!TemplateRule::OverpaidUnregistered.holds((*plan, *run)));
            return Err(TemplateRule::OverpaidUnregistered);
        }
    }
    if !run.accepted {
        return Ok(());
    }
    if run.active {
        assert(!TemplateRule::NotActive.holds((*plan, *run)));
        return Err(TemplateRule::NotActive);
    }
    let id: u32 = match run.job_id {
        Some(id) => id,
        None => {
            assert(!TemplateRule::Registered.holds((*plan, *run)));
            return Err(TemplateRule::Registered);
        },
    };
    let job = match &run.job {
        Some(job) => job,
        None => {
            assert(!TemplateRule::Retrievable.holds((*plan, *run)));
            return Err(TemplateRule::Retrievable);
        },
    };
    match judge_job(plan, run, id, job) {
        Ok(()) => {},
        Err(rule) => {
            return Err(rule);
        },
    }
    match &run.coinbase {
        Some(tx) => judge_coinbase(plan, run, tx),
        None => {
            assert(!TemplateRule::Transaction.holds((*plan, *run)));
            Err(TemplateRule::Transaction)
        },
    }
}

/// The sum of amounts grows by each amount that comes behind, from nothing on.
pub proof fn law_total(outputs: Seq<Output>, more: Output)
    ensures
        total(Seq::empty()) == 0,
        total(outputs.push(more)) == total(outputs) + more.value,
{
    assert(outputs.push(more).drop_last() =~= outputs);
}

/// Amounts are found to add up exactly if their sum is the value, however large it is.
pub proof fn law_adds_up(outputs: &[Output], value: u64, r: bool)
    requires
        call_ensures(adds_up, (outputs, value), r),
    ensures
        r <==> total(outputs@) == value,
{
}

/// Two paths are found the same exactly if they are as long and have the same node at every
/// place.
pub proof fn law_same_path(a: &[[u8; 32]], b: &[[u8; 32]], r: bool)
    requires
        call_ensures(same_path, (a, b), r),
    ensures
        r <==> a@.len() == b@.len() && forall|i: int|
            0 <= i < a@.len() ==> (#[trigger] a@[i])@ == b@[i]@,
{
    if a@.len() == b@.len() && forall|i: int|
        0 <= i < a@.len() ==> (#[trigger] a@[i])@ == b@[i]@ {
        assert forall|i: int| 0 <= i < a@.len() implies a@[i] == b@[i] by {
            assert(a@[i] =~= b@[i]);
        }
        assert(a@ =~= b@);
    }
}

/// Bytes are found to end with zeros exactly if there are enough of them, and the last ones
/// are zero.
pub proof fn law_zeros_at_end(bytes: &[u8], count: usize, r: bool)
    requires
        call_ensures(zeros_at_end, (bytes, count), r),
    ensures
        r <==> count <= bytes@.len() && forall|i: int|
            bytes@.len() - count <= i < bytes@.len() ==> bytes@[i] == 0,
{
    lemma_ends_with_zeros(bytes@, count as nat);
}

/// Bytes end with zeros if the last ones are zero.
proof fn lemma_ends_with_zeros(bytes: Seq<u8>, count: nat)
    ensures
        ends_with_zeros(bytes, count) <==> count <= bytes.len() && forall|i: int|
            bytes.len() - count <= i < bytes.len() ==> bytes[i] == 0,
{
    if count <= bytes.len() {
        let end = bytes.skip(bytes.len() - count);
        if forall|i: int| bytes.len() - count <= i < bytes.len() ==> bytes[i] == 0 {
            assert(end =~= zeros(count));
        }
        if end == zeros(count) {
            assert forall|i: int| bytes.len() - count <= i < bytes.len() implies bytes[i] == 0 by {
                assert(end[i - (bytes.len() - count)] == zeros(count)[i - (bytes.len() - count)]);
            }
        }
    }
}

/// What a channel makes of a template passes exactly if it refused to overpay and kept nothing
/// of that, and, if it accepted the template: if no job is active, if there is a future job with
/// the fields of the template and of the channel, which the message repeats, and if its
/// coinbase transaction has the version, lock time and sequence number that the template asks
/// for, a script of at most 100 bytes that begins with the prefix and ends with the extranonce,
/// the whole reward as its first output, to the byte of its script, the output of the template
/// as its last, and outputs that are worth no more and no less than the template says. If not,
/// the verdict names the first of these things that is wrong.
pub proof fn law_template(plan: &TemplatePlan, run: &TemplateRun, verdict: Result<(), TemplateRule>)
    requires
        call_ensures(judge_template, (plan, run), verdict),
    ensures
        verdict is Ok <==> {
            &&& run.overpaid is Some ==> !run.overpaid->0.accepted && !run.overpaid->0.registered
            &&& run.accepted ==> {
                let job = run.job->0;
                let tx = run.coinbase->0;
                let script = tx.inputs@[0].script@;
                &&& !run.active
                &&& run.job_id is Some
                &&& run.job is Some
                &&& job.future
                &&& job.job_id == run.job_id->0
                &&& job.version == plan.version
                &&& job.version_rolling_allowed == plan.version_rolling_allowed
                &&& job.extranonce_prefix@ == plan.extranonce_prefix@
                &&& job.message.channel_id == 7
                &&& job.message.job_id == run.job_id->0
                &&& job.message.version == plan.version
                &&& job.message.version_rolling_allowed == plan.version_rolling_allowed
                &&& job.message.min_ntime is None
                &&& job.message.path@ == plan.path@
                &&& job.prefix@ == job.message.prefix@
                &&& job.suffix@ == job.message.suffix@
                &&& run.coinbase is Some
                &&& tx.is_coinbase
                &&& tx.version == 2
                &&& tx.lock_time == plan.locktime
                &&& tx.inputs@.len() == 1
                &&& tx.inputs@[0].sequence == plan.input_sequence
                &&& script.len() <= 100
                &&& plan.coinbase_prefix@.is_prefix_of(script)
                &&& run.full_size <= script.len()
                &&& forall|i: int| script.len() - run.full_size <= i < script.len() ==> script[i] == 0
                &&& tx.outputs@.len() > 0
                &&& tx.outputs@[0].value == plan.value_remaining
                &&& tx.outputs@[0].script@ == plan.reward_script@
                &&& tx.outputs@.last().value == 0
                &&& tx.outputs@.last().script@ == plan.output_script@
                &&& total(tx.outputs@) == plan.value_remaining
            }
        },
        verdict matches Err(rule) ==> {
            let job = run.job->0;
            let tx = run.coinbase->0;
            let script = tx.inputs@[0].script@;
            rule == (if run.overpaid is Some && run.overpaid->0.accepted {
                TemplateRule::OverpaidRefused
            } else if run.overpaid is Some && run.overpaid->0.registered {
                TemplateRule::OverpaidUnregistered
            } else if run.active {
                TemplateRule::NotActive
            } else if run.job_id is None {
                TemplateRule::Registered
            } else if run.job is None {
                TemplateRule::Retrievable
            } else if !job.future {
                TemplateRule::Future
            } else if run.job_id != Some(job.job_id) {
                TemplateRule::JobId
            } else if job.version != plan.version {
                TemplateRule::Version
            } else if job.version_rolling_allowed != plan.version_rolling_allowed {
                TemplateRule::Rolling
            } else if job.extranonce_prefix@ != plan.extranonce_prefix@ {
                TemplateRule::ExtranoncePrefix
            } else if job.message.channel_id != 7 {
                TemplateRule::MessageChannel
            } else if run.job_id != Some(job.message.job_id) {
                TemplateRule::MessageJobId
            } else if job.message.version != plan.version {
                TemplateRule::MessageVersion
            } else if job.message.version_rolling_allowed != plan.version_rolling_allowed {
                TemplateRule::MessageRolling
            } else if job.message.min_ntime is Some {
                TemplateRule::MessageMinNtime
            } else if job.message.path@ != plan.path@ {
                TemplateRule::MessagePath
            } else if job.prefix@ != job.message.prefix@ {
                TemplateRule::Prefix
            } else if job.suffix@ != job.message.suffix@ {
                TemplateRule::Suffix
            } else if run.coinbase is None {
                TemplateRule::Transaction
            } else if !tx.is_coinbase {
                TemplateRule::Coinbase
            } else if tx.version != 2 {
                TemplateRule::TxVersion
            } else if tx.lock_time != plan.locktime {
                TemplateRule::LockTime
            } else if tx.inputs@.len() != 1 {
                TemplateRule::OneInput
            } else if tx.inputs@[0].sequence != plan.input_sequence {
                TemplateRule::InputSequence
            } else if script.len() > 100 {
                TemplateRule::ScriptLength
            } else if !plan.coinbase_prefix@.is_prefix_of(script) {
                TemplateRule::ScriptPrefix
            } else if run.full_size > script.len() || exists|i: int|
                script.len() - run.full_size <= i < script.len() && #[trigger] script[i] != 0 {
                TemplateRule::ScriptExtranonce
            } else if tx.outputs@.len() == 0 || tx.outputs@[0].value != plan.value_remaining
                || tx.outputs@[0].script@ != plan.reward_script@ {
                TemplateRule::RewardFirst
            } else if tx.outputs@.last().value != 0 || tx.outputs@.last().script@ != plan.output_script@ {
                TemplateRule::TemplateLast
            } else {
                TemplateRule::Value
            })
        },
{
    if run.coinbase is Some && run.coinbase->0.inputs@.len() > 0 {
        lemma_ends_with_zeros(run.coinbase->0.inputs@[0].script@, run.full_size as nat);
    }
    if verdict is Ok {
        assert(TemplateRule::OverpaidRefused.holds((*plan, *run)));
        assert(TemplateRule::OverpaidUnregistered.holds((*plan, *run)));
        assert(TemplateRule::NotActive.holds((*plan, *run)));
        assert(TemplateRule::Registered.holds((*plan, *run)));
        assert(TemplateRule::Retrievable.holds((*plan, *run)));
        assert(TemplateRule::Future.holds((*plan, *run)));
        assert(TemplateRule::JobId.holds((*plan, *run)));
        assert(TemplateRule::Version.holds((*plan, *run)));
        assert(TemplateRule::Rolling.holds((*plan, *run)));
        assert(TemplateRule::ExtranoncePrefix.holds((*plan, *run)));
        assert(TemplateRule::MessageChannel.holds((*plan, *run)));
        assert(TemplateRule::MessageJobId.holds((*plan, *run)));
        assert(TemplateRule::MessageVersion.holds((*plan, *run)));
        assert(TemplateRule::MessageRolling.holds((*plan, *run)));
        assert(TemplateRule::MessageMinNtime.holds((*plan, *run)));
        assert(TemplateRule::MessagePath.holds((*plan, *run)));
        assert(TemplateRule::Prefix.holds((*plan, *run)));
        assert(TemplateRule::Suffix.holds((*plan, *run)));
        assert(TemplateRule::Transaction.holds((*plan, *run)));
        assert(TemplateRule::Coinbase.holds((*plan, *run)));
        assert(TemplateRule::TxVersion.holds((*plan, *run)));
        assert(TemplateRule::LockTime.holds((*plan, *run)));
        assert(TemplateRule::OneInput.holds((*plan, *run)));
        assert(TemplateRule::InputSequence.holds((*plan, *run)));
        assert(TemplateRule::ScriptLength.holds((*plan, *run)));
        assert(TemplateRule::ScriptPrefix.holds((*plan, *run)));
        assert(TemplateRule::ScriptExtranonce.holds((*plan, *run)));
        assert(TemplateRule::RewardFirst.holds((*plan, *run)));
        assert(TemplateRule::TemplateLast.holds((*plan, *run)));
        assert(TemplateRule::Value.holds((*plan, *run)));
    }
    if let Err(broken) = verdict {
        if TemplateRule::OverpaidRefused.rank() < broken.rank() {
            assert(TemplateRule::OverpaidRefused.holds((*plan, *run)));
        }
        if TemplateRule::OverpaidUnregistered.rank() < broken.rank() {
            assert(TemplateRule::OverpaidUnregistered.holds((*plan, *run)));
        }
        if TemplateRule::NotActive.rank() < broken.rank() {
            assert(TemplateRule::NotActive.holds((*plan, *run)));
        }
        if TemplateRule::Registered.rank() < broken.rank() {
            assert(TemplateRule::Registered.holds((*plan, *run)));
        }
        if TemplateRule::Retrievable.rank() < broken.rank() {
            assert(TemplateRule::Retrievable.holds((*plan, *run)));
        }
        if TemplateRule::Future.rank() < broken.rank() {
            assert(TemplateRule::Future.holds((*plan, *run)));
        }
        if TemplateRule::JobId.rank() < broken.rank() {
            assert(TemplateRule::JobId.holds((*plan, *run)));
        }
        if TemplateRule::Version.rank() < broken.rank() {
            assert(TemplateRule::Version.holds((*plan, *run)));
        }
        if TemplateRule::Rolling.rank() < broken.rank() {
            assert(TemplateRule::Rolling.holds((*plan, *run)));
        }
        if TemplateRule::ExtranoncePrefix.rank() < broken.rank() {
            assert(TemplateRule::ExtranoncePrefix.holds((*plan, *run)));
        }
        if TemplateRule::MessageChannel.rank() < broken.rank() {
            assert(TemplateRule::MessageChannel.holds((*plan, *run)));
        }
        if TemplateRule::MessageJobId.rank() < broken.rank() {
            assert(TemplateRule::MessageJobId.holds((*plan, *run)));
        }
        if TemplateRule::MessageVersion.rank() < broken.rank() {
            assert(TemplateRule::MessageVersion.holds((*plan, *run)));
        }
        if TemplateRule::MessageRolling.rank() < broken.rank() {
            assert(TemplateRule::MessageRolling.holds((*plan, *run)));
        }
        if TemplateRule::MessageMinNtime.rank() < broken.rank() {
            assert(TemplateRule::MessageMinNtime.holds((*plan, *run)));
        }
        if TemplateRule::MessagePath.rank() < broken.rank() {
            assert(TemplateRule::MessagePath.holds((*plan, *run)));
        }
        if TemplateRule::Prefix.rank() < broken.rank() {
            assert(TemplateRule::Prefix.holds((*plan, *run)));
        }
        if TemplateRule::Suffix.rank() < broken.rank() {
            assert(TemplateRule::Suffix.holds((*plan, *run)));
        }
        if TemplateRule::Transaction.rank() < broken.rank() {
            assert(TemplateRule::Transaction.holds((*plan, *run)));
        }
        if TemplateRule::Coinbase.rank() < broken.rank() {
            assert(TemplateRule::Coinbase.holds((*plan, *run)));
        }
        if TemplateRule::TxVersion.rank() < broken.rank() {
            assert(TemplateRule::TxVersion.holds((*plan, *run)));
        }
        if TemplateRule::LockTime.rank() < broken.rank() {
            assert(TemplateRule::LockTime.holds((*plan, *run)));
        }
        if TemplateRule::OneInput.rank() < broken.rank() {
            assert(TemplateRule::OneInput.holds((*plan, *run)));
        }
        if TemplateRule::InputSequence.rank() < broken.rank() {
            assert(TemplateRule::InputSequence.holds((*plan, *run)));
        }
        if TemplateRule::ScriptLength.rank() < broken.rank() {
            assert(TemplateRule::ScriptLength.holds((*plan, *run)));
        }
        if TemplateRule::ScriptPrefix.rank() < broken.rank() {
            assert(TemplateRule::ScriptPrefix.holds((*plan, *run)));
        }
        if TemplateRule::ScriptExtranonce.rank() < broken.rank() {
            assert(TemplateRule::ScriptExtranonce.holds((*plan, *run)));
        }
        if TemplateRule::RewardFirst.rank() < broken.rank() {
            assert(TemplateRule::RewardFirst.holds((*plan, *run)));
        }
        if TemplateRule::TemplateLast.rank() < broken.rank() {
            assert(TemplateRule::TemplateLast.holds((*plan, *run)));
        }
    }
}

} // verus!
