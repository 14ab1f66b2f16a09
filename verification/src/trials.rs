//! Share trials: what a channel answered to a share, against what it should answer.

use crate::bytes::same_bytes;
#[allow(unused_imports)]
use crate::rules::{decides, Rule};
use crate::shares::{Expected, Job, Share};
#[allow(unused_imports)]
use crate::shares::{described, hash_of, is_verdict, ShareInput, ShareView};
use vstd::prelude::*;

verus! {

/// A channel's answer to a share.
pub enum ShareReply {
    Valid { hash: [u8; 32] },
    Block { hash: [u8; 32], template_id: Option<u64>, coinbase: Vec<u8> },
    Duplicate { code: &'static str },
    Stale { code: &'static str },
    /// Refused with another error code.
    Refused { code: &'static str },
    /// Refused without an error code.
    Uncoded,
}

/// The same, with hash, coinbase and code as sequences.
pub enum ReplyView {
    Valid { hash: Seq<u8> },
    Block { hash: Seq<u8>, template_id: Option<u64>, coinbase: Seq<u8> },
    Duplicate { code: Seq<char> },
    Stale { code: Seq<char> },
    Refused { code: Seq<char> },
    Uncoded,
}

impl View for ShareReply {
    type V = ReplyView;

    open spec fn view(&self) -> ReplyView {
        match *self {
            ShareReply::Valid { hash } => ReplyView::Valid { hash: hash@ },
            ShareReply::Block { hash, template_id, coinbase } => ReplyView::Block {
                hash: hash@,
                template_id,
                coinbase: coinbase@,
            },
            ShareReply::Duplicate { code } => ReplyView::Duplicate { code: code@ },
            ShareReply::Stale { code } => ReplyView::Stale { code: code@ },
            ShareReply::Refused { code } => ReplyView::Refused { code: code@ },
            ShareReply::Uncoded => ReplyView::Uncoded,
        }
    }
}

impl ReplyView {
    /// The share was accepted: the hash that the channel names.
    pub open spec fn accepted_hash(self) -> Option<Seq<u8>> {
        match self {
            ReplyView::Valid { hash } => Some(hash),
            ReplyView::Block { hash, .. } => Some(hash),
            _ => None,
        }
    }

    /// The error code that the share was refused with.
    pub open spec fn error_code(self) -> Option<Seq<char>> {
        match self {
            ReplyView::Duplicate { code } => Some(code),
            ReplyView::Stale { code } => Some(code),
            ReplyView::Refused { code } => Some(code),
            _ => None,
        }
    }
}

/// How many shares were accepted and rejected, how many solved a block, and the sequence
/// number of the last one that was accepted.
#[derive(Clone, Copy, Debug, PartialEq, Eq, Structural)]
pub struct Tally {
    pub accepted: u32,
    pub rejected: u32,
    pub blocks: u32,
    pub last_sequence: u32,
}

impl Tally {
    /// The tally after one more share, with sequence number `sequence`.
    pub open spec fn after(self, expected: Expected, sequence: u32) -> Tally {
        match expected {
            Expected::Accept { block } => Tally {
                accepted: (self.accepted + 1) as u32,
                rejected: self.rejected,
                blocks: if block {
                    (self.blocks + 1) as u32
                } else {
                    self.blocks
                },
                last_sequence: sequence,
            },
            _ => Tally { rejected: (self.rejected + 1) as u32, ..self },
        }
    }

    /// Counts one more share, with sequence number `sequence`.
    pub fn count(&self, expected: Expected, sequence: u32) -> (r: Tally)
        requires
            self.accepted < u32::MAX,
            self.rejected < u32::MAX,
            self.blocks < u32::MAX,
        ensures
            r == self.after(expected, sequence),
    {
        match expected {
            Expected::Accept { block } => Tally {
                accepted: self.accepted + 1,
                rejected: self.rejected,
                blocks: if block {
                    self.blocks + 1
                } else {
                    self.blocks
                },
                last_sequence: sequence,
            },
            _ => Tally {
                accepted: self.accepted,
                rejected: self.rejected + 1,
                blocks: self.blocks,
                last_sequence: self.last_sequence,
            },
        }
    }
}

/// One share, submitted to a channel.
pub struct ShareTrial {
    pub share: Share,
    /// The hash of the share, put together from the job.
    pub hash: [u8; 32],
    /// What must become of the share.
    pub expected: Expected,
    /// The template that the job is for.
    pub template_id: u64,
    pub reply: ShareReply,
    /// Whether the coinbase of a solved block is a coinbase transaction.
    pub block_coinbase: bool,
    /// What the accounting must show afterwards.
    pub due: Tally,
    /// What the accounting shows afterwards.
    pub tally: Tally,
}

/// The rules about a share trial, in the order in which they are checked.
#[derive(Clone, Copy, Debug, PartialEq, Eq, Structural)]
pub enum ShareRule {
    /// A share is accepted, with or without a block, found a duplicate, or refused, as it
    /// must be.
    Outcome,
    /// The channel names the hash of an accepted share.
    ShareHash,
    /// The channel names the template of a solved block.
    TemplateId,
    /// The coinbase of a solved block is a coinbase transaction.
    BlockCoinbase,
    /// A share that is refused for one reason is refused with its error code.
    ErrorCode,
    /// The accounting shows how many shares were accepted.
    Accepted,
    /// The accounting shows how many shares were rejected.
    Rejected,
    /// The accounting shows how many blocks were found.
    Blocks,
    /// The accounting shows the sequence number of the last share that was accepted.
    LastSequence,
}

/// The reply is one that a share with this verdict may get.
pub open spec fn suits(expected: Expected, reply: ReplyView) -> bool {
    match expected {
        Expected::Accept { block: false } => reply is Valid,
        Expected::Accept { block: true } => reply is Block,
        Expected::Duplicate => reply is Duplicate,
        Expected::Reject => reply.accepted_hash() is None,
        Expected::RejectExactly(_) => reply.error_code() is Some,
    }
}

impl Rule for ShareRule {
    type Run = ShareTrial;

    open spec fn rank(self) -> int {
        match self {
            ShareRule::Outcome => 0,
            ShareRule::ShareHash => 1,
            ShareRule::TemplateId => 2,
            ShareRule::BlockCoinbase => 3,
            ShareRule::ErrorCode => 4,
            ShareRule::Accepted => 5,
            ShareRule::Rejected => 6,
            ShareRule::Blocks => 7,
            ShareRule::LastSequence => 8,
        }
    }

    open spec fn holds(self, run: ShareTrial) -> bool {
        match self {
            ShareRule::Outcome => suits(run.expected, run.reply@),
            ShareRule::ShareHash => run.reply@.accepted_hash() matches Some(hash) ==> hash
                == run.hash@,
            ShareRule::TemplateId => run.reply@ matches ReplyView::Block { template_id, .. }
                ==> template_id == Some(run.template_id),
            ShareRule::BlockCoinbase => run.reply@ is Block ==> run.block_coinbase,
            ShareRule::ErrorCode => run.expected matches Expected::RejectExactly(reason)
                ==> run.reply@.error_code() == Some(reason.text()),
            ShareRule::Accepted => run.tally.accepted == run.due.accepted,
            ShareRule::Rejected => run.tally.rejected == run.due.rejected,
            ShareRule::Blocks => run.tally.blocks == run.due.blocks,
            ShareRule::LastSequence => run.tally.last_sequence == run.due.last_sequence,
        }
    }
}

/// Judges the answer to a share that must be accepted.
fn judge_accepted(run: &ShareTrial, block: bool) -> (r: Result<(), ShareRule>)
    requires
        run.expected == (Expected::Accept { block }),
    ensures
        r matches Ok(()) ==> forall|rule: ShareRule| rule.rank() < 5 ==> #[trigger] rule.holds(*run),
        r matches Err(broken) ==> broken.rank() < 5 && decides(r, *run),
{
    match &run.reply {
        ShareReply::Valid { hash } if !block => {
            if !same_bytes(hash.as_slice(), run.hash.as_slice()) {
                assert(!ShareRule::ShareHash.holds(*run));
                return Err(ShareRule::ShareHash);
            }
        },
        ShareReply::Block { hash, template_id, .. } if block => {
            if !same_bytes(hash.as_slice(), run.hash.as_slice()) {
                assert(!ShareRule::ShareHash.holds(*run));
                return Err(ShareRule::ShareHash);
            }
            let named = match template_id {
                Some(id) => *id == run.template_id,
                None => false,
            };
            if !named {
                assert(!ShareRule::TemplateId.holds(*run));
                return Err(ShareRule::TemplateId);
            }
            if !run.block_coinbase {
                assert(!ShareRule::BlockCoinbase.holds(*run));
                return Err(ShareRule::BlockCoinbase);
            }
        },
        _ => {
            assert(!ShareRule::Outcome.holds(*run));
            return Err(ShareRule::Outcome);
        },
    }
    Ok(())
}

/// Judges the answer to a share that must be refused.
fn judge_refused(run: &ShareTrial) -> (r: Result<(), ShareRule>)
    requires
        !(run.expected is Accept),
    ensures
        r matches Ok(()) ==> forall|rule: ShareRule| rule.rank() < 5 ==> #[trigger] rule.holds(*run),
        r matches Err(broken) ==> broken.rank() < 5 && decides(r, *run),
{
    let code = match &run.reply {
        ShareReply::Valid { .. } | ShareReply::Block { .. } => {
            assert(!ShareRule::Outcome.holds(*run));
            return Err(ShareRule::Outcome);
        },
        ShareReply::Duplicate { code } => Some(*code),
        ShareReply::Stale { code } => Some(*code),
        ShareReply::Refused { code } => Some(*code),
        ShareReply::Uncoded => None,
    };
    match run.expected {
        Expected::Duplicate => {
            let duplicate = match &run.reply {
                ShareReply::Duplicate { .. } => true,
                _ => false,
            };
            if !duplicate {
                assert(!ShareRule::Outcome.holds(*run));
                return Err(ShareRule::Outcome);
            }
        },
        Expected::RejectExactly(reason) => {
            match code {
                None => {
                    assert(!ShareRule::Outcome.holds(*run));
                    return Err(ShareRule::Outcome);
                },
                Some(code) => {
                    if code.to_owned() != reason.code().to_owned() {
                        assert(!ShareRule::ErrorCode.holds(*run));
                        return Err(ShareRule::ErrorCode);
                    }
                },
            }
        },
        _ => {},
    }
    Ok(())
}

/// Judges a share trial: the first rule that it breaks, if there is one.
pub fn judge_trial(run: &ShareTrial) -> (r: Result<(), ShareRule>)
    ensures
        decides(r, *run),
{
    let answer = match run.expected {
        Expected::Accept { block } => judge_accepted(run, block),
        _ => judge_refused(run),
    };
    if answer.is_err() {
        return answer;
    }
    if run.tally.accepted != run.due.accepted {
        assert(!ShareRule::Accepted.holds(*run));
        return Err(ShareRule::Accepted);
    }
    if run.tally.rejected != run.due.rejected {
        assert(!ShareRule::Rejected.holds(*run));
        return Err(ShareRule::Rejected);
    }
    if run.tally.blocks != run.due.blocks {
        assert(!ShareRule::Blocks.holds(*run));
        return Err(ShareRule::Blocks);
    }
    if run.tally.last_sequence != run.due.last_sequence {
        assert(!ShareRule::LastSequence.holds(*run));
        return Err(ShareRule::LastSequence);
    }
    Ok(())
}

/// A share trial that breaks a rule: which one of the trials, and which rule.
#[derive(Clone, Copy, Debug, PartialEq, Eq, Structural)]
pub struct TrialViolation {
    pub index: usize,
    pub rule: ShareRule,
}

/// `verdict` is right about a list of trials: it is `Ok` if none breaks a rule, and names
/// the first that does, and the first rule that it breaks, otherwise.
pub open spec fn decides_trials(
    verdict: Result<(), TrialViolation>,
    trials: Seq<ShareTrial>,
) -> bool {
    match verdict {
        Ok(()) => forall|i: int|
            0 <= i < trials.len() ==> decides(Ok::<(), ShareRule>(()), #[trigger] trials[i]),
        Err(violation) => {
            &&& violation.index < trials.len()
            &&& decides(Err::<(), ShareRule>(violation.rule), trials[violation.index as int])
            &&& forall|i: int|
                0 <= i < violation.index ==> decides(
                    Ok::<(), ShareRule>(()),
                    #[trigger] trials[i],
                )
        },
    }
}

/// Judges a list of share trials.
pub fn judge_trials(trials: &Vec<ShareTrial>) -> (r: Result<(), TrialViolation>)
    ensures
        decides_trials(r, trials@),
{
    let mut index: usize = 0;
    while index < trials.len()
        invariant
            index <= trials@.len(),
            forall|i: int|
                0 <= i < index ==> decides(Ok::<(), ShareRule>(()), #[trigger] trials@[i]),
        decreases trials@.len() - index,
    {
        match judge_trial(&trials[index]) {
            Ok(()) => {},
            Err(rule) => {
                return Err(TrialViolation { index, rule });
            },
        }
        index += 1;
    }
    Ok(())
}

/// The hashes of the shares that must be accepted, in order.
pub open spec fn credited(trials: Seq<ShareTrial>) -> Seq<[u8; 32]>
    decreases trials.len(),
{
    if trials.len() == 0 {
        Seq::empty()
    } else if trials.last().expected is Accept {
        credited(trials.drop_last()).push(trials.last().hash)
    } else {
        credited(trials.drop_last())
    }
}

/// The share at `i` is the one that its input describes, and its verdict and what is due
/// follow from the trials before it. The accounting starts from `start`.
pub open spec fn planned_at(
    job: Job,
    inputs: Seq<ShareInput>,
    template_id: u64,
    start: Tally,
    trials: Seq<ShareTrial>,
    i: int,
) -> bool {
    let run = trials[i];
    let previous = if i == 0 {
        None
    } else {
        Some(trials[i - 1].share@)
    };
    let before = if i == 0 {
        start
    } else {
        trials[i - 1].due
    };
    &&& run.share@ == described(job, inputs[i], previous)
    &&& run.hash@ == hash_of(job, run.share@)
    &&& is_verdict(job, run.share@, credited(trials.take(i)), run.expected)
    &&& run.template_id == template_id
    &&& run.due == before.after(run.expected, run.share.sequence_number)
}

/// The trials are those of the inputs, one after the other.
pub open spec fn planned(
    job: Job,
    inputs: Seq<ShareInput>,
    template_id: u64,
    start: Tally,
    trials: Seq<ShareTrial>,
) -> bool {
    &&& trials.len() <= inputs.len()
    &&& forall|i: int|
        0 <= i < trials.len() ==> #[trigger] planned_at(job, inputs, template_id, start, trials, i)
}

/// One more trial, planned after the others, keeps them planned.
pub(crate) proof fn lemma_planned_push(
    job: Job,
    inputs: Seq<ShareInput>,
    template_id: u64,
    start: Tally,
    trials: Seq<ShareTrial>,
    run: ShareTrial,
)
    requires
        planned(job, inputs, template_id, start, trials),
        trials.len() < inputs.len(),
        planned_at(job, inputs, template_id, start, trials.push(run), trials.len() as int),
    ensures
        planned(job, inputs, template_id, start, trials.push(run)),
{
    assert forall|i: int| 0 <= i < trials.push(run).len() implies #[trigger] planned_at(
        job,
        inputs,
        template_id,
        start,
        trials.push(run),
        i,
    ) by {
        if i < trials.len() {
            assert(planned_at(job, inputs, template_id, start, trials, i));
            assert(trials.push(run).take(i) =~= trials.take(i));
        }
    }
}

/// The accounting that is due is consistent: every share is counted once, as accepted or as
/// rejected, a block counts as an accepted share, and an accepted share has a hash that is
/// remembered.
pub proof fn lemma_accounting(
    job: Job,
    inputs: Seq<ShareInput>,
    template_id: u64,
    start: Tally,
    trials: Seq<ShareTrial>,
    i: int,
)
    requires
        planned(job, inputs, template_id, start, trials),
        start.accepted == 0,
        start.rejected == 0,
        start.blocks == 0,
        0 <= i < trials.len(),
        trials.len() <= u32::MAX,
    ensures
        trials[i].due.accepted + trials[i].due.rejected == i + 1,
        trials[i].due.blocks <= trials[i].due.accepted,
        trials[i].due.accepted == credited(trials.take(i + 1)).len(),
    decreases i,
{
    assert(planned_at(job, inputs, template_id, start, trials, i));
    assert(trials.take(i + 1).drop_last() =~= trials.take(i));
    if i > 0 {
        lemma_accounting(job, inputs, template_id, start, trials, i - 1);
    } else {
        assert(trials.take(0) =~= Seq::<ShareTrial>::empty());
    }
}

/// No hash is credited twice.
pub proof fn lemma_credited_once(
    job: Job,
    inputs: Seq<ShareInput>,
    template_id: u64,
    start: Tally,
    trials: Seq<ShareTrial>,
)
    requires
        planned(job, inputs, template_id, start, trials),
    ensures
        forall|a: int, b: int|
            0 <= a < b < credited(trials).len() ==> (#[trigger] credited(trials)[a])@ != (
            #[trigger] credited(trials)[b])@,
    decreases trials.len(),
{
    if trials.len() > 0 {
        let last = trials.len() - 1;
        let before = trials.drop_last();
        assert(before =~= trials.take(last));
        assert forall|i: int| 0 <= i < before.len() implies #[trigger] planned_at(
            job,
            inputs,
            template_id,
            start,
            before,
            i,
        ) by {
            assert(planned_at(job, inputs, template_id, start, trials, i));
            assert(before.take(i) =~= trials.take(i));
        }
        lemma_credited_once(job, inputs, template_id, start, before);
        assert(planned_at(job, inputs, template_id, start, trials, last));
    }
}

/// A share that was accepted is a duplicate when it is submitted again.
pub proof fn lemma_accepted_again(
    job: Job,
    share: ShareView,
    accepted: Seq<[u8; 32]>,
    hash: [u8; 32],
    block: bool,
)
    requires
        hash@ == hash_of(job, share),
        is_verdict(job, share, accepted, Expected::Accept { block }),
    ensures
        is_verdict(job, share, accepted.push(hash), Expected::Duplicate),
{
    assert(accepted.push(hash)[accepted.len() as int]@ == hash_of(job, share));
}

/// A share that was refused gets the same verdict when it is submitted again.
pub proof fn lemma_refused_again(
    job: Job,
    share: ShareView,
    accepted: Seq<[u8; 32]>,
    more: Seq<[u8; 32]>,
    expected: Expected,
)
    requires
        is_verdict(job, share, accepted, expected),
        !(expected is Accept),
    ensures
        is_verdict(job, share, accepted + more, expected),
{
    if expected is Duplicate {
        let i = choose|i: int|
            0 <= i < accepted.len() && (#[trigger] accepted[i])@ == hash_of(job, share);
        assert((accepted + more)[i]@ == hash_of(job, share));
    }
}

/// A trial passes exactly if the share was answered as it must be, and the accounting shows
/// what is due. A share that must be accepted is answered with its hash, and, only if it solves
/// a block, with its template and a coinbase transaction. A duplicate is answered as one. A
/// share that must be refused is not accepted, and for one reason, with the error code of that
/// reason. If not, the verdict names the first of these things that is wrong.
pub proof fn law_trial(run: &ShareTrial, verdict: Result<(), ShareRule>)
    requires
        call_ensures(judge_trial, (run,), verdict),
    ensures
        verdict is Ok <==> {
            &&& match (run.expected, run.reply) {
                (Expected::Accept { block }, ShareReply::Valid { hash }) => !block && hash@
                    == run.hash@,
                (Expected::Accept { block }, ShareReply::Block { hash, template_id, .. }) => {
                    &&& block
                    &&& hash@ == run.hash@
                    &&& template_id == Some(run.template_id)
                    &&& run.block_coinbase
                },
                (Expected::Accept { .. }, _) => false,
                (_, ShareReply::Valid { .. }) => false,
                (_, ShareReply::Block { .. }) => false,
                (Expected::Duplicate, ShareReply::Duplicate { .. }) => true,
                (Expected::Duplicate, _) => false,
                (Expected::Reject, _) => true,
                (Expected::RejectExactly(reason), ShareReply::Duplicate { code }) => code@
                    == reason.text(),
                (Expected::RejectExactly(reason), ShareReply::Stale { code }) => code@
                    == reason.text(),
                (Expected::RejectExactly(reason), ShareReply::Refused { code }) => code@
                    == reason.text(),
                (Expected::RejectExactly(_), ShareReply::Uncoded) => false,
            }
            &&& run.tally.accepted == run.due.accepted
            &&& run.tally.rejected == run.due.rejected
            &&& run.tally.blocks == run.due.blocks
            &&& run.tally.last_sequence == run.due.last_sequence
        },
        verdict matches Err(rule) ==> rule == (if match run.expected {
                Expected::Accept { block } => if block {
                    !(run.reply is Block)
                } else {
                    !(run.reply is Valid)
                },
                Expected::Duplicate => !(run.reply is Duplicate),
                Expected::Reject => run.reply is Valid || run.reply is Block,
                Expected::RejectExactly(_) => run.reply is Valid || run.reply is Block
                    || run.reply is Uncoded,
            } {
            ShareRule::Outcome
        } else if match run.reply {
                ShareReply::Valid { hash } => hash@ != run.hash@,
                ShareReply::Block { hash, .. } => hash@ != run.hash@,
                _ => false,
            } {
            ShareRule::ShareHash
        } else if run.reply matches ShareReply::Block { template_id, .. } && template_id != Some(
                run.template_id,
            ) {
            ShareRule::TemplateId
        } else if run.reply is Block && !run.block_coinbase {
            ShareRule::BlockCoinbase
        } else if match (run.expected, run.reply) {
                (Expected::RejectExactly(reason), ShareReply::Duplicate { code }) => code@
                    != reason.text(),
                (Expected::RejectExactly(reason), ShareReply::Stale { code }) => code@
                    != reason.text(),
                (Expected::RejectExactly(reason), ShareReply::Refused { code }) => code@
                    != reason.text(),
                _ => false,
            } {
            ShareRule::ErrorCode
        } else if run.tally.accepted != run.due.accepted {
            ShareRule::Accepted
        } else if run.tally.rejected != run.due.rejected {
            ShareRule::Rejected
        } else if run.tally.blocks != run.due.blocks {
            ShareRule::Blocks
        } else {
            ShareRule::LastSequence
        }),
{
    if verdict is Ok {
        assert(ShareRule::Outcome.holds(*run));
        assert(ShareRule::ShareHash.holds(*run));
        assert(ShareRule::TemplateId.holds(*run));
        assert(ShareRule::BlockCoinbase.holds(*run));
        assert(ShareRule::ErrorCode.holds(*run));
        assert(ShareRule::Accepted.holds(*run));
        assert(ShareRule::Rejected.holds(*run));
        assert(ShareRule::Blocks.holds(*run));
        assert(ShareRule::LastSequence.holds(*run));
    }
    if let Err(broken) = verdict {
        if ShareRule::Outcome.rank() < broken.rank() {
            assert(ShareRule::Outcome.holds(*run));
        }
        if ShareRule::ShareHash.rank() < broken.rank() {
            assert(ShareRule::ShareHash.holds(*run));
        }
        if ShareRule::TemplateId.rank() < broken.rank() {
            assert(ShareRule::TemplateId.holds(*run));
        }
        if ShareRule::BlockCoinbase.rank() < broken.rank() {
            assert(ShareRule::BlockCoinbase.holds(*run));
        }
        if ShareRule::ErrorCode.rank() < broken.rank() {
            assert(ShareRule::ErrorCode.holds(*run));
        }
        if ShareRule::Accepted.rank() < broken.rank() {
            assert(ShareRule::Accepted.holds(*run));
        }
        if ShareRule::Rejected.rank() < broken.rank() {
            assert(ShareRule::Rejected.holds(*run));
        }
        if ShareRule::Blocks.rank() < broken.rank() {
            assert(ShareRule::Blocks.holds(*run));
        }
    }
}

/// A list of trials passes exactly if each trial passes on its own; otherwise the verdict is
/// about the first one that does not, and is the one that it gets on its own.
pub proof fn law_trials(
    trials: &Vec<ShareTrial>,
    verdict: Result<(), TrialViolation>,
    i: int,
    single: Result<(), ShareRule>,
)
    requires
        call_ensures(judge_trials, (trials,), verdict),
        0 <= i < trials@.len() ==> call_ensures(judge_trial, (&trials@[i],), single),
    ensures
        verdict matches Err(violation) ==> violation.index < trials@.len(),
        0 <= i < trials@.len() ==> {
            &&& verdict is Ok ==> single is Ok
            &&& verdict matches Err(violation) ==> (i < violation.index ==> single is Ok)
            &&& verdict matches Err(violation) ==> (i == violation.index ==> single == Err::<
                (),
                ShareRule,
            >(violation.rule))
        },
{
    let run = trials@[i];
    if i < 0 || i >= trials@.len() {
    } else if let Err(a) = single {
        if verdict is Ok {
            assert(a.holds(run));
        }
        if let Err(violation) = verdict {
            if i < violation.index {
                assert(a.holds(run));
            }
            if i == violation.index {
                let b = violation.rule;
                if a.rank() < b.rank() {
                    assert(a.holds(run));
                } else if b.rank() < a.rank() {
                    assert(b.holds(run));
                }
            }
        }
    } else if let Err(violation) = verdict {
        if i == violation.index {
            assert(violation.rule.holds(run));
        }
    }
}

/// One more share changes exactly one of two counts by one: that of the accepted shares if it
/// must be accepted, and that of the rejected ones otherwise. The count of blocks grows only
/// with an accepted share that solves one, and the sequence number is that of the last accepted
/// share.
pub proof fn law_tally(tally: &Tally, expected: Expected, sequence: u32, r: Tally)
    requires
        tally.accepted < u32::MAX,
        tally.rejected < u32::MAX,
        tally.blocks < u32::MAX,
        call_ensures(Tally::count, (tally, expected, sequence), r),
    ensures
        r.accepted + r.rejected == tally.accepted + tally.rejected + 1,
        r.accepted == tally.accepted + 1 <==> expected is Accept,
        r.rejected == tally.rejected + 1 <==> !(expected is Accept),
        expected == (Expected::Accept { block: true }) ==> r.blocks == tally.blocks + 1,
        expected != (Expected::Accept { block: true }) ==> r.blocks == tally.blocks,
        expected is Accept ==> r.last_sequence == sequence,
        !(expected is Accept) ==> r.last_sequence == tally.last_sequence,
{
}

/// How many of the first `n` trials must be accepted, how many of them solve a block, and
/// which one must be accepted last: its place, and one more, or zero if there is none.
pub open spec fn tallied(trials: Seq<ShareTrial>, n: int) -> (int, int, int)
    decreases n,
{
    if n <= 0 {
        (0, 0, 0)
    } else {
        let before = tallied(trials, n - 1);
        match trials[n - 1].expected {
            Expected::Accept { block } => (
                before.0 + 1,
                if block {
                    before.1 + 1
                } else {
                    before.1
                },
                n,
            ),
            _ => before,
        }
    }
}

/// What is due after a planned trial is what counting the trials up to it gives, and a share
/// is accepted only if no earlier one with its hash was.
pub proof fn law_planned(
    job: Job,
    inputs: Seq<ShareInput>,
    template_id: u64,
    start: Tally,
    trials: Seq<ShareTrial>,
    i: int,
)
    requires
        planned(job, inputs, template_id, start, trials),
        start.accepted == 0,
        start.rejected == 0,
        start.blocks == 0,
        0 <= i < trials.len(),
        trials.len() <= u32::MAX,
    ensures
        trials[i].due.accepted == tallied(trials, i + 1).0,
        trials[i].due.rejected == i + 1 - tallied(trials, i + 1).0,
        trials[i].due.blocks == tallied(trials, i + 1).1,
        0 <= tallied(trials, i + 1).1 <= tallied(trials, i + 1).0 <= i + 1,
        0 <= tallied(trials, i + 1).2 <= i + 1,
        trials[i].due.last_sequence == (if tallied(trials, i + 1).2 == 0 {
            start.last_sequence
        } else {
            trials[tallied(trials, i + 1).2 - 1].share.sequence_number
        }),
        trials[i].expected is Accept ==> forall|j: int|
            0 <= j < i && (#[trigger] trials[j]).expected is Accept ==> trials[j].hash@
                != trials[i].hash@,
        trials[i].expected == Expected::Duplicate ==> exists|j: int|
            0 <= j < i && (#[trigger] trials[j]).expected is Accept && trials[j].hash@
                == trials[i].hash@,
        trials[i].template_id == template_id,
        i > 0 && inputs[i].repeat_previous ==> trials[i].share@ == trials[i - 1].share@,
    decreases i,
{
    assert(planned_at(job, inputs, template_id, start, trials, i));
    if i > 0 {
        law_planned(job, inputs, template_id, start, trials, i - 1);
    }
    assert(tallied(trials, 0) == (0int, 0int, 0int));
    lemma_credited(trials.take(i));
    let list = credited(trials.take(i));
    if trials[i].expected is Accept {
        assert forall|j: int| 0 <= j < i && (#[trigger] trials[j]).expected is Accept implies trials[j].hash@
            != trials[i].hash@ by {
            assert(trials.take(i)[j] == trials[j]);
            assert(list.contains(trials[j].hash));
            let k = choose|k: int| 0 <= k < list.len() && list[k] == trials[j].hash;
            assert(list[k]@ == trials[j].hash@);
        }
    }
    if trials[i].expected == Expected::Duplicate {
        let k = choose|k: int|
            0 <= k < list.len() && (#[trigger] list[k])@ == hash_of(job, trials[i].share@);
        let j = choose|j: int|
            0 <= j < trials.take(i).len() && (#[trigger] trials.take(i)[j]).expected is Accept
                && trials.take(i)[j].hash == list[k];
        assert(trials[j].expected is Accept && trials[j].hash@ == trials[i].hash@);
    }
}

/// What is credited are the hashes of the trials that must be accepted, and no others.
proof fn lemma_credited(trials: Seq<ShareTrial>)
    ensures
        forall|j: int|
            0 <= j < trials.len() && (#[trigger] trials[j]).expected is Accept ==> credited(
                trials,
            ).contains(trials[j].hash),
        forall|k: int|
            0 <= k < credited(trials).len() ==> exists|j: int|
                0 <= j < trials.len() && (#[trigger] trials[j]).expected is Accept
                    && trials[j].hash == #[trigger] credited(trials)[k],
    decreases trials.len(),
{
    if trials.len() > 0 {
        let before = trials.drop_last();
        lemma_credited(before);
        let list = credited(trials);
        assert forall|j: int| 0 <= j < trials.len() && (#[trigger] trials[j]).expected is Accept implies list.contains(
            trials[j].hash,
        ) by {
            if j < before.len() {
                assert(before[j] == trials[j]);
                let k = choose|k: int|
                    0 <= k < credited(before).len() && credited(before)[k] == trials[j].hash;
                assert(list[k] == trials[j].hash);
            } else {
                assert(list[list.len() - 1] == trials[j].hash);
            }
        }
        assert forall|k: int| 0 <= k < list.len() implies exists|j: int|
            0 <= j < trials.len() && (#[trigger] trials[j]).expected is Accept && trials[j].hash
                == #[trigger] list[k] by {
            if k < credited(before).len() {
                assert(credited(before)[k] == list[k]);
                let j = choose|j: int|
                    0 <= j < before.len() && (#[trigger] before[j]).expected is Accept
                        && before[j].hash == credited(before)[k];
                assert(trials[j].expected is Accept);
            } else {
                assert(trials[trials.len() - 1].expected is Accept);
            }
        }
    }
}

} // verus!
