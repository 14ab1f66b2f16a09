//! Extranonce allocation: disjoint regions, exact capacity, reusable slots.

use crate::bytes::{cap, is_prefix_free, same_bytes, starts_with};
#[allow(unused_imports)]
use crate::bytes::{capped, lemma_prefix_free_differs, prefix_free};
#[allow(unused_imports)]
use crate::rules::{decides, decides_between, Rule};
use crate::slots::{SlotError, SlotPool, SlotReport, MAX_EXTRANONCE_LEN};
#[allow(unused_imports)]
use crate::slots::{following, index_width, lemma_slot_of_prefix, SlotPlan};
use channels_sv2::extranonce_manager::bytes_needed;
use vstd::prelude::*;

verus! {

/// How many channels are opened at most.
pub const MAX_ROUNDS: u32 = 64;

/// A configuration of an allocator, and what to do with it.
pub struct AllocatorInput {
    pub upstream_prefix: Vec<u8>,
    pub local_prefix: Vec<u8>,
    pub total_len: u8,
    pub max_channels: u8,
    pub min_rollable: u8,
    pub release_index: u8,
}

impl AllocatorInput {
    /// The configuration: prefixes of at most 40 bytes, and an extranonce of
    /// fewer than 48.
    pub open spec fn plan(self) -> SlotPlan {
        SlotPlan {
            upstream: capped(self.upstream_prefix@, 40),
            local: capped(self.local_prefix@, 40),
            total: (self.total_len % 48) as int,
            max_channels: self.max_channels as int,
        }
    }

    /// How many channels are opened.
    pub open spec fn rounds(self) -> int {
        if self.max_channels < MAX_ROUNDS {
            self.max_channels as int
        } else {
            MAX_ROUNDS as int
        }
    }

    /// Whether the channel of round `i` is a standard one.
    pub open spec fn standard(self, i: int) -> bool {
        (i + self.min_rollable) % 3 == 0
    }

    /// The prefix of the channel of round `i` if it is given slot `slot`.
    pub open spec fn prefix(self, i: int, slot: int) -> Seq<u8> {
        if self.standard(i) {
            self.plan().standard(slot)
        } else {
            self.plan().extended(slot)
        }
    }

    /// Which channel is closed again.
    pub open spec fn released(self) -> int {
        self.release_index as int % self.rounds()
    }
}

/// A prefix as the implementation handed it out.
pub struct Grant {
    pub bytes: Vec<u8>,
    pub len: usize,
    pub upstream_len: u8,
}

/// One request for a channel: what was granted, and the count afterwards.
pub struct Round {
    pub grant: Option<Grant>,
    pub count: u32,
}

/// A request for more rollable bytes than there are: the refusal, and the count
/// afterwards.
pub struct OverRequest {
    pub refusal: Option<SlotError>,
    pub count: u32,
}

/// Requests beyond the capacity: the refusals, and the count afterwards.
pub struct FullRun {
    pub extended: Option<SlotError>,
    pub standard: Option<SlotError>,
    pub count: u32,
}

/// A slot given back and taken again: the count after the release, and the
/// bytes of the prefix that was handed out next.
pub struct ReuseRun {
    pub count: u32,
    pub bytes: Option<Vec<u8>>,
}

/// What an allocator did once it was made.
pub struct OpenRun {
    pub report: SlotReport,
    /// A request for one rollable byte more than there are. It is made unless every number
    /// of bytes can be had.
    pub over_request: Option<OverRequest>,
    pub rounds: Vec<Round>,
    pub full: Option<FullRun>,
    pub reuse: Option<ReuseRun>,
}

/// What an implementation did with a configuration: nothing more if it refused
/// to make an allocator.
pub struct AllocatorRun {
    pub opened: Option<OpenRun>,
}

/// What must hold of one prefix that was handed out, in the order of checking.
#[derive(Clone, Copy, Debug, PartialEq, Eq, Structural)]
pub enum GrantRule {
    /// The request is granted.
    Granted,
    /// The prefix reports its length.
    Length,
    /// The prefix reports the length of the upstream part.
    UpstreamLength,
    /// The prefix is no longer than an extranonce can be.
    MaxLength,
    /// The prefix begins with the upstream bytes.
    Upstream,
    /// The local bytes follow the upstream bytes.
    Local,
    /// The prefix spans the extranonce for a standard channel, and the fixed part
    /// for an extended one.
    Kind,
    /// The prefix heads a region of its own.
    Disjoint,
    /// The allocator counts the slot as taken.
    Count,
}

impl GrantRule {
    /// The place of a rule in the order of checking.
    pub open spec fn place(self) -> int {
        match self {
            GrantRule::Granted => 0,
            GrantRule::Length => 1,
            GrantRule::UpstreamLength => 2,
            GrantRule::MaxLength => 3,
            GrantRule::Upstream => 4,
            GrantRule::Local => 5,
            GrantRule::Kind => 6,
            GrantRule::Disjoint => 7,
            GrantRule::Count => 8,
        }
    }

    /// What the rule says of the grant of round `i`.
    pub open spec fn says(self, input: AllocatorInput, rounds: Seq<Round>, i: int) -> bool {
        let plan = input.plan();
        let granted = i < rounds.len() && rounds[i].grant is Some;
        let bytes = rounds[i].grant->0.bytes@;
        match self {
            GrantRule::Granted => granted,
            GrantRule::Length => granted ==> rounds[i].grant->0.len == bytes.len(),
            GrantRule::UpstreamLength => granted ==> rounds[i].grant->0.upstream_len
                == plan.upstream.len(),
            GrantRule::MaxLength => granted ==> bytes.len() <= MAX_EXTRANONCE_LEN,
            GrantRule::Upstream => granted ==> plan.upstream.is_prefix_of(bytes),
            GrantRule::Local => granted && plan.upstream.len() <= bytes.len()
                ==> plan.local.is_prefix_of(bytes.skip(plan.upstream.len() as int)),
            GrantRule::Kind => granted ==> bytes.len() == (if input.standard(i) {
                plan.total
            } else {
                plan.prefix_len()
            }),
            GrantRule::Disjoint => granted ==> forall|j: int|
                0 <= j < i && (#[trigger] rounds[j]).grant is Some ==> prefix_free(
                    bytes,
                    rounds[j].grant->0.bytes@,
                ),
            GrantRule::Count => granted ==> rounds[i].count == i + 1,
        }
    }
}

/// What must hold of an allocator, in the order of checking.
#[derive(Clone, Copy, Debug, PartialEq, Eq, Structural)]
pub enum AllocatorRule {
    /// A valid configuration is accepted.
    Refused,
    /// An invalid configuration is refused.
    Accepted,
    /// The upstream bytes are reported.
    Upstream,
    /// The local bytes are reported.
    Local,
    /// The number of upstream bytes is reported.
    UpstreamLen,
    /// The number of local bytes is reported.
    LocalLen,
    /// The number of index bytes is reported.
    IndexLen,
    /// The length of the fixed part is reported.
    PrefixLen,
    /// The length of the extranonce is reported.
    TotalLen,
    /// The fixed part and the rollable part make up the extranonce.
    Rollable,
    /// There are as many slots as were asked for.
    MaxChannels,
    /// No slot is taken at first.
    FreshCount,
    /// Requesting more rollable bytes than exist is refused.
    OverRequest,
    /// A refused request takes no slot.
    OverRequestCount,
    /// The rules about the prefix of one round.
    Round(usize, GrantRule),
    /// An extended channel beyond the capacity is refused.
    FullExtended,
    /// A standard channel beyond the capacity is refused.
    FullStandard,
    /// Refusals beyond the capacity take no slot.
    FullCount,
    /// A released slot is no longer counted.
    ReleaseCount,
    /// A released slot can be taken again.
    ReuseGranted,
    /// A slot taken again heads a region of its own.
    ReuseDisjoint,
    /// If only the released slot was free, it is the one taken again.
    ReuseSlot,
}

/// The rank of the first rule about prefixes.
pub open spec fn first_round() -> int {
    14
}

/// The rank of the first rule after those about prefixes.
pub open spec fn after_rounds() -> int {
    first_round() + 9 * 0x1_0000_0000_0000_0000
}

impl Rule for AllocatorRule {
    type Run = (AllocatorInput, AllocatorRun);

    open spec fn rank(self) -> int {
        match self {
            AllocatorRule::Refused => 0,
            AllocatorRule::Accepted => 1,
            AllocatorRule::Upstream => 2,
            AllocatorRule::Local => 3,
            AllocatorRule::UpstreamLen => 4,
            AllocatorRule::LocalLen => 5,
            AllocatorRule::IndexLen => 6,
            AllocatorRule::PrefixLen => 7,
            AllocatorRule::TotalLen => 8,
            AllocatorRule::Rollable => 9,
            AllocatorRule::MaxChannels => 10,
            AllocatorRule::FreshCount => 11,
            AllocatorRule::OverRequest => 12,
            AllocatorRule::OverRequestCount => 13,
            AllocatorRule::Round(i, rule) => first_round() + 9 * i + rule.place(),
            AllocatorRule::FullExtended => after_rounds(),
            AllocatorRule::FullStandard => after_rounds() + 1,
            AllocatorRule::FullCount => after_rounds() + 2,
            AllocatorRule::ReleaseCount => after_rounds() + 3,
            AllocatorRule::ReuseGranted => after_rounds() + 4,
            AllocatorRule::ReuseDisjoint => after_rounds() + 5,
            AllocatorRule::ReuseSlot => after_rounds() + 6,
        }
    }

    open spec fn holds(self, run: (AllocatorInput, AllocatorRun)) -> bool {
        let input = run.0;
        let plan = input.plan();
        let opened = run.1.opened is Some;
        let open = run.1.opened->0;
        let report = open.report;
        match self {
            AllocatorRule::Refused => !opened ==> !plan.feasible(),
            AllocatorRule::Accepted => opened ==> plan.feasible(),
            AllocatorRule::Upstream => opened ==> report.upstream@ == plan.upstream,
            AllocatorRule::Local => opened ==> report.local@ == plan.local,
            AllocatorRule::UpstreamLen => opened ==> report.upstream_len == plan.upstream.len(),
            AllocatorRule::LocalLen => opened ==> report.local_len == plan.local.len(),
            AllocatorRule::IndexLen => opened ==> report.index_len == index_width(
                plan.max_channels,
            ),
            AllocatorRule::PrefixLen => opened ==> report.full_prefix_len == plan.prefix_len(),
            AllocatorRule::TotalLen => opened ==> report.total_len == plan.total,
            AllocatorRule::Rollable => opened ==> report.rollable + plan.prefix_len()
                == plan.total,
            AllocatorRule::MaxChannels => opened ==> report.max_channels >= plan.max_channels,
            AllocatorRule::FreshCount => opened ==> report.count == 0,
            AllocatorRule::OverRequest => opened && report.rollable < u8::MAX ==> {
                &&& open.over_request is Some
                &&& open.over_request->0.refusal == Some(SlotError::InvalidRollableSize)
            },
            AllocatorRule::OverRequestCount => opened && report.rollable < u8::MAX
                && open.over_request is Some ==> open.over_request->0.count == 0,
            AllocatorRule::Round(i, rule) => opened && i < input.rounds() ==> rule.says(
                input,
                open.rounds@,
                i as int,
            ),
            AllocatorRule::FullExtended => opened && input.max_channels <= MAX_ROUNDS ==> {
                &&& open.full is Some
                &&& open.full->0.extended == Some(SlotError::CapacityExhausted)
            },
            AllocatorRule::FullStandard => opened && input.max_channels <= MAX_ROUNDS
                && open.full is Some ==> open.full->0.standard == Some(
                SlotError::CapacityExhausted,
            ),
            AllocatorRule::FullCount => opened && input.max_channels <= MAX_ROUNDS
                && open.full is Some ==> open.full->0.count == input.rounds(),
            AllocatorRule::ReleaseCount => opened && input.rounds() > 0 ==> {
                &&& open.reuse is Some
                &&& open.reuse->0.count == input.rounds() - 1
            },
            AllocatorRule::ReuseGranted => opened && input.rounds() > 0 && open.reuse is Some
                ==> open.reuse->0.bytes is Some,
            AllocatorRule::ReuseDisjoint => opened && input.rounds() > 0 && open.reuse is Some
                && open.reuse->0.bytes is Some ==> forall|j: int|
                0 <= j < input.rounds() && j != input.released() && j < open.rounds@.len() && (
                #[trigger] open.rounds@[j]).grant is Some ==> prefix_free(
                    open.reuse->0.bytes->0@,
                    open.rounds@[j].grant->0.bytes@,
                ),
            AllocatorRule::ReuseSlot => opened && 0 < input.max_channels <= MAX_ROUNDS
                && open.reuse is Some && open.reuse->0.bytes is Some && input.released()
                < open.rounds@.len() && open.rounds@[input.released()].grant is Some ==> {
                let again = open.reuse->0.bytes->0@;
                let freed = open.rounds@[input.released()].grant->0.bytes@;
                &&& plan.prefix_len() <= again.len()
                &&& plan.prefix_len() <= freed.len()
                &&& again.take(plan.prefix_len()) == freed.take(plan.prefix_len())
            },
        }
    }
}

/// The configuration in executable form.
struct Config {
    upstream: Vec<u8>,
    local: Vec<u8>,
    total: u8,
    max_channels: u32,
    index_len: u8,
    prefix_len: usize,
    rounds: u32,
}

impl Config {
    /// This is the configuration of an input.
    spec fn of(self, input: AllocatorInput) -> bool {
        let plan = input.plan();
        &&& self.upstream@ == plan.upstream
        &&& self.local@ == plan.local
        &&& self.total == plan.total
        &&& self.max_channels == plan.max_channels
        &&& self.index_len == index_width(plan.max_channels)
        &&& self.prefix_len == plan.prefix_len()
        &&& self.rounds == input.rounds()
        &&& self.rounds <= MAX_ROUNDS
        &&& self.max_channels <= u8::MAX
        &&& self.index_len == 1
        &&& self.prefix_len <= 81
    }
}

/// The configuration of an input.
fn config(input: &AllocatorInput) -> (c: Config)
    ensures
        c.of(*input),
{
    let upstream = cap(input.upstream_prefix.as_slice(), 40);
    let local = cap(input.local_prefix.as_slice(), 40);
    let total: u8 = input.total_len % 48;
    let max_channels: u32 = input.max_channels as u32;
    let index_len: u8 = bytes_needed(max_channels);
    let prefix_len: usize = upstream.len() + local.len() + index_len as usize;
    let rounds: u32 = if max_channels < MAX_ROUNDS {
        max_channels
    } else {
        MAX_ROUNDS
    };
    Config { upstream, local, total, max_channels, index_len, prefix_len, rounds }
}

/// Judges what an allocator reports of its configuration.
fn judge_report(input: &AllocatorInput, c: &Config, run: &AllocatorRun, open: &OpenRun) -> (r:
    Result<(), AllocatorRule>)
    requires
        c.of(*input),
        run.opened == Some(*open),
    ensures
        decides_between(r, (*input, *run), 1, first_round()),
{
    let report = &open.report;
    let feasible = c.total <= MAX_EXTRANONCE_LEN && c.max_channels > 0 && c.prefix_len
        <= c.total as usize;
    if !feasible {
        assert(!AllocatorRule::Accepted.holds((*input, *run)));
        return Err(AllocatorRule::Accepted);
    }
    if !same_bytes(report.upstream.as_slice(), c.upstream.as_slice()) {
        assert(!AllocatorRule::Upstream.holds((*input, *run)));
        return Err(AllocatorRule::Upstream);
    }
    if !same_bytes(report.local.as_slice(), c.local.as_slice()) {
        assert(!AllocatorRule::Local.holds((*input, *run)));
        return Err(AllocatorRule::Local);
    }
    if report.upstream_len as usize != c.upstream.len() {
        assert(!AllocatorRule::UpstreamLen.holds((*input, *run)));
        return Err(AllocatorRule::UpstreamLen);
    }
    if report.local_len as usize != c.local.len() {
        assert(!AllocatorRule::LocalLen.holds((*input, *run)));
        return Err(AllocatorRule::LocalLen);
    }
    if report.index_len != c.index_len {
        assert(!AllocatorRule::IndexLen.holds((*input, *run)));
        return Err(AllocatorRule::IndexLen);
    }
    if report.full_prefix_len as usize != c.prefix_len {
        assert(!AllocatorRule::PrefixLen.holds((*input, *run)));
        return Err(AllocatorRule::PrefixLen);
    }
    if report.total_len != c.total {
        assert(!AllocatorRule::TotalLen.holds((*input, *run)));
        return Err(AllocatorRule::TotalLen);
    }
    if report.rollable as usize + c.prefix_len != c.total as usize {
        assert(!AllocatorRule::Rollable.holds((*input, *run)));
        return Err(AllocatorRule::Rollable);
    }
    if report.max_channels < c.max_channels {
        assert(!AllocatorRule::MaxChannels.holds((*input, *run)));
        return Err(AllocatorRule::MaxChannels);
    }
    if report.count != 0 {
        assert(!AllocatorRule::FreshCount.holds((*input, *run)));
        return Err(AllocatorRule::FreshCount);
    }
    if report.rollable < u8::MAX {
        match &open.over_request {
            Some(OverRequest { refusal: Some(SlotError::InvalidRollableSize), count }) => {
                if *count != 0 {
                    assert(!AllocatorRule::OverRequestCount.holds((*input, *run)));
                    return Err(AllocatorRule::OverRequestCount);
                }
            },
            _ => {
                assert(!AllocatorRule::OverRequest.holds((*input, *run)));
                return Err(AllocatorRule::OverRequest);
            },
        }
    }
    Ok(())
}

/// Whether the prefix of round `i` heads a region that no earlier one reaches.
fn disjoint_from_earlier(rounds: &Vec<Round>, i: usize, bytes: &[u8]) -> (r: bool)
    requires
        i <= rounds@.len(),
    ensures
        r == forall|j: int|
            0 <= j < i && (#[trigger] rounds@[j]).grant is Some ==> prefix_free(
                bytes@,
                rounds@[j].grant->0.bytes@,
            ),
{
    let mut j: usize = 0;
    while j < i
        invariant
            j <= i <= rounds@.len(),
            forall|k: int|
                0 <= k < j && (#[trigger] rounds@[k]).grant is Some ==> prefix_free(
                    bytes@,
                    rounds@[k].grant->0.bytes@,
                ),
        decreases i - j,
    {
        match &rounds[j].grant {
            Some(other) => {
                if !is_prefix_free(bytes, other.bytes.as_slice()) {
                    assert(rounds@[j as int].grant is Some);
                    return false;
                }
            },
            None => {},
        }
        j += 1;
    }
    true
}

/// `verdict` is right about the prefix of round `i`: it is `Ok` if every rule about it holds,
/// and names the first that does not otherwise.
pub open spec fn decides_grant(
    verdict: Result<(), GrantRule>,
    input: AllocatorInput,
    rounds: Seq<Round>,
    i: int,
) -> bool {
    match verdict {
        Ok(()) => forall|rule: GrantRule| #[trigger] rule.says(input, rounds, i),
        Err(broken) => {
            &&& !broken.says(input, rounds, i)
            &&& forall|rule: GrantRule|
                rule.place() < broken.place() ==> #[trigger] rule.says(input, rounds, i)
        },
    }
}

/// Judges the prefix of round `i`: the first rule about it that it breaks.
pub fn judge_grant(input: &AllocatorInput, rounds: &Vec<Round>, i: usize) -> (r: Result<
    (),
    GrantRule,
>)
    requires
        i < input.rounds(),
    ensures
        decides_grant(r, *input, rounds@, i as int),
{
    let c = config(input);
    if i >= rounds.len() {
        assert(!GrantRule::Granted.says(*input, rounds@, i as int));
        return Err(GrantRule::Granted);
    }
    let round = &rounds[i];
    match &round.grant {
        None => {
            assert(!GrantRule::Granted.says(*input, rounds@, i as int));
            Err(GrantRule::Granted)
        },
        Some(grant) => {
            let bytes = grant.bytes.as_slice();
            let standard = (i as u32 + input.min_rollable as u32) % 3 == 0;
            if grant.len != bytes.len() {
                assert(!GrantRule::Length.says(*input, rounds@, i as int));
                return Err(GrantRule::Length);
            }
            if grant.upstream_len as usize != c.upstream.len() {
                assert(!GrantRule::UpstreamLength.says(*input, rounds@, i as int));
                return Err(GrantRule::UpstreamLength);
            }
            if bytes.len() > MAX_EXTRANONCE_LEN as usize {
                assert(!GrantRule::MaxLength.says(*input, rounds@, i as int));
                return Err(GrantRule::MaxLength);
            }
            if !starts_with(bytes, c.upstream.as_slice()) {
                assert(!GrantRule::Upstream.says(*input, rounds@, i as int));
                return Err(GrantRule::Upstream);
            }
            let behind = &bytes[c.upstream.len()..bytes.len()];
            assert(behind@ =~= bytes@.skip(c.upstream@.len() as int));
            if !starts_with(behind, c.local.as_slice()) {
                assert(!GrantRule::Local.says(*input, rounds@, i as int));
                return Err(GrantRule::Local);
            }
            let expected: usize = if standard {
                c.total as usize
            } else {
                c.prefix_len
            };
            if bytes.len() != expected {
                assert(!GrantRule::Kind.says(*input, rounds@, i as int));
                return Err(GrantRule::Kind);
            }
            if !disjoint_from_earlier(rounds, i, bytes) {
                assert(!GrantRule::Disjoint.says(*input, rounds@, i as int));
                return Err(GrantRule::Disjoint);
            }
            if round.count != i as u32 + 1 {
                assert(!GrantRule::Count.says(*input, rounds@, i as int));
                return Err(GrantRule::Count);
            }
            Ok(())
        },
    }
}

/// Judges the prefixes, round by round.
fn judge_rounds(input: &AllocatorInput, c: &Config, run: &AllocatorRun, open: &OpenRun) -> (r:
    Result<(), AllocatorRule>)
    requires
        c.of(*input),
        run.opened == Some(*open),
    ensures
        decides_between(r, (*input, *run), first_round(), after_rounds()),
{
    let mut i: usize = 0;
    while i < c.rounds as usize
        invariant
            c.of(*input),
            run.opened == Some(*open),
            i <= c.rounds,
            forall|rule: AllocatorRule|
                first_round() <= rule.rank() < first_round() + 9 * i ==> #[trigger] rule.holds(
                    (*input, *run),
                ),
        decreases c.rounds - i,
    {
        match judge_grant(input, &open.rounds, i) {
            Ok(()) => {},
            Err(broken) => {
                let verdict = AllocatorRule::Round(i, broken);
                assert(!verdict.holds((*input, *run)));
                assert forall|rule: AllocatorRule|
                    first_round() <= rule.rank() < verdict.rank() implies #[trigger] rule.holds(
                    (*input, *run),
                ) by {
                    if rule.rank() >= first_round() + 9 * i {
                        assert(rule matches AllocatorRule::Round(k, _) && k == i);
                    }
                }
                return Err(verdict);
            },
        }
        assert forall|rule: AllocatorRule|
            first_round() <= rule.rank() < first_round() + 9 * (i + 1) implies #[trigger] rule.holds(
            (*input, *run),
        ) by {
            if rule.rank() >= first_round() + 9 * i {
                assert(rule matches AllocatorRule::Round(k, _) && k == i);
            }
        }
        i += 1;
    }
    assert forall|rule: AllocatorRule|
        first_round() <= rule.rank() < after_rounds() implies #[trigger] rule.holds(
        (*input, *run),
    ) by {
        assert(rule is Round);
    }
    Ok(())
}

/// Judges the requests beyond the capacity, and the slot that was taken again.
fn judge_closing(input: &AllocatorInput, c: &Config, run: &AllocatorRun, open: &OpenRun) -> (r:
    Result<(), AllocatorRule>)
    requires
        c.of(*input),
        run.opened == Some(*open),
    ensures
        decides_between(r, (*input, *run), after_rounds(), after_rounds() + 7),
{
    if c.max_channels <= MAX_ROUNDS {
        match &open.full {
            Some(full) => {
                if full.extended != Some(SlotError::CapacityExhausted) {
                    assert(!AllocatorRule::FullExtended.holds((*input, *run)));
                    return Err(AllocatorRule::FullExtended);
                }
                if full.standard != Some(SlotError::CapacityExhausted) {
                    assert(!AllocatorRule::FullStandard.holds((*input, *run)));
                    return Err(AllocatorRule::FullStandard);
                }
                if full.count != c.rounds {
                    assert(!AllocatorRule::FullCount.holds((*input, *run)));
                    return Err(AllocatorRule::FullCount);
                }
            },
            None => {
                assert(!AllocatorRule::FullExtended.holds((*input, *run)));
                return Err(AllocatorRule::FullExtended);
            },
        }
    }
    if c.rounds == 0 {
        return Ok(());
    }
    let released: usize = input.release_index as usize % c.rounds as usize;
    let reuse = match &open.reuse {
        Some(reuse) => reuse,
        None => {
            assert(!AllocatorRule::ReleaseCount.holds((*input, *run)));
            return Err(AllocatorRule::ReleaseCount);
        },
    };
    if reuse.count != c.rounds - 1 {
        assert(!AllocatorRule::ReleaseCount.holds((*input, *run)));
        return Err(AllocatorRule::ReleaseCount);
    }
    let again = match &reuse.bytes {
        Some(bytes) => bytes.as_slice(),
        None => {
            assert(!AllocatorRule::ReuseGranted.holds((*input, *run)));
            return Err(AllocatorRule::ReuseGranted);
        },
    };
    let mut j: usize = 0;
    while j < c.rounds as usize && j < open.rounds.len()
        invariant
            c.of(*input),
            c.rounds > 0,
            run.opened == Some(*open),
            open.reuse is Some,
            open.reuse->0.bytes is Some,
            again@ == open.reuse->0.bytes->0@,
            released == input.released(),
            j <= c.rounds,
            j <= open.rounds@.len(),
            forall|k: int|
                0 <= k < j && k != released && (#[trigger] open.rounds@[k]).grant is Some
                    ==> prefix_free(again@, open.rounds@[k].grant->0.bytes@),
            forall|rule: AllocatorRule|
                after_rounds() <= rule.rank() < after_rounds() + 5 ==> #[trigger] rule.holds(
                    (*input, *run),
                ),
        decreases c.rounds - j,
    {
        if j != released {
            match &open.rounds[j].grant {
                Some(other) => {
                    if !is_prefix_free(again, other.bytes.as_slice()) {
                        assert(open.rounds@[j as int].grant is Some);
                        assert(!AllocatorRule::ReuseDisjoint.holds((*input, *run)));
                        return Err(AllocatorRule::ReuseDisjoint);
                    }
                },
                None => {},
            }
        }
        j += 1;
    }
    assert(AllocatorRule::ReuseDisjoint.holds((*input, *run)));
    if c.max_channels <= MAX_ROUNDS && released < open.rounds.len() {
        match &open.rounds[released].grant {
            Some(grant) => {
                let freed = grant.bytes.as_slice();
                let same = c.prefix_len <= again.len() && c.prefix_len <= freed.len() && same_bytes(
                    &again[0..c.prefix_len],
                    &freed[0..c.prefix_len],
                );
                if !same {
                    assert(!AllocatorRule::ReuseSlot.holds((*input, *run)));
                    return Err(AllocatorRule::ReuseSlot);
                }
            },
            None => {},
        }
    }
    Ok(())
}

/// Judges a run of an allocator: the first rule that it breaks, if there is one.
pub fn judge_allocator(input: &AllocatorInput, run: &AllocatorRun) -> (r: Result<
    (),
    AllocatorRule,
>)
    ensures
        decides(r, (*input, *run)),
{
    let c = config(input);
    match &run.opened {
        None => {
            let feasible = c.total <= MAX_EXTRANONCE_LEN && c.max_channels > 0 && c.prefix_len
                <= c.total as usize;
            if feasible {
                assert(!AllocatorRule::Refused.holds((*input, *run)));
                return Err(AllocatorRule::Refused);
            }
            Ok(())
        },
        Some(open) => {
            match judge_report(input, &c, run, open) {
                Err(rule) => {
                    return Err(rule);
                },
                Ok(()) => {},
            }
            match judge_rounds(input, &c, run, open) {
                Err(rule) => {
                    return Err(rule);
                },
                Ok(()) => {},
            }
            judge_closing(input, &c, run, open)
        },
    }
}

/// The request of round `i`: a standard channel, or an extended one that asks for
/// no more rollable bytes than there are. It gets slot `i`.
fn request(pool: &mut SlotPool, input: &AllocatorInput, i: u32, rollable: u8) -> (r: Round)
    requires
        old(pool).wf(),
        old(pool).plan() == input.plan(),
        old(pool).held().len() == i,
        old(pool).start() == i,
        forall|j: int| 0 <= j < i ==> #[trigger] old(pool).slot(j) == j,
        i < input.rounds(),
        rollable == input.plan().rollable(),
    ensures
        final(pool).wf(),
        final(pool).plan() == input.plan(),
        final(pool).start() == following(i as int, input.plan().max_channels),
        final(pool).slot(i as int) == i,
        r.grant matches Some(grant) && {
            &&& final(pool).held() == old(pool).held().push(grant.bytes@)
            &&& grant.bytes@ == input.prefix(i as int, i as int)
            &&& grant.len == grant.bytes@.len()
            &&& grant.upstream_len == input.plan().upstream.len()
        },
        r.count == i + 1,
{
    let standard = (i + input.min_rollable as u32) % 3 == 0;
    let min_rollable: usize = input.min_rollable as usize % (rollable as usize + 1);
    proof {
        pool.lemma_pool();
        assert(!pool.taken().contains(i as int));
    }
    let taken = if standard {
        pool.take_standard()
    } else {
        pool.take_extended(min_rollable)
    };
    match taken {
        Ok(_) => {
            let (bytes, len, upstream_len) = pool.prefix(i as usize);
            Round { grant: Some(Grant { bytes, len, upstream_len }), count: pool.count() }
        },
        Err(_) => Round { grant: None, count: pool.count() },
    }
}

/// The refusal that a request met, if any.
fn refusal(reply: Result<Vec<u8>, SlotError>) -> (r: Option<SlotError>)
    ensures
        r == (match reply {
            Ok(_) => None,
            Err(e) => Some(e),
        }),
{
    match reply {
        Ok(_) => None,
        Err(e) => Some(e),
    }
}

/// `run` is what comes of a configuration. An allocator is made exactly if the
/// configuration is feasible. The prefix of each round is the one that the plan gives
/// to the slot of the same number. Once one is given back, the next prefix is that of
/// the slot that follows, or of the one that was given back if no other is free.
pub open spec fn is_allocator_run(input: AllocatorInput, run: AllocatorRun) -> bool {
    &&& run.opened is Some <==> input.plan().feasible()
    &&& run.opened matches Some(open) ==> {
        &&& open.rounds@.len() == input.rounds()
        &&& forall|i: int|
            0 <= i < input.rounds() ==> ((#[trigger] open.rounds@[i]).grant matches Some(grant)
                && grant.bytes@ == input.prefix(i, i))
        &&& open.reuse matches Some(reuse) && (reuse.bytes matches Some(bytes) && bytes@
            == input.plan().extended(
            if input.max_channels <= MAX_ROUNDS {
                input.released()
            } else {
                input.rounds()
            },
        ))
    }
}

/// Runs the implementation on a configuration. It breaks no rule.
pub fn observe_allocator(input: &AllocatorInput) -> (run: AllocatorRun)
    ensures
        is_allocator_run(*input, run),
        forall|rule: AllocatorRule| #[trigger] rule.holds((*input, run)),
{
    let c = config(input);
    let rounds_asked: u32 = c.rounds;
    let few = c.max_channels <= MAX_ROUNDS;
    let mut pool = match SlotPool::open(c.upstream, c.local, c.total, c.max_channels) {
        Ok(pool) => pool,
        Err(_) => {
            return AllocatorRun { opened: None };
        },
    };
    let ghost plan = input.plan();
    let report = pool.report();
    let rollable: u8 = report.rollable;
    let mut over_request: Option<OverRequest> = None;
    if rollable < u8::MAX {
        let refused = refusal(pool.take_extended(rollable as usize + 1));
        over_request = Some(OverRequest { refusal: refused, count: pool.count() });
    }
    let mut rounds: Vec<Round> = Vec::new();
    let mut i: u32 = 0;
    while i < rounds_asked
        invariant
            plan == input.plan(),
            plan.feasible(),
            rounds_asked == input.rounds(),
            i <= rounds_asked <= MAX_ROUNDS,
            rollable == plan.rollable(),
            pool.wf(),
            pool.plan() == plan,
            pool.held().len() == i,
            pool.start() == if i < plan.max_channels {
                i as int
            } else {
                0
            },
            forall|j: int| 0 <= j < i ==> #[trigger] pool.slot(j) == j,
            rounds@.len() == i,
            forall|j: int|
                0 <= j < i ==> {
                    &&& (#[trigger] rounds@[j]).grant is Some
                    &&& rounds@[j].grant->0.bytes@ == pool.held()[j]
                    &&& pool.held()[j] == input.prefix(j, j)
                    &&& rounds@[j].grant->0.len == pool.held()[j].len()
                    &&& rounds@[j].grant->0.upstream_len == plan.upstream.len()
                    &&& rounds@[j].count == j + 1
                },
        decreases rounds_asked - i,
    {
        let ghost before = pool;
        let round = request(&mut pool, input, i, rollable);
        proof {
            assert forall|j: int| 0 <= j < i implies #[trigger] pool.slot(j) == before.slot(j) by {
                assert(pool.held()[j] == before.held()[j]);
            }
        }
        rounds.push(round);
        i += 1;
    }
    let ghost filled = pool;
    let mut full: Option<FullRun> = None;
    if few {
        let extended = refusal(pool.take_extended(0));
        let standard = refusal(pool.take_standard());
        full = Some(FullRun { extended, standard, count: pool.count() });
    }
    let mut reuse: Option<ReuseRun> = None;
    if rounds_asked > 0 {
        let released: usize = input.release_index as usize % rounds_asked as usize;
        pool.release(released);
        let ghost rest = pool;
        let count = pool.count();
        let bytes = match pool.take_extended(0) {
            Ok(bytes) => Some(bytes),
            Err(_) => None,
        };
        reuse = Some(ReuseRun { count, bytes });
        proof {
            let again = reuse->0.bytes->0@;
            let last = (pool.held().len() - 1) as int;
            assert(pool.held()[last] == again);
            assert(pool.held().drop_last() =~= rest.held());
            pool.lemma_pool();
            assert forall|j: int| 0 <= j < rounds_asked && j != released implies prefix_free(
                again,
                #[trigger] filled.held()[j],
            ) by {
                let now = if j < released { j } else { j - 1 };
                assert(pool.held()[now] == filled.held()[j]);
                assert(prefix_free(pool.held()[last], pool.held()[now]));
            }
            if few {
                SlotPool::lemma_reuse(filled, rest, pool, released as int);
                filled.lemma_pool();
                let slot = filled.slot(released as int);
                lemma_slot_of_prefix(plan, slot);
                assert(again.take(plan.prefix_len()) =~= plan.extended(slot));
                assert(filled.held()[released as int].take(plan.prefix_len()) =~= plan.extended(
                    slot,
                ));
                assert(slot == released);
            } else {
                rest.lemma_pool();
                assert(!rest.taken().contains(rounds_asked as int)) by {
                    assert forall|j: int| 0 <= j < rest.held().len() implies #[trigger] rest.slot(j)
                        != rounds_asked by {
                        let was = if j < released { j } else { j + 1 };
                        assert(rest.held()[j] == filled.held()[was]);
                        assert(filled.slot(was) == was);
                    }
                }
                assert(pool.slot(last) == rounds_asked);
            }
        }
    }
    let ghost rounds_before = rounds@;
    let run = AllocatorRun { opened: Some(OpenRun { report, over_request, rounds, full, reuse }) };
    proof {
        filled.lemma_pool();
        assert forall|i: int| 0 <= i < rounds_asked implies ((
        #[trigger] run.opened->0.rounds@[i]).grant matches Some(grant) && grant.bytes@
            == input.prefix(i, i)) by {
            assert(rounds_before[i].grant is Some);
        }
        assert forall|i: int| 0 <= i < rounds_asked implies ({
            &&& filled.held()[i].len() == (if input.standard(i) {
                plan.total
            } else {
                plan.prefix_len()
            })
            &&& plan.upstream.is_prefix_of(#[trigger] filled.held()[i])
            &&& plan.local.is_prefix_of(filled.held()[i].skip(plan.upstream.len() as int))
        }) by {
            let slot = filled.slot(i);
            assert(run.opened->0.rounds@[i].grant is Some);
            lemma_slot_of_prefix(plan, slot);
            let bytes = filled.held()[i];
            assert(plan.upstream =~= bytes.subrange(0, plan.upstream.len() as int));
            assert(plan.local =~= bytes.skip(plan.upstream.len() as int).subrange(
                0,
                plan.local.len() as int,
            ));
        }
        assert forall|rule: AllocatorRule| #[trigger] rule.holds((*input, run)) by {
            match rule {
                AllocatorRule::Round(i, grant) => {
                    if i < input.rounds() {
                        assert(run.opened->0.rounds@[i as int].grant is Some);
                        assert(plan.upstream.is_prefix_of(filled.held()[i as int]));
                        assert forall|j: int|
                            0 <= j < i && (#[trigger] run.opened->0.rounds@[j]).grant is Some implies prefix_free(
                            filled.held()[i as int],
                            run.opened->0.rounds@[j].grant->0.bytes@,
                        ) by {
                            assert(prefix_free(filled.held()[i as int], filled.held()[j]));
                        }
                        assert(grant.says(*input, run.opened->0.rounds@, i as int));
                    }
                },
                _ => {},
            }
        }
    }
    run
}

/// Checks one configuration of the allocator. The run comes back with the verdict on it:
/// it breaks no rule.
pub fn check_allocator(input: &AllocatorInput) -> (r: (AllocatorRun, Result<(), AllocatorRule>))
    ensures
        is_allocator_run(*input, r.0),
        decides(r.1, (*input, r.0)),
        r.1 == Ok::<(), AllocatorRule>(()),
{
    let run = observe_allocator(input);
    match judge_allocator(input, &run) {
        Ok(()) => (run, Ok(())),
        Err(rule) => (run, Err(rule)),
    }
}

/// The prefix of a round passes exactly if it was granted, reports its lengths, begins with the
/// upstream and the local bytes, up to 40 of each, is as long as the whole extranonce for every
/// third channel and one byte longer than those two parts for the others, differs from the
/// prefix of every earlier round at a place that both have, and is counted. If not, the verdict
/// names the first of these things that is wrong.
pub proof fn law_grant(
    input: &AllocatorInput,
    rounds: &Vec<Round>,
    i: usize,
    verdict: Result<(), GrantRule>,
)
    requires
        i < input.max_channels,
        i < 64,
        call_ensures(judge_grant, (input, rounds, i), verdict),
    ensures
        verdict is Ok <==> {
            let up = if input.upstream_prefix@.len() < 40 {
                input.upstream_prefix@.len() as int
            } else {
                40
            };
            let own = if input.local_prefix@.len() < 40 {
                input.local_prefix@.len() as int
            } else {
                40
            };
            let total = (input.total_len % 48) as int;
            let grant = rounds@[i as int].grant->0;
            let bytes = grant.bytes@;
            &&& i < rounds@.len()
            &&& rounds@[i as int].grant is Some
            &&& grant.len == bytes.len()
            &&& grant.upstream_len == up
            &&& bytes.len() <= 32
            &&& up + own <= bytes.len()
            &&& bytes.take(up) == input.upstream_prefix@.take(up)
            &&& bytes.subrange(up, up + own) == input.local_prefix@.take(own)
            &&& (i + input.min_rollable) % 3 == 0 ==> bytes.len() == total
            &&& (i + input.min_rollable) % 3 != 0 ==> bytes.len() == up + own + 1
            &&& forall|j: int|
                0 <= j < i && (#[trigger] rounds@[j]).grant is Some ==> exists|k: int|
                    0 <= k < bytes.len() && k < rounds@[j].grant->0.bytes@.len()
                        && #[trigger] bytes[k] != rounds@[j].grant->0.bytes@[k]
            &&& rounds@[i as int].count == i + 1
        },
        verdict matches Err(rule) ==> {
            let up = if input.upstream_prefix@.len() < 40 {
                input.upstream_prefix@.len() as int
            } else {
                40
            };
            let own = if input.local_prefix@.len() < 40 {
                input.local_prefix@.len() as int
            } else {
                40
            };
            let total = (input.total_len % 48) as int;
            let grant = rounds@[i as int].grant->0;
            let bytes = grant.bytes@;
            rule == (if i >= rounds@.len() || rounds@[i as int].grant is None {
                GrantRule::Granted
            } else if grant.len != bytes.len() {
                GrantRule::Length
            } else if grant.upstream_len != up {
                GrantRule::UpstreamLength
            } else if bytes.len() > 32 {
                GrantRule::MaxLength
            } else if bytes.len() < up || bytes.take(up) != input.upstream_prefix@.take(up) {
                GrantRule::Upstream
            } else if bytes.len() < up + own || bytes.subrange(up, up + own)
                != input.local_prefix@.take(own) {
                GrantRule::Local
            } else if bytes.len() != (if (i + input.min_rollable) % 3 == 0 {
                total
            } else {
                up + own + 1
            }) {
                GrantRule::Kind
            } else if exists|j: int|
                0 <= j < i && (#[trigger] rounds@[j]).grant is Some && forall|k: int|
                    0 <= k < bytes.len() && k < rounds@[j].grant->0.bytes@.len()
                        ==> #[trigger] bytes[k] == rounds@[j].grant->0.bytes@[k] {
                GrantRule::Disjoint
            } else {
                GrantRule::Count
            })
        },
{
    let bytes = rounds@[i as int].grant->0.bytes@;
    let plan = input.plan();
    let up = plan.upstream.len() as int;
    let own = plan.local.len() as int;
    assert(plan.upstream =~= input.upstream_prefix@.take(up));
    assert(plan.local =~= input.local_prefix@.take(own));
    if up <= bytes.len() {
        assert(bytes.subrange(0, up) =~= bytes.take(up));
        if up + own <= bytes.len() {
            assert(bytes.skip(up).subrange(0, own) =~= bytes.subrange(up, up + own));
        }
    }
    assert forall|j: int| 0 <= j < i && (#[trigger] rounds@[j]).grant is Some implies prefix_free(
        bytes,
        rounds@[j].grant->0.bytes@,
    ) == exists|k: int|
        0 <= k < bytes.len() && k < rounds@[j].grant->0.bytes@.len() && #[trigger] bytes[k]
            != rounds@[j].grant->0.bytes@[k] by {
        lemma_prefix_free_differs(bytes, rounds@[j].grant->0.bytes@);
    }
    if verdict is Ok {
        assert(GrantRule::Granted.says(*input, rounds@, i as int));
        assert(GrantRule::Length.says(*input, rounds@, i as int));
        assert(GrantRule::UpstreamLength.says(*input, rounds@, i as int));
        assert(GrantRule::MaxLength.says(*input, rounds@, i as int));
        assert(GrantRule::Upstream.says(*input, rounds@, i as int));
        assert(GrantRule::Local.says(*input, rounds@, i as int));
        assert(GrantRule::Kind.says(*input, rounds@, i as int));
        assert(GrantRule::Disjoint.says(*input, rounds@, i as int));
        assert(GrantRule::Count.says(*input, rounds@, i as int));
    }
    if let Err(broken) = verdict {
        if GrantRule::Granted.place() < broken.place() {
            assert(GrantRule::Granted.says(*input, rounds@, i as int));
        }
        if GrantRule::Length.place() < broken.place() {
            assert(GrantRule::Length.says(*input, rounds@, i as int));
        }
        if GrantRule::UpstreamLength.place() < broken.place() {
            assert(GrantRule::UpstreamLength.says(*input, rounds@, i as int));
        }
        if GrantRule::MaxLength.place() < broken.place() {
            assert(GrantRule::MaxLength.says(*input, rounds@, i as int));
        }
        if GrantRule::Upstream.place() < broken.place() {
            assert(GrantRule::Upstream.says(*input, rounds@, i as int));
        }
        if GrantRule::Local.place() < broken.place() {
            assert(GrantRule::Local.says(*input, rounds@, i as int));
        }
        if GrantRule::Kind.place() < broken.place() {
            assert(GrantRule::Kind.says(*input, rounds@, i as int));
        }
        if GrantRule::Disjoint.place() < broken.place() {
            assert(GrantRule::Disjoint.says(*input, rounds@, i as int));
        }
    }
}

/// If an allocator that was opened passes, the prefixes of any two different rounds head
/// regions that no extranonce lies in both of: nothing that is put behind the one makes what
/// something behind the other makes.
pub proof fn law_regions_disjoint(
    input: &AllocatorInput,
    run: &AllocatorRun,
    i: int,
    j: int,
    x: Seq<u8>,
    y: Seq<u8>,
)
    requires
        call_ensures(judge_allocator, (input, run), Ok::<(), AllocatorRule>(())),
        run.opened is Some,
        0 <= i < input.max_channels,
        0 <= j < input.max_channels,
        i < 64,
        j < 64,
        i != j,
    ensures
        ({
            let rounds = run.opened->0.rounds@;
            &&& i < rounds.len() && j < rounds.len()
            &&& rounds[i].grant is Some && rounds[j].grant is Some
            &&& rounds[i].grant->0.bytes@ + x != rounds[j].grant->0.bytes@ + y
        }),
    decreases (if i < j { 1int } else { 0 }),
{
    let rounds = run.opened->0.rounds@;
    if i < j {
        law_regions_disjoint(input, run, j, i, y, x);
    } else {
        assert(AllocatorRule::Round(i as usize, GrantRule::Granted).holds((*input, *run)));
        assert(AllocatorRule::Round(j as usize, GrantRule::Granted).holds((*input, *run)));
        assert(AllocatorRule::Round(i as usize, GrantRule::Disjoint).holds((*input, *run)));
        let a = rounds[i].grant->0.bytes@;
        let b = rounds[j].grant->0.bytes@;
        lemma_prefix_free_differs(a, b);
        let k = choose|k: int| 0 <= k < a.len() && k < b.len() && #[trigger] a[k] != b[k];
        assert((a + x)[k] == a[k]);
        assert((b + y)[k] == b[k]);
    }
}

/// A run passes exactly if an allocator was refused for a configuration that cannot be
/// followed, or made for one that can, and then: if it reports the configuration and nothing
/// taken, refuses to hand out more bytes to roll than there are, passes in each round, refuses
/// any channel beyond its capacity, counts one less after a release, and then hands out a prefix
/// that differs from every other one that is held, and that lies in the released slot if there
/// is no other. `single` is the verdict on round `i` alone.
pub proof fn law_allocator(
    input: &AllocatorInput,
    run: &AllocatorRun,
    i: usize,
    single: Result<(), GrantRule>,
    verdict: Result<(), AllocatorRule>,
)
    requires
        call_ensures(judge_allocator, (input, run), verdict),
        i < input.max_channels,
        i < 64,
        run.opened matches Some(open) ==> call_ensures(
            judge_grant,
            (input, &open.rounds, i),
            single,
        ),
    ensures
        run.opened is None ==> (verdict is Ok <==> {
            let up = if input.upstream_prefix@.len() < 40 {
                input.upstream_prefix@.len() as int
            } else {
                40
            };
            let own = if input.local_prefix@.len() < 40 {
                input.local_prefix@.len() as int
            } else {
                40
            };
            let total = (input.total_len % 48) as int;
            total > 32 || input.max_channels == 0 || up + own + 1 > total
        }),
        run.opened is Some && verdict is Ok ==> {
            let up = if input.upstream_prefix@.len() < 40 {
                input.upstream_prefix@.len() as int
            } else {
                40
            };
            let own = if input.local_prefix@.len() < 40 {
                input.local_prefix@.len() as int
            } else {
                40
            };
            let total = (input.total_len % 48) as int;
            let open = run.opened->0;
            let report = open.report;
            let n = if input.max_channels < 64 {
                input.max_channels as int
            } else {
                64
            };
            let few = input.max_channels <= 64;
            let freed = input.release_index as int % n;
            let again = open.reuse->0.bytes->0@;
            &&& single is Ok
            &&& total <= 32
            &&& up + own + 1 <= total
            &&& report.upstream@ == input.upstream_prefix@.take(up)
            &&& report.local@ == input.local_prefix@.take(own)
            &&& report.upstream_len == up
            &&& report.local_len == own
            &&& report.index_len == 1
            &&& report.full_prefix_len == up + own + 1
            &&& report.total_len == total
            &&& report.rollable == total - up - own - 1
            &&& report.max_channels >= input.max_channels
            &&& report.count == 0
            &&& open.over_request is Some
            &&& open.over_request->0.refusal == Some(SlotError::InvalidRollableSize)
            &&& open.over_request->0.count == 0
            &&& few ==> {
                &&& open.full is Some
                &&& open.full->0.extended == Some(SlotError::CapacityExhausted)
                &&& open.full->0.standard == Some(SlotError::CapacityExhausted)
                &&& open.full->0.count == n
            }
            &&& open.reuse is Some
            &&& open.reuse->0.count == n - 1
            &&& open.reuse->0.bytes is Some
            &&& i != freed ==> exists|k: int|
                0 <= k < again.len() && k < open.rounds@[i as int].grant->0.bytes@.len()
                    && #[trigger] again[k] != open.rounds@[i as int].grant->0.bytes@[k]
            &&& few && i == freed ==> {
                &&& up + own + 1 <= again.len()
                &&& again.take(up + own + 1) == open.rounds@[i as int].grant->0.bytes@.take(
                    up + own + 1,
                )
            }
        },
        verdict matches Err(rule) ==> {
            let up = if input.upstream_prefix@.len() < 40 {
                input.upstream_prefix@.len() as int
            } else {
                40
            };
            let own = if input.local_prefix@.len() < 40 {
                input.local_prefix@.len() as int
            } else {
                40
            };
            let total = (input.total_len % 48) as int;
            let open = run.opened->0;
            let report = open.report;
            let n = if input.max_channels < 64 {
                input.max_channels as int
            } else {
                64
            };
            let few = input.max_channels <= 64;
            let freed = input.release_index as int % n;
            let again = open.reuse->0.bytes->0@;
            if run.opened is None {
                rule == AllocatorRule::Refused
            } else if total > 32 || input.max_channels == 0 || up + own + 1 > total {
                rule == AllocatorRule::Accepted
            } else if report.upstream@ != input.upstream_prefix@.take(up) {
                rule == AllocatorRule::Upstream
            } else if report.local@ != input.local_prefix@.take(own) {
                rule == AllocatorRule::Local
            } else if report.upstream_len != up {
                rule == AllocatorRule::UpstreamLen
            } else if report.local_len != own {
                rule == AllocatorRule::LocalLen
            } else if report.index_len != 1 {
                rule == AllocatorRule::IndexLen
            } else if report.full_prefix_len != up + own + 1 {
                rule == AllocatorRule::PrefixLen
            } else if report.total_len != total {
                rule == AllocatorRule::TotalLen
            } else if report.rollable != total - up - own - 1 {
                rule == AllocatorRule::Rollable
            } else if report.max_channels < input.max_channels {
                rule == AllocatorRule::MaxChannels
            } else if report.count != 0 {
                rule == AllocatorRule::FreshCount
            } else if !(open.over_request is Some && open.over_request->0.refusal == Some(
                SlotError::InvalidRollableSize,
            )) {
                rule == AllocatorRule::OverRequest
            } else if open.over_request->0.count != 0 {
                rule == AllocatorRule::OverRequestCount
            } else if let AllocatorRule::Round(k, broken) = rule {
                &&& k < n
                &&& k > i ==> single is Ok
                &&& k == i ==> single == Err::<(), GrantRule>(broken)
            } else {
                &&& single is Ok
                &&& if few && !(open.full is Some && open.full->0.extended == Some(
                SlotError::CapacityExhausted,
            )) {
                rule == AllocatorRule::FullExtended
            } else if few && open.full->0.standard != Some(SlotError::CapacityExhausted) {
                rule == AllocatorRule::FullStandard
            } else if few && open.full->0.count != n {
                rule == AllocatorRule::FullCount
            } else if !(open.reuse is Some && open.reuse->0.count == n - 1) {
                rule == AllocatorRule::ReleaseCount
            } else if open.reuse->0.bytes is None {
                rule == AllocatorRule::ReuseGranted
            } else if exists|j: int|
                0 <= j < n && j != freed && (#[trigger] open.rounds@[j]).grant is Some && forall|k: int|
                    0 <= k < again.len() && k < open.rounds@[j].grant->0.bytes@.len()
                        ==> #[trigger] again[k] == open.rounds@[j].grant->0.bytes@[k] {
                rule == AllocatorRule::ReuseDisjoint
            } else {
                rule == AllocatorRule::ReuseSlot
            }
            }
        },
{
    let seen = (*input, *run);
    let plan = input.plan();
    let open = run.opened->0;
    let again = open.reuse->0.bytes->0@;
    assert(plan.upstream =~= input.upstream_prefix@.take(plan.upstream.len() as int));
    assert(plan.local =~= input.local_prefix@.take(plan.local.len() as int));
    assert(input.release_index as int % input.rounds() < input.rounds()) by (nonlinear_arith)
        requires
            input.rounds() > 0,
    ;
    assert forall|j: int| 0 <= j < open.rounds@.len() && (#[trigger] open.rounds@[j]).grant is Some implies prefix_free(
        again,
        open.rounds@[j].grant->0.bytes@,
    ) == exists|k: int|
        0 <= k < again.len() && k < open.rounds@[j].grant->0.bytes@.len() && #[trigger] again[k]
            != open.rounds@[j].grant->0.bytes@[k] by {
        lemma_prefix_free_differs(again, open.rounds@[j].grant->0.bytes@);
    }
    if verdict is Ok {
        assert(AllocatorRule::Refused.holds(seen));
    }
    if run.opened is Some {
        if verdict is Ok {
            assert(AllocatorRule::Refused.holds(seen));
            assert(AllocatorRule::Accepted.holds(seen));
            assert(AllocatorRule::Upstream.holds(seen));
            assert(AllocatorRule::Local.holds(seen));
            assert(AllocatorRule::UpstreamLen.holds(seen));
            assert(AllocatorRule::LocalLen.holds(seen));
            assert(AllocatorRule::IndexLen.holds(seen));
            assert(AllocatorRule::PrefixLen.holds(seen));
            assert(AllocatorRule::TotalLen.holds(seen));
            assert(AllocatorRule::Rollable.holds(seen));
            assert(AllocatorRule::MaxChannels.holds(seen));
            assert(AllocatorRule::FreshCount.holds(seen));
            assert(AllocatorRule::OverRequest.holds(seen));
            assert(AllocatorRule::OverRequestCount.holds(seen));
            assert(AllocatorRule::FullExtended.holds(seen));
            assert(AllocatorRule::FullStandard.holds(seen));
            assert(AllocatorRule::FullCount.holds(seen));
            assert(AllocatorRule::ReleaseCount.holds(seen));
            assert(AllocatorRule::ReuseGranted.holds(seen));
            assert(AllocatorRule::ReuseDisjoint.holds(seen));
            assert(AllocatorRule::ReuseSlot.holds(seen));
            assert(AllocatorRule::Round(i, GrantRule::Granted).holds(seen));
            assert(AllocatorRule::Round(i, GrantRule::Kind).holds(seen));
            if let Err(broken) = single {
                assert(AllocatorRule::Round(i, broken).holds(seen));
            }
        }
        if let Err(rule) = verdict {
            if AllocatorRule::Refused.rank() < rule.rank() {
                assert(AllocatorRule::Refused.holds(seen));
            }
            if AllocatorRule::Accepted.rank() < rule.rank() {
                assert(AllocatorRule::Accepted.holds(seen));
            }
            if AllocatorRule::Upstream.rank() < rule.rank() {
                assert(AllocatorRule::Upstream.holds(seen));
            }
            if AllocatorRule::Local.rank() < rule.rank() {
                assert(AllocatorRule::Local.holds(seen));
            }
            if AllocatorRule::UpstreamLen.rank() < rule.rank() {
                assert(AllocatorRule::UpstreamLen.holds(seen));
            }
            if AllocatorRule::LocalLen.rank() < rule.rank() {
                assert(AllocatorRule::LocalLen.holds(seen));
            }
            if AllocatorRule::IndexLen.rank() < rule.rank() {
                assert(AllocatorRule::IndexLen.holds(seen));
            }
            if AllocatorRule::PrefixLen.rank() < rule.rank() {
                assert(AllocatorRule::PrefixLen.holds(seen));
            }
            if AllocatorRule::TotalLen.rank() < rule.rank() {
                assert(AllocatorRule::TotalLen.holds(seen));
            }
            if AllocatorRule::Rollable.rank() < rule.rank() {
                assert(AllocatorRule::Rollable.holds(seen));
            }
            if AllocatorRule::MaxChannels.rank() < rule.rank() {
                assert(AllocatorRule::MaxChannels.holds(seen));
            }
            if AllocatorRule::FreshCount.rank() < rule.rank() {
                assert(AllocatorRule::FreshCount.holds(seen));
            }
            if AllocatorRule::OverRequest.rank() < rule.rank() {
                assert(AllocatorRule::OverRequest.holds(seen));
            }
            if AllocatorRule::OverRequestCount.rank() < rule.rank() {
                assert(AllocatorRule::OverRequestCount.holds(seen));
            }
            if AllocatorRule::FullExtended.rank() < rule.rank() {
                assert(AllocatorRule::FullExtended.holds(seen));
            }
            if AllocatorRule::FullStandard.rank() < rule.rank() {
                assert(AllocatorRule::FullStandard.holds(seen));
            }
            if AllocatorRule::FullCount.rank() < rule.rank() {
                assert(AllocatorRule::FullCount.holds(seen));
            }
            if AllocatorRule::ReleaseCount.rank() < rule.rank() {
                assert(AllocatorRule::ReleaseCount.holds(seen));
            }
            if AllocatorRule::ReuseGranted.rank() < rule.rank() {
                assert(AllocatorRule::ReuseGranted.holds(seen));
            }
            if AllocatorRule::ReuseDisjoint.rank() < rule.rank() {
                assert(AllocatorRule::ReuseDisjoint.holds(seen));
            }
            if let Err(broken) = single {
                if AllocatorRule::Round(i, broken).rank() < rule.rank() {
                    assert(AllocatorRule::Round(i, broken).holds(seen));
                }
            }
            if AllocatorRule::FullExtended.rank() <= rule.rank() {
                assert forall|j: int| 0 <= j < input.rounds() implies j < open.rounds@.len() && (
                #[trigger] open.rounds@[j]).grant is Some by {
                    assert(AllocatorRule::Round(j as usize, GrantRule::Granted).holds(seen));
                }
            }
            if let AllocatorRule::Round(k, broken) = rule {
                if k == i && single is Ok {
                    assert(broken.says(*input, open.rounds@, i as int));
                }
                if k == i && single is Err {
                    if broken.place() < single->Err_0.place() {
                        assert(broken.says(*input, open.rounds@, i as int));
                    }
                }
            }
        }
    }
}

/// The implementation passes, whatever the configuration is. It makes an allocator exactly if at
/// most 32 bytes are to be divided, there is room for a channel, and the prefixes and one byte
/// fit. The channel of round `i` then gets the upstream bytes, the local bytes, and `i` in one
/// byte, filled up with zeros to the whole extranonce for every third channel. The channel that
/// comes after the release gets the released number if no other is free, and the next one
/// otherwise.
pub proof fn law_check_allocator(
    input: &AllocatorInput,
    i: int,
    r: (AllocatorRun, Result<(), AllocatorRule>),
)
    requires
        call_ensures(check_allocator, (input,), r),
    ensures
        r.1 is Ok,
        ({
            let up = input.upstream_prefix@.take(
                if input.upstream_prefix@.len() < 40 {
                    input.upstream_prefix@.len() as int
                } else {
                    40
                },
            );
            let own = input.local_prefix@.take(
                if input.local_prefix@.len() < 40 {
                    input.local_prefix@.len() as int
                } else {
                    40
                },
            );
            let total = (input.total_len % 48) as int;
            let n = if input.max_channels < 64 {
                input.max_channels as int
            } else {
                64
            };
            &&& r.0.opened is Some <==> total <= 32 && input.max_channels > 0 && up.len() + own.len()
                + 1 <= total
            &&& r.0.opened matches Some(open) ==> {
                &&& open.rounds@.len() == n
                &&& 0 <= i < n ==> (open.rounds@[i].grant matches Some(grant) && {
                    let head = up + own + seq![i as u8];
                    &&& grant.bytes@.take(head.len() as int) == head
                    &&& (i + input.min_rollable) % 3 != 0 ==> grant.bytes@ == head
                    &&& (i + input.min_rollable) % 3 == 0 ==> grant.bytes@.len() == total
                        && forall|k: int|
                        head.len() <= k < total ==> grant.bytes@[k] == 0
                })
                &&& open.reuse matches Some(reuse) && (reuse.bytes matches Some(bytes) && bytes@
                    == up + own + seq![
                    (if input.max_channels <= 64 {
                        input.release_index as int % n
                    } else {
                        64
                    }) as u8,
                ])
            }
        }),
{
    let plan = input.plan();
    let up = plan.upstream;
    let own = plan.local;
    let n = input.rounds();
    reveal_with_fuel(crate::bytes::le, 2);
    if let Some(open) = r.0.opened {
        let slot = if input.max_channels <= 64 {
            input.release_index as int % n
        } else {
            64
        };
        assert(0 <= input.release_index as int % n < n) by (nonlinear_arith)
            requires
                n > 0,
        ;
        lemma_index_byte(slot);
        assert(plan.extended(slot) == up + own + seq![slot as u8]);
        if 0 <= i < n {
            lemma_index_byte(i);
            assert(open.rounds@[i].grant is Some);
            let bytes = open.rounds@[i].grant->0.bytes@;
            let head = up + own + seq![i as u8];
            assert(plan.extended(i) == head);
            assert(bytes.take(head.len() as int) =~= head);
        }
    }
}

/// A number below 256 is one byte.
proof fn lemma_index_byte(slot: int)
    requires
        0 <= slot < 256,
    ensures
        crate::bytes::be(slot, 1) == seq![slot as u8],
{
    reveal_with_fuel(crate::bytes::le, 2);
    crate::bytes::lemma_le_len(slot, 1);
    assert(crate::bytes::be(slot, 1) =~= seq![slot as u8]);
}

/// Where no channel is asked for, nothing but a refusal passes.
pub proof fn law_no_channels(
    input: &AllocatorInput,
    run: &AllocatorRun,
    verdict: Result<(), AllocatorRule>,
)
    requires
        call_ensures(judge_allocator, (input, run), verdict),
        input.max_channels == 0,
    ensures
        verdict is Ok <==> run.opened is None,
        verdict matches Err(rule) ==> rule == AllocatorRule::Accepted,
{
    let seen = (*input, *run);
    if verdict is Ok {
        assert(AllocatorRule::Accepted.holds(seen));
    }
    if let Err(rule) = verdict {
        if AllocatorRule::Accepted.rank() < rule.rank() {
            assert(AllocatorRule::Accepted.holds(seen));
        }
    }
}

} // verus!
