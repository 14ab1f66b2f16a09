//! Extranonce prefixes: slots of a shared search space.

#[allow(unused_imports)]
use crate::bytes::{
    be, le_value, lemma_be_round_trip, lemma_prefix_free_differs, prefix_free, span, zeros,
};
use channels_sv2::extranonce_manager::{
    AllocatedExtranoncePrefix, ExtranonceAllocator, ExtranonceAllocatorError,
};
#[allow(unused_imports)]
use vstd::arithmetic::power::pow;
use vstd::prelude::*;
#[allow(unused_imports)]
use vstd::set_lib::{lemma_int_range, lemma_len_subset, lemma_subset_equality, set_int_range};

verus! {

/// The longest extranonce that the protocol allows, in bytes.
pub const MAX_EXTRANONCE_LEN: u8 = 32;

/// How an allocator divides the extranonce.
pub struct SlotPlan {
    pub upstream: Seq<u8>,
    pub local: Seq<u8>,
    pub total: int,
    pub max_channels: int,
}

/// The fewest bytes, at least one, that tell `count` values apart.
pub open spec fn index_width(count: int) -> nat {
    if count <= 0x100 {
        1
    } else if count <= 0x1_0000 {
        2
    } else if count <= 0x100_0000 {
        3
    } else {
        4
    }
}

impl SlotPlan {
    /// How long the part of the extranonce is that the allocator fixes.
    pub open spec fn prefix_len(self) -> int {
        (self.upstream.len() + self.local.len() + index_width(self.max_channels)) as int
    }

    /// How much of the extranonce is left to roll.
    pub open spec fn rollable(self) -> int {
        self.total - self.prefix_len()
    }

    /// An allocator can be made that follows this plan.
    pub open spec fn feasible(self) -> bool {
        &&& self.total <= MAX_EXTRANONCE_LEN
        &&& 0 < self.max_channels <= u32::MAX
        &&& self.prefix_len() <= self.total
    }

    /// The prefix of an extended channel in slot `slot`.
    pub open spec fn extended(self, slot: int) -> Seq<u8> {
        self.upstream + self.local + be(slot, index_width(self.max_channels))
    }

    /// The prefix of a standard channel in slot `slot`: it spans the whole
    /// extranonce.
    pub open spec fn standard(self, slot: int) -> Seq<u8> {
        self.extended(slot) + zeros(self.rollable() as nat)
    }

    /// The slot that a prefix belongs to.
    pub open spec fn slot_of(self, prefix: Seq<u8>) -> int {
        let start = self.upstream.len() + self.local.len();
        le_value(prefix.subrange(start as int, self.prefix_len()).reverse())
    }
}

/// Every slot number of a feasible plan fits its index bytes.
proof fn lemma_slot_fits(plan: SlotPlan, slot: int)
    requires
        plan.feasible(),
        0 <= slot < plan.max_channels,
    ensures
        0 <= slot < span(index_width(plan.max_channels)),
{
    reveal_with_fuel(span, 5);
}

/// The slot of a prefix can be read off it, and the prefix has the length that
/// the plan gives it.
pub proof fn lemma_slot_of_prefix(plan: SlotPlan, slot: int)
    requires
        plan.feasible(),
        0 <= slot < plan.max_channels,
    ensures
        plan.extended(slot).len() == plan.prefix_len(),
        plan.standard(slot).len() == plan.total,
        plan.slot_of(plan.extended(slot)) == slot,
        plan.slot_of(plan.standard(slot)) == slot,
{
    let width = index_width(plan.max_channels);
    lemma_slot_fits(plan, slot);
    lemma_be_round_trip(slot, width);
    let start = (plan.upstream.len() + plan.local.len()) as int;
    assert(plan.extended(slot).subrange(start, plan.prefix_len()) =~= be(slot, width));
    assert(plan.standard(slot).subrange(start, plan.prefix_len()) =~= be(slot, width));
}

/// The prefixes of different slots head disjoint search spaces, whatever kinds
/// of channel they are for.
pub proof fn lemma_slots_disjoint(plan: SlotPlan, a: int, b: int, p: Seq<u8>, q: Seq<u8>)
    requires
        plan.feasible(),
        0 <= a < plan.max_channels,
        0 <= b < plan.max_channels,
        a != b,
        p == plan.extended(a) || p == plan.standard(a),
        q == plan.extended(b) || q == plan.standard(b),
    ensures
        prefix_free(p, q),
{
    lemma_slot_of_prefix(plan, a);
    lemma_slot_of_prefix(plan, b);
    let start = (plan.upstream.len() + plan.local.len()) as int;
    let end = plan.prefix_len();
    if q.is_prefix_of(p) {
        assert(q.subrange(start, end) =~= p.subrange(start, end));
    }
    if p.is_prefix_of(q) {
        assert(q.subrange(start, end) =~= p.subrange(start, end));
    }
}

/// `ExtranonceAllocator` of `channels_sv2`: hands out the slots of an extranonce.
#[verifier::external_type_specification]
#[verifier::external_body]
pub struct ExExtranonceAllocator(channels_sv2::extranonce_manager::ExtranonceAllocator);

/// `AllocatedExtranoncePrefix` of `channels_sv2`: the bytes of one slot, which
/// stays taken for as long as the value lives.
#[verifier::external_type_specification]
#[verifier::external_body]
pub struct ExAllocatedExtranoncePrefix(channels_sv2::extranonce_manager::AllocatedExtranoncePrefix);

/// The slots of an allocator that are taken. An allocator shares the record of them with the
/// prefixes that it hands out, and a prefix that is dropped clears its slot there. So that
/// the slots change only where the allocator is passed as `&mut`, no prefix is dropped here
/// while its allocator lives, except by [`drop_prefix`].
pub uninterp spec fn slots(allocator: ExtranonceAllocator) -> Set<int>;

/// The plan that an allocator was made with.
pub uninterp spec fn slot_plan(allocator: ExtranonceAllocator) -> SlotPlan;

/// The slot at which an allocator begins to look for a free one.
pub uninterp spec fn cursor(allocator: ExtranonceAllocator) -> int;

/// How many slots are passed on the way from `start` to `slot`, where the first of `count`
/// slots follows the last.
pub open spec fn distance(start: int, slot: int, count: int) -> int {
    if slot >= start {
        slot - start
    } else {
        slot - start + count
    }
}

/// `slot` is the first free one of `count` slots, from `start` on.
pub open spec fn first_free(taken: Set<int>, start: int, count: int, slot: int) -> bool {
    &&& 0 <= slot < count
    &&& !taken.contains(slot)
    &&& forall|other: int|
        0 <= other < count && distance(start, other, count) < distance(start, slot, count)
            ==> #[trigger] taken.contains(other)
}

/// The slot that follows `slot`, where the first of `count` slots follows the last.
pub open spec fn following(slot: int, count: int) -> int {
    if slot + 1 < count {
        slot + 1
    } else {
        0
    }
}

/// The bytes of an allocated prefix.
pub uninterp spec fn prefix_bytes(prefix: AllocatedExtranoncePrefix) -> Seq<u8>;

/// How many leading bytes of an allocated prefix came from upstream.
pub uninterp spec fn prefix_upstream(prefix: AllocatedExtranoncePrefix) -> int;

/// Why an allocator refuses.
#[derive(Clone, Copy, Debug, PartialEq, Eq, Structural)]
pub enum SlotError {
    ExceedsMaxLength,
    ZeroMaxChannels,
    PrefixExceedsTotalLength,
    CapacityExhausted,
    InvalidRollableSize,
}

/// `channels_sv2::extranonce_manager::bytes_needed`: the fewest bytes, at least
/// one, that tell `n` values apart.
pub assume_specification[ channels_sv2::extranonce_manager::bytes_needed ](n: u32) -> (r: u8)
    ensures
        r == index_width(n as int),
;

/// `ExtranonceAllocator::upstream_prefix` returns the upstream bytes of the plan.
pub assume_specification[ ExtranonceAllocator::upstream_prefix ](
    allocator: &ExtranonceAllocator,
) -> (r: &[u8])
    ensures
        r@ == slot_plan(*allocator).upstream,
;

/// `ExtranonceAllocator::local_prefix` returns the local bytes of the plan.
pub assume_specification[ ExtranonceAllocator::local_prefix ](
    allocator: &ExtranonceAllocator,
) -> (r: &[u8])
    ensures
        r@ == slot_plan(*allocator).local,
;

/// `ExtranonceAllocator::upstream_prefix_len` returns how many upstream bytes
/// there are.
pub assume_specification[ ExtranonceAllocator::upstream_prefix_len ](
    allocator: &ExtranonceAllocator,
) -> (r: u8)
    ensures
        r == slot_plan(*allocator).upstream.len(),
;

/// `ExtranonceAllocator::local_prefix_len` returns how many local bytes there are.
pub assume_specification[ ExtranonceAllocator::local_prefix_len ](
    allocator: &ExtranonceAllocator,
) -> (r: u8)
    ensures
        r == slot_plan(*allocator).local.len(),
;

/// `ExtranonceAllocator::local_index_len` returns how many bytes number the slots.
pub assume_specification[ ExtranonceAllocator::local_index_len ](
    allocator: &ExtranonceAllocator,
) -> (r: u8)
    ensures
        r == index_width(slot_plan(*allocator).max_channels),
;

/// `ExtranonceAllocator::full_prefix_len` returns how many bytes the allocator
/// fixes.
pub assume_specification[ ExtranonceAllocator::full_prefix_len ](
    allocator: &ExtranonceAllocator,
) -> (r: u8)
    ensures
        r == slot_plan(*allocator).prefix_len(),
;

/// `ExtranonceAllocator::total_extranonce_len` returns the length of the whole
/// extranonce.
pub assume_specification[ ExtranonceAllocator::total_extranonce_len ](
    allocator: &ExtranonceAllocator,
) -> (r: u8)
    ensures
        r == slot_plan(*allocator).total,
;

/// `ExtranonceAllocator::rollable_extranonce_size` returns how many bytes are
/// left to roll.
pub assume_specification[ ExtranonceAllocator::rollable_extranonce_size ](
    allocator: &ExtranonceAllocator,
) -> (r: u8)
    ensures
        r == slot_plan(*allocator).rollable(),
;

/// `ExtranonceAllocator::max_channels` returns how many slots there are.
pub assume_specification[ ExtranonceAllocator::max_channels ](
    allocator: &ExtranonceAllocator,
) -> (r: u32)
    ensures
        r == slot_plan(*allocator).max_channels,
;

/// `ExtranonceAllocator::allocated_count` returns how many slots are taken.
pub assume_specification[ ExtranonceAllocator::allocated_count ](
    allocator: &ExtranonceAllocator,
) -> (r: u32)
    ensures
        r == slots(*allocator).len(),
;

/// `AllocatedExtranoncePrefix::as_bytes` returns the bytes of the prefix.
pub assume_specification[ AllocatedExtranoncePrefix::as_bytes ](
    prefix: &AllocatedExtranoncePrefix,
) -> (r: &[u8])
    ensures
        r@ == prefix_bytes(*prefix),
;

/// `AllocatedExtranoncePrefix::len` returns how many bytes the prefix has.
pub assume_specification[ AllocatedExtranoncePrefix::len ](
    prefix: &AllocatedExtranoncePrefix,
) -> (r: usize)
    ensures
        r == prefix_bytes(*prefix).len(),
;

/// `AllocatedExtranoncePrefix::upstream_prefix_len` returns how many leading
/// bytes came from upstream.
pub assume_specification[ AllocatedExtranoncePrefix::upstream_prefix_len ](
    prefix: &AllocatedExtranoncePrefix,
) -> (r: u8)
    ensures
        r == prefix_upstream(*prefix),
;

/// `r` is what comes of making an allocator that follows `plan`: one with no slot taken that
/// begins with the first slot, or the first reason to refuse the plan (it is too long, has no slot, or leaves no room
/// for its prefix).
pub open spec fn is_made(plan: SlotPlan, r: Result<ExtranonceAllocator, SlotError>) -> bool {
    match r {
        Ok(allocator) => {
            &&& plan.feasible()
            &&& slot_plan(allocator) == plan
            &&& slots(allocator) == Set::<int>::empty()
            &&& cursor(allocator) == 0
        },
        Err(SlotError::ExceedsMaxLength) => plan.total > MAX_EXTRANONCE_LEN,
        Err(SlotError::ZeroMaxChannels) => plan.total <= MAX_EXTRANONCE_LEN && plan.max_channels
            == 0,
        Err(SlotError::PrefixExceedsTotalLength) => {
            &&& plan.total <= MAX_EXTRANONCE_LEN
            &&& plan.max_channels > 0
            &&& plan.prefix_len() > plan.total
        },
        Err(_) => false,
    }
}

/// Calls `ExtranonceAllocator::from_upstream_prefix`, which makes an allocator
/// with no slot taken, and refuses a plan that is too long, has no slot, or
/// leaves no room for its prefix, in this order.
#[verifier::external_body]
fn from_upstream_prefix(
    upstream: Vec<u8>,
    local: Vec<u8>,
    total: u8,
    max_channels: u32,
) -> (r: Result<ExtranonceAllocator, SlotError>)
    ensures
        is_made(
            (SlotPlan {
                upstream: upstream@,
                local: local@,
                total: total as int,
                max_channels: max_channels as int,
            }),
            r,
        ),
{
    match ExtranonceAllocator::from_upstream_prefix(upstream, local, total, max_channels) {
        Ok(allocator) => Ok(allocator),
        Err(ExtranonceAllocatorError::ExceedsMaxLength) => Err(SlotError::ExceedsMaxLength),
        Err(ExtranonceAllocatorError::ZeroMaxChannels) => Err(SlotError::ZeroMaxChannels),
        Err(ExtranonceAllocatorError::PrefixExceedsTotalLength) => Err(SlotError::PrefixExceedsTotalLength),
        Err(ExtranonceAllocatorError::CapacityExhausted) => Err(SlotError::CapacityExhausted),
        Err(ExtranonceAllocatorError::InvalidRollableSize) => Err(SlotError::InvalidRollableSize),
    }
}

/// Calls `ExtranonceAllocator::new`, which makes an allocator without upstream bytes.
#[verifier::external_body]
fn new_allocator(local: Vec<u8>, total: u8, max_channels: u32) -> (r: Result<
    ExtranonceAllocator,
    SlotError,
>)
    ensures
        is_made(
            (SlotPlan {
                upstream: Seq::empty(),
                local: local@,
                total: total as int,
                max_channels: max_channels as int,
            }),
            r,
        ),
{
    match ExtranonceAllocator::new(local, total, max_channels) {
        Ok(allocator) => Ok(allocator),
        Err(ExtranonceAllocatorError::ExceedsMaxLength) => Err(SlotError::ExceedsMaxLength),
        Err(ExtranonceAllocatorError::ZeroMaxChannels) => Err(SlotError::ZeroMaxChannels),
        Err(ExtranonceAllocatorError::PrefixExceedsTotalLength) => Err(SlotError::PrefixExceedsTotalLength),
        Err(ExtranonceAllocatorError::CapacityExhausted) => Err(SlotError::CapacityExhausted),
        Err(ExtranonceAllocatorError::InvalidRollableSize) => Err(SlotError::InvalidRollableSize),
    }
}

/// Calls `ExtranonceAllocator::allocate_standard`, which takes the next free slot
/// after the one that it took last, if there is one, and returns the prefix of a
/// standard channel in it.
#[verifier::external_body]
fn allocate_standard(allocator: &mut ExtranonceAllocator) -> (r: Result<
    AllocatedExtranoncePrefix,
    SlotError,
>)
    ensures
        slot_plan(*final(allocator)) == slot_plan(*old(allocator)),
        match r {
            Ok(prefix) => {
                let plan = slot_plan(*old(allocator));
                let slot = plan.slot_of(prefix_bytes(prefix));
                &&& first_free(
                    slots(*old(allocator)),
                    cursor(*old(allocator)),
                    plan.max_channels,
                    slot,
                )
                &&& slots(*final(allocator)) == slots(*old(allocator)).insert(slot)
                &&& cursor(*final(allocator)) == following(slot, plan.max_channels)
                &&& prefix_bytes(prefix) == plan.standard(slot)
                &&& prefix_upstream(prefix) == plan.upstream.len()
            },
            Err(SlotError::CapacityExhausted) => {
                &&& slots(*final(allocator)) == slots(*old(allocator))
                &&& cursor(*final(allocator)) == cursor(*old(allocator))
                &&& forall|slot: int|
                    0 <= slot < slot_plan(*old(allocator)).max_channels ==> #[trigger] slots(
                        *old(allocator),
                    ).contains(slot)
            },
            Err(_) => false,
        },
{
    match allocator.allocate_standard() {
        Ok(prefix) => Ok(prefix),
        Err(ExtranonceAllocatorError::ExceedsMaxLength) => Err(SlotError::ExceedsMaxLength),
        Err(ExtranonceAllocatorError::ZeroMaxChannels) => Err(SlotError::ZeroMaxChannels),
        Err(ExtranonceAllocatorError::PrefixExceedsTotalLength) => Err(SlotError::PrefixExceedsTotalLength),
        Err(ExtranonceAllocatorError::CapacityExhausted) => Err(SlotError::CapacityExhausted),
        Err(ExtranonceAllocatorError::InvalidRollableSize) => Err(SlotError::InvalidRollableSize),
    }
}

/// Calls `ExtranonceAllocator::allocate_extended`, which refuses a request for
/// more rollable bytes than there are, then takes the next free slot after the one
/// that it took last, if there is one, and returns the prefix of an extended
/// channel in it.
#[verifier::external_body]
fn allocate_extended(allocator: &mut ExtranonceAllocator, min_rollable: usize) -> (r: Result<
    AllocatedExtranoncePrefix,
    SlotError,
>)
    ensures
        slot_plan(*final(allocator)) == slot_plan(*old(allocator)),
        match r {
            Ok(prefix) => {
                let plan = slot_plan(*old(allocator));
                let slot = plan.slot_of(prefix_bytes(prefix));
                &&& min_rollable <= plan.rollable()
                &&& first_free(
                    slots(*old(allocator)),
                    cursor(*old(allocator)),
                    plan.max_channels,
                    slot,
                )
                &&& slots(*final(allocator)) == slots(*old(allocator)).insert(slot)
                &&& cursor(*final(allocator)) == following(slot, plan.max_channels)
                &&& prefix_bytes(prefix) == plan.extended(slot)
                &&& prefix_upstream(prefix) == plan.upstream.len()
            },
            Err(SlotError::InvalidRollableSize) => {
                &&& slots(*final(allocator)) == slots(*old(allocator))
                &&& cursor(*final(allocator)) == cursor(*old(allocator))
                &&& min_rollable > slot_plan(*old(allocator)).rollable()
            },
            Err(SlotError::CapacityExhausted) => {
                &&& slots(*final(allocator)) == slots(*old(allocator))
                &&& cursor(*final(allocator)) == cursor(*old(allocator))
                &&& min_rollable <= slot_plan(*old(allocator)).rollable()
                &&& forall|slot: int|
                    0 <= slot < slot_plan(*old(allocator)).max_channels ==> #[trigger] slots(
                        *old(allocator),
                    ).contains(slot)
            },
            Err(_) => false,
        },
{
    match allocator.allocate_extended(min_rollable) {
        Ok(prefix) => Ok(prefix),
        Err(ExtranonceAllocatorError::ExceedsMaxLength) => Err(SlotError::ExceedsMaxLength),
        Err(ExtranonceAllocatorError::ZeroMaxChannels) => Err(SlotError::ZeroMaxChannels),
        Err(ExtranonceAllocatorError::PrefixExceedsTotalLength) => Err(SlotError::PrefixExceedsTotalLength),
        Err(ExtranonceAllocatorError::CapacityExhausted) => Err(SlotError::CapacityExhausted),
        Err(ExtranonceAllocatorError::InvalidRollableSize) => Err(SlotError::InvalidRollableSize),
    }
}

/// Takes the first slot, for an extended channel, from an allocator that is made for it. The
/// allocator has room for `max_channels` channels and leaves at least `rollable` bytes to
/// roll.
pub fn lease(local: Vec<u8>, total: u8, max_channels: u32, rollable: usize) -> (r: Result<
    AllocatedExtranoncePrefix,
    SlotError,
>)
    ensures
        ({
            let plan = SlotPlan {
                upstream: Seq::empty(),
                local: local@,
                total: total as int,
                max_channels: max_channels as int,
            };
            match r {
                Ok(prefix) => {
                    &&& plan.feasible()
                    &&& rollable <= plan.rollable()
                    &&& prefix_bytes(prefix) == plan.extended(0)
                },
                Err(SlotError::ExceedsMaxLength) => total > MAX_EXTRANONCE_LEN,
                Err(SlotError::ZeroMaxChannels) => total <= MAX_EXTRANONCE_LEN && max_channels == 0,
                Err(SlotError::PrefixExceedsTotalLength) => {
                    &&& total <= MAX_EXTRANONCE_LEN
                    &&& max_channels > 0
                    &&& plan.prefix_len() > total
                },
                Err(SlotError::InvalidRollableSize) => {
                    &&& plan.feasible()
                    &&& rollable > plan.rollable()
                },
                Err(SlotError::CapacityExhausted) => false,
            }
        }),
{
    let mut allocator = match new_allocator(local, total, max_channels) {
        Ok(allocator) => allocator,
        Err(error) => {
            return Err(error);
        },
    };
    let leased = allocate_extended(&mut allocator, rollable);
    assert(!Set::<int>::empty().contains(0));
    leased
}

/// An allocator together with the prefixes that it has handed out and that are
/// still held.
pub struct SlotPool {
    allocator: ExtranonceAllocator,
    live: Vec<AllocatedExtranoncePrefix>,
}

/// Drops the prefix at `index`, which runs the `Drop` of `channels_sv2` that
/// gives its slot back to the allocator it came from. A pool holds only prefixes
/// that its own allocator handed out: its fields are private, and nothing else
/// puts a prefix into one.
#[verifier::external_body]
fn drop_prefix(pool: &mut SlotPool, index: usize)
    requires
        old(pool).wf(),
        index < old(pool).live@.len(),
    ensures
        final(pool).live@ == old(pool).live@.remove(index as int),
        slot_plan(final(pool).allocator) == slot_plan(old(pool).allocator),
        cursor(final(pool).allocator) == cursor(old(pool).allocator),
        slots(final(pool).allocator) == slots(old(pool).allocator).remove(
            slot_plan(old(pool).allocator).slot_of(prefix_bytes(old(pool).live@[index as int])),
        ),
{
    drop(pool.live.remove(index));
}

impl SlotPool {
    /// How the pool divides the extranonce.
    pub closed spec fn plan(self) -> SlotPlan {
        slot_plan(self.allocator)
    }

    /// The prefixes that are held, oldest first.
    pub closed spec fn held(self) -> Seq<Seq<u8>> {
        Seq::new(self.live@.len(), |i: int| prefix_bytes(self.live@[i]))
    }

    /// The slot of the prefix at `i`.
    pub open spec fn slot(self, i: int) -> int {
        self.plan().slot_of(self.held()[i])
    }

    /// The slots of the prefixes that are held.
    pub closed spec fn taken(self) -> Set<int> {
        slots(self.allocator)
    }

    /// The slot at which the pool begins to look for a free one.
    pub closed spec fn start(self) -> int {
        cursor(self.allocator)
    }

    /// Each prefix held has a slot of its own, and no other slot is taken.
    pub closed spec fn wf(self) -> bool {
        &&& self.plan().feasible()
        &&& slots(self.allocator).finite()
        &&& slots(self.allocator).subset_of(set_int_range(0, self.plan().max_channels))
        &&& slots(self.allocator).len() == self.held().len()
        &&& forall|i: int|
            0 <= i < self.held().len() ==> {
                &&& slots(self.allocator).contains(#[trigger] self.slot(i))
                &&& prefix_upstream(self.live@[i]) == self.plan().upstream.len()
                &&& self.held()[i] == self.plan().extended(self.slot(i)) || self.held()[i]
                    == self.plan().standard(self.slot(i))
            }
        &&& forall|i: int, j: int|
            0 <= i < j < self.held().len() ==> #[trigger] self.slot(i) != #[trigger] self.slot(j)
        &&& forall|slot: int| #[trigger]
            slots(self.allocator).contains(slot) ==> exists|i: int|
                0 <= i < self.held().len() && #[trigger] self.slot(i) == slot
    }

    /// What every pool keeps: the plan is feasible, no more prefixes are held
    /// than there are slots, each has the form that the plan gives it, any two of
    /// them head disjoint search spaces, and no other slot is taken.
    pub proof fn lemma_pool(self)
        requires
            self.wf(),
        ensures
            self.plan().feasible(),
            self.held().len() <= self.plan().max_channels,
            forall|i: int|
                0 <= i < self.held().len() ==> {
                    &&& 0 <= #[trigger] self.slot(i) < self.plan().max_channels
                    &&& self.held()[i] == self.plan().extended(self.slot(i)) || self.held()[i]
                        == self.plan().standard(self.slot(i))
                },
            forall|i: int, j: int|
                0 <= i < self.held().len() && 0 <= j < self.held().len() && i != j
                    ==> #[trigger] prefix_free(self.held()[i], self.held()[j]),
            forall|slot: int| #[trigger]
                self.taken().contains(slot) <==> exists|i: int|
                    0 <= i < self.held().len() && #[trigger] self.slot(i) == slot,
    {
        lemma_int_range(0, self.plan().max_channels);
        lemma_len_subset(slots(self.allocator), set_int_range(0, self.plan().max_channels));
        assert forall|i: int, j: int|
            0 <= i < self.held().len() && 0 <= j < self.held().len() && i != j implies #[trigger] prefix_free(
            self.held()[i],
            self.held()[j],
        ) by {
            if i < j {
                assert(self.slot(i) != self.slot(j));
            } else {
                assert(self.slot(j) != self.slot(i));
            }
            lemma_slots_disjoint(
                self.plan(),
                self.slot(i),
                self.slot(j),
                self.held()[i],
                self.held()[j],
            );
        }
    }

    /// If every slot is taken, as many prefixes are held as there are slots.
    proof fn lemma_full(pool: SlotPool)
        requires
            pool.wf(),
            forall|slot: int|
                0 <= slot < pool.plan().max_channels ==> #[trigger] slots(pool.allocator).contains(
                    slot,
                ),
        ensures
            pool.held().len() == pool.plan().max_channels,
    {
        lemma_int_range(0, pool.plan().max_channels);
        assert(slots(pool.allocator) =~= set_int_range(0, pool.plan().max_channels));
    }

    /// A pool in which nothing was taken stays in order.
    proof fn lemma_unchanged(before: SlotPool, after: SlotPool)
        requires
            before.wf(),
            after.live@ == before.live@,
            after.plan() == before.plan(),
            slots(after.allocator) == slots(before.allocator),
        ensures
            after.wf(),
            after.held() == before.held(),
    {
        assert(after.held() =~= before.held());
        assert forall|i: int| after.slot(i) == before.slot(i) by {}
        assert forall|i: int| 0 <= i < after.held().len() implies {
            &&& slots(after.allocator).contains(#[trigger] after.slot(i))
            &&& prefix_upstream(after.live@[i]) == after.plan().upstream.len()
            &&& after.held()[i] == after.plan().extended(after.slot(i)) || after.held()[i]
                == after.plan().standard(after.slot(i))
        } by {
            assert(slots(before.allocator).contains(before.slot(i)));
        }
        assert forall|i: int, j: int| 0 <= i < j < after.held().len() implies #[trigger] after.slot(
            i,
        ) != #[trigger] after.slot(j) by {
            assert(before.slot(i) != before.slot(j));
        }
        assert forall|slot: int| #[trigger] slots(after.allocator).contains(slot) implies exists|
            i: int,
        | 0 <= i < after.held().len() && #[trigger] after.slot(i) == slot by {
            let i = choose|i: int| 0 <= i < before.held().len() && #[trigger] before.slot(i) == slot;
            assert(after.slot(i) == slot);
        }
    }

    /// Holding one more prefix, of a slot that was free, keeps a pool in order.
    proof fn lemma_push(before: SlotPool, after: SlotPool, prefix: AllocatedExtranoncePrefix)
        requires
            before.wf(),
            after.live@ == before.live@.push(prefix),
            after.plan() == before.plan(),
            ({
                let plan = before.plan();
                let slot = plan.slot_of(prefix_bytes(prefix));
                &&& 0 <= slot < plan.max_channels
                &&& !slots(before.allocator).contains(slot)
                &&& slots(after.allocator) == slots(before.allocator).insert(slot)
                &&& prefix_bytes(prefix) == plan.standard(slot) || prefix_bytes(prefix)
                    == plan.extended(slot)
                &&& prefix_upstream(prefix) == plan.upstream.len()
            }),
        ensures
            after.wf(),
            after.held() == before.held().push(prefix_bytes(prefix)),
            after.slot(before.held().len() as int) == before.plan().slot_of(prefix_bytes(prefix)),
            before.held().len() < before.plan().max_channels,
    {
        let n = before.held().len() as int;
        assert(after.held() =~= before.held().push(prefix_bytes(prefix)));
        assert forall|i: int| 0 <= i < n implies after.slot(i) == before.slot(i) by {}
        lemma_int_range(0, before.plan().max_channels);
        assert(slots(after.allocator).len() == n + 1);
        assert(slots(after.allocator).subset_of(set_int_range(0, before.plan().max_channels)));
        lemma_len_subset(
            slots(after.allocator),
            set_int_range(0, before.plan().max_channels),
        );
        assert forall|i: int| 0 <= i < after.held().len() implies {
            &&& slots(after.allocator).contains(#[trigger] after.slot(i))
            &&& prefix_upstream(after.live@[i]) == after.plan().upstream.len()
            &&& after.held()[i] == after.plan().extended(after.slot(i)) || after.held()[i]
                == after.plan().standard(after.slot(i))
        } by {
            if i < n {
                assert(slots(before.allocator).contains(before.slot(i)));
            }
        }
        assert forall|i: int, j: int| 0 <= i < j < after.held().len() implies #[trigger] after.slot(
            i,
        ) != #[trigger] after.slot(j) by {
            assert(slots(before.allocator).contains(before.slot(i)));
            if j < n {
                assert(before.slot(i) != before.slot(j));
            }
        }
        assert forall|slot: int| #[trigger] slots(after.allocator).contains(slot) implies exists|
            i: int,
        | 0 <= i < after.held().len() && #[trigger] after.slot(i) == slot by {
            if slots(before.allocator).contains(slot) {
                let i = choose|i: int| 0 <= i < n && #[trigger] before.slot(i) == slot;
                assert(after.slot(i) == slot);
            } else {
                assert(after.slot(n) == slot);
            }
        }
    }

    /// Holding one prefix less keeps a pool in order if its slot becomes free.
    proof fn lemma_release(before: SlotPool, after: SlotPool, k: int)
        requires
            before.wf(),
            0 <= k < before.held().len(),
            after.live@ == before.live@.remove(k),
            after.plan() == before.plan(),
            slots(after.allocator) == slots(before.allocator).remove(before.slot(k)),
        ensures
            after.wf(),
            after.held() == before.held().remove(k),
    {
        let n = before.held().len() as int;
        assert(after.held() =~= before.held().remove(k));
        assert(slots(before.allocator).contains(before.slot(k)));
        assert(slots(after.allocator).len() == n - 1);
        assert(slots(after.allocator).subset_of(set_int_range(0, after.plan().max_channels)));
        assert forall|i: int| 0 <= i < n - 1 implies {
            let was = if i < k { i } else { i + 1 };
            #[trigger] after.slot(i) == before.slot(was) && after.live@[i] == before.live@[was]
        } by {}
        assert forall|i: int| 0 <= i < after.held().len() implies {
            &&& slots(after.allocator).contains(#[trigger] after.slot(i))
            &&& prefix_upstream(after.live@[i]) == after.plan().upstream.len()
            &&& after.held()[i] == after.plan().extended(after.slot(i)) || after.held()[i]
                == after.plan().standard(after.slot(i))
        } by {
            let was = if i < k { i } else { i + 1 };
            assert(slots(before.allocator).contains(before.slot(was)));
            if was < k {
                assert(before.slot(was) != before.slot(k));
            } else {
                assert(before.slot(k) != before.slot(was));
            }
        }
        assert forall|i: int, j: int| 0 <= i < j < after.held().len() implies #[trigger] after.slot(
            i,
        ) != #[trigger] after.slot(j) by {
            let a = if i < k { i } else { i + 1 };
            let b = if j < k { j } else { j + 1 };
            assert(before.slot(a) != before.slot(b));
        }
        assert forall|slot: int| #[trigger] slots(after.allocator).contains(slot) implies exists|
            i: int,
        | 0 <= i < after.held().len() && #[trigger] after.slot(i) == slot by {
            let was = choose|i: int| 0 <= i < n && #[trigger] before.slot(i) == slot;
            let now = if was < k { was } else { was - 1 };
            assert(after.slot(now) == slot);
        }
    }

    /// Makes a pool that holds nothing.
    pub fn open(upstream: Vec<u8>, local: Vec<u8>, total: u8, max_channels: u32) -> (r: Result<
        SlotPool,
        SlotError,
    >)
        ensures
            ({
                let plan = SlotPlan {
                    upstream: upstream@,
                    local: local@,
                    total: total as int,
                    max_channels: max_channels as int,
                };
                match r {
                    Ok(pool) => {
                        &&& plan.feasible()
                        &&& pool.wf()
                        &&& pool.plan() == plan
                        &&& pool.held() == Seq::<Seq<u8>>::empty()
                        &&& pool.start() == 0
                    },
                    Err(SlotError::ExceedsMaxLength) => total > MAX_EXTRANONCE_LEN,
                    Err(SlotError::ZeroMaxChannels) => total <= MAX_EXTRANONCE_LEN && max_channels
                        == 0,
                    Err(SlotError::PrefixExceedsTotalLength) => {
                        &&& total <= MAX_EXTRANONCE_LEN
                        &&& max_channels > 0
                        &&& plan.prefix_len() > total
                    },
                    Err(_) => false,
                }
            }),
    {
        match from_upstream_prefix(upstream, local, total, max_channels) {
            Ok(allocator) => {
                let pool = SlotPool { allocator, live: Vec::new() };
                assert(pool.held() =~= Seq::<Seq<u8>>::empty());
                Ok(pool)
            },
            Err(e) => Err(e),
        }
    }

    /// Takes the next free slot for a standard channel. It fails exactly if all
    /// slots are taken, and then changes nothing.
    pub fn take_standard(&mut self) -> (r: Result<Vec<u8>, SlotError>)
        requires
            old(self).wf(),
        ensures
            final(self).wf(),
            final(self).plan() == old(self).plan(),
            r is Ok <==> old(self).held().len() < old(self).plan().max_channels,
            match r {
                Ok(bytes) => {
                    let slot = final(self).slot(old(self).held().len() as int);
                    &&& first_free(
                        old(self).taken(),
                        old(self).start(),
                        old(self).plan().max_channels,
                        slot,
                    )
                    &&& final(self).held() == old(self).held().push(bytes@)
                    &&& final(self).start() == following(slot, old(self).plan().max_channels)
                    &&& bytes@ == old(self).plan().standard(slot)
                },
                Err(e) => {
                    &&& e == SlotError::CapacityExhausted
                    &&& final(self).held() == old(self).held()
                    &&& final(self).start() == old(self).start()
                },
            },
    {
        let ghost before = *self;
        proof {
            before.lemma_pool();
        }
        match allocate_standard(&mut self.allocator) {
            Ok(prefix) => {
                let bytes = vstd::slice::slice_to_vec(prefix.as_bytes());
                self.live.push(prefix);
                proof {
                    Self::lemma_push(before, *self, prefix);
                }
                Ok(bytes)
            },
            Err(e) => {
                proof {
                    Self::lemma_full(before);
                    Self::lemma_unchanged(before, *self);
                }
                Err(e)
            },
        }
    }

    /// Takes the next free slot for an extended channel that asks for `min_rollable`
    /// bytes to roll. It fails exactly if there are fewer, or if all slots are taken, and
    /// then changes nothing.
    pub fn take_extended(&mut self, min_rollable: usize) -> (r: Result<Vec<u8>, SlotError>)
        requires
            old(self).wf(),
        ensures
            final(self).wf(),
            final(self).plan() == old(self).plan(),
            r is Ok <==> min_rollable <= old(self).plan().rollable() && old(self).held().len()
                < old(self).plan().max_channels,
            match r {
                Ok(bytes) => {
                    let slot = final(self).slot(old(self).held().len() as int);
                    &&& first_free(
                        old(self).taken(),
                        old(self).start(),
                        old(self).plan().max_channels,
                        slot,
                    )
                    &&& final(self).held() == old(self).held().push(bytes@)
                    &&& final(self).start() == following(slot, old(self).plan().max_channels)
                    &&& bytes@ == old(self).plan().extended(slot)
                },
                Err(e) => {
                    &&& final(self).held() == old(self).held()
                    &&& final(self).start() == old(self).start()
                    &&& e == (if min_rollable > old(self).plan().rollable() {
                        SlotError::InvalidRollableSize
                    } else {
                        SlotError::CapacityExhausted
                    })
                },
            },
    {
        let ghost before = *self;
        proof {
            before.lemma_pool();
        }
        match allocate_extended(&mut self.allocator, min_rollable) {
            Ok(prefix) => {
                let bytes = vstd::slice::slice_to_vec(prefix.as_bytes());
                self.live.push(prefix);
                proof {
                    Self::lemma_push(before, *self, prefix);
                }
                Ok(bytes)
            },
            Err(e) => {
                proof {
                    if e == SlotError::CapacityExhausted {
                        Self::lemma_full(before);
                    }
                    Self::lemma_unchanged(before, *self);
                }
                Err(e)
            },
        }
    }

    /// Gives the slot of the prefix at `index` back.
    pub fn release(&mut self, index: usize)
        requires
            old(self).wf(),
            index < old(self).held().len(),
        ensures
            final(self).wf(),
            final(self).plan() == old(self).plan(),
            final(self).held() == old(self).held().remove(index as int),
            final(self).start() == old(self).start(),
    {
        let ghost before = *self;
        drop_prefix(self, index);
        proof {
            Self::lemma_release(before, *self, index as int);
        }
    }

    /// A slot that was given back while all others were taken is the one that is
    /// taken next.
    pub proof fn lemma_reuse(full: SlotPool, rest: SlotPool, again: SlotPool, index: int)
        requires
            full.wf(),
            full.held().len() == full.plan().max_channels,
            0 <= index < full.held().len(),
            rest.plan() == full.plan(),
            rest.held() == full.held().remove(index),
            again.wf(),
            again.plan() == full.plan(),
            again.held().len() == rest.held().len() + 1,
            again.held().drop_last() == rest.held(),
        ensures
            again.slot(again.held().len() - 1) == full.slot(index),
    {
        let n = again.held().len();
        let range = set_int_range(0, again.plan().max_channels);
        let numbers = Seq::new(n, |i: int| again.slot(i));
        lemma_int_range(0, again.plan().max_channels);
        assert(numbers.no_duplicates()) by {
            assert forall|i: int, j: int| 0 <= i < n && 0 <= j < n && i != j implies numbers[i]
                != numbers[j] by {
                if i < j {
                    assert(again.slot(i) != again.slot(j));
                } else {
                    assert(again.slot(j) != again.slot(i));
                }
            }
        }
        numbers.unique_seq_to_set();
        assert forall|x: int| numbers.to_set().contains(x) implies range.contains(x) by {
            let i = choose|i: int| 0 <= i < n && numbers[i] == x;
            assert(slots(again.allocator).contains(again.slot(i)));
        }
        lemma_subset_equality(numbers.to_set(), range);
        let freed = full.slot(index);
        assert(slots(full.allocator).contains(freed));
        assert(numbers.to_set().contains(freed));
        let j = choose|j: int| 0 <= j < n && numbers[j] == freed;
        if j < n - 1 {
            let was = if j < index { j } else { j + 1 };
            assert(again.held()[j] == again.held().drop_last()[j]);
            assert(again.slot(j) == full.slot(was));
            if was < index {
                assert(full.slot(was) != full.slot(index));
            } else {
                assert(full.slot(index) != full.slot(was));
            }
        }
    }

    /// How many prefixes are held, as the allocator counts them.
    pub fn count(&self) -> (r: u32)
        requires
            self.wf(),
        ensures
            r == self.held().len(),
    {
        self.allocator.allocated_count()
    }

    /// The prefix at `index`, as it reports itself: its bytes, its length, and
    /// how many of the bytes came from upstream.
    pub fn prefix(&self, index: usize) -> (r: (Vec<u8>, usize, u8))
        requires
            self.wf(),
            index < self.held().len(),
        ensures
            r.0@ == self.held()[index as int],
            r.1 == self.held()[index as int].len(),
            r.2 == self.plan().upstream.len(),
    {
        let prefix = &self.live[index];
        assert(slots(self.allocator).contains(self.slot(index as int)));
        let bytes = vstd::slice::slice_to_vec(prefix.as_bytes());
        (bytes, prefix.len(), prefix.upstream_prefix_len())
    }

    /// What the allocator reports of the plan that it was made with.
    pub fn report(&self) -> (r: SlotReport)
        requires
            self.wf(),
        ensures
            r.upstream@ == self.plan().upstream,
            r.local@ == self.plan().local,
            r.upstream_len == self.plan().upstream.len(),
            r.local_len == self.plan().local.len(),
            r.index_len == index_width(self.plan().max_channels),
            r.full_prefix_len == self.plan().prefix_len(),
            r.total_len == self.plan().total,
            r.rollable == self.plan().rollable(),
            r.max_channels == self.plan().max_channels,
            r.count == self.held().len(),
    {
        let a = &self.allocator;
        SlotReport {
            upstream: vstd::slice::slice_to_vec(a.upstream_prefix()),
            local: vstd::slice::slice_to_vec(a.local_prefix()),
            upstream_len: a.upstream_prefix_len(),
            local_len: a.local_prefix_len(),
            index_len: a.local_index_len(),
            full_prefix_len: a.full_prefix_len(),
            total_len: a.total_extranonce_len(),
            rollable: a.rollable_extranonce_size(),
            max_channels: a.max_channels(),
            count: a.allocated_count(),
        }
    }
}

/// What an allocator reports of the plan that it was made with.
pub struct SlotReport {
    pub upstream: Vec<u8>,
    pub local: Vec<u8>,
    pub upstream_len: u8,
    pub local_len: u8,
    pub index_len: u8,
    pub full_prefix_len: u8,
    pub total_len: u8,
    pub rollable: u8,
    pub max_channels: u32,
    pub count: u32,
}

/// As many bytes number the slots as it takes to tell them apart, and no more, but at least one.
pub proof fn law_index_width(count: int)
    requires
        count <= 0x1_0000_0000,
    ensures
        index_width(count) >= 1,
        count <= pow(256, index_width(count)),
        index_width(count) > 1 ==> count > pow(256, (index_width(count) - 1) as nat),
{
    reveal_with_fuel(pow, 5);
}

/// A plan can be followed exactly if it divides at most 32 bytes among at least one channel, and
/// leaves no less than nothing to roll. What is left to roll is what neither the upstream bytes
/// nor the local ones nor the number of the slot take.
pub proof fn law_plan(plan: SlotPlan, slot: int)
    requires
        0 <= slot < plan.max_channels <= u32::MAX,
    ensures
        plan.feasible() <==> plan.total <= 32 && plan.rollable() >= 0,
        plan.rollable() == plan.total - plan.upstream.len() - plan.local.len() - index_width(
            plan.max_channels,
        ),
        plan.feasible() ==> {
            let up = plan.upstream.len() as int;
            let own = plan.local.len() as int;
            let prefix = plan.extended(slot);
            let whole = plan.standard(slot);
            &&& prefix.len() == plan.total - plan.rollable()
            &&& prefix.take(up) == plan.upstream
            &&& prefix.subrange(up, up + own) == plan.local
            &&& le_value(prefix.skip(up + own).reverse()) == slot
            &&& whole.len() == plan.total
            &&& whole.take(prefix.len() as int) == prefix
            &&& forall|i: int| prefix.len() <= i < whole.len() ==> whole[i] == 0
        },
{
    if plan.feasible() {
        let up = plan.upstream.len() as int;
        let own = plan.local.len() as int;
        let prefix = plan.extended(slot);
        let whole = plan.standard(slot);
        lemma_slot_of_prefix(plan, slot);
        assert(prefix.take(up) =~= plan.upstream);
        assert(prefix.subrange(up, up + own) =~= plan.local);
        assert(prefix.skip(up + own) =~= prefix.subrange(up + own, plan.prefix_len()));
        assert(whole.take(prefix.len() as int) =~= prefix);
    }
}

/// A slot can be taken exactly if fewer prefixes are held than there are slots, and, for an
/// extended channel, if there are as many bytes to roll as it asks for. The new prefix comes
/// last, begins with the upstream and the local bytes, and heads a region that no held prefix
/// reaches: nothing behind it makes what something behind another one makes. A refusal changes
/// nothing.
pub proof fn law_take_standard(
    pool: &mut SlotPool,
    r: Result<Vec<u8>, SlotError>,
    i: int,
    x: Seq<u8>,
    y: Seq<u8>,
)
    requires
        old(pool).wf(),
        call_ensures(SlotPool::take_standard, (pool,), r),
    ensures
        final(pool).plan() == old(pool).plan(),
        r is Ok <==> old(pool).held().len() < old(pool).plan().max_channels,
        r is Err ==> final(pool).held() == old(pool).held(),
        r matches Err(e) ==> e == SlotError::CapacityExhausted,
        r matches Ok(bytes) ==> {
            let plan = old(pool).plan();
            &&& final(pool).held() == old(pool).held().push(bytes@)
            &&& bytes@.len() == plan.total
            &&& plan.upstream + plan.local == bytes@.take(
                (plan.upstream.len() + plan.local.len()) as int,
            )
            &&& 0 <= i < old(pool).held().len() ==> bytes@ + x != old(pool).held()[i] + y
        },
{
    if let Ok(bytes) = r {
        lemma_taken(*old(pool), *final(pool), bytes@, i, x, y);
    }
}

/// The same of a slot for an extended channel.
pub proof fn law_take_extended(
    pool: &mut SlotPool,
    min_rollable: usize,
    r: Result<Vec<u8>, SlotError>,
    i: int,
    x: Seq<u8>,
    y: Seq<u8>,
)
    requires
        old(pool).wf(),
        call_ensures(SlotPool::take_extended, (pool, min_rollable), r),
    ensures
        final(pool).plan() == old(pool).plan(),
        r is Ok <==> old(pool).held().len() < old(pool).plan().max_channels && min_rollable
            <= old(pool).plan().rollable(),
        r is Err ==> final(pool).held() == old(pool).held(),
        r matches Err(e) ==> (e == SlotError::InvalidRollableSize <==> min_rollable > old(
            pool,
        ).plan().rollable()),
        r matches Err(e) ==> (e == SlotError::CapacityExhausted <==> min_rollable <= old(
            pool,
        ).plan().rollable()),
        r matches Ok(bytes) ==> {
            let plan = old(pool).plan();
            &&& final(pool).held() == old(pool).held().push(bytes@)
            &&& bytes@.len() == plan.total - plan.rollable()
            &&& plan.upstream + plan.local == bytes@.take(
                (plan.upstream.len() + plan.local.len()) as int,
            )
            &&& 0 <= i < old(pool).held().len() ==> bytes@ + x != old(pool).held()[i] + y
        },
{
    if let Ok(bytes) = r {
        lemma_taken(*old(pool), *final(pool), bytes@, i, x, y);
    }
}

/// What was just taken heads a region of its own, behind the upstream and the local bytes.
proof fn lemma_taken(
    before: SlotPool,
    after: SlotPool,
    bytes: Seq<u8>,
    i: int,
    x: Seq<u8>,
    y: Seq<u8>,
)
    requires
        before.wf(),
        after.wf(),
        after.plan() == before.plan(),
        after.held() == before.held().push(bytes),
    ensures
        ({
            let plan = before.plan();
            &&& plan.upstream + plan.local == bytes.take(
                (plan.upstream.len() + plan.local.len()) as int,
            )
            &&& 0 <= i < before.held().len() ==> bytes + x != before.held()[i] + y
            &&& bytes == plan.standard(after.slot(after.held().len() - 1)) ==> bytes.len()
                == plan.total
            &&& bytes == plan.extended(after.slot(after.held().len() - 1)) ==> bytes.len()
                == plan.total - plan.rollable()
        }),
{
    let plan = before.plan();
    let last = before.held().len() as int;
    after.lemma_pool();
    assert(after.held()[last] == bytes);
    if 0 <= i < before.held().len() {
        assert(after.held()[i] == before.held()[i]);
        assert(prefix_free(after.held()[last], after.held()[i]));
        let other = before.held()[i];
        lemma_prefix_free_differs(bytes, other);
        let k = choose|k: int| 0 <= k < bytes.len() && k < other.len() && #[trigger] bytes[k] != other[k];
        assert((bytes + x)[k] == bytes[k]);
        assert((other + y)[k] == other[k]);
    }
    lemma_slot_of_prefix(plan, after.slot(last));
    assert(plan.upstream + plan.local =~= bytes.take(
        (plan.upstream.len() + plan.local.len()) as int,
    ));
}

/// Giving a slot back removes its prefix and no other; the others stay in their order.
pub proof fn law_release(pool: &mut SlotPool, index: usize, i: int, r: ())
    requires
        old(pool).wf(),
        index < old(pool).held().len(),
        call_ensures(SlotPool::release, (pool, index), r),
    ensures
        final(pool).plan() == old(pool).plan(),
        final(pool).held().len() == old(pool).held().len() - 1,
        0 <= i < index ==> final(pool).held()[i] == old(pool).held()[i],
        index <= i < final(pool).held().len() ==> final(pool).held()[i] == old(pool).held()[i + 1],
{
}

/// What a pool counts and reports is what it holds and how it was made.
pub proof fn law_report(pool: &SlotPool, count: u32, report: SlotReport)
    requires
        pool.wf(),
        call_ensures(SlotPool::count, (pool,), count),
        call_ensures(SlotPool::report, (pool,), report),
    ensures
        count == pool.held().len(),
        report.count == pool.held().len(),
        report.upstream@ == pool.plan().upstream,
        report.local@ == pool.plan().local,
        report.upstream_len == pool.plan().upstream.len(),
        report.local_len == pool.plan().local.len(),
        report.full_prefix_len == report.upstream_len + report.local_len + report.index_len,
        report.total_len == report.full_prefix_len + report.rollable,
        report.total_len == pool.plan().total,
        report.max_channels == pool.plan().max_channels,
{
}

/// A pool can be opened exactly if the extranonce is at most 32 bytes long, there is to be a
/// channel, and both prefixes and as many bytes as number the channels, one up to 256 of them,
/// two up to 65536 and so on, fit into it. It starts out empty. Of what speaks against it, the
/// length comes first, then the count, then the prefixes.
pub proof fn law_open_pool(
    upstream: Vec<u8>,
    local: Vec<u8>,
    total: u8,
    max_channels: u32,
    r: Result<SlotPool, SlotError>,
)
    requires
        call_ensures(SlotPool::open, (upstream, local, total, max_channels), r),
    ensures
        ({
            let numbered = if max_channels <= 0x100 {
                1int
            } else if max_channels <= 0x1_0000 {
                2
            } else if max_channels <= 0x100_0000 {
                3
            } else {
                4
            };
            let fits = upstream@.len() + local@.len() + numbered <= total;
            &&& r is Ok <==> total <= 32 && max_channels > 0 && fits
            &&& r matches Err(e) ==> e == (if total > 32 {
                SlotError::ExceedsMaxLength
            } else if max_channels == 0 {
                SlotError::ZeroMaxChannels
            } else {
                SlotError::PrefixExceedsTotalLength
            })
            &&& r matches Ok(pool) ==> {
                &&& pool.wf()
                &&& pool.held().len() == 0
                &&& pool.plan().upstream == upstream@
                &&& pool.plan().local == local@
                &&& pool.plan().total == total
                &&& pool.plan().max_channels == max_channels
                &&& pool.plan().rollable() == total - upstream@.len() - local@.len() - numbered
            }
        }),
{
}

/// What is read back of a held prefix is that prefix, its length, and that of the upstream part.
pub proof fn law_prefix(pool: &SlotPool, index: usize, r: (Vec<u8>, usize, u8))
    requires
        pool.wf(),
        index < pool.held().len(),
        call_ensures(SlotPool::prefix, (pool, index), r),
    ensures
        r.0@ == pool.held()[index as int],
        r.1 == r.0@.len(),
        r.2 == pool.plan().upstream.len(),
        r.0@.take(r.2 as int) == pool.plan().upstream,
{
    pool.lemma_pool();
    lemma_slot_of_prefix(pool.plan(), pool.slot(index as int));
    assert(r.0@.take(r.2 as int) =~= pool.plan().upstream);
}

} // verus!
