//! Shares: building them, hashing them, and what must become of them.

use crate::bytes::{cap, le_at_most, same_bytes};
#[allow(unused_imports)]
use crate::bytes::{capped, law_le_value, le, le_value, lemma_zeros_value, zeros};
use crate::merkle::{dsha256, fold_merkle};
#[allow(unused_imports)]
use crate::merkle::{climb, double_sha256, law_merkle_fold, merkle_fold};
use bitcoin::block::{Header, Version};
use bitcoin::hashes::Hash as Digest;
use bitcoin::{BlockHash, CompactTarget, Target, TxMerkleNode};
#[allow(unused_imports)]
use vstd::arithmetic::power::pow;
use vstd::prelude::*;

verus! {

/// The channel that shares are submitted to.
pub const CHANNEL_ID: u32 = 7;

/// The network target in compact form: difficulty one.
pub const NBITS: u32 = 0x1d00_ffff;

/// The version bits that a miner may change where version rolling is allowed.
pub const ROLLING_BITS: u32 = 0x1fff_ffe0;

/// How far the time of a share may be ahead of the earliest, in seconds.
pub const MAX_FUTURE: u32 = 7200;

/// The longest extranonce that a share can carry.
pub const MAX_SHARE_EXTRANONCE: usize = 32;

/// A job that shares are submitted for.
pub struct Job {
    pub job_id: u32,
    pub version: u32,
    pub prefix: Vec<u8>,
    pub suffix: Vec<u8>,
    pub path: Vec<[u8; 32]>,
    pub extranonce_prefix: Vec<u8>,
    /// How many bytes of extranonce a share carries.
    pub rollable: usize,
    /// The target, least significant byte first.
    pub target: [u8; 32],
    pub prev_hash: [u8; 32],
    pub min_ntime: u32,
    pub version_rolling_allowed: bool,
}

/// A share, as it is submitted.
pub struct Share {
    pub sequence_number: u32,
    pub job_id: u32,
    pub nonce: u32,
    pub ntime: u32,
    pub version: u32,
    pub extranonce: Vec<u8>,
}

/// The same, with the extranonce as a sequence.
pub struct ShareView {
    pub sequence_number: u32,
    pub job_id: u32,
    pub nonce: u32,
    pub ntime: u32,
    pub version: u32,
    pub extranonce: Seq<u8>,
}

impl View for Share {
    type V = ShareView;

    open spec fn view(&self) -> ShareView {
        ShareView {
            sequence_number: self.sequence_number,
            job_id: self.job_id,
            nonce: self.nonce,
            ntime: self.ntime,
            version: self.version,
            extranonce: self.extranonce@,
        }
    }
}

/// How a share is derived from a job.
pub struct ShareInput {
    pub nonce: u32,
    /// How far its time is from the earliest.
    pub ntime_offset: i16,
    /// What is flipped in the version, as far as `version_mode` lets it.
    pub version_xor: u32,
    /// Modulo three, 0: nothing, 1: only bits that a miner may change, 2: any bits.
    pub version_mode: u8,
    pub sequence_number: u32,
    pub extranonce: Vec<u8>,
    pub wrong_job_id: bool,
    pub wrong_extranonce_len: bool,
    /// Submit the share before this one again.
    pub repeat_previous: bool,
}

/// Reads `VERSION_ROLLING_MASK` of `channels_sv2`.
#[verifier::external_body]
fn version_rolling_mask() -> (r: u32)
    ensures
        r == ROLLING_BITS,
{
    channels_sv2::VERSION_ROLLING_MASK
}

/// Reads `MAX_FUTURE_BLOCK_TIME` of `channels_sv2`.
#[verifier::external_body]
fn max_future_block_time() -> (r: u32)
    ensures
        r == MAX_FUTURE,
{
    channels_sv2::MAX_FUTURE_BLOCK_TIME
}

/// The network target, least significant byte first: 0xffff and 26 zero bytes below.
pub open spec fn network_target_bytes() -> Seq<u8> {
    zeros(26) + seq![0xffu8, 0xffu8] + zeros(4)
}

/// How many bytes a target has that is given in compact form, with the zero bytes that its
/// mantissa stands in front of.
pub open spec fn compact_len(bits: u32) -> int {
    bits as int / 0x100_0000
}

/// The mantissa of a target that is given in compact form.
pub open spec fn compact_mantissa(bits: u32) -> int {
    bits as int % 0x100_0000
}

/// Calls `Target::from_compact` of `bitcoin`. The compact form is a mantissa of three bytes,
/// which is not negative, and how long the target is with the zero bytes below. Shorter
/// targets, which lose part of the mantissa, and longer ones are left out.
#[verifier::external_body]
fn from_compact(bits: u32) -> (r: [u8; 32])
    requires
        3 <= compact_len(bits) <= 32,
        compact_mantissa(bits) < 0x80_0000,
    ensures
        r@ == zeros((compact_len(bits) - 3) as nat) + le(compact_mantissa(bits), 3) + zeros(
            (32 - compact_len(bits)) as nat,
        ),
{
    Target::from_compact(CompactTarget::from_consensus(bits)).to_le_bytes()
}

/// The network target that [`NBITS`] stands for.
pub(crate) fn network_target() -> (r: [u8; 32])
    ensures
        r@ == network_target_bytes(),
{
    let r = from_compact(NBITS);
    proof {
        reveal_with_fuel(le, 4);
        assert(r@ =~= network_target_bytes());
    }
    r
}

/// The wire format of a block header.
pub open spec fn header_bytes(
    version: u32,
    prev_hash: Seq<u8>,
    root: Seq<u8>,
    time: u32,
    bits: u32,
    nonce: u32,
) -> Seq<u8> {
    le(version as int, 4) + prev_hash + root + le(time as int, 4) + le(bits as int, 4) + le(
        nonce as int,
        4,
    )
}

/// Calls `Header::block_hash` of `bitcoin`: the double hash of the wire format of the
/// header.
#[verifier::external_body]
fn block_hash(
    version: u32,
    prev_hash: [u8; 32],
    root: [u8; 32],
    time: u32,
    bits: u32,
    nonce: u32,
) -> (r: [u8; 32])
    ensures
        r@ == double_sha256(header_bytes(version, prev_hash@, root@, time, bits, nonce)),
{
    Header {
        version: Version::from_consensus(version as i32),
        prev_blockhash: BlockHash::from_byte_array(prev_hash),
        merkle_root: TxMerkleNode::from_byte_array(root),
        time,
        bits: CompactTarget::from_consensus(bits),
        nonce,
    }.block_hash().to_byte_array()
}

/// The coinbase transaction of a share.
pub open spec fn share_coinbase(job: Job, share: ShareView) -> Seq<u8> {
    job.prefix@ + job.extranonce_prefix@ + share.extranonce + job.suffix@
}

/// The hash of the block header of a share.
pub open spec fn hash_of(job: Job, share: ShareView) -> Seq<u8> {
    double_sha256(
        header_bytes(
            share.version,
            job.prev_hash@,
            merkle_fold(double_sha256(share_coinbase(job, share)), job.path@),
            share.ntime,
            NBITS,
            share.nonce,
        ),
    )
}

/// The hash of the block header of a share, put together from the job and the share.
pub fn share_hash(job: &Job, share: &Share) -> (r: [u8; 32])
    ensures
        r@ == hash_of(*job, share@),
{
    let mut coinbase: Vec<u8> = Vec::new();
    coinbase.extend_from_slice(job.prefix.as_slice());
    coinbase.extend_from_slice(job.extranonce_prefix.as_slice());
    coinbase.extend_from_slice(share.extranonce.as_slice());
    coinbase.extend_from_slice(job.suffix.as_slice());
    assert(coinbase@ =~= share_coinbase(*job, share@));
    let root = fold_merkle(dsha256(coinbase.as_slice()), job.path.as_slice());
    block_hash(share.version, job.prev_hash, root, share.ntime, NBITS, share.nonce)
}

/// The bytes `v`, cut or filled up with zeros to be `n` long.
pub open spec fn resized(v: Seq<u8>, n: int) -> Seq<u8> {
    if v.len() < n {
        v + zeros((n - v.len()) as nat)
    } else {
        v.take(n)
    }
}

/// The extranonce of a share: as long as the job says, or, on purpose, one byte longer
/// (or shorter, if it cannot be longer).
pub open spec fn share_extranonce(rollable: int, input: ShareInput) -> Seq<u8> {
    let right = resized(capped(input.extranonce@, MAX_SHARE_EXTRANONCE as int), rollable);
    if !input.wrong_extranonce_len {
        right
    } else if rollable < MAX_SHARE_EXTRANONCE {
        right.push(0)
    } else {
        right.drop_last()
    }
}

/// The version of a share.
pub open spec fn share_version(version: u32, input: ShareInput) -> u32 {
    if input.version_mode % 3 == 0 {
        version
    } else if input.version_mode % 3 == 1 {
        version ^ (input.version_xor & ROLLING_BITS)
    } else {
        version ^ input.version_xor
    }
}

/// `value` modulo 2 to the power of 32.
pub open spec fn wrapped(value: int) -> u32 {
    (value % 0x1_0000_0000) as u32
}

/// The share that an input describes: the one before, if there is one and the input
/// says so, and one derived from the job otherwise.
pub open spec fn described(
    job: Job,
    input: ShareInput,
    previous: Option<ShareView>,
) -> ShareView {
    if previous is Some && input.repeat_previous {
        previous->0
    } else {
        ShareView {
            sequence_number: input.sequence_number,
            job_id: if input.wrong_job_id {
                wrapped(job.job_id + 1)
            } else {
                job.job_id
            },
            nonce: input.nonce,
            ntime: wrapped(job.min_ntime + input.ntime_offset),
            version: share_version(job.version, input),
            extranonce: share_extranonce(job.rollable as int, input),
        }
    }
}

/// The extranonce that an input describes.
fn build_extranonce(rollable: usize, input: &ShareInput) -> (r: Vec<u8>)
    requires
        rollable <= MAX_SHARE_EXTRANONCE,
    ensures
        r@ == share_extranonce(rollable as int, *input),
        r@.len() <= MAX_SHARE_EXTRANONCE,
{
    let mut extranonce = cap(input.extranonce.as_slice(), MAX_SHARE_EXTRANONCE);
    let ghost given = extranonce@;
    extranonce.resize(rollable, 0);
    assert(extranonce@ =~= resized(given, rollable as int));
    if input.wrong_extranonce_len {
        if extranonce.len() < MAX_SHARE_EXTRANONCE {
            extranonce.push(0);
        } else {
            extranonce.pop();
        }
    }
    extranonce
}

/// Builds the share that an input describes for the first time.
fn derive_share(job: &Job, input: &ShareInput) -> (r: Share)
    requires
        job.rollable <= MAX_SHARE_EXTRANONCE,
    ensures
        r@ == described(*job, *input, None),
        r@.extranonce.len() <= MAX_SHARE_EXTRANONCE,
{
    let version: u32 = match input.version_mode % 3 {
        0 => job.version,
        1 => job.version ^ (input.version_xor & version_rolling_mask()),
        _ => job.version ^ input.version_xor,
    };
    let ntime: u32 = job.min_ntime.wrapping_add_signed(input.ntime_offset as i32);
    Share {
        sequence_number: input.sequence_number,
        job_id: if input.wrong_job_id {
            job.job_id.wrapping_add(1)
        } else {
            job.job_id
        },
        nonce: input.nonce,
        ntime,
        version,
        extranonce: build_extranonce(job.rollable, input),
    }
}

/// A copy of a share.
pub(crate) fn copy_share(share: &Share) -> (r: Share)
    ensures
        r@ == share@,
{
    Share {
        sequence_number: share.sequence_number,
        job_id: share.job_id,
        nonce: share.nonce,
        ntime: share.ntime,
        version: share.version,
        extranonce: vstd::slice::slice_to_vec(share.extranonce.as_slice()),
    }
}

/// Builds the share that an input describes.
pub fn build_share(job: &Job, input: &ShareInput, previous: Option<&Share>) -> (r: Share)
    requires
        job.rollable <= MAX_SHARE_EXTRANONCE,
        previous matches Some(share) ==> share@.extranonce.len() <= MAX_SHARE_EXTRANONCE,
    ensures
        r@ == described(
            *job,
            *input,
            match previous {
                Some(share) => Some(share@),
                None => None,
            },
        ),
        r@.extranonce.len() <= MAX_SHARE_EXTRANONCE,
{
    match previous {
        Some(share) => if input.repeat_previous {
            copy_share(share)
        } else {
            derive_share(job, input)
        },
        None => derive_share(job, input),
    }
}

/// Why a share must be refused.
#[derive(Clone, Copy, Debug, PartialEq, Eq, Structural)]
pub enum Reason {
    InvalidJobId,
    BadExtranonceSize,
    InvalidShare,
    VersionRollingNotAllowed,
    InvalidVersionBit,
    DifficultyTooLow,
}

impl Reason {
    /// The error code for this reason.
    pub open spec fn text(self) -> Seq<char> {
        match self {
            Reason::InvalidJobId => "invalid-job-id"@,
            Reason::BadExtranonceSize => "bad-extranonce-size"@,
            Reason::InvalidShare => "invalid-share"@,
            Reason::VersionRollingNotAllowed => "version-rolling-not-allowed"@,
            Reason::InvalidVersionBit => "invalid-non-rollable-version-bit"@,
            Reason::DifficultyTooLow => "difficulty-too-low"@,
        }
    }

    /// The error code for this reason.
    pub fn code(&self) -> (r: &'static str)
        ensures
            r@ == self.text(),
    {
        match self {
            Reason::InvalidJobId => "invalid-job-id",
            Reason::BadExtranonceSize => "bad-extranonce-size",
            Reason::InvalidShare => "invalid-share",
            Reason::VersionRollingNotAllowed => "version-rolling-not-allowed",
            Reason::InvalidVersionBit => "invalid-non-rollable-version-bit",
            Reason::DifficultyTooLow => "difficulty-too-low",
        }
    }

    /// The reason applies to a share, whatever its hash is.
    pub open spec fn applies(self, job: Job, share: ShareView) -> bool {
        match self {
            Reason::InvalidJobId => share.job_id != job.job_id,
            Reason::BadExtranonceSize => share.extranonce.len() != job.rollable,
            Reason::InvalidShare => share.ntime < job.min_ntime || (share.ntime > job.min_ntime
                + MAX_FUTURE && job.min_ntime + MAX_FUTURE <= u32::MAX),
            Reason::VersionRollingNotAllowed => share.version != job.version
                && !job.version_rolling_allowed,
            Reason::InvalidVersionBit => share.version != job.version
                && job.version_rolling_allowed && share.version & !ROLLING_BITS != job.version
                & !ROLLING_BITS,
            Reason::DifficultyTooLow => false,
        }
    }
}

/// What must become of a share.
#[derive(Clone, Copy, Debug, PartialEq, Eq, Structural)]
pub enum Expected {
    /// It is accepted; it solves a block if `block` is set.
    Accept { block: bool },
    /// It is refused because it was accepted before.
    Duplicate,
    /// It is refused for one of several reasons.
    Reject,
    /// It is refused for this reason.
    RejectExactly(Reason),
}

/// No reason to refuse a share applies, whatever its hash is.
pub open spec fn well_formed(job: Job, share: ShareView) -> bool {
    forall|reason: Reason| !#[trigger] reason.applies(job, share)
}

/// The hash of a share is at most its target.
pub open spec fn meets_job(job: Job, share: ShareView) -> bool {
    le_value(hash_of(job, share)) <= le_value(job.target@)
}

/// The hash of a share is at most the network target.
pub open spec fn meets_network(job: Job, share: ShareView) -> bool {
    le_value(hash_of(job, share)) <= le_value(network_target_bytes())
}

/// `verdict` is what must become of a share, after shares with the hashes `accepted` were
/// accepted. If reasons to refuse it apply, it is refused: exactly for that reason if
/// there is one, and for any if there are several. Otherwise its hash decides.
pub open spec fn is_verdict(
    job: Job,
    share: ShareView,
    accepted: Seq<[u8; 32]>,
    verdict: Expected,
) -> bool {
    let good = meets_job(job, share) || meets_network(job, share);
    let known = exists|i: int|
        0 <= i < accepted.len() && (#[trigger] accepted[i])@ == hash_of(job, share);
    match verdict {
        Expected::Reject => exists|a: Reason, b: Reason|
            a != b && #[trigger] a.applies(job, share) && #[trigger] b.applies(job, share),
        Expected::RejectExactly(Reason::DifficultyTooLow) => well_formed(job, share) && !good,
        Expected::RejectExactly(reason) => {
            &&& reason.applies(job, share)
            &&& forall|other: Reason| #[trigger] other.applies(job, share) ==> other == reason
        },
        Expected::Duplicate => well_formed(job, share) && good && known,
        Expected::Accept { block } => {
            &&& well_formed(job, share)
            &&& good
            &&& !known
            &&& block == meets_network(job, share)
        },
    }
}

/// Every share has exactly one verdict.
pub proof fn lemma_verdict_unique(
    job: Job,
    share: ShareView,
    accepted: Seq<[u8; 32]>,
    a: Expected,
    b: Expected,
)
    requires
        is_verdict(job, share, accepted, a),
        is_verdict(job, share, accepted, b),
    ensures
        a == b,
{
}

/// Whether a hash is among others.
fn contains_hash(hashes: &Vec<[u8; 32]>, hash: &[u8; 32]) -> (r: bool)
    ensures
        r == exists|i: int| 0 <= i < hashes@.len() && (#[trigger] hashes@[i])@ == hash@,
{
    let mut i: usize = 0;
    while i < hashes.len()
        invariant
            i <= hashes@.len(),
            forall|j: int| 0 <= j < i ==> (#[trigger] hashes@[j])@ != hash@,
        decreases hashes@.len() - i,
    {
        if same_bytes(hashes[i].as_slice(), hash.as_slice()) {
            assert(hashes@[i as int]@ == hash@);
            return true;
        }
        i += 1;
    }
    false
}

/// Decides what must become of a share, from the job and the hashes of the shares that
/// were accepted before.
pub fn expected_verdict(job: &Job, share: &Share, accepted: &Vec<[u8; 32]>) -> (r: Expected)
    ensures
        is_verdict(*job, share@, accepted@, r),
{
    let latest: u32 = job.min_ntime.saturating_add(max_future_block_time());
    let fixed: u32 = !version_rolling_mask();
    let invalid_job_id = share.job_id != job.job_id;
    let bad_extranonce_size = share.extranonce.len() != job.rollable;
    let invalid_share = share.ntime < job.min_ntime || share.ntime > latest;
    let rolling_not_allowed = share.version != job.version && !job.version_rolling_allowed;
    let invalid_version_bit = share.version != job.version && job.version_rolling_allowed && (
    share.version & fixed) != (job.version & fixed);
    proof {
        assert(invalid_job_id == Reason::InvalidJobId.applies(*job, share@));
        assert(bad_extranonce_size == Reason::BadExtranonceSize.applies(*job, share@));
        assert(invalid_share == Reason::InvalidShare.applies(*job, share@));
        assert(rolling_not_allowed == Reason::VersionRollingNotAllowed.applies(*job, share@));
        assert(invalid_version_bit == Reason::InvalidVersionBit.applies(*job, share@));
        assert(!Reason::DifficultyTooLow.applies(*job, share@));
    }
    let mut reason: Option<Reason> = None;
    if invalid_job_id {
        reason = Some(Reason::InvalidJobId);
    }
    if bad_extranonce_size {
        if reason.is_some() {
            return Expected::Reject;
        }
        reason = Some(Reason::BadExtranonceSize);
    }
    if invalid_share {
        if reason.is_some() {
            return Expected::Reject;
        }
        reason = Some(Reason::InvalidShare);
    }
    if rolling_not_allowed {
        if reason.is_some() {
            return Expected::Reject;
        }
        reason = Some(Reason::VersionRollingNotAllowed);
    }
    if invalid_version_bit {
        if reason.is_some() {
            return Expected::Reject;
        }
        reason = Some(Reason::InvalidVersionBit);
    }
    if let Some(reason) = reason {
        return Expected::RejectExactly(reason);
    }
    let hash = share_hash(job, share);
    let network = network_target();
    let for_job = le_at_most(hash.as_slice(), job.target.as_slice());
    let for_network = le_at_most(hash.as_slice(), network.as_slice());
    if !for_job && !for_network {
        Expected::RejectExactly(Reason::DifficultyTooLow)
    } else if contains_hash(accepted, &hash) {
        Expected::Duplicate
    } else {
        Expected::Accept { block: for_network }
    }
}

/// The network target is 0xffff times the 26th power of 256.
pub proof fn law_network_target()
    ensures
        le_value(network_target_bytes()) == 0xffff * pow(256, 26),
{
    reveal(pow);
    let a = zeros(26);
    let b = a.push(0xff);
    let c = b.push(0xff);
    let d = c.push(0);
    let e = d.push(0);
    let f = e.push(0);
    let g = f.push(0);
    assert(g =~= network_target_bytes());
    lemma_zeros_value(26);
    law_le_value(a, 0xff);
    law_le_value(b, 0xff);
    law_le_value(c, 0);
    law_le_value(d, 0);
    law_le_value(e, 0);
    law_le_value(f, 0);
    assert(pow(256, 27) == 256 * pow(256, 26));
}

/// The hash of a share is the double hash of its block header of 80 bytes. The header holds,
/// in this order, the version, the hash of the block before, the Merkle root, the time, the
/// compact target of difficulty one and the nonce. The root is the top of the climb along the
/// path of the job from the double hash of the coinbase transaction: the prefix of the job,
/// both parts of the extranonce, and the suffix.
pub proof fn law_share_hash(job: &Job, share: &Share, roots: Seq<Seq<u8>>, r: [u8; 32])
    requires
        call_ensures(share_hash, (job, share), r),
        climb(
            double_sha256(
                job.prefix@ + job.extranonce_prefix@ + share.extranonce@ + job.suffix@,
            ),
            job.path@,
            roots,
        ),
    ensures
        r@ == double_sha256(
            le(share.version as int, 4) + job.prev_hash@ + roots.last() + le(
                share.ntime as int,
                4,
            ) + le(0x1d00_ffff, 4) + le(share.nonce as int, 4),
        ),
{
    law_merkle_fold(
        double_sha256(job.prefix@ + job.extranonce_prefix@ + share.extranonce@ + job.suffix@),
        job.path@,
        roots,
    );
}

/// What must become of a share follows from how many reasons there are to refuse it, and, if
/// there are none, from the number that its hash spells. It is accepted if the number is at
/// most the target of the job or the network target, unless its hash was accepted before. It
/// solves a block exactly if the number is at most the network target, whatever the target of
/// the job is.
pub proof fn law_verdict(
    job: &Job,
    share: &Share,
    accepted: &Vec<[u8; 32]>,
    hash: [u8; 32],
    verdict: Expected,
)
    requires
        call_ensures(expected_verdict, (job, share, accepted), verdict),
        call_ensures(share_hash, (job, share), hash),
    ensures
        ({
            let job_id = share.job_id != job.job_id;
            let size = share.extranonce@.len() != job.rollable;
            let time = share.ntime < job.min_ntime || share.ntime > job.min_ntime + 7200;
            let rolled = share.version != job.version && !job.version_rolling_allowed;
            let fixed = (share.version ^ job.version) & 0xe000_001f != 0
                && job.version_rolling_allowed;
            let one = |reason: bool|
                if reason {
                    1int
                } else {
                    0
                };
            let count = one(job_id) + one(size) + one(time) + one(rolled) + one(fixed);
            let number = le_value(hash@);
            let for_job = number <= le_value(job.target@);
            let for_network = number <= 0xffff * pow(256, 26);
            let known = exists|i: int|
                0 <= i < accepted@.len() && (#[trigger] accepted@[i])@ == hash@;
            &&& verdict == Expected::Reject <==> count >= 2
            &&& verdict == Expected::RejectExactly(Reason::InvalidJobId) <==> count == 1 && job_id
            &&& verdict == Expected::RejectExactly(Reason::BadExtranonceSize) <==> count == 1
                && size
            &&& verdict == Expected::RejectExactly(Reason::InvalidShare) <==> count == 1 && time
            &&& verdict == Expected::RejectExactly(Reason::VersionRollingNotAllowed) <==> count
                == 1 && rolled
            &&& verdict == Expected::RejectExactly(Reason::InvalidVersionBit) <==> count == 1
                && fixed
            &&& verdict == Expected::RejectExactly(Reason::DifficultyTooLow) <==> count == 0
                && !for_job && !for_network
            &&& verdict == Expected::Duplicate <==> count == 0 && (for_job || for_network) && known
            &&& verdict == (Expected::Accept { block: true }) <==> count == 0 && for_network
                && !known
            &&& verdict == (Expected::Accept { block: false }) <==> count == 0 && for_job
                && !for_network && !known
        }),
{
    law_network_target();
    let x = share.version;
    let y = job.version;
    assert((x & !0x1fff_ffe0u32) != (y & !0x1fff_ffe0u32) <==> (x ^ y) & 0xe000_001f != 0)
        by (bit_vector);
    assert((x ^ y) & 0xe000_001f != 0 ==> x != y) by (bit_vector);
    let a = Reason::InvalidJobId.applies(*job, share@);
    let b = Reason::BadExtranonceSize.applies(*job, share@);
    let c = Reason::InvalidShare.applies(*job, share@);
    let d = Reason::VersionRollingNotAllowed.applies(*job, share@);
    let e = Reason::InvalidVersionBit.applies(*job, share@);
    assert(!Reason::DifficultyTooLow.applies(*job, share@));
    assert(!a && !b && !c && !d && !e ==> well_formed(*job, share@)) by {
        if !a && !b && !c && !d && !e {
            assert forall|reason: Reason| !#[trigger] reason.applies(*job, share@) by {
                match reason {
                    Reason::InvalidJobId => {},
                    Reason::BadExtranonceSize => {},
                    Reason::InvalidShare => {},
                    Reason::VersionRollingNotAllowed => {},
                    Reason::InvalidVersionBit => {},
                    Reason::DifficultyTooLow => {},
                }
            }
        }
    }
}

/// Whether an accepted share solves a block does not depend on the target of the job: of two
/// jobs that differ in nothing else, both accept the same share with the same flag.
pub proof fn law_block_whatever_target(
    job: &Job,
    other: &Job,
    share: &Share,
    accepted: &Vec<[u8; 32]>,
    hash: [u8; 32],
    other_hash: [u8; 32],
    block: bool,
    other_block: bool,
)
    requires
        other.job_id == job.job_id,
        other.version == job.version,
        other.prefix@ == job.prefix@,
        other.suffix@ == job.suffix@,
        other.path@ == job.path@,
        other.extranonce_prefix@ == job.extranonce_prefix@,
        other.rollable == job.rollable,
        other.prev_hash@ == job.prev_hash@,
        other.min_ntime == job.min_ntime,
        other.version_rolling_allowed == job.version_rolling_allowed,
        call_ensures(share_hash, (job, share), hash),
        call_ensures(share_hash, (other, share), other_hash),
        call_ensures(expected_verdict, (job, share, accepted), Expected::Accept { block }),
        call_ensures(
            expected_verdict,
            (other, share, accepted),
            Expected::Accept { block: other_block },
        ),
    ensures
        hash@ == other_hash@,
        block == other_block,
        block == (le_value(hash@) <= 0xffff * pow(256, 26)),
{
    law_verdict(job, share, accepted, hash, Expected::Accept { block });
    law_verdict(other, share, accepted, other_hash, Expected::Accept { block: other_block });
}

/// A harder target never turns a refused share into an accepted one, and an easier one never
/// the other way.
pub proof fn law_easier_accepts(
    job: &Job,
    easier: &Job,
    share: &Share,
    accepted: &Vec<[u8; 32]>,
    hash: [u8; 32],
    easier_hash: [u8; 32],
    verdict: Expected,
    easier_verdict: Expected,
)
    requires
        *easier == (Job { target: easier.target, ..*job }),
        le_value(job.target@) <= le_value(easier.target@),
        call_ensures(share_hash, (job, share), hash),
        call_ensures(share_hash, (easier, share), easier_hash),
        call_ensures(expected_verdict, (job, share, accepted), verdict),
        call_ensures(expected_verdict, (easier, share, accepted), easier_verdict),
    ensures
        verdict is Accept ==> easier_verdict == verdict,
        easier_verdict != verdict ==> verdict == Expected::RejectExactly(Reason::DifficultyTooLow),
{
    law_verdict(job, share, accepted, hash, verdict);
    law_verdict(easier, share, accepted, easier_hash, easier_verdict);
}

/// Each reason has the error code that the protocol gives it.
pub proof fn law_reason_code(reason: &Reason, r: &'static str)
    requires
        call_ensures(Reason::code, (reason,), r),
    ensures
        match *reason {
            Reason::InvalidJobId => r@ == "invalid-job-id"@,
            Reason::BadExtranonceSize => r@ == "bad-extranonce-size"@,
            Reason::InvalidShare => r@ == "invalid-share"@,
            Reason::VersionRollingNotAllowed => r@ == "version-rolling-not-allowed"@,
            Reason::InvalidVersionBit => r@ == "invalid-non-rollable-version-bit"@,
            Reason::DifficultyTooLow => r@ == "difficulty-too-low"@,
        },
{
}

/// A share that repeats the one before is that share. Any other is derived from the job: its
/// time is off by the offset, around the end of the range if need be; its version differs from
/// that of the job in nothing, in bits that a miner may change, or in any bits, as the mode
/// says; its extranonce is what was given, filled up with zeros, and has the length that the
/// job asks for, or another one if the input says so.
pub proof fn law_build_share(job: &Job, input: &ShareInput, previous: Option<&Share>, r: Share)
    requires
        job.rollable <= 32,
        call_ensures(build_share, (job, input, previous), r),
    ensures
        previous matches Some(share) ==> (input.repeat_previous ==> r@ == share@),
        previous is None || !input.repeat_previous ==> {
            &&& r.sequence_number == input.sequence_number
            &&& r.nonce == input.nonce
            &&& !input.wrong_job_id ==> r.job_id == job.job_id
            &&& input.wrong_job_id ==> r.job_id == job.job_id + 1 || (r.job_id == 0 && job.job_id
                == u32::MAX)
            &&& (r.ntime - job.min_ntime - input.ntime_offset) % 0x1_0000_0000 == 0
            &&& input.version_mode % 3 == 0 ==> r.version == job.version
            &&& input.version_mode % 3 == 1 ==> (r.version ^ job.version) == (input.version_xor
                & 0x1fff_ffe0)
            &&& input.version_mode % 3 == 2 ==> (r.version ^ job.version) == input.version_xor
            &&& !input.wrong_extranonce_len ==> r.extranonce@.len() == job.rollable
            &&& input.wrong_extranonce_len && job.rollable < 32 ==> r.extranonce@.len()
                == job.rollable + 1
            &&& input.wrong_extranonce_len && job.rollable == 32 ==> r.extranonce@.len() == 31
            &&& forall|i: int|
                0 <= i < r.extranonce@.len() ==> r.extranonce@[i] == (if i
                    < input.extranonce@.len() && i < job.rollable {
                    input.extranonce@[i]
                } else {
                    0
                })
        },
{
    let v = job.version;
    let x = input.version_xor;
    assert((v ^ (x & 0x1fff_ffe0)) ^ v == x & 0x1fff_ffe0) by (bit_vector);
    assert((v ^ x) ^ v == x) by (bit_vector);
    if previous is None || !input.repeat_previous {
        let right = resized(
            capped(input.extranonce@, MAX_SHARE_EXTRANONCE as int),
            job.rollable as int,
        );
        assert forall|i: int| 0 <= i < right.len() implies right[i] == (if i
            < input.extranonce@.len() {
            input.extranonce@[i]
        } else {
            0
        }) by {}
        assert forall|i: int| 0 <= i < r.extranonce@.len() implies r.extranonce@[i] == (if i
            < input.extranonce@.len() && i < job.rollable {
            input.extranonce@[i]
        } else {
            0
        }) by {}
    }
}

} // verus!
