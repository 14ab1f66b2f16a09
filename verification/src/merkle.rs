//! Merkle roots of coinbase transactions that are cut around an extranonce.

use crate::bytes::{cap, join, same_bytes};
#[allow(unused_imports)]
use crate::bytes::{capped, le, lemma_le_len, zeros};
#[allow(unused_imports)]
use crate::rules::{decides, Rule};
use bitcoin::absolute::LockTime;
use bitcoin::hashes::{sha256d, Hash as Digest};
use bitcoin::transaction::{OutPoint, TxIn, TxOut, Version};
use bitcoin::{Amount, ScriptBuf, Sequence, Transaction, Txid, Witness};
use vstd::prelude::*;

verus! {

/// No amount reaches this many satoshis.
pub const MAX_MONEY: u64 = 2_100_000_000_000_000;

/// SHA-256 applied twice.
pub uninterp spec fn double_sha256(bytes: Seq<u8>) -> Seq<u8>;

/// The transaction id of the coinbase transaction that `bytes` encode; none if
/// they encode no transaction, or one that is not a coinbase.
pub uninterp spec fn coinbase_id(bytes: Seq<u8>) -> Option<Seq<u8>>;

/// Calls `bitcoin::hashes::sha256d::Hash::hash`, which depends on the bytes
/// alone and returns 32 bytes.
#[verifier::external_body]
pub(crate) fn dsha256(bytes: &[u8]) -> (r: [u8; 32])
    ensures
        r@ == double_sha256(bytes@),
{
    sha256d::Hash::hash(bytes).to_byte_array()
}

/// The root reached from `root` by hashing in the nodes of `path` one by one.
pub open spec fn merkle_fold(root: Seq<u8>, path: Seq<[u8; 32]>) -> Seq<u8>
    decreases path.len(),
{
    if path.len() == 0 {
        root
    } else {
        double_sha256(merkle_fold(root, path.drop_last()) + path.last()@)
    }
}

/// The Merkle root reached from `root` along `path`.
pub fn fold_merkle(root: [u8; 32], path: &[[u8; 32]]) -> (r: [u8; 32])
    ensures
        r@ == merkle_fold(root@, path@),
{
    let mut r: [u8; 32] = root;
    let mut i: usize = 0;
    assert(path@.take(0) =~= Seq::<[u8; 32]>::empty());
    while i < path.len()
        invariant
            i <= path.len(),
            r@ == merkle_fold(root@, path@.take(i as int)),
        decreases path.len() - i,
    {
        proof {
            assert(path@.take(i + 1).drop_last() =~= path@.take(i as int));
            assert(path@.take(i + 1).last() == path@[i as int]);
        }
        r = dsha256(join(r.as_slice(), path[i].as_slice()).as_slice());
        i += 1;
    }
    assert(path@.take(i as int) =~= path@);
    r
}

/// A transaction output.
pub struct Output {
    pub value: u64,
    pub script: Vec<u8>,
}

/// A transaction with one input, which has no witness and spends output `vout` of
/// transaction `txid`. It is a coinbase exactly if `txid` is zero and `vout` is
/// `u32::MAX`.
pub struct CoinbaseTx {
    pub version: i32,
    pub txid: [u8; 32],
    pub vout: u32,
    pub script_sig: Vec<u8>,
    pub sequence: u32,
    pub outputs: Vec<Output>,
    pub lock_time: u32,
}

/// The amounts and scripts of a list of outputs.
pub open spec fn outputs_view(outputs: Seq<Output>) -> Seq<(u64, Seq<u8>)> {
    Seq::new(outputs.len(), |i: int| (outputs[i].value, outputs[i].script@))
}

/// The wire format of a list of outputs whose scripts are shorter than 253
/// bytes.
pub open spec fn outputs_bytes(outputs: Seq<(u64, Seq<u8>)>) -> Seq<u8>
    decreases outputs.len(),
{
    if outputs.len() == 0 {
        Seq::empty()
    } else {
        outputs_bytes(outputs.drop_last()) + le(outputs.last().0 as int, 8)
            + seq![outputs.last().1.len() as u8] + outputs.last().1
    }
}

/// The wire format of a transaction with one input: version, the input (outpoint, script,
/// sequence), the outputs, and the lock time. The script and the output scripts are
/// shorter than 253 bytes, and there are fewer than 253 outputs.
pub open spec fn tx_bytes(
    version: i32,
    txid: Seq<u8>,
    vout: u32,
    script: Seq<u8>,
    sequence: u32,
    outputs: Seq<(u64, Seq<u8>)>,
    lock_time: u32,
) -> Seq<u8> {
    le(version as int, 4) + seq![1u8] + txid + le(vout as int, 4) + seq![script.len() as u8]
        + script + le(sequence as int, 4) + seq![outputs.len() as u8] + outputs_bytes(outputs)
        + le(lock_time as int, 4)
}

impl CoinbaseTx {
    /// Every length fits the one-byte form of a variable-length integer.
    pub open spec fn short(self) -> bool {
        &&& self.script_sig@.len() < 253
        &&& self.outputs@.len() < 253
        &&& forall|i: int|
            0 <= i < self.outputs@.len() ==> (#[trigger] self.outputs@[i]).script@.len() < 253
    }

    /// The wire format.
    pub open spec fn bytes(self) -> Seq<u8> {
        tx_bytes(
            self.version,
            self.txid@,
            self.vout,
            self.script_sig@,
            self.sequence,
            outputs_view(self.outputs@),
            self.lock_time,
        )
    }

    /// The outpoint of the input is the null one.
    pub open spec fn is_coinbase(self) -> bool {
        self.txid@ == zeros(32) && self.vout == u32::MAX
    }
}

/// A coinbase transaction with the given input script and outputs, the final sequence
/// number, and lock time zero.
pub fn coinbase_tx(version: i32, script_sig: Vec<u8>, outputs: Vec<Output>) -> (r: CoinbaseTx)
    ensures
        r.version == version,
        r.is_coinbase(),
        r.script_sig@ == script_sig@,
        r.sequence == u32::MAX,
        r.outputs@ == outputs@,
        r.lock_time == 0,
{
    let txid: [u8; 32] = [0u8; 32];
    assert(txid@ =~= zeros(32));
    CoinbaseTx {
        version,
        txid,
        vout: u32::MAX,
        script_sig,
        sequence: u32::MAX,
        outputs,
        lock_time: 0,
    }
}

/// Calls `bitcoin::consensus::serialize` on the transaction with the given fields. The
/// result is its wire format. Decoding the result gives the transaction back, so its id is
/// the double hash of the result, and it is a coinbase exactly if its outpoint is the null
/// one.
#[verifier::external_body]
fn serialize(tx: &CoinbaseTx) -> (r: Vec<u8>)
    requires
        tx.short(),
    ensures
        r@ == tx.bytes(),
        coinbase_id(r@) == (if tx.is_coinbase() {
            Some(double_sha256(r@))
        } else {
            None
        }),
{
    let previous_output = OutPoint { txid: Txid::from_byte_array(tx.txid), vout: tx.vout };
    let (script_sig, sequence) = (ScriptBuf::from_bytes(tx.script_sig.clone()), Sequence(tx.sequence));
    let input = vec![TxIn { previous_output, script_sig, sequence, witness: Witness::new() }];
    let output = tx.outputs.iter().map(|o| TxOut {
        value: Amount::from_sat(o.value),
        script_pubkey: ScriptBuf::from_bytes(o.script.clone()),
    }).collect();
    let (version, lock_time) = (Version(tx.version), LockTime::from_consensus(tx.lock_time));
    bitcoin::consensus::serialize(&Transaction { version, lock_time, input, output })
}

/// Calls `bitcoin::Transaction::compute_txid` on the transaction with the given fields. A
/// transaction id is the double hash of the wire format without witnesses.
#[verifier::external_body]
fn compute_txid(tx: &CoinbaseTx) -> (r: [u8; 32])
    requires
        tx.short(),
    ensures
        r@ == double_sha256(tx.bytes()),
{
    let previous_output = OutPoint { txid: Txid::from_byte_array(tx.txid), vout: tx.vout };
    let (script_sig, sequence) = (ScriptBuf::from_bytes(tx.script_sig.clone()), Sequence(tx.sequence));
    let input = vec![TxIn { previous_output, script_sig, sequence, witness: Witness::new() }];
    let output = tx.outputs.iter().map(|o| TxOut {
        value: Amount::from_sat(o.value),
        script_pubkey: ScriptBuf::from_bytes(o.script.clone()),
    }).collect();
    let (version, lock_time) = (Version(tx.version), LockTime::from_consensus(tx.lock_time));
    Transaction { version, lock_time, input, output }.compute_txid().to_byte_array()
}

/// Calls `channels_sv2::merkle_root::merkle_root_from_path`, which joins prefix,
/// extranonce and suffix, refuses what is not a coinbase transaction, and folds
/// the path into the transaction id otherwise.
#[verifier::external_body]
fn merkle_root_from_path(
    prefix: &[u8],
    suffix: &[u8],
    extranonce: &[u8],
    path: &[[u8; 32]],
) -> (r: Option<[u8; 32]>)
    ensures
        match (r, coinbase_id(prefix@ + extranonce@ + suffix@)) {
            (Some(root), Some(id)) => root@ == merkle_fold(id, path@),
            (None, None) => true,
            _ => false,
        },
{
    channels_sv2::merkle_root::merkle_root_from_path(prefix, suffix, extranonce, path)
}

/// Calls `channels_sv2::merkle_root::merkle_root_from_path_`, which folds the
/// path into the transaction id.
#[verifier::external_body]
fn merkle_root_from_id(id: [u8; 32], path: &[[u8; 32]]) -> (r: [u8; 32])
    ensures
        r@ == merkle_fold(id@, path@),
{
    channels_sv2::merkle_root::merkle_root_from_path_(id, path)
}

/// A coinbase transaction to cut, and a path to fold.
pub struct MerkleInput {
    pub tx_version: i32,
    pub script_prefix: Vec<u8>,
    pub extranonce: Vec<u8>,
    pub script_suffix: Vec<u8>,
    pub outputs: Vec<(u64, Vec<u8>)>,
    pub path: Vec<[u8; 32]>,
    pub shift: u8,
}

impl MerkleInput {
    /// The script bytes ahead of the extranonce.
    pub open spec fn before(self) -> Seq<u8> {
        capped(self.script_prefix@, 30)
    }

    /// The extranonce.
    pub open spec fn middle(self) -> Seq<u8> {
        capped(self.extranonce@, 32)
    }

    /// The script bytes behind the extranonce.
    pub open spec fn after(self) -> Seq<u8> {
        capped(self.script_suffix@, 30)
    }

    /// The outputs: the first four, with amounts below [`MAX_MONEY`] and scripts
    /// of at most 40 bytes.
    pub open spec fn paid(self) -> Seq<(u64, Seq<u8>)> {
        Seq::new(
            if self.outputs@.len() < 4 {
                self.outputs@.len()
            } else {
                4
            },
            |i: int| (self.outputs@[i].0 % MAX_MONEY, capped(self.outputs@[i].1@, 40)),
        )
    }

    /// The wire format of the transaction with output index `vout` in its input, which
    /// has the final sequence number, and lock time zero.
    pub open spec fn wire(self, vout: u32) -> Seq<u8> {
        tx_bytes(
            self.tx_version,
            zeros(32),
            vout,
            self.before() + self.middle() + self.after(),
            u32::MAX,
            self.paid(),
            0,
        )
    }

    /// The path: at most 16 nodes.
    pub open spec fn nodes(self) -> Seq<[u8; 32]> {
        self.path@.take(
            if self.path@.len() < 16 {
                self.path@.len() as int
            } else {
                16
            },
        )
    }

    /// Builds the coinbase transaction that this input describes.
    pub fn transaction(&self) -> (tx: CoinbaseTx)
        ensures
            tx.short(),
            tx.version == self.tx_version,
            tx.is_coinbase(),
            tx.script_sig@ == self.before() + self.middle() + self.after(),
            tx.sequence == u32::MAX,
            outputs_view(tx.outputs@) == self.paid(),
            tx.lock_time == 0,
    {
        let mut outputs: Vec<Output> = Vec::new();
        let mut i: usize = 0;
        while i < self.outputs.len() && i < 4
            invariant
                i <= self.outputs.len(),
                i <= 4,
                outputs@.len() == i,
                forall|j: int|
                    0 <= j < i ==> {
                        &&& (#[trigger] outputs@[j]).value == self.outputs@[j].0 % MAX_MONEY
                        &&& outputs@[j].script@ == capped(self.outputs@[j].1@, 40)
                    },
            decreases 4 - i,
        {
            let value: u64 = self.outputs[i].0 % MAX_MONEY;
            outputs.push(Output { value, script: cap(self.outputs[i].1.as_slice(), 40) });
            i += 1;
        }
        let mut script_sig = cap(self.script_prefix.as_slice(), 30);
        script_sig.extend_from_slice(cap(self.extranonce.as_slice(), 32).as_slice());
        script_sig.extend_from_slice(cap(self.script_suffix.as_slice(), 30).as_slice());
        assert(script_sig@ =~= self.before() + self.middle() + self.after());
        assert(outputs_view(outputs@) =~= self.paid());
        coinbase_tx(self.tx_version, script_sig, outputs)
    }
}

/// What the implementation was seen to compute for one coinbase transaction,
/// beside what it should compute.
pub struct MerkleRun {
    /// The wire bytes at the place where the extranonce belongs.
    pub placed: Vec<u8>,
    /// The extranonce.
    pub extranonce: Vec<u8>,
    /// The double hash of the wire bytes.
    pub txid: [u8; 32],
    /// The transaction id that was reported.
    pub reported_txid: [u8; 32],
    /// The root that folding the path into the transaction id gives.
    pub expected: [u8; 32],
    /// The root computed from prefix, extranonce and suffix.
    pub root: Option<[u8; 32]>,
    /// The root computed from the transaction id.
    pub root_from_id: [u8; 32],
    /// The root computed from the transaction id and an empty path.
    pub root_of_empty_path: [u8; 32],
    /// The root computed with part of the extranonce moved into the prefix.
    pub shifted_root: Option<[u8; 32]>,
    /// The root that hashing one more node into the expected one gives.
    pub expected_longer: [u8; 32],
    /// The root computed along the path with that node appended.
    pub longer_root: [u8; 32],
    /// The root computed from a transaction that is not a coinbase.
    pub foreign_root: Option<[u8; 32]>,
}

/// What must hold of Merkle roots, in the order in which it is checked.
#[derive(Clone, Copy, Debug, PartialEq, Eq, Structural)]
pub enum MerkleRule {
    /// The extranonce follows the script prefix in the wire format.
    Placement,
    /// A transaction id is the double hash of the wire format.
    TxId,
    /// The root computed from the parts is the expected one.
    Root,
    /// The root computed from the transaction id is the expected one.
    RootFromId,
    /// An empty path yields the transaction id.
    EmptyPath,
    /// The root does not depend on where the prefix ends and the extranonce begins.
    Boundary,
    /// One more node folds exactly once more.
    ExtraNode,
    /// A transaction that is not a coinbase is refused.
    NotCoinbase,
}

impl Rule for MerkleRule {
    type Run = MerkleRun;

    open spec fn rank(self) -> int {
        match self {
            MerkleRule::Placement => 0,
            MerkleRule::TxId => 1,
            MerkleRule::Root => 2,
            MerkleRule::RootFromId => 3,
            MerkleRule::EmptyPath => 4,
            MerkleRule::Boundary => 5,
            MerkleRule::ExtraNode => 6,
            MerkleRule::NotCoinbase => 7,
        }
    }

    open spec fn holds(self, run: MerkleRun) -> bool {
        match self {
            MerkleRule::Placement => run.placed@ == run.extranonce@,
            MerkleRule::TxId => run.reported_txid@ == run.txid@,
            MerkleRule::Root => run.root is Some && run.root->0@ == run.expected@,
            MerkleRule::RootFromId => run.root_from_id@ == run.expected@,
            MerkleRule::EmptyPath => run.root_of_empty_path@ == run.txid@,
            MerkleRule::Boundary => run.shifted_root is Some && run.shifted_root->0@
                == run.expected@,
            MerkleRule::ExtraNode => run.longer_root@ == run.expected_longer@,
            MerkleRule::NotCoinbase => run.foreign_root is None,
        }
    }
}

/// Whether a root was computed, and is the expected one.
fn is_root(root: &Option<[u8; 32]>, expected: &[u8; 32]) -> (r: bool)
    ensures
        r == (root is Some && root->0@ == expected@),
{
    match root {
        Some(bytes) => same_bytes(bytes.as_slice(), expected.as_slice()),
        None => false,
    }
}

/// Judges a run: the first rule that does not hold of it, if there is one.
pub fn judge_merkle(run: &MerkleRun) -> (r: Result<(), MerkleRule>)
    ensures
        decides(r, *run),
{
    if !same_bytes(run.placed.as_slice(), run.extranonce.as_slice()) {
        assert(!MerkleRule::Placement.holds(*run));
        return Err(MerkleRule::Placement);
    }
    if !same_bytes(run.reported_txid.as_slice(), run.txid.as_slice()) {
        assert(!MerkleRule::TxId.holds(*run));
        return Err(MerkleRule::TxId);
    }
    if !is_root(&run.root, &run.expected) {
        assert(!MerkleRule::Root.holds(*run));
        return Err(MerkleRule::Root);
    }
    if !same_bytes(run.root_from_id.as_slice(), run.expected.as_slice()) {
        assert(!MerkleRule::RootFromId.holds(*run));
        return Err(MerkleRule::RootFromId);
    }
    if !same_bytes(run.root_of_empty_path.as_slice(), run.txid.as_slice()) {
        assert(!MerkleRule::EmptyPath.holds(*run));
        return Err(MerkleRule::EmptyPath);
    }
    if !is_root(&run.shifted_root, &run.expected) {
        assert(!MerkleRule::Boundary.holds(*run));
        return Err(MerkleRule::Boundary);
    }
    if !same_bytes(run.longer_root.as_slice(), run.expected_longer.as_slice()) {
        assert(!MerkleRule::ExtraNode.holds(*run));
        return Err(MerkleRule::ExtraNode);
    }
    if run.foreign_root.is_some() {
        assert(!MerkleRule::NotCoinbase.holds(*run));
        return Err(MerkleRule::NotCoinbase);
    }
    Ok(())
}

/// The path, at most 16 nodes of it.
fn capped_path(path: &[[u8; 32]]) -> (r: Vec<[u8; 32]>)
    ensures
        r@ == path@.take(
            if path@.len() < 16 {
                path@.len() as int
            } else {
                16
            },
        ),
{
    let mut r: Vec<[u8; 32]> = Vec::new();
    let mut i: usize = 0;
    while i < path.len() && i < 16
        invariant
            i <= path.len(),
            i <= 16,
            r@ =~= path@.take(i as int),
        decreases path.len() - i,
    {
        r.push(path[i]);
        i += 1;
    }
    r
}

/// Version, input count, outpoint, script length and script prefix precede the
/// extranonce in the wire format; what is cut out there is the extranonce, and
/// the parts join to the whole.
pub proof fn lemma_cut(input: MerkleInput, vout: u32)
    ensures
        ({
            let whole = input.wire(vout);
            let a = 42 + input.before().len() as int;
            let b = a + input.middle().len() as int;
            &&& whole.len() >= b
            &&& whole.subrange(a, b) == input.middle()
            &&& whole.take(a) + input.middle() + whole.skip(b) == whole
        }),
{
    let script = input.before() + input.middle() + input.after();
    let head = le(input.tx_version as int, 4) + seq![1u8] + zeros(32) + le(vout as int, 4)
        + seq![script.len() as u8];
    let tail = le(u32::MAX as int, 4) + seq![input.paid().len() as u8] + outputs_bytes(
        input.paid(),
    ) + le(0, 4);
    let whole = input.wire(vout);
    lemma_le_len(input.tx_version as int, 4);
    lemma_le_len(vout as int, 4);
    assert(head.len() == 42);
    assert(whole =~= head + script + tail);
    let a = 42 + input.before().len() as int;
    let b = a + input.middle().len() as int;
    assert forall|i: int| 0 <= i < input.middle().len() implies whole[a + i] == input.middle()[i] by {
        assert(whole[a + i] == script[input.before().len() + i]);
    }
    assert(whole.subrange(a, b) =~= input.middle());
    assert(whole.take(a) + input.middle() + whole.skip(b) =~= whole);
}

/// The root depends on prefix, extranonce and suffix only through their
/// concatenation: bytes can move from the extranonce into the prefix.
pub proof fn lemma_boundary_shift(
    prefix: Seq<u8>,
    moved: Seq<u8>,
    rest: Seq<u8>,
    suffix: Seq<u8>,
)
    ensures
        coinbase_id((prefix + moved) + rest + suffix) == coinbase_id(prefix + (moved + rest) + suffix),
{
    assert((prefix + moved) + rest + suffix =~= prefix + (moved + rest) + suffix);
}

/// One more node on the path folds exactly once more.
pub proof fn lemma_extra_node(root: Seq<u8>, path: Seq<[u8; 32]>, node: [u8; 32])
    ensures
        merkle_fold(root, path.push(node)) == double_sha256(merkle_fold(root, path) + node@),
        merkle_fold(root, Seq::empty()) == root,
{
    assert(path.push(node).drop_last() =~= path);
}

/// `run` is what comes of the transaction that `input` describes: what should be computed.
/// The rules tie what is computed to that.
pub open spec fn is_merkle_run(input: MerkleInput, run: MerkleRun) -> bool {
    &&& run.extranonce@ == input.middle()
    &&& run.txid@ == double_sha256(input.wire(u32::MAX))
    &&& run.expected@ == merkle_fold(run.txid@, input.nodes())
    &&& run.expected_longer@ == double_sha256(run.expected@ + seq![0x11u8; 32])
}

/// Runs the implementation on the transaction that `input` describes. It breaks no rule.
pub fn observe_merkle(input: &MerkleInput) -> (run: MerkleRun)
    ensures
        is_merkle_run(*input, run),
        forall|rule: MerkleRule| #[trigger] rule.holds(run),
{
    let prefix = cap(input.script_prefix.as_slice(), 30);
    let extranonce = cap(input.extranonce.as_slice(), 32);
    let path = capped_path(input.path.as_slice());
    let tx = input.transaction();
    proof {
        lemma_cut(*input, u32::MAX);
    }
    let serialized = serialize(&tx);
    let split: usize = 42 + prefix.len();
    let end: usize = split + extranonce.len();
    let placed = cap(&serialized.as_slice()[split..end], extranonce.len());
    let tx_prefix = cap(serialized.as_slice(), split);
    let tx_suffix = cap(&serialized.as_slice()[end..serialized.len()], serialized.len() - end);
    assert(placed@ =~= input.middle());
    assert(tx_suffix@ =~= serialized@.skip(end as int));

    let txid = dsha256(serialized.as_slice());
    let reported_txid = compute_txid(&tx);
    let expected = fold_merkle(txid, path.as_slice());
    let root = merkle_root_from_path(
        tx_prefix.as_slice(),
        tx_suffix.as_slice(),
        extranonce.as_slice(),
        path.as_slice(),
    );
    let root_from_id = merkle_root_from_id(txid, path.as_slice());
    let nothing: Vec<[u8; 32]> = Vec::new();
    let root_of_empty_path = merkle_root_from_id(txid, nothing.as_slice());

    // Moving the prefix/extranonce boundary does not change the coinbase.
    let shift: usize = (input.shift as usize) % (extranonce.len() + 1);
    let moved = cap(extranonce.as_slice(), shift);
    let rest = cap(&extranonce.as_slice()[shift..extranonce.len()], extranonce.len() - shift);
    let shifted_prefix = join(tx_prefix.as_slice(), moved.as_slice());
    proof {
        assert(moved@ + rest@ =~= extranonce@);
        lemma_boundary_shift(tx_prefix@, moved@, rest@, tx_suffix@);
    }
    let shifted_root = merkle_root_from_path(
        shifted_prefix.as_slice(),
        tx_suffix.as_slice(),
        rest.as_slice(),
        path.as_slice(),
    );

    // One more path node folds exactly once more.
    let extra: [u8; 32] = [0x11u8; 32];
    let mut longer = capped_path(input.path.as_slice());
    longer.push(extra);
    proof {
        lemma_extra_node(txid@, path@, extra);
        assert(extra@ =~= seq![0x11u8; 32]);
    }
    let expected_longer = dsha256(join(expected.as_slice(), extra.as_slice()).as_slice());
    let longer_root = merkle_root_from_id(txid, longer.as_slice());

    // A transaction that is not a coinbase must be refused.
    let mut foreign = input.transaction();
    foreign.vout = 0;
    proof {
        lemma_cut(*input, 0);
    }
    let bad = serialize(&foreign);
    let bad_prefix = cap(bad.as_slice(), split);
    let bad_suffix = cap(&bad.as_slice()[end..bad.len()], bad.len() - end);
    assert(bad_suffix@ =~= bad@.skip(end as int));
    let foreign_root = merkle_root_from_path(
        bad_prefix.as_slice(),
        bad_suffix.as_slice(),
        extranonce.as_slice(),
        path.as_slice(),
    );

    MerkleRun {
        placed,
        extranonce,
        txid,
        reported_txid,
        expected,
        root,
        root_from_id,
        root_of_empty_path,
        shifted_root,
        expected_longer,
        longer_root,
        foreign_root,
    }
}

/// Checks the Merkle roots of one coinbase transaction. The run comes back with the verdict
/// on it: it breaks no rule.
pub fn check_merkle(input: &MerkleInput) -> (r: (MerkleRun, Result<(), MerkleRule>))
    ensures
        is_merkle_run(*input, r.0),
        decides(r.1, r.0),
        r.1 == Ok::<(), MerkleRule>(()),
{
    let run = observe_merkle(input);
    match judge_merkle(&run) {
        Ok(()) => (run, Ok(())),
        Err(rule) => (run, Err(rule)),
    }
}

/// `roots` climb along `path`: they begin with `from`, and each is the double hash of the one
/// before with the next node of the path behind it.
pub open spec fn climb(from: Seq<u8>, path: Seq<[u8; 32]>, roots: Seq<Seq<u8>>) -> bool {
    &&& roots.len() == path.len() + 1
    &&& roots[0] == from
    &&& forall|k: int|
        0 <= k < path.len() ==> #[trigger] roots[k + 1] == double_sha256(roots[k] + path[k]@)
}

/// Folding a path is climbing it, from the lowest node to the last.
pub proof fn law_merkle_fold(from: Seq<u8>, path: Seq<[u8; 32]>, roots: Seq<Seq<u8>>)
    requires
        climb(from, path, roots),
    ensures
        merkle_fold(from, path) == roots.last(),
    decreases path.len(),
{
    if path.len() > 0 {
        let below = roots.drop_last();
        assert(climb(from, path.drop_last(), below)) by {
            assert forall|k: int| 0 <= k < path.drop_last().len() implies #[trigger] below[k + 1]
                == double_sha256(below[k] + path.drop_last()[k]@) by {
                assert(roots[k + 1] == double_sha256(roots[k] + path[k]@));
            }
        }
        law_merkle_fold(from, path.drop_last(), below);
        let k = path.len() - 1;
        assert(roots[k + 1] == double_sha256(roots[k] + path[k]@));
    }
}

/// The root that is computed is the top of the climb along the path.
pub proof fn law_fold_merkle(root: [u8; 32], path: &[[u8; 32]], roots: Seq<Seq<u8>>, r: [u8; 32])
    requires
        call_ensures(fold_merkle, (root, path), r),
        climb(root@, path@, roots),
    ensures
        r@ == roots.last(),
{
    law_merkle_fold(root@, path@, roots);
}

/// Roots pass exactly if the wire format holds the extranonce where it belongs, both
/// transaction ids are the same, all three ways to the root lead to the expected one, an
/// empty path leads nowhere, one more node leads where it should, and what is no coinbase has
/// no root.
pub proof fn law_merkle(run: &MerkleRun, verdict: Result<(), MerkleRule>)
    requires
        call_ensures(judge_merkle, (run,), verdict),
    ensures
        verdict is Ok <==> {
            &&& run.placed@ == run.extranonce@
            &&& run.reported_txid@ == run.txid@
            &&& run.root is Some && run.root->0@ == run.expected@
            &&& run.root_from_id@ == run.expected@
            &&& run.root_of_empty_path@ == run.txid@
            &&& run.shifted_root is Some && run.shifted_root->0@ == run.expected@
            &&& run.longer_root@ == run.expected_longer@
            &&& run.foreign_root is None
        },
        verdict == Err::<(), MerkleRule>(MerkleRule::Placement) ==> run.placed@ != run.extranonce@,
        verdict == Err::<(), MerkleRule>(MerkleRule::TxId) ==> run.reported_txid@ != run.txid@,
        verdict == Err::<(), MerkleRule>(MerkleRule::Root) ==> !(run.root is Some && run.root->0@
            == run.expected@),
        verdict == Err::<(), MerkleRule>(MerkleRule::RootFromId) ==> run.root_from_id@
            != run.expected@,
        verdict == Err::<(), MerkleRule>(MerkleRule::EmptyPath) ==> run.root_of_empty_path@
            != run.txid@,
        verdict == Err::<(), MerkleRule>(MerkleRule::Boundary) ==> !(run.shifted_root is Some
            && run.shifted_root->0@ == run.expected@),
        verdict == Err::<(), MerkleRule>(MerkleRule::ExtraNode) ==> run.longer_root@
            != run.expected_longer@,
        verdict == Err::<(), MerkleRule>(MerkleRule::NotCoinbase) ==> run.foreign_root is Some,
{
    if verdict is Ok {
        assert(MerkleRule::Placement.holds(*run));
        assert(MerkleRule::TxId.holds(*run));
        assert(MerkleRule::Root.holds(*run));
        assert(MerkleRule::RootFromId.holds(*run));
        assert(MerkleRule::EmptyPath.holds(*run));
        assert(MerkleRule::Boundary.holds(*run));
        assert(MerkleRule::ExtraNode.holds(*run));
        assert(MerkleRule::NotCoinbase.holds(*run));
    }
}

/// What is computed for a transaction is right: its id is the double hash of the wire format,
/// and the root, whichever way it is reached, is the top of the climb from there along the
/// first 16 nodes of the path; one node of 0x11 more leads one step further.
pub proof fn law_check_merkle(
    input: &MerkleInput,
    roots: Seq<Seq<u8>>,
    r: (MerkleRun, Result<(), MerkleRule>),
)
    requires
        call_ensures(check_merkle, (input,), r),
        climb(
            r.0.txid@,
            input.path@.take(if input.path@.len() < 16 { input.path@.len() as int } else { 16 }),
            roots,
        ),
    ensures
        r.1 is Ok,
        r.0.txid@ == double_sha256(input.wire(u32::MAX)),
        r.0.reported_txid@ == r.0.txid@,
        r.0.root is Some && r.0.root->0@ == roots.last(),
        r.0.root_from_id@ == roots.last(),
        r.0.shifted_root is Some && r.0.shifted_root->0@ == roots.last(),
        r.0.root_of_empty_path@ == r.0.txid@,
        r.0.longer_root@ == double_sha256(roots.last() + Seq::new(32, |i: int| 0x11u8)),
        r.0.foreign_root is None,
        r.0.placed@ == input.extranonce@.take(
            if input.extranonce@.len() < 32 { input.extranonce@.len() as int } else { 32 },
        ),
{
    law_merkle_fold(r.0.txid@, input.nodes(), roots);
    assert(seq![0x11u8; 32] =~= Seq::new(32, |i: int| 0x11u8));
    assert(MerkleRule::Placement.holds(r.0));
    assert(MerkleRule::TxId.holds(r.0));
    assert(MerkleRule::Root.holds(r.0));
    assert(MerkleRule::RootFromId.holds(r.0));
    assert(MerkleRule::EmptyPath.holds(r.0));
    assert(MerkleRule::Boundary.holds(r.0));
    assert(MerkleRule::ExtraNode.holds(r.0));
    assert(MerkleRule::NotCoinbase.holds(r.0));
}

/// The transaction that an input describes spends the null outpoint with the final sequence
/// number and lock time zero. Its script is at most 30, 32 and 30 bytes of the three parts, one
/// behind the other; its outputs are the first four, with amounts below 21 million coins and at
/// most 40 bytes of script.
pub proof fn law_transaction(input: &MerkleInput, tx: CoinbaseTx)
    requires
        call_ensures(MerkleInput::transaction, (input,), tx),
    ensures
        tx.version == input.tx_version,
        tx.vout == 0xffff_ffff,
        forall|i: int| 0 <= i < 32 ==> tx.txid@[i] == 0,
        tx.sequence == 0xffff_ffff,
        tx.lock_time == 0,
        ({
            let a = if input.script_prefix@.len() < 30 { input.script_prefix@.len() as int } else { 30 };
            let b = if input.extranonce@.len() < 32 { input.extranonce@.len() as int } else { 32 };
            let c = if input.script_suffix@.len() < 30 { input.script_suffix@.len() as int } else { 30 };
            &&& tx.script_sig@.len() == a + b + c
            &&& tx.script_sig@.take(a) == input.script_prefix@.take(a)
            &&& tx.script_sig@.subrange(a, a + b) == input.extranonce@.take(b)
            &&& tx.script_sig@.skip(a + b) == input.script_suffix@.take(c)
        }),
        tx.outputs@.len() <= 4,
        tx.outputs@.len() < 4 ==> tx.outputs@.len() == input.outputs@.len(),
        tx.outputs@.len() <= input.outputs@.len(),
        forall|i: int|
            0 <= i < tx.outputs@.len() ==> {
                let script = input.outputs@[i].1@;
                &&& (#[trigger] tx.outputs@[i]).value == input.outputs@[i].0
                    % 2_100_000_000_000_000
                &&& tx.outputs@[i].script@ == script.take(
                    if script.len() < 40 { script.len() as int } else { 40 },
                )
            },
{
    let a = input.before().len() as int;
    let b = input.middle().len() as int;
    assert(tx.txid@ == zeros(32));
    assert forall|i: int| 0 <= i < 32 implies tx.txid@[i] == 0 by {
        assert(zeros(32)[i] == 0);
    }
    assert(tx.script_sig@.take(a) =~= input.before());
    assert(tx.script_sig@.subrange(a, a + b) =~= input.middle());
    assert(tx.script_sig@.skip(a + b) =~= input.after());
    assert(outputs_view(tx.outputs@).len() == tx.outputs@.len());
    assert forall|i: int| 0 <= i < tx.outputs@.len() implies (#[trigger] tx.outputs@[i]).value
        == input.outputs@[i].0 % 2_100_000_000_000_000 && tx.outputs@[i].script@ == input.paid()[i].1 by {
        assert(outputs_view(tx.outputs@)[i] == input.paid()[i]);
    }
}

/// A coinbase transaction has the one input that names no output: a hash of nothing but zeros,
/// and the highest place there is. It carries what it was made with, and can be mined at once.
pub proof fn law_coinbase_tx(
    version: i32,
    script_sig: Vec<u8>,
    outputs: Vec<Output>,
    r: CoinbaseTx,
    i: int,
)
    requires
        call_ensures(coinbase_tx, (version, script_sig, outputs), r),
        0 <= i < 32,
    ensures
        r.txid@[i] == 0,
        r.vout == 0xffff_ffff,
        r.version == version,
        r.script_sig@ == script_sig@,
        r.sequence == 0xffff_ffff,
        r.outputs@ == outputs@,
        r.lock_time == 0,
{
    assert(zeros(32)[i] == 0);
}

} // verus!
