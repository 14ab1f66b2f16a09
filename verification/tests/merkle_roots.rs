use bitcoin::hashes::{sha256d, Hash as Digest};
use sv2_conformance::merkle::{
    check_merkle, coinbase_tx, fold_merkle, judge_merkle, observe_merkle, MerkleInput, MerkleRule,
    MerkleRun, Output,
};

fn hash(bytes: &[u8]) -> [u8; 32] {
    <sha256d::Hash as Digest>::hash(bytes).to_byte_array()
}

fn input() -> MerkleInput {
    MerkleInput {
        tx_version: 2,
        script_prefix: vec![1, 2, 3],
        extranonce: vec![0xe0; 8],
        script_suffix: vec![9],
        outputs: vec![(5, vec![0x51]), (7, vec![0x52; 50])],
        path: vec![[0x11; 32], [0x22; 32]],
        shift: 3,
    }
}

#[test]
fn a_path_folds_node_by_node() {
    let root = [7u8; 32];
    assert_eq!(fold_merkle(root, &[]), root);
    let mut joined = root.to_vec();
    joined.extend_from_slice(&[0x11; 32]);
    let once = hash(&joined);
    assert_eq!(fold_merkle(root, &[[0x11; 32]]), once);
    let mut joined = once.to_vec();
    joined.extend_from_slice(&[0x22; 32]);
    assert_eq!(fold_merkle(root, &[[0x11; 32], [0x22; 32]]), hash(&joined));
}

#[test]
fn a_coinbase_spends_the_null_output() {
    let tx = coinbase_tx(-1, vec![1, 2], vec![Output { value: 3, script: vec![4] }]);
    assert_eq!(tx.version, -1);
    assert_eq!(tx.script_sig, vec![1, 2]);
    assert_eq!(tx.outputs.len(), 1);
    assert_eq!((tx.txid, tx.vout), ([0; 32], u32::MAX));
    assert_eq!((tx.sequence, tx.lock_time), (u32::MAX, 0));
}

#[test]
fn merkle_roots_agree_with_the_wire_format() {
    // version, one input, null outpoint, script, sequence, two outputs, lock time
    let mut wire = vec![2, 0, 0, 0, 1];
    wire.extend_from_slice(&[0; 32]);
    wire.extend_from_slice(&[0xff; 4]);
    wire.push(12);
    wire.extend_from_slice(&[1, 2, 3]);
    wire.extend_from_slice(&[0xe0; 8]);
    wire.push(9);
    wire.extend_from_slice(&[0xff; 4]);
    wire.push(2);
    wire.extend_from_slice(&[5, 0, 0, 0, 0, 0, 0, 0, 1, 0x51]);
    wire.extend_from_slice(&[7, 0, 0, 0, 0, 0, 0, 0, 40]);
    wire.extend_from_slice(&[0x52; 40]);
    wire.extend_from_slice(&[0; 4]);
    let run = observe_merkle(&input());
    assert_eq!(run.txid, hash(&wire));
    assert_eq!(run.reported_txid, run.txid);
    assert_eq!(run.placed, vec![0xe0; 8]);
    let expected = fold_merkle(hash(&wire), &[[0x11; 32], [0x22; 32]]);
    assert_eq!(run.root, Some(expected));
    assert_eq!(run.root_from_id, expected);
    assert_eq!(run.root_of_empty_path, run.txid);
    assert_eq!(run.shifted_root, Some(expected));
    assert_eq!(run.longer_root, fold_merkle(hash(&wire), &[[0x11; 32], [0x22; 32], [0x11; 32]]));
    assert_eq!(run.foreign_root, None);
    let (run, verdict) = check_merkle(&input());
    assert_eq!(verdict, Ok(()));
    assert_eq!(run.expected, expected);
}

#[test]
fn inputs_are_cut_to_size() {
    let mut long = input();
    long.script_prefix = vec![1; 100];
    long.extranonce = vec![2; 100];
    long.script_suffix = vec![3; 100];
    long.outputs = vec![(u64::MAX, vec![4; 100]); 10];
    long.path = vec![[5; 32]; 40];
    let tx = long.transaction();
    assert_eq!(tx.script_sig.len(), 92);
    assert_eq!(tx.outputs.len(), 4);
    assert_eq!(tx.outputs[0].value, u64::MAX % 2_100_000_000_000_000);
    assert_eq!(tx.outputs[0].script.len(), 40);
    assert_eq!(check_merkle(&long).1, Ok(()));
}

#[test]
fn empty_inputs_have_a_root_too() {
    let empty = MerkleInput {
        tx_version: 0,
        script_prefix: vec![],
        extranonce: vec![],
        script_suffix: vec![],
        outputs: vec![],
        path: vec![],
        shift: 255,
    };
    let run = observe_merkle(&empty);
    assert_eq!(run.root, Some(run.txid));
    let (again, verdict) = check_merkle(&empty);
    assert_eq!(verdict, Ok(()));
    assert_eq!(again.root, Some(run.txid));
}

fn broken(change: fn(&mut MerkleRun)) -> Result<(), MerkleRule> {
    let mut run = observe_merkle(&input());
    change(&mut run);
    judge_merkle(&run)
}

#[test]
fn every_merkle_rule_can_be_broken() {
    assert_eq!(broken(|_| {}), Ok(()));
    assert_eq!(broken(|run| run.placed[0] = 0), Err(MerkleRule::Placement));
    assert_eq!(broken(|run| run.reported_txid[0] ^= 1), Err(MerkleRule::TxId));
    assert_eq!(broken(|run| run.root = None), Err(MerkleRule::Root));
    assert_eq!(broken(|run| run.root_from_id[0] ^= 1), Err(MerkleRule::RootFromId));
    assert_eq!(broken(|run| run.root_of_empty_path[0] ^= 1), Err(MerkleRule::EmptyPath));
    assert_eq!(broken(|run| run.shifted_root = None), Err(MerkleRule::Boundary));
    assert_eq!(broken(|run| run.longer_root[0] ^= 1), Err(MerkleRule::ExtraNode));
    assert_eq!(broken(|run| run.foreign_root = Some([0; 32])), Err(MerkleRule::NotCoinbase));
}
