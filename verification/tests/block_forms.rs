use conductor::block::{
    bytes_eq, clone_bytes, ExecutableBlock, ReconstructedBlock, RollupTransactions,
    SequencerBlock, Timestamp,
};

fn ts() -> Timestamp {
    Timestamp { seconds: 17, nanos: 500 }
}

#[test]
fn from_reconstructed_keeps_everything() {
    let reconstructed = ReconstructedBlock {
        block_hash: vec![7; 32],
        height: 104,
        time: ts(),
        transactions: vec![vec![1], vec![2, 3]],
    };
    let executable = ExecutableBlock::from_reconstructed(reconstructed);
    assert_eq!(executable.hash, vec![7; 32]);
    assert_eq!(executable.height, 104);
    assert_eq!(executable.timestamp, ts());
    assert_eq!(executable.transactions, vec![vec![1], vec![2, 3]]);
}

#[test]
fn from_sequencer_picks_this_rollups_transactions() {
    let sequencer_block = SequencerBlock {
        block_hash: vec![8; 32],
        height: 105,
        time: ts(),
        rollup_transactions: vec![
            RollupTransactions { rollup_id: vec![1; 32], transactions: vec![vec![9]] },
            RollupTransactions { rollup_id: vec![2; 32], transactions: vec![vec![4], vec![5]] },
        ],
    };
    let executable = ExecutableBlock::from_sequencer(sequencer_block, &vec![2; 32]);
    assert_eq!(executable.hash, vec![8; 32]);
    assert_eq!(executable.height, 105);
    assert_eq!(executable.transactions, vec![vec![4], vec![5]]);
}

#[test]
fn from_sequencer_without_entry_gives_empty_list() {
    let sequencer_block = SequencerBlock {
        block_hash: vec![8; 32],
        height: 105,
        time: ts(),
        rollup_transactions: vec![
            RollupTransactions { rollup_id: vec![1; 32], transactions: vec![vec![9]] },
        ],
    };
    let executable = ExecutableBlock::from_sequencer(sequencer_block, &vec![3; 32]);
    assert_eq!(executable.transactions, Vec::<Vec<u8>>::new());
}

#[test]
fn byte_helpers_compare_and_copy() {
    let a = vec![1u8, 2, 3];
    let b = clone_bytes(&a);
    assert_eq!(a, b);
    assert!(bytes_eq(&a, &b));
    assert!(!bytes_eq(&a, &vec![1u8, 2]));
    assert!(!bytes_eq(&a, &vec![1u8, 2, 4]));
}

#[test]
fn from_sequencer_takes_first_matching_entry() {
    let sequencer_block = SequencerBlock {
        block_hash: vec![8; 32],
        height: 105,
        time: ts(),
        rollup_transactions: vec![
            RollupTransactions { rollup_id: vec![2; 32], transactions: vec![vec![6]] },
            RollupTransactions { rollup_id: vec![2; 32], transactions: vec![vec![7]] },
        ],
    };
    let executable = ExecutableBlock::from_sequencer(sequencer_block, &vec![2; 32]);
    assert_eq!(executable.transactions, vec![vec![6]]);
}
