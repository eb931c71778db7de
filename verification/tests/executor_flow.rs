use conductor::block::{Block, ExecutableBlock, Timestamp};
use conductor::executor::{CommitmentError, Executor, FirmDecision, SoftDecision, Update};
use conductor::state::{CommitmentState, GenesisInfo};

fn ts(seconds: i64) -> Timestamp {
    Timestamp { seconds, nanos: 0 }
}

fn block(tag: u8, number: u64, parent_tag: u8) -> Block {
    Block {
        hash: vec![tag; 32],
        number,
        parent_hash: vec![parent_tag; 32],
        timestamp: ts(number as i64),
    }
}

fn exec_block(tag: u8, height: u64) -> ExecutableBlock {
    ExecutableBlock {
        hash: vec![tag; 32],
        height,
        timestamp: ts(height as i64),
        transactions: vec![vec![1, 2, 3]],
    }
}

fn genesis_info() -> GenesisInfo {
    GenesisInfo {
        rollup_id: vec![9; 32],
        sequencer_genesis_block_height: 100,
        celestia_base_block_height: 1,
        celestia_block_variance: 10,
    }
}

fn initialized_executor(consider_commitment_spread: bool) -> Executor {
    let mut executor = Executor::new(consider_commitment_spread);
    let genesis_block = block(1, 0, 0);
    executor.init(
        genesis_info(),
        CommitmentState { firm: genesis_block.clone(), soft: genesis_block },
    );
    executor
}

#[test]
fn init_exposes_genesis_parameters() {
    let executor = initialized_executor(false);
    assert!(executor.is_init());
    assert_eq!(executor.next_firm_sequencer_height(), 101);
    assert_eq!(executor.next_soft_sequencer_height(), 101);
    let state = executor.state();
    assert_eq!(state.rollup_id(), vec![9; 32]);
    assert_eq!(state.celestia_base_block_height(), 1);
    assert_eq!(state.celestia_block_variance(), 10);
    assert_eq!(state.firm_parent_hash(), vec![1; 32]);
    assert_eq!(state.soft_parent_hash(), vec![1; 32]);
}

#[test]
fn happy_soft_then_firm() {
    let mut executor = initialized_executor(false);

    let soft_block = exec_block(2, 101);
    match executor.begin_soft(&soft_block) {
        SoftDecision::Execute { parent_hash } => assert_eq!(parent_hash, vec![1; 32]),
        other => panic!("expected execution of the soft block, got {:?}", other),
    }
    let executed = block(3, 1, 1);
    let pair = executor
        .commit_soft(soft_block.hash.clone(), executed.clone())
        .unwrap();
    assert_eq!(pair.soft.hash, vec![3; 32]);
    assert_eq!(pair.firm.hash, vec![1; 32]);
    assert_eq!(executor.next_soft_sequencer_height(), 102);
    assert_eq!(executor.next_firm_sequencer_height(), 101);

    let firm_block = exec_block(2, 101);
    match executor.begin_firm(&firm_block) {
        FirmDecision::AlreadyExecuted => {},
        other => panic!("expected the pending entry to be used, got {:?}", other),
    }
    let pair = executor.commit_firm_from_pending(&firm_block.hash).unwrap();
    assert_eq!(pair.firm.hash, vec![3; 32]);
    assert_eq!(pair.soft.hash, vec![3; 32]);
    assert_eq!(executor.next_firm_sequencer_height(), 102);
    assert_eq!(executor.next_soft_sequencer_height(), 102);
}

#[test]
fn firm_without_prior_soft() {
    let mut executor = initialized_executor(false);

    let firm_block = exec_block(7, 101);
    match executor.begin_firm(&firm_block) {
        FirmDecision::Execute { parent_hash } => assert_eq!(parent_hash, vec![1; 32]),
        other => panic!("expected execution of the firm block, got {:?}", other),
    }
    let executed = block(8, 1, 1);
    let pair = executor.commit_firm_to_same(executed).unwrap();
    assert_eq!(pair.firm.hash, vec![8; 32]);
    assert_eq!(pair.soft.hash, vec![8; 32]);

    // A stale soft block at the height the firm block took is dropped.
    let stale_soft = exec_block(5, 101);
    match executor.begin_soft(&stale_soft) {
        SoftDecision::Stale => {},
        other => panic!("expected the stale soft block to be dropped, got {:?}", other),
    }

    // The next soft height is processed normally.
    let next_soft = exec_block(6, 102);
    match executor.begin_soft(&next_soft) {
        SoftDecision::Execute { parent_hash } => assert_eq!(parent_hash, vec![8; 32]),
        other => panic!("expected execution of the soft block, got {:?}", other),
    }
}

#[test]
fn spread_limit_masks_and_unmasks_soft_arm() {
    let mut executor = initialized_executor(true);

    // Soft blocks 101..=116; the mask goes up when the gap reaches 16.
    for height in 101..=116u64 {
        assert!(
            !executor.is_spread_too_large(),
            "soft arm masked too early at height {height}"
        );
        let tag = (height - 100) as u8;
        let soft_block = exec_block(tag, height);
        match executor.begin_soft(&soft_block) {
            SoftDecision::Execute { .. } => {},
            other => panic!("expected execution of the soft block, got {:?}", other),
        }
        let executed = block(100 + tag, height - 100, 99);
        executor
            .commit_soft(soft_block.hash.clone(), executed)
            .unwrap();
    }
    assert!(executor.is_spread_too_large());

    // One firm block reduces the gap below 16; the soft arm resumes.
    let firm_block = exec_block(1, 101);
    match executor.begin_firm(&firm_block) {
        FirmDecision::AlreadyExecuted => {},
        other => panic!("expected the pending entry to be used, got {:?}", other),
    }
    executor.commit_firm_from_pending(&firm_block.hash).unwrap();
    assert!(!executor.is_spread_too_large());
    assert_eq!(executor.next_soft_sequencer_height(), 117);
    assert_eq!(executor.next_firm_sequencer_height(), 102);
}

#[test]
fn spread_disabled_never_masks() {
    let mut executor = initialized_executor(false);
    for height in 101..=120u64 {
        assert!(!executor.is_spread_too_large());
        let tag = (height - 100) as u8;
        let soft_block = exec_block(tag, height);
        let executed = block(100 + tag, height - 100, 99);
        executor
            .commit_soft(soft_block.hash.clone(), executed)
            .unwrap();
    }
    assert!(!executor.is_spread_too_large());
}

#[test]
fn out_of_order_firm_is_fatal() {
    let executor = initialized_executor(false);
    let firm_block = exec_block(7, 102);
    match executor.begin_firm(&firm_block) {
        FirmDecision::HeightMismatch { expected } => assert_eq!(expected, 101),
        other => panic!("expected a height mismatch, got {:?}", other),
    }
}

#[test]
fn future_soft_is_fatal() {
    let executor = initialized_executor(false);
    let soft_block = exec_block(7, 103);
    match executor.begin_soft(&soft_block) {
        SoftDecision::FutureHeight { expected } => assert_eq!(expected, 101),
        other => panic!("expected a skipped-block error, got {:?}", other),
    }
}

#[test]
fn invalidated_pending_entry_is_rejected() {
    let mut executor = initialized_executor(false);

    // Two soft blocks advance the optimistic chain.
    executor
        .commit_soft(vec![2; 32], block(3, 1, 1))
        .unwrap();
    executor
        .commit_soft(vec![4; 32], block(5, 2, 3))
        .unwrap();

    // A fresh firm block at 101 collapses both commitments to number 1.
    let pair = executor.commit_firm_to_same(block(6, 1, 1)).unwrap();
    assert_eq!(pair.firm.number, 1);
    assert_eq!(pair.soft.number, 1);

    // The pending entry from the invalidated chain sits above the soft
    // commitment now; finishing the next firm block from it must fail.
    let firm_block = exec_block(4, 102);
    match executor.begin_firm(&firm_block) {
        FirmDecision::AlreadyExecuted => {},
        other => panic!("expected the pending entry to be found, got {:?}", other),
    }
    let err = executor
        .commit_firm_from_pending(&firm_block.hash)
        .unwrap_err();
    assert_eq!(
        err,
        CommitmentError::InvalidCommitmentState { firm_number: 2, soft_number: 1 }
    );
}

#[test]
fn commit_soft_rejects_regressing_block() {
    let mut executor = initialized_executor(false);
    executor.commit_soft(vec![2; 32], block(3, 4, 1)).unwrap();
    // An executed block below the firm commitment cannot be advertised.
    let mut regressed = initialized_executor(false);
    regressed.commit_firm_to_same(block(6, 3, 1)).unwrap();
    let err = regressed.commit_soft(vec![7; 32], block(8, 2, 6)).unwrap_err();
    assert_eq!(
        err,
        CommitmentError::InvalidCommitmentState { firm_number: 3, soft_number: 2 }
    );
}

#[test]
fn resolve_update_matches_variants() {
    let executor = initialized_executor(false);
    let candidate = block(5, 1, 1);

    let only_firm = executor.resolve_update(Update::OnlyFirm(candidate.clone()));
    assert_eq!(only_firm.firm.hash, vec![5; 32]);
    assert_eq!(only_firm.soft.hash, vec![1; 32]);

    let only_soft = executor.resolve_update(Update::OnlySoft(candidate.clone()));
    assert_eq!(only_soft.firm.hash, vec![1; 32]);
    assert_eq!(only_soft.soft.hash, vec![5; 32]);

    let to_same = executor.resolve_update(Update::ToSame(candidate));
    assert_eq!(to_same.firm.hash, vec![5; 32]);
    assert_eq!(to_same.soft.hash, vec![5; 32]);
}

#[test]
fn adopt_normalized_commitment_state() {
    let mut executor = initialized_executor(false);
    let normalized = CommitmentState { firm: block(1, 0, 0), soft: block(3, 1, 1) };
    assert!(executor.is_adoptable(&normalized));
    let changed = executor.adopt_commitment_state(normalized);
    assert!(changed);
    assert_eq!(executor.next_soft_sequencer_height(), 102);

    // Adopting the same pair again changes nothing.
    let same = CommitmentState { firm: block(1, 0, 0), soft: block(3, 1, 1) };
    let changed = executor.adopt_commitment_state(same);
    assert!(!changed);

    // A pair with firm above soft cannot be adopted.
    let invalid = CommitmentState { firm: block(3, 2, 1), soft: block(4, 1, 1) };
    assert!(!executor.is_adoptable(&invalid));
}

#[test]
fn has_pending_tracks_soft_commits() {
    let mut executor = initialized_executor(false);
    assert!(!executor.has_pending(&vec![2; 32]));
    executor.commit_soft(vec![2; 32], block(3, 1, 1)).unwrap();
    assert!(executor.has_pending(&vec![2; 32]));
    assert!(!executor.has_pending(&vec![4; 32]));
}

#[test]
fn repeated_soft_hash_overwrites_pending_entry() {
    let mut executor = initialized_executor(false);
    executor.commit_soft(vec![2; 32], block(3, 1, 1)).unwrap();
    // The same sequencer block hash committed again replaces the entry.
    executor.commit_soft(vec![2; 32], block(4, 2, 3)).unwrap();
    assert!(executor.has_pending(&vec![2; 32]));
    let firm_block = exec_block(2, 101);
    match executor.begin_firm(&firm_block) {
        FirmDecision::AlreadyExecuted => {},
        other => panic!("expected the pending entry to be found, got {:?}", other),
    }
    let pair = executor.commit_firm_from_pending(&firm_block.hash).unwrap();
    assert_eq!(pair.firm.hash, vec![4; 32]);
    assert!(!executor.has_pending(&vec![2; 32]));
}
