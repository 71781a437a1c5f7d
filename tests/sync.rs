use pathfinder_sync::chain::{compute_root, ChainStore, VerificationError};
use pathfinder_sync::pending::{PendingError, PendingOverlay};
use pathfinder_sync::reconcile::{revert, Commitment, L1Tracker, Reconciler, Reconciliation};
use pathfinder_sync::supervisor::{LoopExit, SupervisorAction, SyncStatus, RESET_DELAY_ON_FAILURE};
use pathfinder_sync::tracker::{announcement, ingest, ingest_candidates, next_cursor, sync_batch, IngestOutcome};
use pathfinder_sync::types::{
    Block, BlockHash, BlockHeader, BlockNumber, ContractAddress, StateDiff, StateRoot,
    StorageAddress, StorageEntry, StorageValue, EMPTY_STATE_ROOT, GENESIS_PARENT_HASH,
};

/// Builds the chain of `n` blocks, hashes `base`, `base + 1`, ..., each writing its
/// number into one slot, as a well-behaved adapter would serve them.
fn adapter_blocks(n: u64, base: u64) -> Vec<Block> {
    let mut out: Vec<Block> = Vec::new();
    let mut parent = BlockHash(GENESIS_PARENT_HASH);
    let mut root = EMPTY_STATE_ROOT;
    for number in 0..n {
        let diff = StateDiff {
            storage: vec![StorageEntry {
                contract: ContractAddress(1),
                key: StorageAddress(2),
                value: StorageValue(number),
            }],
            deployed: if number == 0 { vec![ContractAddress(1)] } else { vec![] },
        };
        root = compute_root(root, &diff);
        let hash = BlockHash(base + number);
        out.push(Block {
            header: BlockHeader { number, hash, parent_hash: parent, state_root: StateRoot(root), timestamp: number },
            diff,
        });
        parent = hash;
    }
    out
}

fn committed(n: u64) -> ChainStore {
    let mut store = ChainStore::new();
    let mut pending = PendingOverlay::new();
    sync_batch(&mut store, &mut pending, adapter_blocks(n, 100));
    store
}

fn headers(store: &ChainStore) -> Vec<BlockHeader> {
    (0..store.len() as u64).map(|n| store.header(n).unwrap()).collect()
}

#[test]
fn consistent_blocks_advance_the_head() {
    let mut store = ChainStore::new();
    let mut pending = PendingOverlay::new();
    sync_batch(&mut store, &mut pending, adapter_blocks(6, 100));
    assert_eq!(store.head(), Some(BlockNumber(5)));
    assert!(pending.pending_state().is_none());
    assert_eq!(next_cursor(&store), 6);
}

#[test]
fn committed_blocks_are_linked() {
    let store = committed(5);
    let hs = headers(&store);
    assert_eq!(hs[0].parent_hash, BlockHash(GENESIS_PARENT_HASH));
    for n in 1..hs.len() {
        assert_eq!(hs[n].parent_hash, hs[n - 1].hash);
    }
}

#[test]
fn replayed_roots_match_claimed_roots() {
    let blocks = adapter_blocks(4, 100);
    let store = committed(4);
    let mut root = EMPTY_STATE_ROOT;
    for (n, b) in blocks.iter().enumerate() {
        root = compute_root(root, &b.diff);
        assert_eq!(store.header(n as u64).unwrap().state_root, StateRoot(root));
    }
}

#[test]
fn root_depends_on_the_diff() {
    let a = StateDiff { storage: vec![], deployed: vec![] };
    let b = StateDiff { storage: vec![], deployed: vec![ContractAddress(3)] };
    assert_eq!(compute_root(0, &a), 0);
    assert_ne!(compute_root(0, &a), compute_root(0, &b));
    assert_ne!(compute_root(0, &a), compute_root(1, &a));
}

#[test]
fn root_ignores_the_order_of_writes() {
    let e1 = StorageEntry { contract: ContractAddress(1), key: StorageAddress(1), value: StorageValue(1) };
    let e2 = StorageEntry { contract: ContractAddress(2), key: StorageAddress(2), value: StorageValue(2) };
    let a = StateDiff { storage: vec![e1, e2], deployed: vec![] };
    let b = StateDiff { storage: vec![e2, e1], deployed: vec![] };
    assert_eq!(compute_root(5, &a), compute_root(5, &b));
}

#[test]
fn wrong_number_is_rejected() {
    let mut store = committed(2);
    let mut blocks = adapter_blocks(4, 100);
    let b = blocks.remove(3);
    assert_eq!(store.apply(b), Err(VerificationError::WrongNumber));
    assert_eq!(store.len(), 2);
}

#[test]
fn wrong_parent_is_rejected() {
    let mut store = committed(2);
    let mut b = adapter_blocks(3, 100).remove(2);
    b.header.parent_hash = BlockHash(7);
    assert_eq!(store.apply(b), Err(VerificationError::ParentHashMismatch));
    assert_eq!(store.len(), 2);
}

#[test]
fn wrong_root_is_rejected() {
    let mut store = committed(2);
    let mut b = adapter_blocks(3, 100).remove(2);
    b.header.state_root = StateRoot(b.header.state_root.0 ^ 1);
    assert_eq!(store.apply(b), Err(VerificationError::StateRootMismatch));
    assert_eq!(store.len(), 2);
}

#[test]
fn contradicting_commitment_reverts_below_its_height() {
    let mut store = committed(6);
    let mut pending = PendingOverlay::new();
    let mut reconciler = Reconciler::new();
    let c = Commitment { l1_block_number: 1, l2_block_number: 3, l2_state_root: StateRoot(12345) };
    let r = reconciler.reconcile(&mut store, &mut pending, c);
    assert_eq!(r, Reconciliation::Reverted { kept: 1 });
    assert_eq!(store.head(), Some(BlockNumber(0)));
}

#[test]
fn revert_keeps_blocks_up_to_the_last_confirmed_one() {
    let mut store = committed(6);
    let mut pending = PendingOverlay::new();
    let mut reconciler = Reconciler::new();
    let root2 = store.header(2).unwrap().state_root;
    let ok = Commitment { l1_block_number: 1, l2_block_number: 2, l2_state_root: root2 };
    assert_eq!(reconciler.reconcile(&mut store, &mut pending, ok), Reconciliation::Confirmed);
    assert_eq!(reconciler.confirmed, vec![2]);
    let bad = Commitment { l1_block_number: 2, l2_block_number: 3, l2_state_root: StateRoot(1) };
    assert_eq!(reconciler.reconcile(&mut store, &mut pending, bad), Reconciliation::Reverted { kept: 3 });
    assert_eq!(store.head(), Some(BlockNumber(2)));
    assert_eq!(next_cursor(&store), 3);
    // the tracker then fetches from height 3 on again
    let refetched: Vec<Block> = adapter_blocks(6, 100).into_iter().skip(3).collect();
    sync_batch(&mut store, &mut pending, refetched);
    assert_eq!(store.head(), Some(BlockNumber(5)));
}

#[test]
fn contradiction_at_genesis_empties_the_store() {
    let mut store = committed(3);
    let mut pending = PendingOverlay::new();
    let mut reconciler = Reconciler::new();
    let c = Commitment { l1_block_number: 1, l2_block_number: 0, l2_state_root: StateRoot(1) };
    assert_eq!(reconciler.reconcile(&mut store, &mut pending, c), Reconciliation::Reverted { kept: 0 });
    assert_eq!(store.len(), 0);
}

#[test]
fn commitment_ahead_of_the_chain_is_deferred() {
    let mut store = committed(2);
    let mut pending = PendingOverlay::new();
    let mut reconciler = Reconciler::new();
    let full = adapter_blocks(5, 100);
    let root4 = full[4].header.state_root;
    let c = Commitment { l1_block_number: 1, l2_block_number: 4, l2_state_root: root4 };
    assert_eq!(reconciler.reconcile(&mut store, &mut pending, c), Reconciliation::Deferred);
    assert_eq!(store.len(), 2);
    assert_eq!(reconciler.recheck(&mut store, &mut pending), None);
    sync_batch(&mut store, &mut pending, full.into_iter().skip(2).collect());
    assert_eq!(reconciler.recheck(&mut store, &mut pending), Some(Reconciliation::Confirmed));
    assert_eq!(reconciler.confirmed, vec![4]);
    assert_eq!(reconciler.deferred, None);
    assert_eq!(store.len(), 5);
}

#[test]
fn restart_resumes_at_the_cursor_with_the_same_chain() {
    let blocks = adapter_blocks(5, 100);
    let uninterrupted = committed(5);
    let mut store = ChainStore::new();
    let mut pending = PendingOverlay::new();
    let mut all = blocks.into_iter();
    sync_batch(&mut store, &mut pending, all.by_ref().take(2).collect());
    assert_eq!(next_cursor(&store), 2);
    let mut pending_after_restart = PendingOverlay::new();
    sync_batch(&mut store, &mut pending_after_restart, all.collect());
    assert_eq!(headers(&store), headers(&uninterrupted));
}

#[test]
fn gossiped_candidate_is_used_when_primary_is_bad() {
    let mut store = committed(2);
    let mut pending = PendingOverlay::new();
    let mut bad = adapter_blocks(3, 100).remove(2);
    bad.header.state_root = StateRoot(0);
    let mut stale = adapter_blocks(3, 100).remove(1);
    stale.header.hash = BlockHash(5);
    let good = adapter_blocks(3, 100).remove(2);
    let good_hash = good.header.hash;
    let r = ingest_candidates(&mut store, &mut pending, Some(bad), vec![stale, good]);
    assert_eq!(r, IngestOutcome::Gossiped { index: 1 });
    assert_eq!(store.header(2).unwrap().hash, good_hash);
}

#[test]
fn primary_candidate_is_preferred() {
    let mut store = committed(2);
    let mut pending = PendingOverlay::new();
    let primary = adapter_blocks(3, 100).remove(2);
    let other = adapter_blocks(3, 100).remove(2);
    assert_eq!(ingest_candidates(&mut store, &mut pending, Some(primary), vec![other]), IngestOutcome::Primary);
    assert_eq!(store.len(), 3);
}

#[test]
fn all_bad_candidates_are_rejected() {
    let mut store = committed(2);
    let mut pending = PendingOverlay::new();
    let mut bad = adapter_blocks(3, 100).remove(2);
    bad.header.parent_hash = BlockHash(1);
    assert_eq!(ingest_candidates(&mut store, &mut pending, None, vec![bad]), IngestOutcome::Rejected);
    assert_eq!(store.len(), 2);
}

#[test]
fn pending_slot_requires_the_head_as_parent() {
    let store = committed(2);
    let mut pending = PendingOverlay::new();
    let next = adapter_blocks(3, 100).remove(2);
    assert_eq!(pending.set(&store, next), Ok(()));
    assert_eq!(pending.pending_state().unwrap().header.number, 2);
    let mut other = adapter_blocks(3, 100).remove(2);
    other.header.parent_hash = BlockHash(3);
    assert_eq!(pending.set(&store, other), Err(PendingError::NotOnHead));
    assert!(pending.pending_state().is_none());
}

#[test]
fn committing_the_pending_block_clears_the_slot() {
    let mut store = committed(2);
    let mut pending = PendingOverlay::new();
    pending.set(&store, adapter_blocks(3, 100).remove(2)).unwrap();
    assert_eq!(ingest(&mut store, &mut pending, adapter_blocks(3, 100).remove(2)), Ok(()));
    assert!(pending.pending_state().is_none());
}

#[test]
fn revert_truncates_and_clears_pending() {
    let mut store = committed(4);
    let mut pending = PendingOverlay::new();
    pending.set(&store, adapter_blocks(5, 100).remove(4)).unwrap();
    revert(&mut store, &mut pending, 2);
    assert_eq!(store.head(), Some(BlockNumber(1)));
    assert!(pending.pending_state().is_none());
}

#[test]
fn l1_tracker_emits_only_newer_commitments() {
    let mut t = L1Tracker::new();
    let c1 = Commitment { l1_block_number: 10, l2_block_number: 3, l2_state_root: StateRoot(1) };
    let c0 = Commitment { l1_block_number: 10, l2_block_number: 4, l2_state_root: StateRoot(2) };
    let c2 = Commitment { l1_block_number: 11, l2_block_number: 4, l2_state_root: StateRoot(2) };
    assert_eq!(t.observe(c1), Some(c1));
    assert_eq!(t.observe(c0), None);
    assert_eq!(t.last_seen, Some(c1));
    assert_eq!(t.observe(c2), Some(c2));
}

#[test]
fn announcement_carries_the_header_links() {
    let b = adapter_blocks(2, 100).remove(1);
    let a = announcement(&b);
    assert_eq!((a.number, a.hash, a.parent_hash), (1, BlockHash(101), BlockHash(100)));
}

#[test]
fn supervisor_restarts_halts_and_stops() {
    let mut s = SyncStatus::new();
    assert_eq!(s.on_loop_exit(LoopExit::Failed, false), SupervisorAction::RestartAfter { delay_secs: RESET_DELAY_ON_FAILURE });
    assert_eq!(s.error_count, 1);
    assert_eq!(s.on_loop_exit(LoopExit::Shutdown, false), SupervisorAction::Stop);
    assert_eq!(s.error_count, 1);
    assert_eq!(s.on_loop_exit(LoopExit::RevertFailed, false), SupervisorAction::Halt);
    assert!(s.halted);
    assert_eq!(s.on_loop_exit(LoopExit::Failed, false), SupervisorAction::Halt);
    assert_eq!(s.on_loop_exit(LoopExit::Failed, true), SupervisorAction::Stop);
    assert_eq!(s.error_count, 4);
}

#[test]
fn status_records_head_and_commitment() {
    let store = committed(3);
    let mut s = SyncStatus::new();
    s.record_head(&store);
    let c = Commitment { l1_block_number: 1, l2_block_number: 2, l2_state_root: StateRoot(9) };
    s.record_commitment(c);
    assert_eq!(s.head, Some(BlockNumber(2)));
    assert_eq!(s.last_commitment, Some(c));
}

#[test]
fn revert_target_is_the_last_confirmed_height_below_the_contradiction() {
    let mut store = committed(8);
    let mut pending = PendingOverlay::new();
    let mut reconciler = Reconciler::new();
    for (l1, h) in [(1u64, 5u64), (2, 1), (3, 6)] {
        let root = store.header(h).unwrap().state_root;
        let c = Commitment { l1_block_number: l1, l2_block_number: h, l2_state_root: root };
        assert_eq!(reconciler.reconcile(&mut store, &mut pending, c), Reconciliation::Confirmed);
    }
    let bad = Commitment { l1_block_number: 4, l2_block_number: 4, l2_state_root: StateRoot(3) };
    assert_eq!(reconciler.reconcile(&mut store, &mut pending, bad), Reconciliation::Reverted { kept: 2 });
    assert_eq!(store.len(), 2);
    assert_eq!(reconciler.confirmed, vec![1]);
}

#[test]
fn duplicate_key_is_rejected() {
    let mut store = committed(2);
    let mut b = adapter_blocks(3, 100).remove(2);
    let e = b.diff.storage[0];
    b.diff.storage.push(StorageEntry { value: StorageValue(77), ..e });
    b.header.state_root = StateRoot(compute_root(store.header(1).unwrap().state_root.0, &b.diff));
    assert_eq!(store.verify(&b), Err(VerificationError::DuplicateKey));
    assert_eq!(store.apply(b), Err(VerificationError::DuplicateKey));
    assert_eq!(store.len(), 2);
}
