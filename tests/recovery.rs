use snapshot_recovery::applier::{
    check_preconditions, load_from_snapshot_if_needed, RecoveryStage, SnapshotApplier,
};
use snapshot_recovery::error::SnapshotApplierError;
use snapshot_recovery::progress::AppliedSnapshotStatus;
use snapshot_recovery::snapshot::{
    BaseSystemContractsHashes, L1BatchHeader, L1BatchMetadata, L1BatchWithMetadata, MiniblockHeader,
    ProtocolVersion, SnapshotChunk, SnapshotChunkMetadata, SnapshotFactoryDependency, SnapshotHeader,
    SnapshotStorageLog, SyncBlock,
};
use snapshot_recovery::store::{InitialWrite, NodeStore, StoredLog};
use snapshot_recovery::tree::{MerkleTreeRecovery, RecoveryEntry};

const BATCH: u64 = 100;
const BLOCK: u64 = 420;

fn header() -> SnapshotHeader {
    SnapshotHeader {
        l1_batch_number: BATCH,
        miniblock_number: BLOCK,
        generated_at: 1_700_000_000,
        chunks: vec![
            SnapshotChunkMetadata { chunk_id: 0, filepath: "snapshot_100_0.bin".to_string() },
            SnapshotChunkMetadata { chunk_id: 1, filepath: "snapshot_100_1.bin".to_string() },
        ],
        last_l1_batch_with_metadata: last_batch(),
    }
}

fn last_batch() -> L1BatchWithMetadata {
    L1BatchWithMetadata {
        header: L1BatchHeader { number: BATCH, timestamp: 1_699_999_100, protocol_version: Some(18) },
        metadata: L1BatchMetadata { root_hash: 0xaaaa, rollup_last_leaf_index: 6, commitment: 0xcccc },
    }
}

fn contracts() -> BaseSystemContractsHashes {
    BaseSystemContractsHashes { bootloader: 0xb001, default_aa: 0xaa01 }
}

fn block() -> SyncBlock {
    SyncBlock {
        number: BLOCK,
        timestamp: 1_699_999_000,
        hash: Some(0xbeef),
        l1_gas_price: 50,
        l2_fair_gas_price: 25,
        base_system_contracts_hashes: contracts(),
        protocol_version: 18,
        virtual_blocks: Some(1),
    }
}

fn protocol_version() -> ProtocolVersion {
    ProtocolVersion {
        version_id: 18,
        timestamp: 1_690_000_000,
        base_system_contracts: contracts(),
        l2_system_upgrade_tx_hash: None,
    }
}

fn expected_placeholder() -> MiniblockHeader {
    MiniblockHeader {
        number: BLOCK,
        timestamp: 1_699_999_000,
        hash: 0xbeef,
        l1_tx_count: 0,
        l2_tx_count: 0,
        base_fee_per_gas: 0,
        l1_gas_price: 50,
        l2_fair_gas_price: 25,
        base_system_contracts_hashes: contracts(),
        protocol_version: Some(18),
        virtual_blocks: 1,
        l1_batch_number: Some(BATCH),
    }
}

fn log(key: u64, value: u64, index: u64) -> SnapshotStorageLog {
    SnapshotStorageLog { key, value, enumeration_index: index }
}

fn chunk0() -> SnapshotChunk {
    SnapshotChunk {
        factory_deps: vec![],
        storage_logs: vec![log(11, 101, 1), log(12, 102, 2), log(13, 103, 3)],
    }
}

fn chunk1() -> SnapshotChunk {
    SnapshotChunk {
        factory_deps: vec![SnapshotFactoryDependency { bytecode_hash: 0xc0de, bytecode: vec![1, 2, 3, 4] }],
        storage_logs: vec![log(14, 104, 4), log(15, 105, 5)],
    }
}

fn expected_entries() -> Vec<RecoveryEntry> {
    vec![
        RecoveryEntry { key: 11, value: 101, leaf_index: 1 },
        RecoveryEntry { key: 12, value: 102, leaf_index: 2 },
        RecoveryEntry { key: 13, value: 103, leaf_index: 3 },
        RecoveryEntry { key: 14, value: 104, leaf_index: 4 },
        RecoveryEntry { key: 15, value: 105, leaf_index: 5 },
    ]
}

fn assert_fully_recovered(store: &NodeStore) {
    let tree = store.tree().as_ref().unwrap();
    assert!(tree.is_finalized());
    assert_eq!(tree.version(), BATCH);
    assert_eq!(tree.entries(), expected_entries());
    assert_eq!(store.initial_writes().len(), 5);
    for (w, key) in store.initial_writes().iter().zip([11u64, 12, 13, 14, 15]) {
        assert_eq!(*w, InitialWrite { key, l1_batch_number: BATCH });
    }
    assert_eq!(store.storage_logs().len(), 5);
    assert_eq!(store.storage_logs()[3], StoredLog { miniblock_number: BLOCK, key: 14, value: 104 });
    assert_eq!(store.factory_deps().len(), 1);
    assert_eq!(store.factory_deps()[0].bytecode_hash, 0xc0de);
    assert_eq!(store.factory_deps()[0].bytecode, vec![1, 2, 3, 4]);
    assert_eq!(
        store.status(),
        Some(AppliedSnapshotStatus { l1_batch_number: BATCH, is_finished: true, last_finished_chunk_id: Some(1) })
    );
    assert_eq!(store.placeholder_block(), Some(expected_placeholder()));
    assert_eq!(store.placeholder_batch(), Some(last_batch()));
    assert_eq!(*store.protocol_versions(), vec![protocol_version()]);
}

fn loaded(genesis_present: bool, status: Option<AppliedSnapshotStatus>) -> NodeStore {
    NodeStore::from_tables(genesis_present, status, None, None, vec![], vec![], vec![], vec![], None)
}

fn applying() -> (NodeStore, SnapshotApplier) {
    let mut store = NodeStore::new();
    let mut applier = SnapshotApplier::new(&mut store, Some(header())).unwrap();
    applier.insert_placeholders(&mut store, block(), protocol_version()).unwrap();
    (store, applier)
}

fn is_canceled(r: &Result<SnapshotApplier, SnapshotApplierError>) -> bool {
    matches!(r, Err(SnapshotApplierError::Canceled(_)))
}

fn is_fatal<T>(r: &Result<T, SnapshotApplierError>) -> bool {
    matches!(r, Err(SnapshotApplierError::Fatal(_)))
}

#[test]
fn end_to_end_two_chunks() {
    let mut store = NodeStore::new();
    let mut applier =
        load_from_snapshot_if_needed(&mut store, Some(header()), block(), protocol_version(), vec![chunk0(), chunk1()]).unwrap();
    assert_eq!(applier.stage(), RecoveryStage::Bootstrap);
    assert_eq!(store.placeholder_block(), Some(expected_placeholder()));
    assert_eq!(store.placeholder_batch(), Some(last_batch()));
    applier.complete_bootstrap().unwrap();
    applier.finish(&mut store).unwrap();
    assert_eq!(applier.stage(), RecoveryStage::Done);
    assert_fully_recovered(&store);
}

#[test]
fn partial_crash_resumes_with_second_chunk() {
    let mut store = NodeStore::new();
    {
        let mut applier = SnapshotApplier::new(&mut store, Some(header())).unwrap();
        applier.insert_placeholders(&mut store, block(), protocol_version()).unwrap();
        applier.sync_single_chunk(&mut store, 0, chunk0()).unwrap();
        // the process dies here, before chunk 1 starts
    }
    assert_eq!(store.status().unwrap().last_finished_chunk_id, Some(0));
    let mut applier = SnapshotApplier::new(&mut store, Some(header())).unwrap();
    assert_eq!(applier.stage(), RecoveryStage::ApplyChunks);
    assert_eq!(applier.pending_chunks(&store), vec![1]);
    applier.load_snapshot(&mut store, block(), protocol_version(), vec![chunk1()]).unwrap();
    applier.complete_bootstrap().unwrap();
    applier.finish(&mut store).unwrap();
    assert_fully_recovered(&store);
}

#[test]
fn resume_needs_only_the_pending_payloads() {
    let mut store = NodeStore::new();
    {
        let mut applier = SnapshotApplier::new(&mut store, Some(header())).unwrap();
        applier.insert_placeholders(&mut store, block(), protocol_version()).unwrap();
        applier.sync_single_chunk(&mut store, 0, chunk0()).unwrap();
    }
    let mut applier = SnapshotApplier::new(&mut store, Some(header())).unwrap();
    assert!(is_fatal(&applier.load_snapshot(&mut store, block(), protocol_version(), vec![chunk0(), chunk1()])));
}

#[test]
fn applied_chunk_is_skipped() {
    let mut store = NodeStore::new();
    let mut applier = SnapshotApplier::new(&mut store, Some(header())).unwrap();
    applier.insert_placeholders(&mut store, block(), protocol_version()).unwrap();
    applier.sync_single_chunk(&mut store, 0, chunk0()).unwrap();
    applier.sync_single_chunk(&mut store, 0, chunk0()).unwrap();
    assert_eq!(store.storage_logs().len(), 3);
    assert_eq!(store.initial_writes().len(), 3);
    assert_eq!(store.tree().as_ref().unwrap().entries().len(), 3);
}

#[test]
fn genesis_without_record_is_canceled_and_writes_nothing() {
    let mut store = loaded(true, None);
    assert!(matches!(check_preconditions(&store), Err(SnapshotApplierError::Canceled(_))));
    let r = load_from_snapshot_if_needed(&mut store, Some(header()), block(), protocol_version(), vec![chunk0(), chunk1()]);
    assert!(is_canceled(&r));
    assert!(store.status().is_none());
    assert!(store.tree().is_none());
    assert!(store.placeholder_block().is_none());
    assert!(store.storage_logs().is_empty());
    assert!(store.initial_writes().is_empty());
    assert!(store.factory_deps().is_empty());
}

#[test]
fn finished_record_is_canceled_and_writes_nothing() {
    let finished =
        AppliedSnapshotStatus { l1_batch_number: BATCH, is_finished: true, last_finished_chunk_id: Some(1) };
    let mut store = loaded(false, Some(finished));
    let r = load_from_snapshot_if_needed(&mut store, Some(header()), block(), protocol_version(), vec![chunk0(), chunk1()]);
    assert!(is_canceled(&r));
    assert_eq!(store.status(), Some(finished));
    assert!(store.tree().is_none());
    assert!(store.storage_logs().is_empty());
    assert!(store.initial_writes().is_empty());
}

#[test]
fn genesis_with_unfinished_record_resumes() {
    let mut store = loaded(true, Some(AppliedSnapshotStatus::new(BATCH)));
    assert!(check_preconditions(&store).is_ok());
    assert!(SnapshotApplier::new(&mut store, Some(header())).is_ok());
}

#[test]
fn no_snapshot_is_canceled() {
    let mut store = NodeStore::new();
    let r = SnapshotApplier::new(&mut store, None);
    assert!(is_canceled(&r));
    assert!(store.status().is_none());
}

#[test]
fn record_for_other_batch_is_fatal() {
    let mut store = loaded(false, Some(AppliedSnapshotStatus::new(99)));
    let r = SnapshotApplier::new(&mut store, Some(header()));
    assert!(matches!(r, Err(SnapshotApplierError::Fatal(_))));
    assert_eq!(store.status(), Some(AppliedSnapshotStatus::new(99)));
}

#[test]
fn unnumbered_chunks_are_fatal() {
    let mut store = NodeStore::new();
    let mut h = header();
    h.chunks[1].chunk_id = 5;
    assert!(matches!(SnapshotApplier::new(&mut store, Some(h)), Err(SnapshotApplierError::Fatal(_))));
}

#[test]
fn placeholder_for_other_block_is_fatal() {
    let mut store = NodeStore::new();
    let mut applier = SnapshotApplier::new(&mut store, Some(header())).unwrap();
    let mut b = block();
    b.number = BLOCK + 1;
    assert!(is_fatal(&applier.insert_placeholders(&mut store, b, protocol_version())));
    let mut b = block();
    b.hash = None;
    assert!(is_fatal(&applier.insert_placeholders(&mut store, b, protocol_version())));
    let mut p = protocol_version();
    p.version_id = 17;
    assert!(is_fatal(&applier.insert_placeholders(&mut store, block(), p)));
    assert!(store.protocol_versions().is_empty());
    assert_eq!(applier.stage(), RecoveryStage::SeedPlaceholders);
    assert!(store.placeholder_block().is_none());
}

#[test]
fn chunks_before_placeholders_are_fatal() {
    let mut store = NodeStore::new();
    let applier = SnapshotApplier::new(&mut store, Some(header())).unwrap();
    assert!(is_fatal(&applier.sync_single_chunk(&mut store, 0, chunk0())));
    assert!(store.storage_logs().is_empty());
}

#[test]
fn chunk_outside_snapshot_is_fatal() {
    let mut store = NodeStore::new();
    let mut applier = SnapshotApplier::new(&mut store, Some(header())).unwrap();
    applier.insert_placeholders(&mut store, block(), protocol_version()).unwrap();
    assert!(is_fatal(&applier.sync_single_chunk(&mut store, 2, chunk0())));
}

#[test]
fn finalize_with_chunks_left_is_fatal() {
    let mut store = NodeStore::new();
    let mut applier = SnapshotApplier::new(&mut store, Some(header())).unwrap();
    applier.insert_placeholders(&mut store, block(), protocol_version()).unwrap();
    applier.sync_single_chunk(&mut store, 0, chunk0()).unwrap();
    assert!(is_fatal(&applier.finalize_tree(&mut store)));
    assert!(!store.tree().as_ref().unwrap().is_finalized());
}

#[test]
fn finish_before_bootstrap_is_fatal() {
    let mut store = NodeStore::new();
    let mut applier =
        load_from_snapshot_if_needed(&mut store, Some(header()), block(), protocol_version(), vec![chunk0(), chunk1()]).unwrap();
    assert!(is_fatal(&applier.finish(&mut store)));
    assert!(!store.status().unwrap().is_finished);
    applier.complete_bootstrap().unwrap();
    assert!(is_fatal(&applier.complete_bootstrap()));
}

#[test]
fn restart_after_sealed_tree_goes_to_bootstrap() {
    let mut store = NodeStore::new();
    load_from_snapshot_if_needed(&mut store, Some(header()), block(), protocol_version(), vec![chunk0(), chunk1()]).unwrap();
    let mut applier = load_from_snapshot_if_needed(&mut store, Some(header()), block(), protocol_version(), vec![]).unwrap();
    assert_eq!(applier.stage(), RecoveryStage::Bootstrap);
    applier.complete_bootstrap().unwrap();
    applier.finish(&mut store).unwrap();
    assert_fully_recovered(&store);
}

#[test]
fn conflicting_leaf_keeps_cursor() {
    let mut store = NodeStore::new();
    let mut applier = SnapshotApplier::new(&mut store, Some(header())).unwrap();
    applier.insert_placeholders(&mut store, block(), protocol_version()).unwrap();
    applier.sync_single_chunk(&mut store, 0, chunk0()).unwrap();
    let bad = SnapshotChunk { factory_deps: vec![], storage_logs: vec![log(11, 7, 9)] };
    assert!(is_fatal(&applier.sync_single_chunk(&mut store, 1, bad)));
    assert_eq!(store.status().unwrap().last_finished_chunk_id, Some(0));
    assert_eq!(store.tree().as_ref().unwrap().entries().len(), 3);
}

#[test]
fn every_store_holds_each_key_after_a_chunk() {
    let mut store = NodeStore::new();
    let mut applier = SnapshotApplier::new(&mut store, Some(header())).unwrap();
    applier.insert_placeholders(&mut store, block(), protocol_version()).unwrap();
    applier.sync_single_chunk(&mut store, 0, chunk0()).unwrap();
    applier.sync_single_chunk(&mut store, 1, chunk1()).unwrap();
    let entries = store.tree().as_ref().unwrap().entries();
    for row in store.storage_logs() {
        assert!(store.initial_writes().iter().any(|w| w.key == row.key));
        assert!(entries.iter().any(|e| e.key == row.key && e.value == row.value));
    }
    assert_eq!(store.factory_deps()[0].bytecode_hash, 0xc0de);
}

#[test]
fn duplicate_factory_dep_keeps_last() {
    let (mut store, applier) = applying();
    let chunk = SnapshotChunk {
        factory_deps: vec![
            SnapshotFactoryDependency { bytecode_hash: 1, bytecode: vec![1] },
            SnapshotFactoryDependency { bytecode_hash: 1, bytecode: vec![2] },
            SnapshotFactoryDependency { bytecode_hash: 2, bytecode: vec![3] },
        ],
        storage_logs: vec![],
    };
    applier.sync_single_chunk(&mut store, 0, chunk).unwrap();
    assert_eq!(store.factory_deps().len(), 2);
    assert_eq!(store.factory_deps()[0].bytecode, vec![2]);
    assert_eq!(store.factory_deps()[1].bytecode_hash, 2);
}

#[test]
fn initial_write_is_recorded_once_per_key() {
    let (mut store, applier) = applying();
    let chunk = SnapshotChunk { factory_deps: vec![], storage_logs: vec![log(1, 1, 1), log(2, 2, 2), log(2, 5, 2)] };
    applier.sync_single_chunk(&mut store, 0, chunk).unwrap();
    assert_eq!(
        *store.initial_writes(),
        vec![InitialWrite { key: 1, l1_batch_number: BATCH }, InitialWrite { key: 2, l1_batch_number: BATCH }]
    );
    assert_eq!(store.tree().as_ref().unwrap().entries()[1], RecoveryEntry { key: 2, value: 5, leaf_index: 2 });
}

#[test]
fn storage_logs_are_written_under_the_block() {
    let (mut store, applier) = applying();
    let chunk = SnapshotChunk { factory_deps: vec![], storage_logs: vec![log(1, 9, 1)] };
    applier.sync_single_chunk(&mut store, 0, chunk).unwrap();
    assert_eq!(*store.storage_logs(), vec![StoredLog { miniblock_number: BLOCK, key: 1, value: 9 }]);
}

#[test]
fn chunk_past_the_next_is_fatal_and_finalize_refused() {
    let (mut store, mut applier) = applying();
    assert!(is_fatal(&applier.sync_single_chunk(&mut store, 1, chunk1())));
    assert!(store.storage_logs().is_empty());
    assert_eq!(store.status().unwrap().last_finished_chunk_id, None);
    assert!(is_fatal(&applier.finalize_tree(&mut store)));
}

#[test]
fn tree_finalize_twice_is_fatal_and_keeps_leaves() {
    let mut tree = MerkleTreeRecovery::new(BATCH);
    tree.extend(&vec![RecoveryEntry { key: 5, value: 50, leaf_index: 1 }]).unwrap();
    tree.finalize().unwrap();
    assert!(is_fatal(&tree.finalize()));
    assert!(is_fatal(&tree.extend(&vec![RecoveryEntry { key: 6, value: 60, leaf_index: 2 }])));
    assert_eq!(tree.entries(), vec![RecoveryEntry { key: 5, value: 50, leaf_index: 1 }]);
    assert!(tree.is_finalized());
}

#[test]
fn tree_accepts_chunks_in_any_order() {
    let mut a = MerkleTreeRecovery::new(BATCH);
    a.extend(&vec![RecoveryEntry { key: 9, value: 90, leaf_index: 2 }]).unwrap();
    a.extend(&vec![RecoveryEntry { key: 3, value: 30, leaf_index: 1 }]).unwrap();
    assert_eq!(a.entries().len(), 2);
    a.extend(&vec![RecoveryEntry { key: 9, value: 91, leaf_index: 2 }]).unwrap();
    assert_eq!(a.entries()[0], RecoveryEntry { key: 9, value: 91, leaf_index: 2 });
}

#[test]
fn tree_conflicting_leaf_index_is_fatal() {
    let mut a = MerkleTreeRecovery::new(BATCH);
    a.extend(&vec![RecoveryEntry { key: 9, value: 90, leaf_index: 2 }]).unwrap();
    let r = a.extend(&vec![
        RecoveryEntry { key: 1, value: 10, leaf_index: 1 },
        RecoveryEntry { key: 9, value: 90, leaf_index: 3 },
    ]);
    assert!(is_fatal(&r));
    assert_eq!(a.entries(), vec![RecoveryEntry { key: 9, value: 90, leaf_index: 2 }]);
}

fn run_with_crash_after(k: usize) -> NodeStore {
    let mut store = NodeStore::new();
    {
        let mut applier = SnapshotApplier::new(&mut store, Some(header())).unwrap();
        applier.insert_placeholders(&mut store, block(), protocol_version()).unwrap();
        let payloads = [chunk0(), chunk1()];
        for (id, chunk) in payloads.into_iter().enumerate().take(k) {
            applier.sync_single_chunk(&mut store, id as u64, chunk).unwrap();
        }
    }
    let mut applier = SnapshotApplier::new(&mut store, Some(header())).unwrap();
    let pending: Vec<SnapshotChunk> = applier
        .pending_chunks(&store)
        .into_iter()
        .map(|id| if id == 0 { chunk0() } else { chunk1() })
        .collect();
    assert_eq!(pending.len(), 2 - k);
    applier.load_snapshot(&mut store, block(), protocol_version(), pending).unwrap();
    applier.complete_bootstrap().unwrap();
    applier.finish(&mut store).unwrap();
    store
}

#[test]
fn resume_from_any_prefix_matches_uninterrupted_run() {
    for k in 0..=2 {
        let store = run_with_crash_after(k);
        assert_fully_recovered(&store);
    }
}

#[test]
fn referential_check_detects_a_skipped_step() {
    let (mut store, applier) = applying();
    assert!(store.check_consistency());
    applier.sync_single_chunk(&mut store, 0, chunk0()).unwrap();
    assert!(store.check_consistency());
    let row = StoredLog { miniblock_number: BLOCK, key: 99, value: 1 };
    let write = InitialWrite { key: 99, l1_batch_number: BATCH };
    let mut tree = MerkleTreeRecovery::new(BATCH);
    tree.extend(&vec![RecoveryEntry { key: 99, value: 1, leaf_index: 9 }]).unwrap();
    // a pipeline that wrote the storage log but skipped the initial-write index
    let skipped_index = NodeStore::from_tables(false, None, None, None, vec![], vec![], vec![row], vec![], Some(tree));
    assert!(!skipped_index.check_consistency());
    // a pipeline that wrote the storage log and the index but not the leaf
    let skipped_leaf = NodeStore::from_tables(
        false, None, None, None, vec![], vec![], vec![row], vec![write], Some(MerkleTreeRecovery::new(BATCH)),
    );
    assert!(!skipped_leaf.check_consistency());
    let mut tree = MerkleTreeRecovery::new(BATCH);
    tree.extend(&vec![RecoveryEntry { key: 99, value: 1, leaf_index: 9 }]).unwrap();
    let complete = NodeStore::from_tables(false, None, None, None, vec![], vec![], vec![row], vec![write], Some(tree));
    assert!(complete.check_consistency());
}

#[test]
fn store_without_tree_is_inconsistent() {
    assert!(!NodeStore::new().check_consistency());
}

#[test]
fn other_last_batch_is_fatal() {
    let mut store = NodeStore::new();
    let mut h = header();
    h.last_l1_batch_with_metadata.header.number = 99;
    assert!(matches!(SnapshotApplier::new(&mut store, Some(h)), Err(SnapshotApplierError::Fatal(_))));
    assert!(store.status().is_none());
}

#[test]
fn failed_chunk_writes_nothing() {
    let mut store = NodeStore::new();
    let mut applier = SnapshotApplier::new(&mut store, Some(header())).unwrap();
    applier.insert_placeholders(&mut store, block(), protocol_version()).unwrap();
    applier.sync_single_chunk(&mut store, 0, chunk0()).unwrap();
    let bad = SnapshotChunk {
        factory_deps: vec![SnapshotFactoryDependency { bytecode_hash: 7, bytecode: vec![7] }],
        storage_logs: vec![log(20, 1, 20), log(11, 7, 9)],
    };
    assert!(is_fatal(&applier.sync_single_chunk(&mut store, 1, bad)));
    assert_eq!(store.storage_logs().len(), 3);
    assert_eq!(store.initial_writes().len(), 3);
    assert!(store.factory_deps().is_empty());
    let mut applier = SnapshotApplier::new(&mut store, Some(header())).unwrap();
    applier.load_snapshot(&mut store, block(), protocol_version(), vec![chunk1()]).unwrap();
    applier.complete_bootstrap().unwrap();
    applier.finish(&mut store).unwrap();
    assert_fully_recovered(&store);
}

#[test]
fn failed_load_leaves_record_unfinished_at_last_applied_chunk() {
    let mut store = NodeStore::new();
    let bad = SnapshotChunk { factory_deps: vec![], storage_logs: vec![log(11, 7, 9)] };
    let r = load_from_snapshot_if_needed(&mut store, Some(header()), block(), protocol_version(), vec![chunk0(), bad]);
    assert!(matches!(r, Err(SnapshotApplierError::Fatal(_))));
    let status = store.status().unwrap();
    assert!(!status.is_finished);
    assert_eq!(status.last_finished_chunk_id, Some(0));
}

#[test]
fn tree_leaves_agree_in_either_chunk_order() {
    let a = vec![RecoveryEntry { key: 1, value: 10, leaf_index: 1 }, RecoveryEntry { key: 2, value: 20, leaf_index: 2 }];
    let b = vec![RecoveryEntry { key: 3, value: 30, leaf_index: 3 }];
    let mut ab = MerkleTreeRecovery::new(BATCH);
    ab.extend(&a).unwrap();
    ab.extend(&b).unwrap();
    let mut ba = MerkleTreeRecovery::new(BATCH);
    ba.extend(&b).unwrap();
    ba.extend(&a).unwrap();
    let mut x = ab.entries();
    let mut y = ba.entries();
    x.sort_by_key(|e| e.key);
    y.sort_by_key(|e| e.key);
    assert_eq!(x, y);
    assert_eq!(x.len(), 3);
}
