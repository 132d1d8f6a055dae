use vstd::prelude::*;
use crate::error::SnapshotApplierError;
use crate::progress::{AppliedSnapshotStatus, cursor_of};
use crate::snapshot::{
    L1BatchWithMetadata, ProtocolVersion, SnapshotChunk, SnapshotHeader, SyncBlock, placeholder_header,
    to_placeholder_header,
};
use crate::store::{
    NodeStore, StoreView, add_protocol_version, chunk_applied, chunks_applied, dep_pairs, lemma_chunk_keeps_tables_consistent,
    lemma_chunks_split, store_cursor, tables_consistent, to_recovery_entries,
};
use crate::tree::{MerkleTreeRecovery, TreeView};

verus! {

/// Where a recovery run stands. The stages are passed in this order, and
/// none is entered twice.
#[derive(Debug, Clone, Copy, PartialEq, Eq, Structural)]
pub enum RecoveryStage {
    SeedPlaceholders,
    ApplyChunks,
    Bootstrap,
    MarkFinished,
    Done,
}

/// Recovery is inapplicable: the node was bootstrapped from genesis without a
/// recovery record, or a finished record exists.
pub open spec fn recovery_inapplicable(v: StoreView) -> bool {
    (v.genesis_present && v.status is None) || (v.status matches Some(s) && s.is_finished)
}

/// The record and tree found in the store can carry a recovery of `batch`.
pub open spec fn resumable_for(v: StoreView, batch: u64) -> bool {
    &&& (v.status matches Some(s) ==> s.l1_batch_number == batch && !s.is_finished)
    &&& (v.tree matches Some(t) ==> t.version == batch)
}

/// The store once recovery of `batch` is opened: the record and the tree that
/// were there are kept, and a fresh one is made of each that was missing.
pub open spec fn recovery_opened(v: StoreView, batch: u64) -> StoreView {
    StoreView {
        status: Some(
            match v.status {
                Some(s) => s,
                None => AppliedSnapshotStatus {
                    l1_batch_number: batch,
                    is_finished: false,
                    last_finished_chunk_id: None,
                },
            },
        ),
        tree: Some(
            match v.tree {
                Some(t) => t,
                None => TreeView { version: batch, entries: Seq::empty(), finalized: false },
            },
        ),
        ..v
    }
}

/// The store once the placeholders are seeded: the protocol version record of
/// the peer's block `b`, the placeholder header of `b` marked as executed in
/// the snapshot's last batch, and that batch with its metadata.
pub open spec fn placeholders_seeded(v: StoreView, b: SyncBlock, p: ProtocolVersion, m: L1BatchWithMetadata) -> StoreView {
    StoreView {
        protocol_versions: add_protocol_version(v.protocol_versions, p),
        placeholder_block: Some(placeholder_header(b, m.header.number)),
        placeholder_batch: Some(m),
        ..v
    }
}

/// The peer's block and protocol version can seed the placeholders of a
/// snapshot whose terminal block is `block_number`.
pub open spec fn seed_accepted(b: SyncBlock, p: ProtocolVersion, block_number: u64) -> bool {
    &&& b.number == block_number
    &&& b.hash is Some
    &&& b.virtual_blocks is Some
    &&& p.version_id == b.protocol_version
}

/// The placeholders of this snapshot are in the store already.
pub open spec fn placeholders_present(v: StoreView, block_number: u64, m: L1BatchWithMetadata) -> bool {
    &&& v.placeholder_block matches Some(h) && h.number == block_number
    &&& v.placeholder_batch == Some(m)
}

/// The stage a run opens at: the bootstrap where the tree is sealed, the
/// chunks where the placeholders are written, else the placeholders.
pub open spec fn start_stage(v: StoreView, block_number: u64, m: L1BatchWithMetadata) -> RecoveryStage {
    if v.tree matches Some(t) && t.finalized {
        RecoveryStage::Bootstrap
    } else if placeholders_present(v, block_number, m) {
        RecoveryStage::ApplyChunks
    } else {
        RecoveryStage::SeedPlaceholders
    }
}

/// The store the chunks are applied to: seeded first where `seed` holds.
pub open spec fn load_base(v: StoreView, seed: bool, b: SyncBlock, p: ProtocolVersion, m: L1BatchWithMetadata) -> StoreView {
    if seed {
        placeholders_seeded(v, b, p, m)
    } else {
        v
    }
}

/// How many chunks of a snapshot of `n` chunks are above the store's cursor.
pub open spec fn pending_count(v: StoreView, n: nat) -> int {
    if store_cursor(v) <= n {
        n - store_cursor(v)
    } else {
        0
    }
}

/// Applying `payloads` to `base` as the pending chunks of a snapshot of batch
/// `batch`, terminal block `block_number` and `n` chunks succeeds: a payload
/// is given for each pending chunk, each applies, the last brings the cursor
/// to the end, and the tree is still open to be sealed.
pub open spec fn load_succeeds(
    base: StoreView,
    batch: u64,
    block_number: u64,
    n: nat,
    payloads: Seq<SnapshotChunk>,
) -> bool {
    &&& payloads.len() == pending_count(base, n)
    &&& chunks_applied(base, batch, block_number, store_cursor(base), payloads) matches Some(w)
    &&& store_cursor(w) == n
    &&& w.tree matches Some(t) && !t.finalized
}

/// The store once the recovering tree is sealed.
pub open spec fn tree_sealed(v: StoreView) -> StoreView {
    StoreView { tree: Some(TreeView { finalized: true, ..v.tree->0 }), ..v }
}

/// Where a load failed: the store as it was, or as it stands after the first
/// `j` pending chunks were applied to `base`.
pub open spec fn stopped_at_chunk(
    old: StoreView,
    base: StoreView,
    batch: u64,
    block_number: u64,
    payloads: Seq<SnapshotChunk>,
    now: StoreView,
) -> bool {
    ||| now == old
    ||| exists|j: int|
        0 <= j <= payloads.len() && chunks_applied(base, batch, block_number, store_cursor(base), payloads.take(j))
            == Some(now)
}

/// Decides whether recovery may start on this store.
pub fn check_preconditions(store: &NodeStore) -> (r: Result<(), SnapshotApplierError>)
    ensures
        r is Ok <==> !recovery_inapplicable(store@),
        r matches Err(e) ==> e.is_canceled(),
{
    match store.status {
        None => {
            if store.genesis_present {
                return Err(SnapshotApplierError::Canceled(
                    "This node has already been initialized without a snapshot".to_string(),
                ));
            }
        },
        Some(s) => {
            if s.is_finished {
                return Err(SnapshotApplierError::Canceled(
                    "This node has already been initialized from a snapshot".to_string(),
                ));
            }
        },
    }
    Ok(())
}

/// The orchestrator of one recovery run over a snapshot.
#[derive(Debug)]
pub struct SnapshotApplier {
    snapshot: SnapshotHeader,
    stage: RecoveryStage,
}

impl SnapshotApplier {
    pub closed spec fn batch(&self) -> u64 {
        self.snapshot.l1_batch_number
    }

    pub closed spec fn block(&self) -> u64 {
        self.snapshot.miniblock_number
    }

    pub closed spec fn chunk_count(&self) -> nat {
        self.snapshot.chunks@.len()
    }

    pub closed spec fn stage_of(&self) -> RecoveryStage {
        self.stage
    }

    pub fn l1_batch_number(&self) -> (r: u64)
        ensures
            r == self.batch(),
    {
        self.snapshot.l1_batch_number
    }

    pub fn miniblock_number(&self) -> (r: u64)
        ensures
            r == self.block(),
    {
        self.snapshot.miniblock_number
    }

    pub fn stage(&self) -> (r: RecoveryStage)
        ensures
            r == self.stage_of(),
    {
        self.stage
    }

    pub fn snapshot(&self) -> (r: &SnapshotHeader)
        ensures
            r.l1_batch_number == self.batch(),
            r.miniblock_number == self.block(),
            r.chunks@.len() == self.chunk_count(),
    {
        &self.snapshot
    }

    pub closed spec fn last_batch(&self) -> L1BatchWithMetadata {
        self.snapshot.last_l1_batch_with_metadata
    }

    /// Opens a recovery run. It is canceled where recovery is inapplicable or
    /// the peer offers no snapshot, and fails where the snapshot is not well
    /// formed or the store holds a record or tree for another batch; in all
    /// those cases the store is left as it was. Otherwise the record and the
    /// tree are created where missing, and the run starts at the first stage
    /// not yet done: the bootstrap where the tree is sealed, the chunks where
    /// the placeholders are written, else the placeholders.
    pub fn new(store: &mut NodeStore, snapshot: Option<SnapshotHeader>) -> (r: Result<
        SnapshotApplier,
        SnapshotApplierError,
    >)
        ensures
            recovery_inapplicable(old(store)@) ==> (r matches Err(e) && e.is_canceled()),
            !recovery_inapplicable(old(store)@) && snapshot is None ==> (r matches Err(e)
                && e.is_canceled()),
            !recovery_inapplicable(old(store)@) && snapshot is Some ==> (r is Ok <==> (
            snapshot->0.well_formed() && resumable_for(old(store)@, snapshot->0.l1_batch_number))),
            !recovery_inapplicable(old(store)@) && snapshot is Some ==> (r matches Err(e) ==> e.is_fatal()),
            r is Err ==> final(store)@ == old(store)@,
            r matches Ok(a) ==> {
                &&& snapshot matches Some(s) && a.batch() == s.l1_batch_number && a.block()
                    == s.miniblock_number && a.chunk_count() == s.chunks@.len() && a.last_batch()
                    == s.last_l1_batch_with_metadata
                &&& final(store)@ == recovery_opened(old(store)@, a.batch())
                &&& a.stage_of() == start_stage(old(store)@, a.block(), a.last_batch())
            },
    {
        check_preconditions(store)?;
        let snapshot = match snapshot {
            None => {
                return Err(SnapshotApplierError::Canceled(
                    "Main node does not have any ready snapshots".to_string(),
                ));
            },
            Some(s) => s,
        };
        if !snapshot.is_well_formed() {
            return Err(SnapshotApplierError::Fatal(
                "the snapshot's chunks are not numbered in order or its last batch is another".to_string(),
            ));
        }
        let batch = snapshot.l1_batch_number;
        let status = AppliedSnapshotStatus::initialize(store.status, batch)?;
        let sealed = match &store.tree {
            Some(t) => {
                if t.version() != batch {
                    return Err(SnapshotApplierError::Fatal(
                        "the recovering tree is at another version".to_string(),
                    ));
                }
                t.is_finalized()
            },
            None => false,
        };
        let seeded = match (store.placeholder_block, store.placeholder_batch) {
            (Some(h), Some(m)) => h.number == snapshot.miniblock_number && m == snapshot.last_l1_batch_with_metadata,
            _ => false,
        };
        store.status = Some(status);
        if store.tree.is_none() {
            store.tree = Some(MerkleTreeRecovery::new(batch));
        }
        let stage = if sealed {
            RecoveryStage::Bootstrap
        } else if seeded {
            RecoveryStage::ApplyChunks
        } else {
            RecoveryStage::SeedPlaceholders
        };
        Ok(SnapshotApplier { snapshot, stage })
    }

    /// Seeds the placeholders: saves the protocol version record of the
    /// peer's block, writes the placeholder header of that block, with no
    /// transactions and no base fee, then the snapshot's last batch with its
    /// metadata, and marks the block as executed in that batch. A block other
    /// than the snapshot's terminal one, one without hash or virtual-block
    /// count, a protocol version of another id, or a call out of stage fails
    /// and changes nothing.
    pub fn insert_placeholders(
        &mut self,
        store: &mut NodeStore,
        block: SyncBlock,
        protocol_version: ProtocolVersion,
    ) -> (r: Result<(), SnapshotApplierError>)
        ensures
            r is Ok <==> old(self).stage_of() == RecoveryStage::SeedPlaceholders && seed_accepted(
                block,
                protocol_version,
                old(self).block(),
            ),
            r is Ok ==> final(store)@ == placeholders_seeded(old(store)@, block, protocol_version, old(self).last_batch())
                && final(self).stage_of() == RecoveryStage::ApplyChunks,
            r matches Err(e) ==> e.is_fatal() && final(store)@ == old(store)@ && final(self).stage_of()
                == old(self).stage_of(),
            final(self).batch() == old(self).batch(),
            final(self).block() == old(self).block(),
            final(self).chunk_count() == old(self).chunk_count(),
            final(self).last_batch() == old(self).last_batch(),
    {
        if self.stage != RecoveryStage::SeedPlaceholders {
            return Err(SnapshotApplierError::Fatal("placeholders are seeded once, first".to_string()));
        }
        if block.number != self.snapshot.miniblock_number {
            return Err(SnapshotApplierError::Fatal(
                "the peer returned another block than the snapshot's".to_string(),
            ));
        }
        if block.hash.is_none() || block.virtual_blocks.is_none() {
            return Err(SnapshotApplierError::Fatal(
                "the peer's block lacks its hash or virtual-block count".to_string(),
            ));
        }
        if protocol_version.version_id != block.protocol_version {
            return Err(SnapshotApplierError::Fatal(
                "the peer returned another protocol version than the block's".to_string(),
            ));
        }
        let last = self.snapshot.last_l1_batch_with_metadata;
        store.save_protocol_version(protocol_version);
        store.placeholder_block = Some(to_placeholder_header(block, last.header.number));
        store.placeholder_batch = Some(last);
        self.stage = RecoveryStage::ApplyChunks;
        Ok(())
    }

    /// The ids of the chunks still to apply, in ascending order: those above
    /// the cursor of the record in the store.
    pub fn pending_chunks(&self, store: &NodeStore) -> (r: Vec<u64>)
        ensures
            r@.len() == pending_count(store@, self.chunk_count()),
            forall|j: int| 0 <= j < r@.len() ==> r@[j] == store_cursor(store@) + j,
    {
        let n: usize = self.snapshot.chunks.len();
        let first: usize = match store.status {
            Some(s) => match s.last_finished_chunk_id {
                Some(last) => if last >= n as u64 {
                    n
                } else {
                    (last + 1) as usize
                },
                None => 0,
            },
            None => 0,
        };
        let mut r: Vec<u64> = Vec::new();
        let mut i: usize = first;
        while i < n
            invariant
                first <= i <= n,
                n == self.chunk_count(),
                first == if store_cursor(store@) <= n { store_cursor(store@) } else { n as int },
                r@.len() == i - first,
                forall|j: int| 0 <= j < r@.len() ==> r@[j] == first + j,
            decreases n - i,
        {
            r.push(i as u64);
            i = i + 1;
        }
        r
    }

    /// Applies one chunk, whose payload the blob store returned: writes its
    /// factory dependencies, then its entries as storage-log rows under the
    /// terminal block, then their keys into the initial-write index for the
    /// batch, then the leaves into the tree, and only then advances the cursor
    /// to `chunk_id`. Chunks are applied in ascending order with no gap: the
    /// chunk just past the cursor is applied, a chunk at or below the cursor is
    /// skipped and changes nothing, and a later one is refused. Every check, leaves included, comes before the first write:
    /// where it fails, the store is left as it was.
    pub fn sync_single_chunk(&self, store: &mut NodeStore, chunk_id: u64, chunk: SnapshotChunk) -> (r: Result<
        (),
        SnapshotApplierError,
    >)
        ensures
            r is Ok <==> self.stage_of() == RecoveryStage::ApplyChunks && chunk_id < self.chunk_count()
                && chunk_applied(
                old(store)@,
                self.batch(),
                self.block(),
                chunk_id,
                dep_pairs(chunk.factory_deps@),
                chunk.storage_logs@,
            ) is Some,
            r is Ok ==> Some(final(store)@) == chunk_applied(
                old(store)@,
                self.batch(),
                self.block(),
                chunk_id,
                dep_pairs(chunk.factory_deps@),
                chunk.storage_logs@,
            ),
            r matches Err(e) ==> e.is_fatal() && final(store)@ == old(store)@,
            r is Ok ==> chunk_id <= store_cursor(old(store)@),
            store_cursor(final(store)@) >= store_cursor(old(store)@),
            r is Ok && tables_consistent(old(store)@) ==> tables_consistent(final(store)@),
    {
        proof {
            if tables_consistent(store@) && chunk_applied(
                store@,
                self.batch(),
                self.block(),
                chunk_id,
                dep_pairs(chunk.factory_deps@),
                chunk.storage_logs@,
            ) is Some {
                lemma_chunk_keeps_tables_consistent(
                    store@,
                    self.batch(),
                    self.block(),
                    chunk_id,
                    dep_pairs(chunk.factory_deps@),
                    chunk.storage_logs@,
                );
            }
        }
        if self.stage != RecoveryStage::ApplyChunks {
            return Err(SnapshotApplierError::Fatal("chunks are applied after the placeholders".to_string()));
        }
        if chunk_id >= self.snapshot.chunks.len() as u64 {
            return Err(SnapshotApplierError::Fatal("the snapshot has no chunk with this id".to_string()));
        }
        let batch = self.snapshot.l1_batch_number;
        let block = self.snapshot.miniblock_number;
        let mut status = match store.status {
            Some(s) => s,
            None => {
                return Err(SnapshotApplierError::Fatal("no recovery record is open".to_string()));
            },
        };
        if status.is_finished || status.l1_batch_number != batch {
            return Err(SnapshotApplierError::Fatal("no recovery record is open for this batch".to_string()));
        }
        match &store.tree {
            Some(t) => {
                if t.is_finalized() || t.version() != batch {
                    return Err(SnapshotApplierError::Fatal("no recovering tree is open for this batch".to_string()));
                }
            },
            None => {
                return Err(SnapshotApplierError::Fatal("no recovering tree is open".to_string()));
            },
        }
        if status.is_chunk_applied(chunk_id) {
            return Ok(());
        }
        let next = match status.last_finished_chunk_id {
            Some(last) => last < u64::MAX && chunk_id == last + 1,
            None => chunk_id == 0,
        };
        if !next {
            return Err(SnapshotApplierError::Fatal("chunks are applied in ascending order, with no gap".to_string()));
        }
        let SnapshotChunk { factory_deps, storage_logs } = chunk;
        let entries = to_recovery_entries(&storage_logs);
        let fits = match &store.tree {
            Some(t) => t.can_extend(&entries),
            None => false,
        };
        if !fits {
            return Err(SnapshotApplierError::Fatal("a key of the chunk comes with another leaf index".to_string()));
        }
        store.insert_factory_deps(factory_deps);
        store.append_storage_logs(block, &storage_logs);
        store.insert_initial_writes(batch, &storage_logs);
        let extended = match &mut store.tree {
            Some(t) => t.extend(&entries),
            None => Err(SnapshotApplierError::Fatal("no recovering tree is open".to_string())),
        };
        extended?;
        let done = status.mark_chunk_done(chunk_id);
        done?;
        store.status = Some(status);
        Ok(())
    }

    /// Seals the recovered tree once every chunk of the snapshot is applied.
    /// Out of stage, with chunks left, or on a tree that is no longer open, it
    /// fails and changes nothing.
    pub fn finalize_tree(&mut self, store: &mut NodeStore) -> (r: Result<(), SnapshotApplierError>)
        ensures
            r is Ok <==> old(self).stage_of() == RecoveryStage::ApplyChunks && store_cursor(old(store)@)
                == old(self).chunk_count() && (old(store)@.tree matches Some(t) && !t.finalized),
            r is Ok ==> final(store)@ == tree_sealed(old(store)@) && final(self).stage_of()
                == RecoveryStage::Bootstrap,
            r matches Err(e) ==> e.is_fatal() && final(store)@ == old(store)@ && final(self).stage_of()
                == old(self).stage_of(),
            final(self).batch() == old(self).batch(),
            final(self).block() == old(self).block(),
            final(self).chunk_count() == old(self).chunk_count(),
            final(self).last_batch() == old(self).last_batch(),
    {
        if self.stage != RecoveryStage::ApplyChunks {
            return Err(SnapshotApplierError::Fatal("the tree is sealed after the chunks".to_string()));
        }
        let n = self.snapshot.chunks.len();
        let all_applied = match store.status {
            Some(s) => match s.last_finished_chunk_id {
                Some(last) => last < u64::MAX && last + 1 == n as u64,
                None => n == 0,
            },
            None => n == 0,
        };
        if !all_applied {
            return Err(SnapshotApplierError::Fatal("chunks of the snapshot are not applied yet".to_string()));
        }
        let sealed = match &mut store.tree {
            Some(t) => t.finalize(),
            None => Err(SnapshotApplierError::Fatal("no recovering tree is open".to_string())),
        };
        sealed?;
        self.stage = RecoveryStage::Bootstrap;
        Ok(())
    }

    /// Records that the block-execution and tree-metadata pipelines have run
    /// to their priming point on the recovered batch.
    pub fn complete_bootstrap(&mut self) -> (r: Result<(), SnapshotApplierError>)
        ensures
            r is Ok <==> old(self).stage_of() == RecoveryStage::Bootstrap,
            r is Ok ==> final(self).stage_of() == RecoveryStage::MarkFinished,
            r matches Err(e) ==> e.is_fatal() && final(self).stage_of() == old(self).stage_of(),
            final(self).batch() == old(self).batch(),
            final(self).block() == old(self).block(),
            final(self).chunk_count() == old(self).chunk_count(),
            final(self).last_batch() == old(self).last_batch(),
    {
        if self.stage != RecoveryStage::Bootstrap {
            return Err(SnapshotApplierError::Fatal("the bootstrap follows the sealed tree".to_string()));
        }
        self.stage = RecoveryStage::MarkFinished;
        Ok(())
    }

    /// Sets the record's finished flag. The placeholder header and batch stay:
    /// they are the records of the recovered block and batch from now on.
    pub fn finish(&mut self, store: &mut NodeStore) -> (r: Result<(), SnapshotApplierError>)
        ensures
            r is Ok <==> old(self).stage_of() == RecoveryStage::MarkFinished && (old(store)@.status matches Some(
                s,
            ) && !s.is_finished),
            r is Ok ==> final(store)@ == (StoreView {
                status: Some(AppliedSnapshotStatus { is_finished: true, ..old(store)@.status->0 }),
                ..old(store)@
            }) && final(self).stage_of() == RecoveryStage::Done,
            r matches Err(e) ==> e.is_fatal() && final(store)@ == old(store)@ && final(self).stage_of()
                == old(self).stage_of(),
            final(self).batch() == old(self).batch(),
            final(self).block() == old(self).block(),
            final(self).chunk_count() == old(self).chunk_count(),
            final(self).last_batch() == old(self).last_batch(),
    {
        if self.stage != RecoveryStage::MarkFinished {
            return Err(SnapshotApplierError::Fatal("recovery is finished after the bootstrap".to_string()));
        }
        let mut status = match store.status {
            Some(s) => s,
            None => {
                return Err(SnapshotApplierError::Fatal("no recovery record is open".to_string()));
            },
        };
        status.mark_finished()?;
        store.status = Some(status);
        self.stage = RecoveryStage::Done;
        Ok(())
    }

    /// Seeds the placeholders unless the run resumes after them, applies the
    /// pending chunks, whose payloads are given in ascending order of id, and
    /// seals the tree. On success the run waits for the bootstrap. On failure
    /// the store is as it was, or as it stands after the pending chunks that
    /// were fully applied: the record keeps its finished flag unset and its
    /// cursor at the last of them.
    pub fn load_snapshot(
        &mut self,
        store: &mut NodeStore,
        block: SyncBlock,
        protocol_version: ProtocolVersion,
        payloads: Vec<SnapshotChunk>,
    ) -> (r: Result<(), SnapshotApplierError>)
        ensures
            ({
                let seed = old(self).stage_of() == RecoveryStage::SeedPlaceholders;
                let base = load_base(old(store)@, seed, block, protocol_version, old(self).last_batch());
                &&& r is Ok <==> ((seed && seed_accepted(block, protocol_version, old(self).block()))
                    || old(self).stage_of() == RecoveryStage::ApplyChunks) && load_succeeds(
                    base,
                    old(self).batch(),
                    old(self).block(),
                    old(self).chunk_count(),
                    payloads@,
                )
                &&& r is Ok ==> {
                    &&& chunks_applied(base, old(self).batch(), old(self).block(), store_cursor(old(store)@), payloads@)
                        matches Some(w)
                    &&& final(store)@ == tree_sealed(w)
                    &&& final(self).stage_of() == RecoveryStage::Bootstrap
                }
                &&& seed && !seed_accepted(block, protocol_version, old(self).block()) ==> final(store)@
                    == old(store)@
                &&& r is Err ==> stopped_at_chunk(
                    old(store)@,
                    base,
                    old(self).batch(),
                    old(self).block(),
                    payloads@,
                    final(store)@,
                )
            }),
            r matches Err(e) ==> e.is_fatal(),
            r is Err && (old(store)@.status matches Some(s) && !s.is_finished) ==> (final(store)@.status matches Some(
                t,
            ) && !t.is_finished),
            store_cursor(final(store)@) >= store_cursor(old(store)@),
            final(self).batch() == old(self).batch(),
            final(self).block() == old(self).block(),
            final(self).chunk_count() == old(self).chunk_count(),
            final(self).last_batch() == old(self).last_batch(),
    {
        let ghost seed = self.stage == RecoveryStage::SeedPlaceholders;
        if self.stage == RecoveryStage::SeedPlaceholders {
            self.insert_placeholders(store, block, protocol_version)?;
        } else if self.stage != RecoveryStage::ApplyChunks {
            return Err(SnapshotApplierError::Fatal("chunks are applied after the placeholders".to_string()));
        }
        let ghost base = store@;
        let ghost first = store_cursor(store@);
        assert(payloads@.take(0) =~= Seq::<SnapshotChunk>::empty());
        assert(chunks_applied(base, self.batch(), self.block(), first, payloads@.take(0)) == Some(base));
        let pending = self.pending_chunks(store);
        if pending.len() != payloads.len() {
            return Err(SnapshotApplierError::Fatal("a payload is needed for each pending chunk".to_string()));
        }
        let mut rest = payloads;
        let ghost orig = rest@;
        let total: usize = rest.len();
        let mut j: usize = 0;
        while rest.len() > 0
            invariant
                j + rest@.len() == total,
                orig.len() == total,
                pending@.len() == total,
                total == pending_count(base, self.chunk_count()),
                first == store_cursor(base),
                forall|m: int| 0 <= m < pending@.len() ==> pending@[m] == first + m,
                rest@ == orig.subrange(j as int, total as int),
                orig == payloads@,
                seed == (old(self).stage_of() == RecoveryStage::SeedPlaceholders),
                seed ==> seed_accepted(block, protocol_version, old(self).block()),
                seed || old(self).stage_of() == RecoveryStage::ApplyChunks,
                base == load_base(old(store)@, seed, block, protocol_version, old(self).last_batch()),
                chunks_applied(base, self.batch(), self.block(), first, orig.subrange(0, j as int))
                    == Some(store@),
                store_cursor(store@) >= store_cursor(old(store)@),
                (old(store)@.status matches Some(s) && !s.is_finished) ==> (store@.status matches Some(t)
                    && !t.is_finished),
                self.stage_of() == RecoveryStage::ApplyChunks,
                self.batch() == old(self).batch(),
                self.block() == old(self).block(),
                self.chunk_count() == old(self).chunk_count(),
                self.last_batch() == old(self).last_batch(),
            decreases rest@.len(),
        {
            let chunk = rest.remove(0);
            let id = pending[j];
            proof {
                if chunks_applied(base, self.batch(), self.block(), first, orig) is Some {
                    lemma_chunks_split(
                        base,
                        self.batch(),
                        self.block(),
                        first,
                        orig.subrange(0, j + 1),
                        orig.subrange(j + 1, total as int),
                    );
                    assert(orig.subrange(0, j + 1) + orig.subrange(j + 1, total as int) =~= orig);
                }
                assert(orig.subrange(0, j as int) =~= payloads@.take(j as int));
            }
            assert(orig.subrange(0, j + 1).drop_last() =~= orig.subrange(0, j as int));
            assert(orig.subrange(0, j + 1).last() == chunk);
            assert(chunks_applied(base, self.batch(), self.block(), first, orig) is Some ==> chunk_applied(
                store@,
                self.batch(),
                self.block(),
                id,
                dep_pairs(chunk.factory_deps@),
                chunk.storage_logs@,
            ) is Some);
            assert(id < self.chunk_count());
            self.sync_single_chunk(store, id, chunk)?;
            j = j + 1;
            assert(rest@ =~= orig.subrange(j as int, total as int));
        }
        assert(orig.subrange(0, j as int) =~= orig);
        assert(payloads@.take(j as int) =~= orig);
        self.finalize_tree(store)?;
        Ok(())
    }
}

} // verus!

verus! {

/// Runs recovery up to the bootstrap where the store needs it: opens the run
/// (canceled where recovery is inapplicable or no snapshot is offered, and then
/// nothing is written), seeds the placeholders unless they are written, applies
/// the pending chunks and seals the tree. A run that finds the tree sealed
/// already goes straight to the bootstrap. The returned applier waits for the
/// bootstrap. Any other failure leaves the record unfinished, with its cursor
/// at the last chunk fully applied.
pub fn load_from_snapshot_if_needed(
    store: &mut NodeStore,
    snapshot: Option<SnapshotHeader>,
    block: SyncBlock,
    protocol_version: ProtocolVersion,
    payloads: Vec<SnapshotChunk>,
) -> (r: Result<SnapshotApplier, SnapshotApplierError>)
    ensures
        recovery_inapplicable(old(store)@) ==> (r matches Err(e) && e.is_canceled()),
        snapshot is None ==> r is Err,
        !recovery_inapplicable(old(store)@) && snapshot is Some ==> ({
            let s = snapshot->0;
            let m = s.last_l1_batch_with_metadata;
            let st = start_stage(old(store)@, s.miniblock_number, m);
            let opened = recovery_opened(old(store)@, s.l1_batch_number);
            let base = load_base(opened, st == RecoveryStage::SeedPlaceholders, block, protocol_version, m);
            &&& r is Ok <==> {
                &&& s.well_formed()
                &&& resumable_for(old(store)@, s.l1_batch_number)
                &&& st == RecoveryStage::Bootstrap || ((st == RecoveryStage::ApplyChunks || seed_accepted(
                    block,
                    protocol_version,
                    s.miniblock_number,
                )) && load_succeeds(base, s.l1_batch_number, s.miniblock_number, s.chunks@.len(), payloads@))
            }
            &&& r is Ok ==> if st == RecoveryStage::Bootstrap {
                final(store)@ == opened
            } else {
                &&& chunks_applied(base, s.l1_batch_number, s.miniblock_number, store_cursor(old(store)@), payloads@)
                    matches Some(w)
                &&& final(store)@ == tree_sealed(w)
            }
            &&& st == RecoveryStage::SeedPlaceholders && !seed_accepted(block, protocol_version, s.miniblock_number)
                ==> final(store)@ == old(store)@ || final(store)@ == opened
            &&& r is Err ==> final(store)@ == old(store)@ || stopped_at_chunk(
                opened,
                base,
                s.l1_batch_number,
                s.miniblock_number,
                payloads@,
                final(store)@,
            )
        }),
        r matches Err(e) && e.is_canceled() ==> final(store)@ == old(store)@,
        r matches Err(e) && !e.is_canceled() ==> (final(store)@.status matches Some(t) ==> !t.is_finished),
        r matches Ok(a) ==> a.stage_of() == RecoveryStage::Bootstrap,
        store_cursor(final(store)@) >= store_cursor(old(store)@),
{
    let mut applier = SnapshotApplier::new(store, snapshot)?;
    if applier.stage() == RecoveryStage::Bootstrap {
        return Ok(applier);
    }
    applier.load_snapshot(store, block, protocol_version, payloads)?;
    Ok(applier)
}

} // verus!
