use vstd::prelude::*;

verus! {

/// One key/value write that existed at snapshot time, with its leaf index.
#[derive(Debug, Clone, Copy, PartialEq, Eq, Structural)]
pub struct SnapshotStorageLog {
    pub key: u64,
    pub value: u64,
    pub enumeration_index: u64,
}

/// A bytecode blob and the hash it is stored under.
#[derive(Debug)]
pub struct SnapshotFactoryDependency {
    pub bytecode_hash: u64,
    pub bytecode: Vec<u8>,
}

/// One unit of transferable state, as the blob store hands it out.
#[derive(Debug)]
pub struct SnapshotChunk {
    pub factory_deps: Vec<SnapshotFactoryDependency>,
    pub storage_logs: Vec<SnapshotStorageLog>,
}

/// Locates one chunk's blob.
#[derive(Debug)]
pub struct SnapshotChunkMetadata {
    pub chunk_id: u64,
    pub filepath: String,
}

/// Hashes of the base system contracts a block or protocol version runs with.
#[derive(Debug, Clone, Copy, PartialEq, Eq, Structural)]
pub struct BaseSystemContractsHashes {
    pub bootloader: u64,
    pub default_aa: u64,
}

/// The header of an L1 batch.
#[derive(Debug, Clone, Copy, PartialEq, Eq, Structural)]
pub struct L1BatchHeader {
    pub number: u64,
    pub timestamp: u64,
    pub protocol_version: Option<u16>,
}

/// The commitment data of an L1 batch.
#[derive(Debug, Clone, Copy, PartialEq, Eq, Structural)]
pub struct L1BatchMetadata {
    pub root_hash: u64,
    pub rollup_last_leaf_index: u64,
    pub commitment: u64,
}

/// The last fully committed batch of a snapshot, with its metadata.
#[derive(Debug, Clone, Copy, PartialEq, Eq, Structural)]
pub struct L1BatchWithMetadata {
    pub header: L1BatchHeader,
    pub metadata: L1BatchMetadata,
}

/// The description of one published snapshot.
#[derive(Debug)]
pub struct SnapshotHeader {
    pub l1_batch_number: u64,
    pub miniblock_number: u64,
    pub generated_at: u64,
    pub chunks: Vec<SnapshotChunkMetadata>,
    pub last_l1_batch_with_metadata: L1BatchWithMetadata,
}

/// A block as the peer reports it.
#[derive(Debug, Clone, Copy, PartialEq, Eq, Structural)]
pub struct SyncBlock {
    pub number: u64,
    pub timestamp: u64,
    pub hash: Option<u64>,
    pub l1_gas_price: u64,
    pub l2_fair_gas_price: u64,
    pub base_system_contracts_hashes: BaseSystemContractsHashes,
    pub protocol_version: u16,
    pub virtual_blocks: Option<u32>,
}

/// A stored block header; `l1_batch_number` is set once the block is marked
/// as executed in a batch.
#[derive(Debug, Clone, Copy, PartialEq, Eq, Structural)]
pub struct MiniblockHeader {
    pub number: u64,
    pub timestamp: u64,
    pub hash: u64,
    pub l1_tx_count: u16,
    pub l2_tx_count: u16,
    pub base_fee_per_gas: u64,
    pub l1_gas_price: u64,
    pub l2_fair_gas_price: u64,
    pub base_system_contracts_hashes: BaseSystemContractsHashes,
    pub protocol_version: Option<u16>,
    pub virtual_blocks: u32,
    pub l1_batch_number: Option<u64>,
}

/// A protocol version record as the peer reports it and the node stores it.
#[derive(Debug, Clone, Copy, PartialEq, Eq, Structural)]
pub struct ProtocolVersion {
    pub version_id: u16,
    pub timestamp: u64,
    pub base_system_contracts: BaseSystemContractsHashes,
    pub l2_system_upgrade_tx_hash: Option<u64>,
}

/// The placeholder header written for the peer's block `b`: no transactions,
/// no base fee, marked as executed in batch `batch`.
pub open spec fn placeholder_header(b: SyncBlock, batch: u64) -> MiniblockHeader {
    MiniblockHeader {
        number: b.number,
        timestamp: b.timestamp,
        hash: b.hash->0,
        l1_tx_count: 0,
        l2_tx_count: 0,
        base_fee_per_gas: 0,
        l1_gas_price: b.l1_gas_price,
        l2_fair_gas_price: b.l2_fair_gas_price,
        base_system_contracts_hashes: b.base_system_contracts_hashes,
        protocol_version: Some(b.protocol_version),
        virtual_blocks: b.virtual_blocks->0,
        l1_batch_number: Some(batch),
    }
}

/// Builds the placeholder header; the block must carry its hash and its
/// virtual-block count.
pub fn to_placeholder_header(b: SyncBlock, batch: u64) -> (r: MiniblockHeader)
    requires
        b.hash is Some,
        b.virtual_blocks is Some,
    ensures
        r == placeholder_header(b, batch),
{
    MiniblockHeader {
        number: b.number,
        timestamp: b.timestamp,
        hash: b.hash.unwrap(),
        l1_tx_count: 0,
        l2_tx_count: 0,
        base_fee_per_gas: 0,
        l1_gas_price: b.l1_gas_price,
        l2_fair_gas_price: b.l2_fair_gas_price,
        base_system_contracts_hashes: b.base_system_contracts_hashes,
        protocol_version: Some(b.protocol_version),
        virtual_blocks: b.virtual_blocks.unwrap(),
        l1_batch_number: Some(batch),
    }
}

impl SnapshotHeader {
    /// The chunks are numbered in order and the last batch is the snapshot's.
    pub open spec fn well_formed(&self) -> bool {
        self.chunks_numbered() && self.last_l1_batch_with_metadata.header.number == self.l1_batch_number
    }

    pub fn is_well_formed(&self) -> (r: bool)
        ensures
            r == self.well_formed(),
    {
        self.last_l1_batch_with_metadata.header.number == self.l1_batch_number && self.has_numbered_chunks()
    }

    /// The chunk descriptors are numbered 0, 1, 2, ... in the order they stand.
    pub open spec fn chunks_numbered(&self) -> bool {
        forall|i: int| 0 <= i < self.chunks@.len() ==> self.chunks@[i].chunk_id == i
    }

    /// Whether the chunk descriptors are numbered 0, 1, 2, ... in order.
    pub fn has_numbered_chunks(&self) -> (r: bool)
        ensures
            r == self.chunks_numbered(),
    {
        let mut i: usize = 0;
        while i < self.chunks.len()
            invariant
                i <= self.chunks@.len(),
                forall|j: int| 0 <= j < i ==> self.chunks@[j].chunk_id == j,
            decreases self.chunks@.len() - i,
        {
            if self.chunks[i].chunk_id != i as u64 {
                return false;
            }
            i = i + 1;
        }
        true
    }
}

} // verus!
