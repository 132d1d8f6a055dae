use vstd::prelude::*;
use crate::error::SnapshotApplierError;
use crate::progress::{AppliedSnapshotStatus, cursor_of};
use crate::snapshot::{
    L1BatchWithMetadata, MiniblockHeader, ProtocolVersion, SnapshotChunk, SnapshotFactoryDependency,
    SnapshotStorageLog,
};
use crate::tree::{
    MerkleTreeRecovery, RecoveryEntry, TreeView, extend_entries, insert_entry, leaves_of, lemma_extend_leaves,
    lemma_find_key,
};

verus! {

/// A row of the storage-log table: a plain write under a block.
#[derive(Debug, Clone, Copy, PartialEq, Eq, Structural)]
pub struct StoredLog {
    pub miniblock_number: u64,
    pub key: u64,
    pub value: u64,
}

/// A row of the initial-write index: the batch that first wrote a key.
#[derive(Debug, Clone, Copy, PartialEq, Eq, Structural)]
pub struct InitialWrite {
    pub key: u64,
    pub l1_batch_number: u64,
}

/// Ghost view of every table the recovery touches.
pub struct StoreView {
    pub genesis_present: bool,
    pub status: Option<AppliedSnapshotStatus>,
    pub placeholder_block: Option<MiniblockHeader>,
    pub placeholder_batch: Option<L1BatchWithMetadata>,
    pub protocol_versions: Seq<ProtocolVersion>,
    pub factory_deps: Seq<(u64, Seq<u8>)>,
    pub storage_logs: Seq<StoredLog>,
    pub initial_writes: Seq<InitialWrite>,
    pub tree: Option<TreeView>,
}

/// The node's durable state as far as recovery is concerned: the ledger's
/// genesis flag, the progress record, the placeholder rows, the protocol
/// versions, the factory
/// dependency, storage-log and initial-write tables, and the recovering tree.
/// Recovery owns it exclusively and takes it by `&mut`.
#[derive(Debug)]
pub struct NodeStore {
    pub(crate) genesis_present: bool,
    pub(crate) status: Option<AppliedSnapshotStatus>,
    pub(crate) placeholder_block: Option<MiniblockHeader>,
    pub(crate) placeholder_batch: Option<L1BatchWithMetadata>,
    pub(crate) protocol_versions: Vec<ProtocolVersion>,
    pub(crate) factory_deps: Vec<SnapshotFactoryDependency>,
    pub(crate) storage_logs: Vec<StoredLog>,
    pub(crate) initial_writes: Vec<InitialWrite>,
    pub(crate) tree: Option<MerkleTreeRecovery>,
}

pub open spec fn tree_view(t: Option<MerkleTreeRecovery>) -> Option<TreeView> {
    match t {
        Some(t) => Some(t@),
        None => None,
    }
}

/// The dependencies as (hash, bytecode) pairs.
pub open spec fn dep_pairs(ds: Seq<SnapshotFactoryDependency>) -> Seq<(u64, Seq<u8>)> {
    ds.map_values(|d: SnapshotFactoryDependency| (d.bytecode_hash, d.bytecode@))
}

impl View for NodeStore {
    type V = StoreView;

    open(crate) spec fn view(&self) -> StoreView {
        StoreView {
            genesis_present: self.genesis_present,
            status: self.status,
            placeholder_block: self.placeholder_block,
            placeholder_batch: self.placeholder_batch,
            protocol_versions: self.protocol_versions@,
            factory_deps: dep_pairs(self.factory_deps@),
            storage_logs: self.storage_logs@,
            initial_writes: self.initial_writes@,
            tree: tree_view(self.tree),
        }
    }
}

/// Position of the dependency stored under hash `h`, if any.
pub open spec fn find_dep(s: Seq<(u64, Seq<u8>)>, h: u64) -> Option<int>
    decreases s.len(),
{
    if s.len() == 0 {
        None
    } else if s.last().0 == h {
        Some(s.len() - 1)
    } else {
        find_dep(s.drop_last(), h)
    }
}

/// Stores a bytecode under its hash, replacing one stored under that hash.
pub open spec fn upsert_dep(s: Seq<(u64, Seq<u8>)>, d: (u64, Seq<u8>)) -> Seq<(u64, Seq<u8>)> {
    match find_dep(s, d.0) {
        None => s.push(d),
        Some(i) => s.update(i, d),
    }
}

/// Stores the dependencies one after another: for a repeated hash the last
/// bytecode stays.
pub open spec fn add_deps(s: Seq<(u64, Seq<u8>)>, ds: Seq<(u64, Seq<u8>)>) -> Seq<(u64, Seq<u8>)>
    decreases ds.len(),
{
    if ds.len() == 0 {
        s
    } else {
        upsert_dep(add_deps(s, ds.drop_last()), ds.last())
    }
}

/// Some bytecode is stored under hash `h`.
pub open spec fn has_dep(s: Seq<(u64, Seq<u8>)>, h: u64) -> bool {
    exists|i: int| 0 <= i < s.len() && s[i].0 == h
}

/// Adds a protocol version record unless one with its id is stored.
pub open spec fn add_protocol_version(s: Seq<ProtocolVersion>, p: ProtocolVersion) -> Seq<ProtocolVersion> {
    if exists|i: int| 0 <= i < s.len() && s[i].version_id == p.version_id {
        s
    } else {
        s.push(p)
    }
}

/// The storage-log rows that a chunk's entries become under `block`.
pub open spec fn log_rows(block: u64, logs: Seq<SnapshotStorageLog>) -> Seq<StoredLog> {
    logs.map_values(|l: SnapshotStorageLog| StoredLog { miniblock_number: block, key: l.key, value: l.value })
}

pub open spec fn has_initial_write(s: Seq<InitialWrite>, key: u64) -> bool {
    exists|i: int| 0 <= i < s.len() && s[i].key == key
}

/// Records `key` as first written in `batch`, unless a first write is known.
pub open spec fn add_initial_write(s: Seq<InitialWrite>, key: u64, batch: u64) -> Seq<InitialWrite> {
    if has_initial_write(s, key) {
        s
    } else {
        s.push(InitialWrite { key, l1_batch_number: batch })
    }
}

pub open spec fn add_initial_writes(s: Seq<InitialWrite>, logs: Seq<SnapshotStorageLog>, batch: u64) -> Seq<InitialWrite>
    decreases logs.len(),
{
    if logs.len() == 0 {
        s
    } else {
        add_initial_write(add_initial_writes(s, logs.drop_last(), batch), logs.last().key, batch)
    }
}

/// The tree leaves that a chunk's entries become.
pub open spec fn recovery_entries(logs: Seq<SnapshotStorageLog>) -> Seq<RecoveryEntry> {
    logs.map_values(|l: SnapshotStorageLog| RecoveryEntry { key: l.key, value: l.value, leaf_index: l.enumeration_index })
}

/// The store after the chunk with id `id` of the snapshot of batch `batch`
/// (terminal block `block`) is applied: dependencies, then storage logs, then
/// initial writes, then tree leaves, and last the cursor. Chunks go in order:
/// only the chunk just past the cursor is applied, one at or below it is
/// skipped. `None` where the chunk cannot be applied: no open record for this
/// batch, no open tree, a chunk past the next one, or conflicting leaves.
pub open spec fn chunk_applied(
    v: StoreView,
    batch: u64,
    block: u64,
    id: u64,
    deps: Seq<(u64, Seq<u8>)>,
    logs: Seq<SnapshotStorageLog>,
) -> Option<StoreView> {
    match (v.status, v.tree) {
        (Some(st), Some(t)) => if st.is_finished || st.l1_batch_number != batch || t.finalized
            || t.version != batch {
            None
        } else if id < cursor_of(st.last_finished_chunk_id) {
            Some(v)
        } else if id > cursor_of(st.last_finished_chunk_id) {
            None
        } else {
            match extend_entries(t.entries, recovery_entries(logs)) {
                None => None,
                Some(es) => Some(
                    StoreView {
                        factory_deps: add_deps(v.factory_deps, deps),
                        storage_logs: v.storage_logs + log_rows(block, logs),
                        initial_writes: add_initial_writes(v.initial_writes, logs, batch),
                        tree: Some(TreeView { entries: es, ..t }),
                        status: Some(AppliedSnapshotStatus { last_finished_chunk_id: Some(id), ..st }),
                        ..v
                    },
                ),
            }
        },
        _ => None,
    }
}

/// The store after the chunks of `payloads` are applied in order, the first
/// one as chunk `first`; `None` where one of them cannot be.
pub open spec fn chunks_applied(
    v: StoreView,
    batch: u64,
    block: u64,
    first: int,
    payloads: Seq<SnapshotChunk>,
) -> Option<StoreView>
    decreases payloads.len(),
{
    if payloads.len() == 0 {
        Some(v)
    } else {
        match chunks_applied(v, batch, block, first, payloads.drop_last()) {
            None => None,
            Some(w) => chunk_applied(
                w,
                batch,
                block,
                (first + payloads.len() - 1) as u64,
                dep_pairs(payloads.last().factory_deps@),
                payloads.last().storage_logs@,
            ),
        }
    }
}

impl NodeStore {
    /// An empty store: a node with nothing in it, that needs genesis or a snapshot.
    pub fn new() -> (r: NodeStore)
        ensures
            r@ == (StoreView {
                genesis_present: false,
                status: None,
                placeholder_block: None,
                placeholder_batch: None,
                protocol_versions: Seq::empty(),
                factory_deps: Seq::empty(),
                storage_logs: Seq::empty(),
                initial_writes: Seq::empty(),
                tree: None,
            }),
    {
        let r = NodeStore {
            genesis_present: false,
            status: None,
            placeholder_block: None,
            placeholder_batch: None,
            protocol_versions: Vec::new(),
            factory_deps: Vec::new(),
            storage_logs: Vec::new(),
            initial_writes: Vec::new(),
            tree: None,
        };
        assert(r@.factory_deps =~= Seq::empty());
        r
    }

    /// A store loaded from the node's persisted tables, as a restarted
    /// process finds them.
    pub fn from_tables(
        genesis_present: bool,
        status: Option<AppliedSnapshotStatus>,
        placeholder_block: Option<MiniblockHeader>,
        placeholder_batch: Option<L1BatchWithMetadata>,
        protocol_versions: Vec<ProtocolVersion>,
        factory_deps: Vec<SnapshotFactoryDependency>,
        storage_logs: Vec<StoredLog>,
        initial_writes: Vec<InitialWrite>,
        tree: Option<MerkleTreeRecovery>,
    ) -> (r: NodeStore)
        ensures
            r@ == (StoreView {
                genesis_present,
                status,
                placeholder_block,
                placeholder_batch,
                protocol_versions: protocol_versions@,
                factory_deps: dep_pairs(factory_deps@),
                storage_logs: storage_logs@,
                initial_writes: initial_writes@,
                tree: tree_view(tree),
            }),
    {
        NodeStore {
            genesis_present,
            status,
            placeholder_block,
            placeholder_batch,
            protocol_versions,
            factory_deps,
            storage_logs,
            initial_writes,
            tree,
        }
    }

    pub fn genesis_present(&self) -> (r: bool)
        ensures
            r == self@.genesis_present,
    {
        self.genesis_present
    }

    pub fn status(&self) -> (r: Option<AppliedSnapshotStatus>)
        ensures
            r == self@.status,
    {
        self.status
    }

    pub fn placeholder_block(&self) -> (r: Option<MiniblockHeader>)
        ensures
            r == self@.placeholder_block,
    {
        self.placeholder_block
    }

    pub fn placeholder_batch(&self) -> (r: Option<L1BatchWithMetadata>)
        ensures
            r == self@.placeholder_batch,
    {
        self.placeholder_batch
    }

    pub fn protocol_versions(&self) -> (r: &Vec<ProtocolVersion>)
        ensures
            r@ == self@.protocol_versions,
    {
        &self.protocol_versions
    }

    pub fn factory_deps(&self) -> (r: &Vec<SnapshotFactoryDependency>)
        ensures
            dep_pairs(r@) == self@.factory_deps,
    {
        &self.factory_deps
    }

    pub fn storage_logs(&self) -> (r: &Vec<StoredLog>)
        ensures
            r@ == self@.storage_logs,
    {
        &self.storage_logs
    }

    pub fn initial_writes(&self) -> (r: &Vec<InitialWrite>)
        ensures
            r@ == self@.initial_writes,
    {
        &self.initial_writes
    }

    pub fn tree(&self) -> (r: &Option<MerkleTreeRecovery>)
        ensures
            tree_view(*r) == self@.tree,
    {
        &self.tree
    }

    fn find_factory_dep(&self, hash: u64) -> (r: Option<usize>)
        ensures
            r is None <==> find_dep(self@.factory_deps, hash) is None,
            r matches Some(j) ==> find_dep(self@.factory_deps, hash) == Some(j as int),
    {
        let ghost v = self@.factory_deps;
        let mut i: usize = self.factory_deps.len();
        assert(v.subrange(0, i as int) =~= v);
        while i > 0
            invariant
                i <= v.len(),
                v == dep_pairs(self.factory_deps@),
                find_dep(v, hash) == find_dep(v.subrange(0, i as int), hash),
            decreases i,
        {
            assert(v.subrange(0, i as int).drop_last() =~= v.subrange(0, i - 1));
            if self.factory_deps[i - 1].bytecode_hash == hash {
                return Some(i - 1);
            }
            i = i - 1;
        }
        None
    }

    /// Writes the factory dependencies, each under its hash. A hash stored
    /// already, or repeated in `deps`, ends with the last bytecode given.
    pub(crate) fn insert_factory_deps(&mut self, deps: Vec<SnapshotFactoryDependency>)
        ensures
            final(self)@ == (StoreView {
                factory_deps: add_deps(old(self)@.factory_deps, dep_pairs(deps@)),
                ..old(self)@
            }),
    {
        let mut deps = deps;
        let ghost orig = deps@;
        let ghost n = deps@.len();
        let total: usize = deps.len();
        let mut i: usize = 0;
        while deps.len() > 0
            invariant
                i + deps@.len() == n,
                orig.len() == n,
                n == total,
                deps@ == orig.subrange(i as int, n as int),
                self@ == (StoreView {
                    factory_deps: add_deps(old(self)@.factory_deps, dep_pairs(orig.subrange(0, i as int))),
                    ..old(self)@
                }),
            decreases deps@.len(),
        {
            let d = deps.remove(0);
            assert(dep_pairs(orig.subrange(0, i + 1)).drop_last() =~= dep_pairs(orig.subrange(0, i as int)));
            assert(dep_pairs(orig.subrange(0, i + 1)).last() == (d.bytecode_hash, d.bytecode@));
            let ghost pre = self.factory_deps@;
            proof { lemma_find_dep(dep_pairs(pre), d.bytecode_hash); }
            match self.find_factory_dep(d.bytecode_hash) {
                Some(k) => {
                    self.factory_deps.set(k, d);
                    assert(dep_pairs(self.factory_deps@) =~= dep_pairs(pre).update(k as int, (d.bytecode_hash, d.bytecode@)));
                },
                None => {
                    self.factory_deps.push(d);
                    assert(dep_pairs(self.factory_deps@) =~= dep_pairs(pre).push((d.bytecode_hash, d.bytecode@)));
                },
            }
            i = i + 1;
            assert(deps@ =~= orig.subrange(i as int, n as int));
        }
        assert(orig.subrange(0, i as int) =~= orig);
    }

    fn has_protocol_version(&self, id: u16) -> (r: bool)
        ensures
            r == exists|i: int| 0 <= i < self@.protocol_versions.len() && self@.protocol_versions[i].version_id == id,
    {
        let mut i: usize = 0;
        while i < self.protocol_versions.len()
            invariant
                i <= self.protocol_versions@.len(),
                forall|j: int| 0 <= j < i ==> self.protocol_versions@[j].version_id != id,
            decreases self.protocol_versions@.len() - i,
        {
            if self.protocol_versions[i].version_id == id {
                return true;
            }
            i = i + 1;
        }
        false
    }

    /// Saves a protocol version record unless one with its id is stored.
    pub(crate) fn save_protocol_version(&mut self, p: ProtocolVersion)
        ensures
            final(self)@ == (StoreView {
                protocol_versions: add_protocol_version(old(self)@.protocol_versions, p),
                ..old(self)@
            }),
    {
        if !self.has_protocol_version(p.version_id) {
            self.protocol_versions.push(p);
        }
    }

    /// Appends the entries as plain write rows under `block`.
    pub(crate) fn append_storage_logs(&mut self, block: u64, logs: &Vec<SnapshotStorageLog>)
        ensures
            final(self)@ == (StoreView {
                storage_logs: old(self)@.storage_logs + log_rows(block, logs@),
                ..old(self)@
            }),
    {
        let mut i: usize = 0;
        while i < logs.len()
            invariant
                i <= logs@.len(),
                self@ == (StoreView {
                    storage_logs: old(self)@.storage_logs + log_rows(block, logs@.subrange(0, i as int)),
                    ..old(self)@
                }),
            decreases logs@.len() - i,
        {
            let l = logs[i];
            self.storage_logs.push(StoredLog { miniblock_number: block, key: l.key, value: l.value });
            i = i + 1;
            assert(old(self)@.storage_logs + log_rows(block, logs@.subrange(0, i as int)) =~= self.storage_logs@);
        }
        assert(logs@.subrange(0, i as int) =~= logs@);
    }

    fn has_initial_write(&self, key: u64) -> (r: bool)
        ensures
            r == has_initial_write(self.initial_writes@, key),
    {
        let mut i: usize = 0;
        while i < self.initial_writes.len()
            invariant
                i <= self.initial_writes@.len(),
                forall|j: int| 0 <= j < i ==> self.initial_writes@[j].key != key,
            decreases self.initial_writes@.len() - i,
        {
            if self.initial_writes[i].key == key {
                return true;
            }
            i = i + 1;
        }
        false
    }

    /// Records the keys of the entries as first written in `batch`; a key
    /// whose first write is known already is left as it is.
    pub(crate) fn insert_initial_writes(&mut self, batch: u64, logs: &Vec<SnapshotStorageLog>)
        ensures
            final(self)@ == (StoreView {
                initial_writes: add_initial_writes(old(self)@.initial_writes, logs@, batch),
                ..old(self)@
            }),
    {
        let mut i: usize = 0;
        while i < logs.len()
            invariant
                i <= logs@.len(),
                self@ == (StoreView {
                    initial_writes: add_initial_writes(old(self)@.initial_writes, logs@.subrange(0, i as int), batch),
                    ..old(self)@
                }),
            decreases logs@.len() - i,
        {
            let key = logs[i].key;
            assert(logs@.subrange(0, i + 1).drop_last() =~= logs@.subrange(0, i as int));
            if !self.has_initial_write(key) {
                self.initial_writes.push(InitialWrite { key, l1_batch_number: batch });
            }
            i = i + 1;
        }
        assert(logs@.subrange(0, i as int) =~= logs@);
    }
}

impl NodeStore {
    /// The referential check across the tables: every storage-log row's key
    /// has an initial write and a tree leaf.
    pub fn check_consistency(&self) -> (r: bool)
        ensures
            r == tables_consistent(self@),
    {
        let tree = match &self.tree {
            Some(t) => t,
            None => {
                return false;
            },
        };
        let leaves = tree.entries();
        let mut i: usize = 0;
        while i < self.storage_logs.len()
            invariant
                i <= self.storage_logs@.len(),
                self.tree is Some,
                leaves@ == tree_view(self.tree)->0.entries,
                forall|j: int|
                    0 <= j < i ==> #[trigger] has_initial_write(self@.initial_writes, self@.storage_logs[j].key)
                        && has_leaf(leaves@, self@.storage_logs[j].key),
            decreases self.storage_logs@.len() - i,
        {
            let key = self.storage_logs[i].key;
            if !self.has_initial_write(key) {
                assert(!tables_consistent(self@)) by {
                    if tables_consistent(self@) {
                        assert(has_initial_write(self@.initial_writes, self@.storage_logs[i as int].key));
                    }
                }
                return false;
            }
            let mut found = false;
            let mut m: usize = 0;
            while m < leaves.len()
                invariant
                    m <= leaves@.len(),
                    found == has_leaf(leaves@.subrange(0, m as int), key),
                decreases leaves@.len() - m,
            {
                if leaves[m].key == key {
                    found = true;
                }
                m = m + 1;
                proof {
                    let a = leaves@.subrange(0, m as int);
                    let b = leaves@.subrange(0, m - 1);
                    assert forall|q: int| 0 <= q < m - 1 implies a[q] == b[q] by {}
                    if has_leaf(b, key) {
                        let q = choose|q: int| 0 <= q < b.len() && b[q].key == key;
                        assert(a[q].key == key);
                    }
                    if leaves@[m - 1].key == key {
                        assert(a[m - 1].key == key);
                    } else if has_leaf(a, key) {
                        let q = choose|q: int| 0 <= q < a.len() && a[q].key == key;
                        assert(b[q].key == key);
                    }
                    assert(has_leaf(a, key) == (has_leaf(b, key) || leaves@[m - 1].key == key));
                }
            }
            assert(leaves@.subrange(0, m as int) =~= leaves@);
            if !found {
                assert(!tables_consistent(self@)) by {
                    if tables_consistent(self@) {
                        assert(has_initial_write(self@.initial_writes, self@.storage_logs[i as int].key));
                    }
                }
                return false;
            }
            i = i + 1;
        }
        true
    }
}

/// The tree leaves for a chunk's entries.
pub fn to_recovery_entries(logs: &Vec<SnapshotStorageLog>) -> (r: Vec<RecoveryEntry>)
    ensures
        r@ == recovery_entries(logs@),
{
    let mut r: Vec<RecoveryEntry> = Vec::new();
    let mut i: usize = 0;
    while i < logs.len()
        invariant
            i <= logs@.len(),
            r@ == recovery_entries(logs@.subrange(0, i as int)),
        decreases logs@.len() - i,
    {
        let l = logs[i];
        r.push(RecoveryEntry { key: l.key, value: l.value, leaf_index: l.enumeration_index });
        i = i + 1;
        assert(r@ =~= recovery_entries(logs@.subrange(0, i as int)));
    }
    assert(logs@.subrange(0, i as int) =~= logs@);
    r
}

} // verus!

verus! {

/// Applying two runs of chunks one after the other is applying them together.
pub proof fn lemma_chunks_split(
    v: StoreView,
    batch: u64,
    block: u64,
    first: int,
    a: Seq<SnapshotChunk>,
    b: Seq<SnapshotChunk>,
)
    ensures
        chunks_applied(v, batch, block, first, a + b) == match chunks_applied(v, batch, block, first, a) {
            None => None,
            Some(w) => chunks_applied(w, batch, block, first + a.len(), b),
        },
    decreases b.len(),
{
    if b.len() == 0 {
        assert(a + b =~= a);
    } else {
        assert((a + b).drop_last() =~= a + b.drop_last());
        assert((a + b).last() == b.last());
        lemma_chunks_split(v, batch, block, first, a, b.drop_last());
    }
}

/// A run of chunks applied from the cursor leaves the cursor just past the
/// last of them.
pub proof fn lemma_cursor_after_chunks(
    v: StoreView,
    batch: u64,
    block: u64,
    first: int,
    payloads: Seq<SnapshotChunk>,
)
    requires
        v.status matches Some(s) && cursor_of(s.last_finished_chunk_id) == first,
        first + payloads.len() <= u64::MAX,
        chunks_applied(v, batch, block, first, payloads) is Some,
    ensures
        chunks_applied(v, batch, block, first, payloads)->0.status matches Some(s)
            && cursor_of(s.last_finished_chunk_id) == first + payloads.len(),
    decreases payloads.len(),
{
    if payloads.len() > 0 {
        lemma_cursor_after_chunks(v, batch, block, first, payloads.drop_last());
    }
}

/// The cursor never goes back: a run of chunks leaves the record's cursor
/// where it was or further on.
pub proof fn lemma_cursor_monotonic(
    v: StoreView,
    batch: u64,
    block: u64,
    first: int,
    payloads: Seq<SnapshotChunk>,
)
    requires
        v.status is Some,
        chunks_applied(v, batch, block, first, payloads) is Some,
    ensures
        chunks_applied(v, batch, block, first, payloads)->0.status matches Some(s)
            && cursor_of(s.last_finished_chunk_id) >= cursor_of(v.status->0.last_finished_chunk_id),
    decreases payloads.len(),
{
    if payloads.len() > 0 {
        lemma_cursor_monotonic(v, batch, block, first, payloads.drop_last());
    }
}

/// Resuming is applying once: where a run stopped after the first `k` chunks,
/// its record's cursor stands at `k`, and applying the remaining chunks from
/// that store ends in the same tables, tree and record as a run that was never
/// interrupted.
pub proof fn lemma_resume_matches_uninterrupted(
    v: StoreView,
    batch: u64,
    block: u64,
    payloads: Seq<SnapshotChunk>,
    k: int,
)
    requires
        v.status matches Some(s) && s.last_finished_chunk_id is None,
        0 <= k <= payloads.len(),
        payloads.len() <= u64::MAX,
        chunks_applied(v, batch, block, 0, payloads.take(k)) is Some,
    ensures
        ({
            let w = chunks_applied(v, batch, block, 0, payloads.take(k))->0;
            &&& w.status matches Some(s) && cursor_of(s.last_finished_chunk_id) == k
            &&& chunks_applied(w, batch, block, k, payloads.skip(k)) == chunks_applied(
                v,
                batch,
                block,
                0,
                payloads,
            )
        }),
{
    lemma_cursor_after_chunks(v, batch, block, 0, payloads.take(k));
    assert(payloads.take(k) + payloads.skip(k) =~= payloads);
    lemma_chunks_split(v, batch, block, 0, payloads.take(k), payloads.skip(k));
}

} // verus!

verus! {

/// The cursor of the record in the store, 0 where there is none.
pub open spec fn store_cursor(v: StoreView) -> int {
    match v.status {
        Some(s) => cursor_of(s.last_finished_chunk_id),
        None => 0,
    }
}

/// The tree holds a leaf with this key.
pub open spec fn has_leaf(s: Seq<RecoveryEntry>, key: u64) -> bool {
    exists|i: int| 0 <= i < s.len() && s[i].key == key
}

/// The tables agree with each other: every storage-log row's key has its
/// initial write recorded and a leaf in the tree.
pub open spec fn tables_consistent(v: StoreView) -> bool {
    &&& v.tree is Some
    &&& forall|i: int|
        0 <= i < v.storage_logs.len() ==> #[trigger] has_initial_write(v.initial_writes, v.storage_logs[i].key)
            && has_leaf(v.tree->0.entries, v.storage_logs[i].key)
}

proof fn lemma_add_initial_writes(s: Seq<InitialWrite>, logs: Seq<SnapshotStorageLog>, batch: u64)
    ensures
        forall|k: u64| has_initial_write(s, k) ==> #[trigger] has_initial_write(add_initial_writes(s, logs, batch), k),
        forall|j: int| 0 <= j < logs.len() ==> #[trigger] has_initial_write(add_initial_writes(s, logs, batch), logs[j].key),
    decreases logs.len(),
{
    if logs.len() > 0 {
        let t = add_initial_writes(s, logs.drop_last(), batch);
        lemma_add_initial_writes(s, logs.drop_last(), batch);
        let r = add_initial_write(t, logs.last().key, batch);
        assert forall|k: u64| has_initial_write(t, k) implies #[trigger] has_initial_write(r, k) by {
            if !has_initial_write(t, logs.last().key) {
                let i = choose|i: int| 0 <= i < t.len() && t[i].key == k;
                assert(r[i] == t[i]);
            }
        }
        if !has_initial_write(t, logs.last().key) {
            assert(r[t.len() as int].key == logs.last().key);
        }
        assert forall|j: int| 0 <= j < logs.len() implies #[trigger] has_initial_write(r, logs[j].key) by {
            if j < logs.len() - 1 {
                assert(logs.drop_last()[j] == logs[j]);
                assert(has_initial_write(t, logs[j].key));
            }
        }
    }
}

proof fn lemma_insert_entry_keys(s: Seq<RecoveryEntry>, e: RecoveryEntry)
    requires
        insert_entry(s, e) is Some,
    ensures
        forall|k: u64| has_leaf(s, k) ==> #[trigger] has_leaf(insert_entry(s, e)->0, k),
        has_leaf(insert_entry(s, e)->0, e.key),
{
    lemma_find_key(s, e.key);
    let r = insert_entry(s, e)->0;
    match crate::tree::find_key(s, e.key) {
        None => {
            assert(r[s.len() as int] == e);
            assert forall|k: u64| has_leaf(s, k) implies #[trigger] has_leaf(r, k) by {
                let i = choose|i: int| 0 <= i < s.len() && s[i].key == k;
                assert(r[i] == s[i]);
            }
        },
        Some(p) => {
            assert(r[p] == e);
            assert forall|k: u64| has_leaf(s, k) implies #[trigger] has_leaf(r, k) by {
                let i = choose|i: int| 0 <= i < s.len() && s[i].key == k;
                assert(r[i].key == s[i].key);
            }
        },
    }
}

proof fn lemma_extend_keys(s: Seq<RecoveryEntry>, batch: Seq<RecoveryEntry>)
    requires
        extend_entries(s, batch) is Some,
    ensures
        forall|k: u64| has_leaf(s, k) ==> #[trigger] has_leaf(extend_entries(s, batch)->0, k),
        forall|j: int| 0 <= j < batch.len() ==> #[trigger] has_leaf(extend_entries(s, batch)->0, batch[j].key),
    decreases batch.len(),
{
    if batch.len() > 0 {
        lemma_extend_keys(s, batch.drop_last());
        let t = extend_entries(s, batch.drop_last())->0;
        lemma_insert_entry_keys(t, batch.last());
        assert forall|j: int| 0 <= j < batch.len() implies #[trigger] has_leaf(extend_entries(s, batch)->0, batch[j].key) by {
            if j < batch.len() - 1 {
                assert(batch.drop_last()[j] == batch[j]);
                assert(has_leaf(t, batch[j].key));
            }
        }
    }
}

/// What `find_dep` returns: a position holding the hash, or none where no
/// pair holds it.
pub proof fn lemma_find_dep(s: Seq<(u64, Seq<u8>)>, h: u64)
    ensures
        match find_dep(s, h) {
            None => !has_dep(s, h),
            Some(i) => 0 <= i < s.len() && s[i].0 == h,
        },
    decreases s.len(),
{
    if s.len() > 0 && s.last().0 != h {
        lemma_find_dep(s.drop_last(), h);
        if find_dep(s, h) is None {
            assert forall|j: int| 0 <= j < s.len() implies s[j].0 != h by {
                if j < s.len() - 1 {
                    assert(s[j] == s.drop_last()[j]);
                }
            }
        }
    }
}

proof fn lemma_add_deps(s: Seq<(u64, Seq<u8>)>, ds: Seq<(u64, Seq<u8>)>)
    ensures
        forall|h: u64| has_dep(s, h) ==> #[trigger] has_dep(add_deps(s, ds), h),
        forall|j: int| 0 <= j < ds.len() ==> #[trigger] has_dep(add_deps(s, ds), ds[j].0),
    decreases ds.len(),
{
    if ds.len() > 0 {
        lemma_add_deps(s, ds.drop_last());
        let t = add_deps(s, ds.drop_last());
        let d = ds.last();
        let r = upsert_dep(t, d);
        lemma_find_dep(t, d.0);
        match find_dep(t, d.0) {
            None => {
                assert(r[t.len() as int] == d);
            },
            Some(p) => {
                assert(r[p] == d);
            },
        }
        assert forall|h: u64| has_dep(t, h) implies #[trigger] has_dep(r, h) by {
            let i = choose|i: int| 0 <= i < t.len() && t[i].0 == h;
            assert(r[i].0 == h);
        }
        assert forall|j: int| 0 <= j < ds.len() implies #[trigger] has_dep(add_deps(s, ds), ds[j].0) by {
            if j < ds.len() - 1 {
                assert(ds.drop_last()[j] == ds[j]);
                assert(has_dep(t, ds[j].0));
            }
        }
    }
}

/// Applying a chunk in the fixed order keeps the tables consistent: each of
/// its rows has its initial write and its tree leaf, and each of its factory
/// dependencies is stored.
pub proof fn lemma_chunk_keeps_tables_consistent(
    v: StoreView,
    batch: u64,
    block: u64,
    id: u64,
    deps: Seq<(u64, Seq<u8>)>,
    logs: Seq<SnapshotStorageLog>,
)
    requires
        tables_consistent(v),
        chunk_applied(v, batch, block, id, deps, logs) is Some,
    ensures
        tables_consistent(chunk_applied(v, batch, block, id, deps, logs)->0),
        id >= store_cursor(v) ==> forall|j: int| 0 <= j < deps.len()
            ==> #[trigger] has_dep(chunk_applied(v, batch, block, id, deps, logs)->0.factory_deps, deps[j].0),
{
    let st = v.status->0;
    let t = v.tree->0;
    if id >= cursor_of(st.last_finished_chunk_id) {
        let w = chunk_applied(v, batch, block, id, deps, logs)->0;
        let es = recovery_entries(logs);
        lemma_add_initial_writes(v.initial_writes, logs, batch);
        lemma_extend_keys(t.entries, es);
        lemma_add_deps(v.factory_deps, deps);
        let rows = log_rows(block, logs);
        assert forall|i: int| 0 <= i < w.storage_logs.len() implies #[trigger] has_initial_write(
            w.initial_writes,
            w.storage_logs[i].key,
        ) && has_leaf(w.tree->0.entries, w.storage_logs[i].key) by {
            if i < v.storage_logs.len() {
                assert(w.storage_logs[i] == v.storage_logs[i]);
                assert(has_initial_write(v.initial_writes, v.storage_logs[i].key));
            } else {
                let j = i - v.storage_logs.len();
                assert(w.storage_logs[i] == rows[j]);
                assert(es[j].key == logs[j].key);
            }
        }
    }
}

} // verus!

verus! {

/// The leaves by key that a run of chunks brings, later chunks taking
/// precedence.
pub open spec fn payload_leaves(payloads: Seq<SnapshotChunk>) -> Map<u64, (u64, u64)>
    decreases payloads.len(),
{
    if payloads.len() == 0 {
        Map::empty()
    } else {
        payload_leaves(payloads.drop_last()).union_prefer_right(
            leaves_of(recovery_entries(payloads.last().storage_logs@)),
        )
    }
}

/// After a run of chunks applied from the cursor, the tree holds exactly the
/// leaves it held before and those of the chunks: from an empty tree, the
/// leaves of the chunks and no other key.
pub proof fn lemma_chunks_tree_leaves(
    v: StoreView,
    batch: u64,
    block: u64,
    first: int,
    payloads: Seq<SnapshotChunk>,
)
    requires
        v.status matches Some(s) && cursor_of(s.last_finished_chunk_id) == first,
        v.tree is Some,
        first + payloads.len() <= u64::MAX,
        chunks_applied(v, batch, block, first, payloads) is Some,
    ensures
        chunks_applied(v, batch, block, first, payloads)->0.tree matches Some(t) && v.tree matches Some(t0)
            && leaves_of(t.entries) == leaves_of(t0.entries).union_prefer_right(payload_leaves(payloads)),
    decreases payloads.len(),
{
    if payloads.len() == 0 {
        assert(leaves_of(v.tree->0.entries).union_prefer_right(payload_leaves(payloads)) =~= leaves_of(
            v.tree->0.entries,
        ));
    } else {
        let ps = payloads.drop_last();
        lemma_chunks_tree_leaves(v, batch, block, first, ps);
        lemma_cursor_after_chunks(v, batch, block, first, ps);
        let w = chunks_applied(v, batch, block, first, ps)->0;
        let t = w.tree->0;
        let es = recovery_entries(payloads.last().storage_logs@);
        lemma_extend_leaves(t.entries, es);
        let l0 = leaves_of(v.tree->0.entries);
        assert(l0.union_prefer_right(payload_leaves(ps)).union_prefer_right(leaves_of(es)) =~= l0.union_prefer_right(
            payload_leaves(payloads),
        ));
    }
}

} // verus!

verus! {

/// The initial-write index holds one record per key, each for `batch`.
pub open spec fn index_for_batch(s: Seq<InitialWrite>, batch: u64) -> bool {
    &&& forall|i: int| 0 <= i < s.len() ==> #[trigger] s[i].l1_batch_number == batch
    &&& forall|i: int, j: int| 0 <= i < j < s.len() ==> s[i].key != s[j].key
}

proof fn lemma_add_initial_writes_for_batch(s: Seq<InitialWrite>, logs: Seq<SnapshotStorageLog>, batch: u64)
    requires
        index_for_batch(s, batch),
    ensures
        index_for_batch(add_initial_writes(s, logs, batch), batch),
        forall|k: u64| #[trigger] has_initial_write(add_initial_writes(s, logs, batch), k) ==> has_initial_write(s, k)
            || exists|j: int| 0 <= j < logs.len() && logs[j].key == k,
    decreases logs.len(),
{
    if logs.len() > 0 {
        lemma_add_initial_writes_for_batch(s, logs.drop_last(), batch);
        let t = add_initial_writes(s, logs.drop_last(), batch);
        let r = add_initial_writes(s, logs, batch);
        assert forall|k: u64| #[trigger] has_initial_write(r, k) implies has_initial_write(s, k) || exists|j: int|
            0 <= j < logs.len() && logs[j].key == k by {
            if k == logs.last().key {
                assert(logs[logs.len() - 1].key == k);
            } else {
                let i = choose|i: int| 0 <= i < r.len() && r[i].key == k;
                if i < t.len() {
                    assert(t[i] == r[i]);
                    assert(has_initial_write(t, k));
                    if !has_initial_write(s, k) {
                        let j = choose|j: int| 0 <= j < logs.drop_last().len() && logs.drop_last()[j].key == k;
                        assert(logs[j].key == k);
                    }
                }
            }
        }
    }
}

/// Applying a run of chunks keeps one initial-write record per key, each for
/// the snapshot's batch, and adds no key but those of the chunks' entries.
pub proof fn lemma_chunks_index_for_batch(
    v: StoreView,
    batch: u64,
    block: u64,
    first: int,
    payloads: Seq<SnapshotChunk>,
)
    requires
        index_for_batch(v.initial_writes, batch),
        chunks_applied(v, batch, block, first, payloads) is Some,
    ensures
        index_for_batch(chunks_applied(v, batch, block, first, payloads)->0.initial_writes, batch),
        forall|k: u64|
            #[trigger] has_initial_write(chunks_applied(v, batch, block, first, payloads)->0.initial_writes, k)
                ==> has_initial_write(v.initial_writes, k) || exists|i: int, j: int|
                0 <= i < payloads.len() && 0 <= j < payloads[i].storage_logs@.len()
                    && payloads[i].storage_logs@[j].key == k,
    decreases payloads.len(),
{
    if payloads.len() > 0 {
        let ps = payloads.drop_last();
        lemma_chunks_index_for_batch(v, batch, block, first, ps);
        let w = chunks_applied(v, batch, block, first, ps)->0;
        let logs = payloads.last().storage_logs@;
        lemma_add_initial_writes_for_batch(w.initial_writes, logs, batch);
        let r = chunks_applied(v, batch, block, first, payloads)->0;
        assert forall|k: u64| #[trigger] has_initial_write(r.initial_writes, k) implies has_initial_write(
            v.initial_writes,
            k,
        ) || exists|i: int, j: int|
            0 <= i < payloads.len() && 0 <= j < payloads[i].storage_logs@.len()
                && payloads[i].storage_logs@[j].key == k by {
            if r.initial_writes != w.initial_writes {
                if has_initial_write(w.initial_writes, k) {
                    if !has_initial_write(v.initial_writes, k) {
                        let (i, j) = choose|i: int, j: int|
                            0 <= i < ps.len() && 0 <= j < ps[i].storage_logs@.len() && ps[i].storage_logs@[j].key == k;
                        assert(payloads[i] == ps[i]);
                    }
                } else {
                    let j = choose|j: int| 0 <= j < logs.len() && logs[j].key == k;
                    assert(payloads[payloads.len() - 1].storage_logs@[j].key == k);
                }
            } else {
                if !has_initial_write(v.initial_writes, k) {
                    let (i, j) = choose|i: int, j: int|
                        0 <= i < ps.len() && 0 <= j < ps[i].storage_logs@.len() && ps[i].storage_logs@[j].key == k;
                    assert(payloads[i] == ps[i]);
                }
            }
        }
    }
}

} // verus!
