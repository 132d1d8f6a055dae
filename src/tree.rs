use vstd::prelude::*;
use crate::error::SnapshotApplierError;

verus! {

/// One leaf handed to the tree in recovery mode.
#[derive(Debug, Clone, Copy, PartialEq, Eq, Structural)]
pub struct RecoveryEntry {
    pub key: u64,
    pub value: u64,
    pub leaf_index: u64,
}

/// Position of the entry with key `key` in `s`, if any.
pub open spec fn find_key(s: Seq<RecoveryEntry>, key: u64) -> Option<int>
    decreases s.len(),
{
    if s.len() == 0 {
        None
    } else if s.last().key == key {
        Some(s.len() - 1)
    } else {
        find_key(s.drop_last(), key)
    }
}

/// Adds one leaf: a new key is appended; a known key keeps its place and takes
/// the new value, provided its leaf index is the same (else `None`).
pub open spec fn insert_entry(s: Seq<RecoveryEntry>, e: RecoveryEntry) -> Option<Seq<RecoveryEntry>> {
    match find_key(s, e.key) {
        None => Some(s.push(e)),
        Some(i) => if s[i].leaf_index == e.leaf_index {
            Some(s.update(i, e))
        } else {
            None
        },
    }
}

/// Adds the leaves of `batch` one after another; `None` on a conflict.
pub open spec fn extend_entries(s: Seq<RecoveryEntry>, batch: Seq<RecoveryEntry>) -> Option<
    Seq<RecoveryEntry>,
>
    decreases batch.len(),
{
    if batch.len() == 0 {
        Some(s)
    } else {
        match extend_entries(s, batch.drop_last()) {
            None => None,
            Some(t) => insert_entry(t, batch.last()),
        }
    }
}

/// Ghost view of the tree under recovery.
pub struct TreeView {
    pub version: u64,
    pub entries: Seq<RecoveryEntry>,
    pub finalized: bool,
}

/// A Merkle tree rebuilt in recovery mode at a fixed version: it takes leaves
/// in any order of chunks, and is then sealed once.
#[derive(Debug)]
pub struct MerkleTreeRecovery {
    version: u64,
    entries: Vec<RecoveryEntry>,
    finalized: bool,
}

impl View for MerkleTreeRecovery {
    type V = TreeView;

    closed spec fn view(&self) -> TreeView {
        TreeView { version: self.version, entries: self.entries@, finalized: self.finalized }
    }
}

impl MerkleTreeRecovery {
    /// Opens an empty tree in recovery mode at `version`.
    pub fn new(version: u64) -> (r: MerkleTreeRecovery)
        ensures
            r@ == (TreeView { version, entries: Seq::empty(), finalized: false }),
    {
        MerkleTreeRecovery { version, entries: Vec::new(), finalized: false }
    }

    pub fn version(&self) -> (r: u64)
        ensures
            r == self@.version,
    {
        self.version
    }

    pub fn is_finalized(&self) -> (r: bool)
        ensures
            r == self@.finalized,
    {
        self.finalized
    }

    /// The leaves held so far, in the order their keys first came.
    pub fn entries(&self) -> (r: Vec<RecoveryEntry>)
        ensures
            r@ == self@.entries,
    {
        let mut out: Vec<RecoveryEntry> = Vec::new();
        let mut i: usize = 0;
        while i < self.entries.len()
            invariant
                i <= self.entries@.len(),
                out@ == self.entries@.subrange(0, i as int),
            decreases self.entries@.len() - i,
        {
            out.push(self.entries[i]);
            i = i + 1;
            assert(out@ =~= self.entries@.subrange(0, i as int));
        }
        assert(out@ =~= self.entries@);
        out
    }

    fn find(entries: &Vec<RecoveryEntry>, key: u64) -> (r: Option<usize>)
        ensures
            r is None <==> find_key(entries@, key) is None,
            r matches Some(j) ==> find_key(entries@, key) == Some(j as int),
    {
        let mut i: usize = entries.len();
        assert(entries@.subrange(0, i as int) =~= entries@);
        while i > 0
            invariant
                i <= entries@.len(),
                find_key(entries@, key) == find_key(entries@.subrange(0, i as int), key),
            decreases i,
        {
            let ghost s = entries@.subrange(0, i as int);
            assert(s.drop_last() =~= entries@.subrange(0, i - 1));
            if entries[i - 1].key == key {
                return Some(i - 1);
            }
            i = i - 1;
        }
        assert(entries@.subrange(0, 0).len() == 0);
        None
    }

    fn insert_one(entries: &mut Vec<RecoveryEntry>, e: RecoveryEntry) -> (ok: bool)
        ensures
            match insert_entry(old(entries)@, e) {
                None => !ok && final(entries)@ == old(entries)@,
                Some(t) => ok && final(entries)@ == t,
            },
    {
        proof { lemma_find_key(entries@, e.key); }
        let found = Self::find(entries, e.key);
        if let Some(i) = found {
            if entries[i].leaf_index != e.leaf_index {
                return false;
            }
            entries.set(i, e);
        } else {
            entries.push(e);
        }
        true
    }

    /// The leaves once `batch` is added, or `None` on a conflict.
    fn extended(&self, batch: &Vec<RecoveryEntry>) -> (r: Option<Vec<RecoveryEntry>>)
        ensures
            match extend_entries(self@.entries, batch@) {
                None => r is None,
                Some(t) => r matches Some(w) && w@ == t,
            },
    {
        let mut work = self.entries.clone();
        assert(work@ =~= self.entries@);
        let mut i: usize = 0;
        while i < batch.len()
            invariant
                i <= batch@.len(),
                extend_entries(self.entries@, batch@.subrange(0, i as int)) == Some(work@),
            decreases batch@.len() - i,
        {
            assert(batch@.subrange(0, i + 1).drop_last() =~= batch@.subrange(0, i as int));
            if !Self::insert_one(&mut work, batch[i]) {
                proof { lemma_extend_none_prefix(self.entries@, batch@, i as int + 1); }
                return None;
            }
            i = i + 1;
        }
        assert(batch@.subrange(0, i as int) =~= batch@);
        Some(work)
    }

    /// Adds a batch of leaves. After `finalize`, or where a key comes again
    /// with another leaf index, the batch is refused and the tree is unchanged.
    pub fn extend(&mut self, batch: &Vec<RecoveryEntry>) -> (r: Result<(), SnapshotApplierError>)
        ensures
            final(self)@.version == old(self)@.version,
            final(self)@.finalized == old(self)@.finalized,
            r is Ok <==> !old(self)@.finalized && extend_entries(old(self)@.entries, batch@) is Some,
            r is Ok ==> Some(final(self)@.entries) == extend_entries(old(self)@.entries, batch@),
            r matches Err(e) ==> e.is_fatal() && final(self)@ == old(self)@,
    {
        if self.finalized {
            return Err(SnapshotApplierError::Fatal("the recovered tree is already finalized".to_string()));
        }
        match self.extended(batch) {
            Some(w) => {
                self.entries = w;
                Ok(())
            },
            None => Err(SnapshotApplierError::Fatal("a key came again with another leaf index".to_string())),
        }
    }

    /// Whether `extend` would take the batch: the tree is open and no key of
    /// the batch comes with another leaf index.
    pub fn can_extend(&self, batch: &Vec<RecoveryEntry>) -> (r: bool)
        ensures
            r == (!self@.finalized && extend_entries(self@.entries, batch@) is Some),
    {
        !self.finalized && self.extended(batch).is_some()
    }

    /// Seals the recovered version. A second call is refused and changes nothing.
    pub fn finalize(&mut self) -> (r: Result<(), SnapshotApplierError>)
        ensures
            r is Ok <==> !old(self)@.finalized,
            r is Ok ==> final(self)@ == (TreeView { finalized: true, ..old(self)@ }),
            r matches Err(e) ==> e.is_fatal() && final(self)@ == old(self)@,
    {
        if self.finalized {
            return Err(SnapshotApplierError::Fatal("the recovered tree is already finalized".to_string()));
        }
        self.finalized = true;
        Ok(())
    }
}

/// What `find_key` returns: a position holding the key, or none where no
/// entry holds it.
pub proof fn lemma_find_key(s: Seq<RecoveryEntry>, key: u64)
    ensures
        match find_key(s, key) {
            None => forall|j: int| 0 <= j < s.len() ==> s[j].key != key,
            Some(i) => 0 <= i < s.len() && s[i].key == key,
        },
    decreases s.len(),
{
    if s.len() > 0 && s.last().key != key {
        lemma_find_key(s.drop_last(), key);
        if find_key(s, key) is None {
            assert forall|j: int| 0 <= j < s.len() implies s[j].key != key by {
                if j < s.len() - 1 {
                    assert(s[j] == s.drop_last()[j]);
                }
            }
        }
    }
}

/// A conflict within a prefix of a batch is a conflict of the whole batch.
proof fn lemma_extend_none_prefix(s: Seq<RecoveryEntry>, batch: Seq<RecoveryEntry>, n: int)
    requires
        0 <= n <= batch.len(),
        extend_entries(s, batch.subrange(0, n)) is None,
    ensures
        extend_entries(s, batch) is None,
    decreases batch.len() - n,
{
    if n < batch.len() {
        assert(batch.subrange(0, n + 1).drop_last() =~= batch.subrange(0, n));
        lemma_extend_none_prefix(s, batch, n + 1);
    } else {
        assert(batch.subrange(0, n) =~= batch);
    }
}

} // verus!

verus! {

/// The leaves by key, each with its value and leaf index: the content that
/// fixes the tree's root. Where a key occurs twice, its last entry counts.
pub open spec fn leaves_of(s: Seq<RecoveryEntry>) -> Map<u64, (u64, u64)>
    decreases s.len(),
{
    if s.len() == 0 {
        Map::empty()
    } else {
        leaves_of(s.drop_last()).insert(s.last().key, (s.last().value, s.last().leaf_index))
    }
}

proof fn lemma_find_key_is_last(s: Seq<RecoveryEntry>, key: u64)
    ensures
        find_key(s, key) matches Some(i) ==> forall|j: int| i < j < s.len() ==> s[j].key != key,
    decreases s.len(),
{
    lemma_find_key(s, key);
    if s.len() > 0 && s.last().key != key {
        lemma_find_key_is_last(s.drop_last(), key);
        if find_key(s, key) is Some {
            let i = find_key(s, key)->0;
            assert forall|j: int| i < j < s.len() implies s[j].key != key by {
                if j < s.len() - 1 {
                    assert(s[j] == s.drop_last()[j]);
                }
            }
        }
    }
}

proof fn lemma_leaves_update(s: Seq<RecoveryEntry>, i: int, e: RecoveryEntry)
    requires
        0 <= i < s.len(),
        s[i].key == e.key,
        forall|j: int| i < j < s.len() ==> s[j].key != e.key,
    ensures
        leaves_of(s.update(i, e)) == leaves_of(s).insert(e.key, (e.value, e.leaf_index)),
    decreases s.len(),
{
    let u = s.update(i, e);
    if i == s.len() - 1 {
        assert(u.drop_last() =~= s.drop_last());
        assert(leaves_of(u) =~= leaves_of(s).insert(e.key, (e.value, e.leaf_index)));
    } else {
        assert(u.drop_last() =~= s.drop_last().update(i, e));
        lemma_leaves_update(s.drop_last(), i, e);
        assert(u.last() == s.last());
        assert(leaves_of(u) =~= leaves_of(s).insert(e.key, (e.value, e.leaf_index)));
    }
}

/// Adding one leaf sets its key to its value and leaf index.
proof fn lemma_insert_entry_leaves(s: Seq<RecoveryEntry>, e: RecoveryEntry)
    requires
        insert_entry(s, e) is Some,
    ensures
        leaves_of(insert_entry(s, e)->0) == leaves_of(s).insert(e.key, (e.value, e.leaf_index)),
{
    lemma_find_key(s, e.key);
    lemma_find_key_is_last(s, e.key);
    match find_key(s, e.key) {
        None => {
            assert(s.push(e).drop_last() =~= s);
        },
        Some(i) => {
            lemma_leaves_update(s, i, e);
        },
    }
}

/// A batch that the tree takes sets each of its keys to its last entry.
pub proof fn lemma_extend_leaves(s: Seq<RecoveryEntry>, batch: Seq<RecoveryEntry>)
    requires
        extend_entries(s, batch) is Some,
    ensures
        leaves_of(extend_entries(s, batch)->0) == leaves_of(s).union_prefer_right(leaves_of(batch)),
    decreases batch.len(),
{
    if batch.len() == 0 {
        assert(leaves_of(s).union_prefer_right(leaves_of(batch)) =~= leaves_of(s));
    } else {
        lemma_extend_leaves(s, batch.drop_last());
        let t = extend_entries(s, batch.drop_last())->0;
        lemma_insert_entry_leaves(t, batch.last());
        assert(leaves_of(extend_entries(s, batch)->0) =~= leaves_of(s).union_prefer_right(leaves_of(batch)));
    }
}

proof fn lemma_leaves_keys(s: Seq<RecoveryEntry>)
    ensures
        forall|k: u64| #[trigger] leaves_of(s).contains_key(k) <==> exists|i: int| 0 <= i < s.len() && s[i].key == k,
    decreases s.len(),
{
    if s.len() > 0 {
        lemma_leaves_keys(s.drop_last());
        assert forall|k: u64| #[trigger] leaves_of(s).contains_key(k) <==> exists|i: int| 0 <= i < s.len() && s[i].key == k by {
            if leaves_of(s).contains_key(k) && k != s.last().key {
                assert(leaves_of(s.drop_last()).contains_key(k));
                let i = choose|i: int| 0 <= i < s.drop_last().len() && s.drop_last()[i].key == k;
                assert(s[i].key == k);
            }
            if k == s.last().key {
                assert(s[s.len() - 1].key == k);
            }
            if (exists|i: int| 0 <= i < s.len() && s[i].key == k) && k != s.last().key {
                let i = choose|i: int| 0 <= i < s.len() && s[i].key == k;
                assert(s.drop_last()[i].key == k);
                assert(leaves_of(s.drop_last()).contains_key(k));
            }
        }
    }
}

/// The order of chunks does not matter: two batches with no key in common,
/// taken in either order, give the tree the same leaves by key, hence the
/// same root.
pub proof fn lemma_extend_order_irrelevant(s: Seq<RecoveryEntry>, a: Seq<RecoveryEntry>, b: Seq<RecoveryEntry>)
    requires
        forall|i: int, j: int| 0 <= i < a.len() && 0 <= j < b.len() ==> a[i].key != b[j].key,
        extend_entries(s, a) matches Some(t) && extend_entries(t, b) is Some,
        extend_entries(s, b) matches Some(t) && extend_entries(t, a) is Some,
    ensures
        leaves_of(extend_entries(extend_entries(s, a)->0, b)->0) == leaves_of(
            extend_entries(extend_entries(s, b)->0, a)->0,
        ),
{
    let ta = extend_entries(s, a)->0;
    let tb = extend_entries(s, b)->0;
    lemma_extend_leaves(s, a);
    lemma_extend_leaves(s, b);
    lemma_extend_leaves(ta, b);
    lemma_extend_leaves(tb, a);
    lemma_leaves_keys(a);
    lemma_leaves_keys(b);
    let la = leaves_of(a);
    let lb = leaves_of(b);
    assert forall|k: u64| !(la.contains_key(k) && lb.contains_key(k)) by {
        if la.contains_key(k) && lb.contains_key(k) {
            let i = choose|i: int| 0 <= i < a.len() && a[i].key == k;
            let j = choose|j: int| 0 <= j < b.len() && b[j].key == k;
        }
    }
    assert(leaves_of(s).union_prefer_right(la).union_prefer_right(lb) =~= leaves_of(s).union_prefer_right(
        lb,
    ).union_prefer_right(la));
}

} // verus!
