use vstd::prelude::*;
use crate::error::SnapshotApplierError;

verus! {

/// The persisted cursor into the recovery process: the batch being recovered,
/// whether recovery has finished, and the id of the last chunk fully applied.
#[derive(Debug, Clone, Copy, PartialEq, Eq, Structural)]
pub struct AppliedSnapshotStatus {
    pub l1_batch_number: u64,
    pub is_finished: bool,
    pub last_finished_chunk_id: Option<u64>,
}

/// The cursor as an integer: one past the last applied chunk, 0 when none was.
pub open spec fn cursor_of(last: Option<u64>) -> int {
    match last {
        Some(id) => id + 1,
        None => 0,
    }
}

impl AppliedSnapshotStatus {
    /// A fresh, unfinished record for the given batch.
    pub fn new(l1_batch_number: u64) -> (r: AppliedSnapshotStatus)
        ensures
            r.l1_batch_number == l1_batch_number,
            !r.is_finished,
            r.last_finished_chunk_id is None,
    {
        AppliedSnapshotStatus { l1_batch_number, is_finished: false, last_finished_chunk_id: None }
    }

    /// Whether the chunk with this id has already been applied.
    pub fn is_chunk_applied(&self, chunk_id: u64) -> (r: bool)
        ensures
            r == (chunk_id < cursor_of(self.last_finished_chunk_id)),
    {
        match self.last_finished_chunk_id {
            Some(last) => chunk_id <= last,
            None => false,
        }
    }

    /// Creates the record for `l1_batch_number` where none exists. An unfinished
    /// record for the same batch is kept as it is; a record for another batch is
    /// an ambiguous resume target, and a finished one may not be reopened.
    pub fn initialize(
        existing: Option<AppliedSnapshotStatus>,
        l1_batch_number: u64,
    ) -> (r: Result<AppliedSnapshotStatus, SnapshotApplierError>)
        ensures
            match existing {
                None => r == Ok::<AppliedSnapshotStatus, SnapshotApplierError>(
                    AppliedSnapshotStatus {
                        l1_batch_number,
                        is_finished: false,
                        last_finished_chunk_id: None,
                    },
                ),
                Some(s) => if s.l1_batch_number == l1_batch_number && !s.is_finished {
                    r == Ok::<AppliedSnapshotStatus, SnapshotApplierError>(s)
                } else {
                    r matches Err(e) && e.is_fatal()
                },
            },
    {
        match existing {
            None => Ok(AppliedSnapshotStatus::new(l1_batch_number)),
            Some(s) => {
                if s.is_finished {
                    Err(SnapshotApplierError::Fatal("the recovery record is already finished".to_string()))
                } else if s.l1_batch_number != l1_batch_number {
                    Err(SnapshotApplierError::Fatal(
                        "the recovery record targets another L1 batch".to_string(),
                    ))
                } else {
                    Ok(s)
                }
            },
        }
    }

    /// Records `chunk_id` as the last chunk fully applied. Chunks are applied
    /// in order, so the id is the next one, or the last one again (which
    /// changes nothing). A decreasing id, an id past the next one, or a
    /// finished record is refused and the record is left as it was.
    pub fn mark_chunk_done(&mut self, chunk_id: u64) -> (r: Result<(), SnapshotApplierError>)
        ensures
            r is Ok <==> (!old(self).is_finished && cursor_of(old(self).last_finished_chunk_id) - 1
                <= chunk_id <= cursor_of(old(self).last_finished_chunk_id)),
            r is Ok ==> *final(self) == (AppliedSnapshotStatus {
                last_finished_chunk_id: Some(chunk_id),
                ..*old(self)
            }),
            r matches Err(e) ==> e.is_fatal() && *final(self) == *old(self),
    {
        if self.is_finished {
            return Err(SnapshotApplierError::Fatal("the recovery record is already finished".to_string()));
        }
        match self.last_finished_chunk_id {
            Some(last) => {
                if chunk_id < last {
                    return Err(SnapshotApplierError::Fatal("the chunk cursor may not go back".to_string()));
                }
                if chunk_id - last > 1 {
                    return Err(SnapshotApplierError::Fatal("chunks are applied in order".to_string()));
                }
            },
            None => {
                if chunk_id != 0 {
                    return Err(SnapshotApplierError::Fatal("chunks are applied in order".to_string()));
                }
            },
        }
        self.last_finished_chunk_id = Some(chunk_id);
        Ok(())
    }

    /// Sets the finished flag; a record that is already finished is refused.
    pub fn mark_finished(&mut self) -> (r: Result<(), SnapshotApplierError>)
        ensures
            r is Ok <==> !old(self).is_finished,
            r is Ok ==> *final(self) == (AppliedSnapshotStatus { is_finished: true, ..*old(self) }),
            r matches Err(e) ==> e.is_fatal() && *final(self) == *old(self),
    {
        if self.is_finished {
            return Err(SnapshotApplierError::Fatal("the recovery record is already finished".to_string()));
        }
        self.is_finished = true;
        Ok(())
    }
}

} // verus!
