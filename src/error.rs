use vstd::prelude::*;

verus! {

/// The three outcomes of a recovery step that did not succeed.
#[derive(Debug, Clone, PartialEq, Eq)]
pub enum SnapshotApplierError {
    /// Recovery is inapplicable or redundant; normal startup should go on.
    Canceled(String),
    /// An invariant was violated; recovery must not continue.
    Fatal(String),
    /// A transient condition; the same step may be attempted again.
    Retryable(String),
}

impl SnapshotApplierError {
    pub open spec fn is_canceled(&self) -> bool {
        self is Canceled
    }

    pub open spec fn is_fatal(&self) -> bool {
        self is Fatal
    }

    /// The message carried by the error, whatever its kind.
    pub fn message(&self) -> (r: String)
        ensures
            r@ == match self {
                SnapshotApplierError::Canceled(m) => m@,
                SnapshotApplierError::Fatal(m) => m@,
                SnapshotApplierError::Retryable(m) => m@,
            },
    {
        match self {
            SnapshotApplierError::Canceled(m) => m.clone(),
            SnapshotApplierError::Fatal(m) => m.clone(),
            SnapshotApplierError::Retryable(m) => m.clone(),
        }
    }
}

} // verus!
