use snapshot_recovery::error::SnapshotApplierError;
use snapshot_recovery::progress::AppliedSnapshotStatus;

#[test]
fn initialize_creates_fresh_record() {
    let r = AppliedSnapshotStatus::initialize(None, 100).unwrap();
    assert_eq!(r, AppliedSnapshotStatus { l1_batch_number: 100, is_finished: false, last_finished_chunk_id: None });
}

#[test]
fn initialize_same_batch_is_idempotent() {
    let mut s = AppliedSnapshotStatus::new(100);
    s.mark_chunk_done(0).unwrap();
    assert_eq!(AppliedSnapshotStatus::initialize(Some(s), 100).unwrap(), s);
}

#[test]
fn initialize_other_batch_is_fatal() {
    let s = AppliedSnapshotStatus::new(100);
    assert!(matches!(AppliedSnapshotStatus::initialize(Some(s), 101), Err(SnapshotApplierError::Fatal(_))));
}

#[test]
fn cursor_never_decreases() {
    let mut s = AppliedSnapshotStatus::new(7);
    s.mark_chunk_done(0).unwrap();
    s.mark_chunk_done(1).unwrap();
    s.mark_chunk_done(1).unwrap();
    assert!(matches!(s.mark_chunk_done(0), Err(SnapshotApplierError::Fatal(_))));
    assert_eq!(s.last_finished_chunk_id, Some(1));
    assert!(s.is_chunk_applied(1));
    assert!(!s.is_chunk_applied(2));
}

#[test]
fn cursor_takes_no_gap() {
    let mut s = AppliedSnapshotStatus::new(7);
    assert!(matches!(s.mark_chunk_done(1), Err(SnapshotApplierError::Fatal(_))));
    s.mark_chunk_done(0).unwrap();
    assert!(s.mark_chunk_done(2).is_err());
    assert_eq!(s.last_finished_chunk_id, Some(0));
}

#[test]
fn finished_is_terminal() {
    let mut s = AppliedSnapshotStatus::new(7);
    s.mark_finished().unwrap();
    assert!(s.is_finished);
    assert!(s.mark_finished().is_err());
    assert!(s.mark_chunk_done(0).is_err());
    assert!(AppliedSnapshotStatus::initialize(Some(s), 7).is_err());
}

#[test]
fn error_message_is_kept() {
    let e = SnapshotApplierError::Retryable("peer unreachable".to_string());
    assert_eq!(e.message(), "peer unreachable");
}
