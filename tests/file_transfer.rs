use atrius_core::{
    can_retry, next_chunk, to_session, ChunkRef, RetryPolicy, TimeSpan, TransferDirection,
    TransferPlan, TransferProgress, TransferStatus,
};

fn ulid() -> u128 {
    ulid::Ulid::new().0
}

fn plan() -> TransferPlan {
    TransferPlan {
        file_id: ulid(),
        version_id: ulid(),
        direction: TransferDirection::Push,
        chunks: vec![
            ChunkRef { offset: 0, length: 10, hash: "h0".into() },
            ChunkRef { offset: 10, length: 10, hash: "h1".into() },
        ],
    }
}

#[test]
fn progresses_through_chunks() {
    let plan = plan();
    let mut progress = TransferProgress::new(ulid());
    let c1 = next_chunk(&plan, &progress).unwrap();
    assert_eq!(c1.offset, 0);
    progress.mark_done(c1.offset);
    let c2 = next_chunk(&plan, &progress).unwrap();
    assert_eq!(c2.offset, 10);
    progress.mark_done(c2.offset);
    assert!(next_chunk(&plan, &progress).is_none());
    assert!(progress.is_complete(&plan));
}

#[test]
fn retry_limits() {
    let policy = RetryPolicy { max_attempts: 3, backoff: TimeSpan { secs: 1, nanos: 0 } };
    assert!(can_retry(0, 0, &policy).is_ok());
    assert!(can_retry(0, 2, &policy).is_ok());
    assert!(can_retry(0, 3, &policy).is_err());
}

#[test]
fn session_view_is_composed() {
    let plan = plan();
    let progress = TransferProgress::new(ulid());
    let session = to_session(&plan, &progress, ulid(), ulid(), TransferStatus::InProgress);
    assert_eq!(session.file_id, plan.file_id);
    assert_eq!(session.active_chunks.len(), 2);
}
