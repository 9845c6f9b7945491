use atrius_core::{
    acquire_lock, check_conflict, ChunkRef, ConflictCheck, DeviceFileState, DeviceFileStateKind,
    EncryptionInfo, FileRecord, LockAcquisition, LockRequestKind, Timestamp, VersionRecord,
};

fn ulid() -> u128 {
    ulid::Ulid::new().0
}

fn now() -> Timestamp {
    let t = chrono::Utc::now();
    Timestamp { secs: t.timestamp(), nanos: t.timestamp_subsec_nanos() }
}

fn sample_file() -> FileRecord {
    let file_id = ulid();
    let head = ulid();
    FileRecord {
        file_id,
        origin_device_id: ulid(),
        created_at: now(),
        head_version_id: head,
        versions: vec![VersionRecord {
            version_id: head,
            file_id,
            parent_version_id: None,
            origin_device_id: ulid(),
            timestamp: now(),
            content_hash: "h".into(),
            size_bytes: 1,
            chunks: vec![ChunkRef { offset: 0, length: 1, hash: "h".into() }],
        }],
        lock: None,
        device_states: vec![DeviceFileState {
            device_id: ulid(),
            state: DeviceFileStateKind::Ready,
            known_head_version_id: Some(head),
            last_seen_at: now(),
            last_error: None,
        }],
        encryption: EncryptionInfo {
            key_id: "k".into(),
            algo: "AES-256-GCM".into(),
            iv_salt: None,
        },
    }
}

#[test]
fn acquires_when_unlocked() {
    let file = sample_file();
    let device = ulid();
    let res = acquire_lock(&file, device, "user".into(), LockRequestKind::Manual, false).unwrap();
    assert!(matches!(res, LockAcquisition::Acquired(_)));
}

#[test]
fn denies_when_locked_by_other() {
    let file = sample_file();
    let device_a = ulid();
    let device_b = ulid();
    let lock = acquire_lock(&file, device_a, "user".into(), LockRequestKind::Manual, false).unwrap();
    if let LockAcquisition::Acquired(lock) = lock {
        let mut file_mut = file.clone();
        file_mut.lock = Some(lock);
        let denied =
            acquire_lock(&file_mut, device_b, "user2".into(), LockRequestKind::Manual, false)
                .unwrap();
        assert!(matches!(denied, LockAcquisition::Denied(_)));
    }
}

#[test]
fn conflict_when_head_diverges_without_lock() {
    let file = sample_file();
    let caller_base = ulid();
    let res = check_conflict(&file, ulid(), caller_base);
    assert!(matches!(res, ConflictCheck::Conflict { current_head: _, base_head: _ }));
}

#[test]
fn allowed_when_head_matches_no_lock() {
    let file = sample_file();
    let res = check_conflict(&file, ulid(), file.head_version_id);
    assert!(matches!(res, ConflictCheck::Allowed));
}

#[test]
fn locked_by_other_blocks() {
    let file = sample_file();
    let device_a = ulid();
    if let LockAcquisition::Acquired(lock) =
        acquire_lock(&file, device_a, "u".into(), LockRequestKind::Manual, false).unwrap()
    {
        let mut f = file.clone();
        f.lock = Some(lock);
        let res = check_conflict(&f, ulid(), f.head_version_id);
        assert!(matches!(res, ConflictCheck::LockedBy(_)));
    }
}
