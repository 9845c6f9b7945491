use atrius_core::{
    assert_file_invariants, ChunkRef, DeviceFileState, DeviceFileStateKind, EncryptionInfo,
    FileId, FileRecord, ModelError, Timestamp, VersionId, VersionRecord,
};

fn ulid() -> u128 {
    ulid::Ulid::new().0
}

fn now() -> Timestamp {
    let t = chrono::Utc::now();
    Timestamp { secs: t.timestamp(), nanos: t.timestamp_subsec_nanos() }
}

fn sample_version(file_id: FileId, version_id: VersionId) -> VersionRecord {
    VersionRecord {
        version_id,
        file_id,
        parent_version_id: None,
        origin_device_id: ulid(),
        timestamp: now(),
        content_hash: "hash".into(),
        size_bytes: 10,
        chunks: vec![ChunkRef { offset: 0, length: 10, hash: "hash".into() }],
    }
}

fn sample_file_record() -> FileRecord {
    let file_id = ulid();
    let version_id = ulid();
    FileRecord {
        file_id,
        origin_device_id: ulid(),
        created_at: now(),
        head_version_id: version_id,
        versions: vec![sample_version(file_id, version_id)],
        lock: None,
        device_states: vec![DeviceFileState {
            device_id: ulid(),
            state: DeviceFileStateKind::Ready,
            known_head_version_id: Some(version_id),
            last_seen_at: now(),
            last_error: None,
        }],
        encryption: EncryptionInfo {
            key_id: "k1".into(),
            algo: "AES-256-GCM".into(),
            iv_salt: None,
        },
    }
}

#[test]
fn validates_ok_record() {
    let record = sample_file_record();
    assert_file_invariants(&record).unwrap();
}

#[test]
fn detects_missing_head() {
    let mut record = sample_file_record();
    record.head_version_id = ulid();
    let err = assert_file_invariants(&record).unwrap_err();
    assert!(matches!(err, ModelError::MissingHead(_)));
}

#[test]
fn detects_duplicate_versions() {
    let mut record = sample_file_record();
    let dup = record.versions[0].clone();
    record.versions.push(dup);
    let err = assert_file_invariants(&record).unwrap_err();
    assert!(matches!(err, ModelError::DuplicateVersion(_)));
}

#[test]
fn detects_duplicate_device_states() {
    let mut record = sample_file_record();
    let dup_device = record.device_states[0].device_id;
    record.device_states.push(DeviceFileState {
        device_id: dup_device,
        state: DeviceFileStateKind::Ready,
        known_head_version_id: record.device_states[0].known_head_version_id,
        last_seen_at: now(),
        last_error: None,
    });
    let err = assert_file_invariants(&record).unwrap_err();
    assert!(matches!(err, ModelError::MissingDevice(_)));
}
