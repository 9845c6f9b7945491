use atrius_core::{
    AutoLockPreference, ChunkRef, Consent, DeviceFileState, DeviceFileStateKind, EncryptionInfo,
    FileId, FileRecord, Hydration, LocalMetadataError, LocalMetadataStore, LocalRegistryEntry,
    LockMode, LockRecord, PathBinding, PinPreference, Timestamp, VersionRecord,
};

fn ulid() -> u128 {
    ulid::Ulid::new().0
}

fn now() -> Timestamp {
    let t = chrono::Utc::now();
    Timestamp { secs: t.timestamp(), nanos: t.timestamp_subsec_nanos() }
}

fn sample_file_record() -> FileRecord {
    let file_id = ulid();
    let version_id = ulid();
    FileRecord {
        file_id,
        origin_device_id: ulid(),
        created_at: now(),
        head_version_id: version_id,
        versions: vec![VersionRecord {
            version_id,
            file_id,
            parent_version_id: None,
            origin_device_id: ulid(),
            timestamp: now(),
            content_hash: "hash".into(),
            size_bytes: 10,
            chunks: vec![ChunkRef { offset: 0, length: 10, hash: "hash".into() }],
        }],
        lock: None,
        device_states: vec![DeviceFileState {
            device_id: ulid(),
            state: DeviceFileStateKind::Ready,
            known_head_version_id: Some(version_id),
            last_seen_at: now(),
            last_error: None,
        }],
        encryption: EncryptionInfo {
            key_id: "k1".into(),
            algo: "AES-256-GCM".into(),
            iv_salt: None,
        },
    }
}

fn sample_registry_entry(file_id: FileId) -> LocalRegistryEntry {
    LocalRegistryEntry {
        file_id,
        paths: vec![PathBinding { path: "/tmp/a".into(), last_seen_at: now(), writable: true }],
        local_version_id: None,
        hydration: Hydration::FullyPresent,
        consent: Consent::Approved,
        pin: PinPreference::Unpinned,
        auto_lock_preference: AutoLockPreference::OnEdit,
        last_error: None,
    }
}

#[test]
fn upsert_and_bind_paths_without_changing_identity() {
    let mut store = LocalMetadataStore::new();
    let record = sample_file_record();
    let file_id = record.file_id;
    store.upsert_file_record(record).unwrap();
    store.upsert_registry_entry(sample_registry_entry(file_id)).unwrap();

    store.bind_path(file_id, "/tmp/renamed".into(), true).unwrap();
    let entry = store.registry_entry(&file_id).unwrap();
    assert!(entry.paths.iter().any(|p| p.path == "/tmp/renamed"));
}

#[test]
fn prevents_path_alias_across_files() {
    let mut store = LocalMetadataStore::new();
    let r1 = sample_file_record();
    let r2 = sample_file_record();
    let f1 = r1.file_id;
    let f2 = r2.file_id;
    store.upsert_file_record(r1).unwrap();
    store.upsert_file_record(r2).unwrap();
    store.upsert_registry_entry(sample_registry_entry(f1)).unwrap();
    store.upsert_registry_entry(sample_registry_entry(f2)).unwrap();

    let err = store.bind_path(f2, "/tmp/a".into(), true).expect_err("should reject alias");
    assert!(matches!(err, LocalMetadataError::PathAlreadyBound(id) if id == f1));
}

#[test]
fn updates_device_state_and_keeps_invariants() {
    let mut store = LocalMetadataStore::new();
    let record = sample_file_record();
    let file_id = record.file_id;
    let device_id = record.device_states[0].device_id;
    store.upsert_file_record(record.clone()).unwrap();

    let later = now();
    store
        .upsert_device_state(
            file_id,
            DeviceFileState {
                device_id,
                state: DeviceFileStateKind::Pushing,
                known_head_version_id: record.device_states[0].known_head_version_id,
                last_seen_at: Timestamp { secs: later.secs + 1, nanos: later.nanos },
                last_error: None,
            },
        )
        .unwrap();

    let updated = store.file_record(&file_id).unwrap();
    assert_eq!(
        updated.device_states.iter().find(|d| d.device_id == device_id).unwrap().state,
        DeviceFileStateKind::Pushing
    );
}

#[test]
fn sets_and_clears_lock() {
    let mut store = LocalMetadataStore::new();
    let record = sample_file_record();
    let file_id = record.file_id;
    store.upsert_file_record(record).unwrap();

    store
        .set_lock(
            file_id,
            Some(LockRecord {
                lock_id: ulid(),
                file_id,
                owner_device_id: ulid(),
                owner_user_id: "user".into(),
                mode: LockMode::Exclusive,
                acquired_at: now(),
                auto_lock: true,
                expires_at: None,
            }),
        )
        .unwrap();

    assert!(store.file_record(&file_id).unwrap().lock.is_some());
    store.set_lock(file_id, None).unwrap();
    assert!(store.file_record(&file_id).unwrap().lock.is_none());
}

#[test]
fn append_version_updates_head_and_registry() {
    let mut store = LocalMetadataStore::new();
    let record = sample_file_record();
    let file_id = record.file_id;
    store.upsert_file_record(record).unwrap();
    store.upsert_registry_entry(sample_registry_entry(file_id)).unwrap();

    let new_version_id = ulid();
    store
        .append_version(
            file_id,
            new_version_id,
            VersionRecord {
                version_id: new_version_id,
                file_id,
                parent_version_id: None,
                origin_device_id: ulid(),
                timestamp: now(),
                content_hash: "hash2".into(),
                size_bytes: 20,
                chunks: vec![ChunkRef { offset: 0, length: 20, hash: "hash2".into() }],
            },
        )
        .unwrap();

    let updated = store.file_record(&file_id).unwrap();
    assert_eq!(updated.head_version_id, new_version_id);
    assert_eq!(updated.versions.len(), 2);
    assert_eq!(store.registry_entry(&file_id).unwrap().local_version_id, Some(new_version_id));
}

#[test]
fn set_local_preferences_updates_flags() {
    let mut store = LocalMetadataStore::new();
    let record = sample_file_record();
    let file_id = record.file_id;
    store.upsert_file_record(record).unwrap();
    store.upsert_registry_entry(sample_registry_entry(file_id)).unwrap();

    store
        .set_local_preferences(
            file_id,
            Some(Hydration::NotPresent),
            Some(Consent::Revoked),
            Some(AutoLockPreference::Manual),
        )
        .unwrap();

    let entry = store.registry_entry(&file_id).unwrap();
    assert!(matches!(entry.hydration, Hydration::NotPresent));
    assert!(matches!(entry.consent, Consent::Revoked));
    assert!(matches!(entry.auto_lock_preference, AutoLockPreference::Manual));
}
