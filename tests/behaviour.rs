use atrius_core::{
    acquire_lock, acquire_lock_with, apply_retention, can_retry, check_conflict, choose_path,
    list_versions, mark_lock_blocked, next_chunk, normalize_event, release_lock,
    rollback_to_version, to_session, AutoLockPreference, ChunkRef, ConflictCheck, Consent,
    ConnectionPath, CreateKind, DeviceFileState, DeviceFileStateKind, DiscoveryConfig,
    EncryptionInfo, FileChangeKind, FileId, FileRecord, Hydration, IdentityError,
    LocalMetadataError, LocalMetadataStore, LocalRegistryEntry, LockAcquisition, LockDenial,
    LockError, LockMode, LockRecord, LockRequestKind, MetadataKind, ModelError, ModifyKind,
    PathBinding, PeerAdvertisement, PinPreference, RelayHint, RemoveKind, RenameMode,
    RetryPolicy, SocketAddress, TimeSpan, Timestamp, TransferDirection, TransferError,
    TransferPlan, TransferProgress, TransferStatus, UserAuthToken, VersionId, VersionRecord,
    VersionRetention, VersioningError, WatchEventKind,
};

fn at(secs: i64) -> Timestamp {
    Timestamp { secs, nanos: 0 }
}

fn version(file_id: FileId, version_id: VersionId, secs: i64) -> VersionRecord {
    VersionRecord {
        version_id,
        file_id,
        parent_version_id: None,
        origin_device_id: 900,
        timestamp: at(secs),
        content_hash: format!("c{version_id}"),
        size_bytes: 1,
        chunks: vec![ChunkRef { offset: 0, length: 1, hash: format!("c{version_id}") }],
    }
}

fn device(device_id: u128) -> DeviceFileState {
    DeviceFileState {
        device_id,
        state: DeviceFileStateKind::Ready,
        known_head_version_id: None,
        last_seen_at: at(0),
        last_error: None,
    }
}

/// A record of file 1 whose versions have the given ids and timestamps, with
/// the given head and two devices.
fn record(versions: &[(VersionId, i64)], head: VersionId) -> FileRecord {
    FileRecord {
        file_id: 1,
        origin_device_id: 900,
        created_at: at(0),
        head_version_id: head,
        versions: versions.iter().map(|&(v, t)| version(1, v, t)).collect(),
        lock: None,
        device_states: vec![device(500), device(501)],
        encryption: EncryptionInfo { key_id: "k".into(), algo: "AES-256-GCM".into(), iv_salt: None },
    }
}

fn ids(file: &FileRecord) -> Vec<VersionId> {
    file.versions.iter().map(|v| v.version_id).collect()
}

fn lock_of(file_id: FileId, owner: u128) -> LockRecord {
    LockRecord {
        lock_id: 77,
        file_id,
        owner_device_id: owner,
        owner_user_id: "owner".into(),
        mode: LockMode::Exclusive,
        acquired_at: at(42),
        auto_lock: false,
        expires_at: None,
    }
}

fn entry(file_id: FileId, paths: &[&str]) -> LocalRegistryEntry {
    LocalRegistryEntry {
        file_id,
        paths: paths
            .iter()
            .map(|p| PathBinding { path: p.to_string(), last_seen_at: at(0), writable: false })
            .collect(),
        local_version_id: None,
        hydration: Hydration::FullyPresent,
        consent: Consent::Approved,
        pin: PinPreference::Unpinned,
        auto_lock_preference: AutoLockPreference::OnEdit,
        last_error: None,
    }
}

// Validation.

#[test]
fn validation_reports_duplicate_before_missing_head() {
    let file = record(&[(10, 1), (10, 2)], 99);
    assert_eq!(atrius_core::assert_file_invariants(&file), Err(ModelError::DuplicateVersion(10)));
}

#[test]
fn validation_names_missing_head_and_repeated_device() {
    let file = record(&[(10, 1), (11, 2)], 12);
    assert_eq!(atrius_core::assert_file_invariants(&file), Err(ModelError::MissingHead(12)));
    let mut file = record(&[(10, 1)], 10);
    file.device_states.push(device(500));
    assert_eq!(atrius_core::assert_file_invariants(&file), Err(ModelError::MissingDevice(500)));
    let file = record(&[(10, 1), (11, 2)], 11);
    assert_eq!(atrius_core::assert_file_invariants(&file), Ok(()));
}

// Rollback.

#[test]
fn rollback_scenario_appends_and_rejects_unknown_target() {
    let mut file = record(&[(1, 1)], 1);
    rollback_to_version(&mut file, 1, version(1, 2, 2)).unwrap();
    assert_eq!(file.head_version_id, 2);
    assert_eq!(ids(&file), vec![1, 2]);
    let before = file.clone();
    let err = rollback_to_version(&mut file, 55, version(1, 3, 3)).unwrap_err();
    assert_eq!(err, VersioningError::MissingVersion(55));
    assert_eq!(file, before);
}

#[test]
fn rollback_with_reused_id_is_refused_and_reverted() {
    let mut file = record(&[(1, 1), (2, 2)], 2);
    let before = file.clone();
    let err = rollback_to_version(&mut file, 1, version(1, 1, 3)).unwrap_err();
    assert_eq!(err, VersioningError::Model(ModelError::DuplicateVersion(1)));
    assert_eq!(file, before);
}

#[test]
fn list_versions_is_stored_order() {
    let file = record(&[(3, 30), (1, 10), (2, 20)], 2);
    let listed: Vec<VersionId> = list_versions(&file).iter().map(|v| v.version_id).collect();
    assert_eq!(listed, vec![3, 1, 2]);
}

// Retention.

#[test]
fn retention_keeps_newest_sorted_by_time() {
    let mut file = record(&[(3, 30), (1, 10), (5, 50), (2, 20), (4, 40)], 5);
    let policy = VersionRetention { max_versions: 2, max_age: None };
    apply_retention(&mut file, &policy, at(100)).unwrap();
    assert_eq!(ids(&file), vec![4, 5]);
}

#[test]
fn retention_counts_old_head_against_limit() {
    let mut file = record(&[(1, 1), (2, 2), (3, 3)], 1);
    let policy = VersionRetention { max_versions: 1, max_age: None };
    apply_retention(&mut file, &policy, at(100)).unwrap();
    assert_eq!(ids(&file), vec![1]);
    let mut file = record(&[(1, 1), (2, 2), (3, 3), (4, 4)], 1);
    let policy = VersionRetention { max_versions: 3, max_age: None };
    apply_retention(&mut file, &policy, at(100)).unwrap();
    assert_eq!(ids(&file), vec![1, 3, 4]);
}

#[test]
fn retention_zero_limit_with_older_head_keeps_only_head() {
    let mut file = record(&[(1, 1), (2, 2)], 1);
    let policy = VersionRetention { max_versions: 0, max_age: None };
    apply_retention(&mut file, &policy, at(100)).unwrap();
    assert_eq!(ids(&file), vec![1]);
}

#[test]
fn retention_keeps_boundary_ties_together() {
    let mut file = record(&[(1, 1), (2, 5), (3, 5), (4, 9)], 4);
    let policy = VersionRetention { max_versions: 2, max_age: None };
    apply_retention(&mut file, &policy, at(100)).unwrap();
    assert_eq!(ids(&file), vec![2, 3, 4]);
}

#[test]
fn retention_zero_limit_keeps_one() {
    let mut file = record(&[(1, 1), (2, 2), (3, 3)], 3);
    let policy = VersionRetention { max_versions: 0, max_age: None };
    apply_retention(&mut file, &policy, at(100)).unwrap();
    assert_eq!(ids(&file), vec![3]);
}

#[test]
fn retention_under_limit_keeps_stored_order() {
    let mut file = record(&[(2, 20), (1, 10)], 1);
    let policy = VersionRetention { max_versions: 5, max_age: None };
    apply_retention(&mut file, &policy, at(100)).unwrap();
    assert_eq!(ids(&file), vec![2, 1]);
}

#[test]
fn retention_by_age_drops_old_versions_but_head() {
    let mut file = record(&[(1, 10), (2, 50), (3, 90), (4, 95)], 1);
    let policy = VersionRetention { max_versions: 10, max_age: Some(TimeSpan { secs: 50, nanos: 0 }) };
    apply_retention(&mut file, &policy, at(100)).unwrap();
    assert_eq!(ids(&file), vec![1, 2, 3, 4]);
    let mut file = record(&[(1, 10), (2, 49), (3, 90)], 3);
    apply_retention(&mut file, &policy, at(100)).unwrap();
    assert_eq!(ids(&file), vec![3]);
}

#[test]
fn retention_on_invalid_record_changes_nothing() {
    let mut file = record(&[(1, 1), (2, 2)], 9);
    let before = file.clone();
    let policy = VersionRetention { max_versions: 1, max_age: None };
    let err = apply_retention(&mut file, &policy, at(100)).unwrap_err();
    assert_eq!(err, VersioningError::Model(ModelError::MissingHead(9)));
    assert_eq!(file, before);
}

// Time.

#[test]
fn checked_sub_borrows_a_second() {
    let t = Timestamp { secs: 10, nanos: 5 };
    let r = t.checked_sub(&TimeSpan { secs: 3, nanos: 7 });
    assert_eq!(r, Some(Timestamp { secs: 6, nanos: 999_999_998 }));
    let low = Timestamp { secs: i64::MIN, nanos: 0 };
    assert_eq!(low.checked_sub(&TimeSpan { secs: 0, nanos: 1 }), None);
    assert!(at(1).lt(&at(2)) && at(2).le(&at(2)) && !at(3).le(&at(2)));
}

// Locking.

#[test]
fn acquire_with_fills_the_lock() {
    let file = record(&[(1, 1)], 1);
    let r = acquire_lock_with(&file, 500, "ann".into(), LockRequestKind::Auto, true, 31, at(7)).unwrap();
    match r {
        LockAcquisition::Acquired(l) => {
            assert_eq!(l.lock_id, 31);
            assert_eq!(l.file_id, 1);
            assert_eq!(l.owner_device_id, 500);
            assert_eq!(l.owner_user_id, "ann");
            assert_eq!(l.mode, LockMode::Exclusive);
            assert_eq!(l.acquired_at, at(7));
            assert!(l.auto_lock);
            assert_eq!(l.expires_at, None);
        }
        LockAcquisition::Denied(_) => panic!("an unlocked record grants the lock"),
    }
}

#[test]
fn acquire_mints_fresh_lock_ids_and_denies_the_holder_too() {
    let file = record(&[(1, 1)], 1);
    let a = acquire_lock(&file, 500, "u".into(), LockRequestKind::Manual, false).unwrap();
    let b = acquire_lock(&file, 500, "u".into(), LockRequestKind::Manual, false).unwrap();
    let (la, lb) = match (a, b) {
        (LockAcquisition::Acquired(la), LockAcquisition::Acquired(lb)) => (la, lb),
        _ => panic!("an unlocked record grants the lock"),
    };
    assert_ne!(la.lock_id, lb.lock_id);
    assert!(la.acquired_at.secs > 0);
    let mut locked = file.clone();
    locked.lock = Some(la.clone());
    let again = acquire_lock(&locked, 500, "u".into(), LockRequestKind::Manual, false).unwrap();
    assert_eq!(again, LockAcquisition::Denied(LockDenial { holder_device: 500, acquired_at: la.acquired_at }));
}

#[test]
fn mismatched_lock_is_reported() {
    let mut file = record(&[(1, 1)], 1);
    file.lock = Some(lock_of(2, 500));
    assert_eq!(acquire_lock(&file, 501, "u".into(), LockRequestKind::Manual, false), Err(LockError::LockMismatch));
    let before = file.clone();
    assert_eq!(release_lock(&mut file, 500), Err(LockError::LockMismatch));
    assert_eq!(file, before);
}

#[test]
fn release_only_by_holder() {
    let mut file = record(&[(1, 1)], 1);
    file.lock = Some(lock_of(1, 500));
    release_lock(&mut file, 501).unwrap();
    assert!(file.lock.is_some());
    release_lock(&mut file, 500).unwrap();
    assert!(file.lock.is_none());
    release_lock(&mut file, 500).unwrap();
    assert!(file.lock.is_none());
}

#[test]
fn conflict_truth_table_cases() {
    let mut file = record(&[(1, 1), (2, 2)], 2);
    assert_eq!(check_conflict(&file, 500, 2), ConflictCheck::Allowed);
    assert_eq!(check_conflict(&file, 500, 1), ConflictCheck::Conflict { current_head: 2, base_head: 1 });
    file.lock = Some(lock_of(1, 500));
    assert_eq!(check_conflict(&file, 500, 1), ConflictCheck::Allowed);
    assert_eq!(check_conflict(&file, 501, 2), ConflictCheck::LockedBy(500));
}

#[test]
fn mark_lock_blocked_touches_only_that_device() {
    let mut file = record(&[(1, 1)], 1);
    mark_lock_blocked(&mut file, 501);
    assert_eq!(file.device_states[0].state, DeviceFileStateKind::Ready);
    assert_eq!(file.device_states[1].state, DeviceFileStateKind::LockBlocked);
    let before = file.clone();
    mark_lock_blocked(&mut file, 777);
    assert_eq!(file, before);
}

// Store.

#[test]
fn bind_path_refuses_case_insensitive_alias() {
    let mut store = LocalMetadataStore::new();
    store.upsert_registry_entry(entry(1, &["/Docs/Plan.txt"])).unwrap();
    store.upsert_registry_entry(entry(2, &[])).unwrap();
    assert_eq!(store.bind_path(2, "/docs/PLAN.TXT".into(), true), Err(LocalMetadataError::PathAlreadyBound(1)));
    assert!(store.registry_entry(&2).unwrap().paths.is_empty());
    store.bind_path(2, "/docs/other.txt".into(), true).unwrap();
    assert_eq!(store.registry_entry(&2).unwrap().paths[0].path, "/docs/other.txt");
    assert_eq!(store.bind_path(3, "/x".into(), true), Err(LocalMetadataError::NotFound(3)));
}

#[test]
fn bind_path_at_refreshes_an_exact_binding() {
    let mut store = LocalMetadataStore::new();
    store.upsert_registry_entry(entry(1, &["/a", "/b"])).unwrap();
    store.bind_path_at(1, "/b".into(), true, at(9)).unwrap();
    let e = store.registry_entry(&1).unwrap();
    assert_eq!(e.paths.len(), 2);
    assert_eq!(e.paths[1], PathBinding { path: "/b".into(), last_seen_at: at(9), writable: true });
    store.bind_path_at(1, "/B".into(), false, at(10)).unwrap();
    let e = store.registry_entry(&1).unwrap();
    assert_eq!(e.paths.len(), 3);
    assert_eq!(e.paths[2], PathBinding { path: "/B".into(), last_seen_at: at(10), writable: false });
}

#[test]
fn unbind_path_removes_exact_matches_only() {
    let mut store = LocalMetadataStore::new();
    store.upsert_registry_entry(entry(1, &["/a", "/A", "/a"])).unwrap();
    store.unbind_path(1, "/a").unwrap();
    let paths: Vec<String> = store.registry_entry(&1).unwrap().paths.iter().map(|p| p.path.clone()).collect();
    assert_eq!(paths, vec!["/A".to_string()]);
    store.unbind_path(1, "/zzz").unwrap();
    assert_eq!(store.unbind_path(2, "/a"), Err(LocalMetadataError::NotFound(2)));
}

#[test]
fn local_preferences_and_error() {
    let mut store = LocalMetadataStore::new();
    store.upsert_registry_entry(entry(1, &[])).unwrap();
    store.set_local_preferences(1, None, Some(Consent::Revoked), None).unwrap();
    let e = store.registry_entry(&1).unwrap();
    assert_eq!(e.hydration, Hydration::FullyPresent);
    assert_eq!(e.consent, Consent::Revoked);
    assert_eq!(e.auto_lock_preference, AutoLockPreference::OnEdit);
    store.set_local_error(1, Some("disk full".into())).unwrap();
    assert_eq!(store.registry_entry(&1).unwrap().last_error, Some("disk full".to_string()));
    assert_eq!(store.set_local_error(2, None), Err(LocalMetadataError::NotFound(2)));
    assert_eq!(store.set_local_preferences(2, None, None, None), Err(LocalMetadataError::NotFound(2)));
}

#[test]
fn lock_of_another_file_is_refused() {
    let mut store = LocalMetadataStore::new();
    store.upsert_file_record(record(&[(1, 1)], 1)).unwrap();
    assert_eq!(store.set_lock(1, Some(lock_of(2, 500))), Err(LocalMetadataError::LockMismatch(2)));
    assert!(store.file_record(&1).unwrap().lock.is_none());
    store.set_lock(1, Some(lock_of(1, 500))).unwrap();
    assert_eq!(store.file_record(&1).unwrap().lock, Some(lock_of(1, 500)));
    let mut other = record(&[(1, 1)], 1);
    other.file_id = 3;
    other.lock = Some(lock_of(4, 500));
    assert_eq!(store.upsert_file_record(other), Err(LocalMetadataError::LockMismatch(4)));
    assert!(store.file_record(&3).is_none());
}

#[test]
fn retry_count_is_number_of_failed_offsets() {
    let mut progress = TransferProgress::new(5);
    for o in [1u64, 2, 3] {
        progress.mark_failed(o);
    }
    let session = to_session(&plan_of(&[1, 2, 3]), &progress, 3, 4, TransferStatus::InProgress);
    assert_eq!(session.retry_count, 3);
    assert!(progress.started_at.nanos < 1_000_000_000);
}

#[test]
fn upsert_file_record_validates() {
    let mut store = LocalMetadataStore::new();
    let bad = record(&[(1, 1)], 2);
    assert_eq!(store.upsert_file_record(bad), Err(LocalMetadataError::Model(ModelError::MissingHead(2))));
    assert!(store.file_record(&1).is_none());
    store.upsert_file_record(record(&[(1, 1)], 1)).unwrap();
    assert_eq!(store.files().len(), 1);
    assert_eq!(store.registry_entries().len(), 0);
}

#[test]
fn append_version_refuses_reused_id_and_reverts() {
    let mut store = LocalMetadataStore::new();
    store.upsert_file_record(record(&[(1, 1)], 1)).unwrap();
    store.upsert_registry_entry(entry(1, &[])).unwrap();
    let before = store.file_record(&1).unwrap().clone();
    let err = store.append_version(1, 1, version(1, 1, 2)).unwrap_err();
    assert_eq!(err, LocalMetadataError::Model(ModelError::DuplicateVersion(1)));
    assert_eq!(store.file_record(&1).unwrap(), &before);
    assert_eq!(store.registry_entry(&1).unwrap().local_version_id, None);
    assert_eq!(store.append_version(7, 2, version(7, 2, 2)), Err(LocalMetadataError::NotFound(7)));
}

#[test]
fn append_version_without_registry_entry() {
    let mut store = LocalMetadataStore::new();
    store.upsert_file_record(record(&[(1, 1)], 1)).unwrap();
    store.append_version(1, 2, version(1, 2, 2)).unwrap();
    let r = store.file_record(&1).unwrap();
    assert_eq!(r.head_version_id, 2);
    assert_eq!(ids(r), vec![1, 2]);
    assert!(store.registry_entry(&1).is_none());
}

#[test]
fn upsert_device_state_appends_or_replaces() {
    let mut store = LocalMetadataStore::new();
    store.upsert_file_record(record(&[(1, 1)], 1)).unwrap();
    let mut s = device(600);
    s.state = DeviceFileStateKind::Pulling;
    store.upsert_device_state(1, s).unwrap();
    let r = store.file_record(&1).unwrap();
    assert_eq!(r.device_states.len(), 3);
    assert_eq!(r.device_states[2].state, DeviceFileStateKind::Pulling);
    let mut s = device(500);
    s.state = DeviceFileStateKind::Conflict;
    store.upsert_device_state(1, s).unwrap();
    let r = store.file_record(&1).unwrap();
    assert_eq!(r.device_states.len(), 3);
    assert_eq!(r.device_states[0].state, DeviceFileStateKind::Conflict);
    assert_eq!(store.upsert_device_state(9, device(1)), Err(LocalMetadataError::NotFound(9)));
    assert_eq!(store.set_lock(9, None), Err(LocalMetadataError::NotFound(9)));
}

// Transfer.

fn plan_of(offsets: &[u64]) -> TransferPlan {
    TransferPlan {
        file_id: 1,
        version_id: 2,
        direction: TransferDirection::Pull,
        chunks: offsets.iter().map(|&o| ChunkRef { offset: o, length: 10, hash: format!("h{o}") }).collect(),
    }
}

#[test]
fn transfer_scenario_with_repeated_marks() {
    let plan = plan_of(&[0, 10]);
    let mut progress = TransferProgress::new(5);
    assert_eq!(next_chunk(&plan, &progress).unwrap().offset, 0);
    progress.mark_done(0);
    progress.mark_done(0);
    assert_eq!(progress.completed_chunks.len(), 1);
    assert_eq!(next_chunk(&plan, &progress).unwrap(), ChunkRef { offset: 10, length: 10, hash: "h10".into() });
    assert!(!progress.is_complete(&plan));
    progress.mark_done(10);
    assert!(next_chunk(&plan, &progress).is_none());
    assert!(progress.is_complete(&plan));
}

#[test]
fn completion_wins_over_failure() {
    let mut progress = TransferProgress::new(5);
    progress.mark_failed(10);
    assert!(progress.failed_chunks.contains(&10));
    progress.mark_done(10);
    assert!(!progress.failed_chunks.contains(&10));
    progress.mark_failed(10);
    assert!(!progress.failed_chunks.contains(&10));
    progress.mark_failed(20);
    let session = to_session(&plan_of(&[0, 10, 20]), &progress, 3, 4, TransferStatus::Failed("net".into()));
    assert_eq!(session.retry_count, 1);
    assert_eq!(session.transfer_session_id, 5);
    assert_eq!(session.direction, TransferDirection::Pull);
    assert_eq!((session.from_device_id, session.to_device_id), (3, 4));
    assert_eq!(session.active_chunks, plan_of(&[0, 10, 20]).chunks);
    assert_eq!(session.status, TransferStatus::Failed("net".into()));
}

#[test]
fn empty_plan_is_complete_and_retry_error_names_offset() {
    let plan = plan_of(&[]);
    let progress = TransferProgress::new(5);
    assert!(progress.is_complete(&plan));
    assert!(next_chunk(&plan, &progress).is_none());
    let policy = RetryPolicy { max_attempts: 0, backoff: TimeSpan { secs: 0, nanos: 0 } };
    assert_eq!(can_retry(64, 0, &policy), Err(TransferError::MaxRetries(64)));
}

// Identity.

#[test]
fn token_expires_at_its_expiry() {
    let token = UserAuthToken { user_id: 1, issued_at: at(0), expires_at: at(60), token: vec![] };
    assert_eq!(token.is_valid(Timestamp { secs: 59, nanos: 999_999_999 }), Ok(()));
    assert_eq!(token.is_valid(at(60)), Err(IdentityError::AuthExpired));
}

#[test]
fn path_choice_cases() {
    let addr = SocketAddress::V4 { ip: 0x0a00_0002, port: 7777 };
    let relay = RelayHint { relay_id: 8, url: "wss://relay.example.com".into() };
    let mut advert = PeerAdvertisement {
        device_id: 3,
        user_id: 4,
        session_id: 5,
        addresses: vec![addr],
        relays: vec![relay.clone()],
        advertised_at: at(0),
    };
    let span = TimeSpan { secs: 5, nanos: 0 };
    let no_pref = DiscoveryConfig { prefer_p2p: false, relay_timeout: span, max_advert_age: span };
    let sel = choose_path(&advert, &no_pref).unwrap();
    assert_eq!(sel.target, 3);
    assert_eq!(sel.chosen, Some(ConnectionPath::Relay { relay: relay.clone(), via: addr }));
    assert_eq!(sel.attempted, vec![ConnectionPath::Relay { relay: relay.clone(), via: addr }]);
    advert.addresses.clear();
    let sel = choose_path(&advert, &no_pref).unwrap();
    assert_eq!(sel.chosen, Some(ConnectionPath::Relay { relay, via: SocketAddress::V4 { ip: 0, port: 0 } }));
    advert.relays.clear();
    assert_eq!(choose_path(&advert, &no_pref), Err(IdentityError::NoPath));
}

// Events.

#[test]
fn watcher_notifications_are_classified() {
    let p = |s: &str| s.to_string();
    let e = normalize_event(WatchEventKind::Modify(ModifyKind::Name(RenameMode::To)), vec![p("/a"), p("/b")], at(3));
    assert_eq!(e.kind, FileChangeKind::Renamed { from: p("/a"), to: p("/b") });
    assert_eq!(e.path, "/a");
    assert_eq!(e.occurred_at, at(3));
    let e = normalize_event(WatchEventKind::Modify(ModifyKind::Name(RenameMode::To)), vec![p("/a")], at(3));
    assert_eq!(e.kind, FileChangeKind::Other);
    let e = normalize_event(WatchEventKind::Modify(ModifyKind::Metadata(MetadataKind::Any)), vec![p("/m")], at(3));
    assert_eq!(e.kind, FileChangeKind::Metadata);
    let e = normalize_event(WatchEventKind::Modify(ModifyKind::Metadata(MetadataKind::WriteTime)), vec![p("/m")], at(3));
    assert_eq!(e.kind, FileChangeKind::Other);
    let e = normalize_event(WatchEventKind::Create(CreateKind::Folder), vec![], at(3));
    assert_eq!(e.kind, FileChangeKind::Other);
    assert_eq!(e.path, "");
    let e = normalize_event(WatchEventKind::Create(CreateKind::File), vec![p("/n")], at(3));
    assert_eq!(e.kind, FileChangeKind::Created);
    let e = normalize_event(WatchEventKind::Remove(RemoveKind::Any), vec![p("/n")], at(3));
    assert_eq!(e.kind, FileChangeKind::Removed);
    let e = normalize_event(WatchEventKind::Modify(ModifyKind::Name(RenameMode::Both)), vec![p("/n")], at(3));
    assert_eq!(e.kind, FileChangeKind::Modified);
}
