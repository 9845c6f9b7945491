//! The memory-resident metadata store: shared file records and local
//! registry entries, each keyed by file id. Every operation is a
//! single-file transaction that looks up, applies, and validates; a change
//! that fails validation is not applied.
use crate::lock::is_first_of_device;
use crate::model::{
    collect_device_ids, collect_version_ids, validate_ids, validation, validation_of,
    assert_file_invariants, device_ids, version_ids, AutoLockPreference, Consent,
    record_valid, DeviceFileState, DeviceId, FileId, FileRecord, Hydration, LocalRegistryEntry, LockRecord, ModelError,
    PathBinding, VersionId, VersionRecord,
};
use crate::time::Timestamp;
use std::collections::HashMap;
use vstd::prelude::*;

verus! {

broadcast use vstd::std_specs::hash::group_hash_axioms;

/// In-memory store of file identities, shared metadata snapshots and local
/// registry entries. It claims no folder: paths are bound explicitly.
#[derive(Debug)]
pub struct LocalMetadataStore {
    files: HashMap<FileId, FileRecord>,
    registry: HashMap<FileId, LocalRegistryEntry>,
}

#[derive(Clone, Copy, Debug, PartialEq, Eq, Structural)]
pub enum LocalMetadataError {
    /// No record or entry exists for this file id.
    NotFound(FileId),
    /// The path is already bound to this other file.
    PathAlreadyBound(FileId),
    /// The lock given for a record belongs to this other file.
    LockMismatch(FileId),
    /// The change would break the record's invariants.
    Model(ModelError),
}

/// An ASCII upper-case letter folded to lower case, as a code point; any
/// other character is left as it is.
pub open spec fn fold_ascii(c: char) -> u32 {
    if 65 <= (c as u32) && (c as u32) <= 90 {
        (c as u32 + 32) as u32
    } else {
        c as u32
    }
}

/// The two strings are equal once ASCII letters are folded to lower case.
pub open spec fn same_ignoring_ascii_case(a: Seq<char>, b: Seq<char>) -> bool {
    &&& a.len() == b.len()
    &&& forall|i: int| 0 <= i < a.len() ==> fold_ascii(#[trigger] a[i]) == fold_ascii(b[i])
}

/// Relies on `str::eq_ignore_ascii_case`: the two strings have the same
/// length and agree once ASCII letters are folded to lower case.
#[verifier::external_body]
fn eq_ignore_ascii_case(a: &str, b: &str) -> (r: bool)
    ensures
        r == same_ignoring_ascii_case(a@, b@),
{
    a.eq_ignore_ascii_case(b)
}

/// The entry binds `path`, ignoring ASCII case.
pub open spec fn entry_binds(e: LocalRegistryEntry, path: Seq<char>) -> bool {
    exists|i: int| 0 <= i < e.paths@.len() && same_ignoring_ascii_case(#[trigger] e.paths@[i].path@, path)
}

/// A file other than `file_id` binds `path`, ignoring ASCII case.
pub open spec fn bound_elsewhere(
    registry: Map<FileId, LocalRegistryEntry>,
    file_id: FileId,
    path: Seq<char>,
) -> bool {
    exists|other: FileId|
        registry.contains_key(other) && other != file_id && #[trigger] entry_binds(
            registry[other],
            path,
        )
}

/// `i` is the first binding whose path is exactly `path`.
pub open spec fn first_exact_binding(ps: Seq<PathBinding>, path: Seq<char>, i: int) -> bool {
    &&& 0 <= i < ps.len()
    &&& ps[i].path@ == path
    &&& forall|k: int| 0 <= k < i ==> ps[k].path@ != path
}

/// The bindings after binding `path` at `now`: the first binding with
/// exactly that path is refreshed, or else a new binding is appended.
pub open spec fn rebound(
    before: Seq<PathBinding>,
    after: Seq<PathBinding>,
    path: String,
    writable: bool,
    now: Timestamp,
) -> bool {
    if exists|i: int| first_exact_binding(before, path@, i) {
        let i = choose|i: int| first_exact_binding(before, path@, i);
        after == before.update(
            i,
            PathBinding { path: before[i].path, last_seen_at: now, writable },
        )
    } else {
        after == before.push(PathBinding { path, last_seen_at: now, writable })
    }
}

/// The device states after upserting `state`: the first entry of the same
/// device is replaced, or else the state is appended.
pub open spec fn upserted_states(before: Seq<DeviceFileState>, state: DeviceFileState) -> Seq<
    DeviceFileState,
> {
    if exists|i: int| is_first_of_device(before, state.device_id, i) {
        let i = choose|i: int| is_first_of_device(before, state.device_id, i);
        before.update(i, state)
    } else {
        before.push(state)
    }
}

/// The first position of `states` that belongs to `device_id`, if any.
fn device_index(states: &Vec<DeviceFileState>, device_id: DeviceId) -> (r: Option<usize>)
    ensures
        r is None ==> forall|k: int| 0 <= k < states@.len() ==> states@[k].device_id != device_id,
        r matches Some(i) ==> is_first_of_device(states@, device_id, i as int),
{
    let mut i: usize = 0;
    while i < states.len()
        invariant
            i <= states.len(),
            forall|k: int| 0 <= k < i ==> states@[k].device_id != device_id,
        decreases states.len() - i,
    {
        if states[i].device_id == device_id {
            return Some(i);
        }
        i = i + 1;
    }
    None
}

proof fn lemma_upserted_states(before: Seq<DeviceFileState>, state: DeviceFileState, found: Option<usize>)
    requires
        found is None ==> forall|k: int| 0 <= k < before.len() ==> before[k].device_id != state.device_id,
        found matches Some(i) ==> is_first_of_device(before, state.device_id, i as int),
    ensures
        found matches Some(i) ==> upserted_states(before, state) == before.update(i as int, state)
            && device_ids(upserted_states(before, state)) == device_ids(before),
        found is None ==> upserted_states(before, state) == before.push(state) && device_ids(
            upserted_states(before, state),
        ) == device_ids(before).push(state.device_id),
{
    match found {
        Some(i) => {
            let c = choose|c: int| is_first_of_device(before, state.device_id, c);
            if c < i {
                assert(before[c].device_id != state.device_id);
            }
            if c > i {
                assert(before[i as int].device_id != state.device_id);
            }
            assert(device_ids(before.update(i as int, state)) =~= device_ids(before));
        },
        None => {
            assert(device_ids(before.push(state)) =~= device_ids(before).push(state.device_id));
        },
    }
}

/// What binding `path` to `file_id` at `now` does to the registry, and what
/// it returns.
pub open spec fn bind_effect(
    before: Map<FileId, LocalRegistryEntry>,
    after: Map<FileId, LocalRegistryEntry>,
    r: Result<(), LocalMetadataError>,
    file_id: FileId,
    path: String,
    writable: bool,
    now: Timestamp,
) -> bool {
    if bound_elsewhere(before, file_id, path@) {
        &&& r matches Err(LocalMetadataError::PathAlreadyBound(other)) && other != file_id
            && before.contains_key(other) && entry_binds(before[other], path@)
        &&& after == before
    } else if !before.contains_key(file_id) {
        &&& r == Err::<(), LocalMetadataError>(LocalMetadataError::NotFound(file_id))
        &&& after == before
    } else {
        &&& r is Ok
        &&& after == before.insert(file_id, after[file_id])
        &&& after[file_id] == (LocalRegistryEntry { paths: after[file_id].paths, ..before[file_id] })
        &&& rebound(before[file_id].paths@, after[file_id].paths@, path, writable, now)
    }
}

/// The refusal of a lock that names a file other than `file_id`, if it does.
pub open spec fn foreign_lock(lock: Option<LockRecord>, file_id: FileId) -> Option<LocalMetadataError> {
    match lock {
        Some(l) => if l.file_id != file_id {
            Some(LocalMetadataError::LockMismatch(l.file_id))
        } else {
            None
        },
        None => None,
    }
}

/// Whether `lock` names a file other than `file_id`.
fn lock_is_foreign(lock: &Option<LockRecord>, file_id: FileId) -> (r: Option<FileId>)
    ensures
        r == (match foreign_lock(*lock, file_id) {
            Some(LocalMetadataError::LockMismatch(other)) => Some(other),
            _ => None::<FileId>,
        }),
{
    match lock {
        Some(l) => if l.file_id != file_id {
            Some(l.file_id)
        } else {
            None
        },
        None => None,
    }
}

impl LocalMetadataStore {
    /// The file records, by file id.
    pub closed spec fn file_map(&self) -> Map<FileId, FileRecord> {
        self.files@
    }

    /// The registry entries, by file id.
    pub closed spec fn registry_map(&self) -> Map<FileId, LocalRegistryEntry> {
        self.registry@
    }

    /// Every stored record is keyed by its own file id, satisfies the
    /// structural invariants, and holds no lock of another file; every
    /// registry entry is keyed by its file id.
    pub closed spec fn records_valid(&self) -> bool {
        &&& forall|k: FileId| #[trigger]
            self.files@.contains_key(k) ==> self.files@[k].file_id == k && record_valid(self.files@[k])
                && foreign_lock(self.files@[k].lock, k) is None
        &&& forall|k: FileId| #[trigger]
            self.registry@.contains_key(k) ==> self.registry@[k].file_id == k
    }

    /// An empty store.
    pub fn new() -> (r: Self)
        ensures
            r.records_valid(),
            r.file_map() == Map::<FileId, FileRecord>::empty(),
            r.registry_map() == Map::<FileId, LocalRegistryEntry>::empty(),
    {
        LocalMetadataStore { files: HashMap::new(), registry: HashMap::new() }
    }

    /// Inserts or replaces a file record, once it validates and holds no
    /// lock of another file.
    pub fn upsert_file_record(&mut self, record: FileRecord) -> (r: Result<(), LocalMetadataError>)
        ensures
            old(self).records_valid() ==> final(self).records_valid(),
            final(self).registry_map() == old(self).registry_map(),
            match validation(record) {
                Ok(_) => match foreign_lock(record.lock, record.file_id) {
                    None => r is Ok && final(self).file_map() == old(self).file_map().insert(
                        record.file_id,
                        record,
                    ),
                    Some(e) => r == Err::<(), LocalMetadataError>(e) && final(self).file_map()
                        == old(self).file_map(),
                },
                Err(e) => r == Err::<(), LocalMetadataError>(LocalMetadataError::Model(e))
                    && final(self).file_map() == old(self).file_map(),
            },
    {
        if let Err(e) = assert_file_invariants(&record) {
            return Err(LocalMetadataError::Model(e));
        }
        if let Some(other) = lock_is_foreign(&record.lock, record.file_id) {
            return Err(LocalMetadataError::LockMismatch(other));
        }
        self.files.insert(record.file_id, record);
        Ok(())
    }

    /// Inserts or replaces the registry entry of a file, unconditionally.
    pub fn upsert_registry_entry(&mut self, entry: LocalRegistryEntry) -> (r: Result<
        (),
        LocalMetadataError,
    >)
        ensures
            old(self).records_valid() ==> final(self).records_valid(),
            r is Ok,
            final(self).file_map() == old(self).file_map(),
            final(self).registry_map() == old(self).registry_map().insert(entry.file_id, entry),
    {
        self.registry.insert(entry.file_id, entry);
        Ok(())
    }

    /// Binds `path` to `file_id`, or refreshes an existing binding of exactly
    /// that path, stamping it with `now`. Fails when another file binds the
    /// same path ignoring ASCII case, naming that file, and when `file_id`
    /// has no registry entry.
    pub fn bind_path_at(
        &mut self,
        file_id: FileId,
        path: String,
        writable: bool,
        now: Timestamp,
    ) -> (r: Result<(), LocalMetadataError>)
        ensures
            old(self).records_valid() ==> final(self).records_valid(),
            final(self).file_map() == old(self).file_map(),
            bind_effect(
                old(self).registry_map(),
                final(self).registry_map(),
                r,
                file_id,
                path,
                writable,
                now,
            ),
    {
        if let Some(other) = find_alias(&self.registry, file_id, path.as_str()) {
            return Err(LocalMetadataError::PathAlreadyBound(other));
        }
        let ghost before_map = self.registry@;
        let mut entry = match self.registry.remove(&file_id) {
            Some(e) => e,
            None => {
                assert(self.registry@ =~= before_map);
                return Err(LocalMetadataError::NotFound(file_id));
            },
        };
        let ghost before = entry;
        let mut i: usize = 0;
        while i < entry.paths.len()
            invariant
                i <= entry.paths.len(),
                entry == before,
                self.files@ == old(self).files@,
                before_map == old(self).registry@,
                before_map.contains_key(file_id),
                before == before_map[file_id],
                self.registry@ == before_map.remove(file_id),
                !bound_elsewhere(old(self).registry_map(), file_id, path@),
                forall|k: int| 0 <= k < i ==> entry.paths@[k].path@ != path@,
            decreases entry.paths.len() - i,
        {
            if entry.paths[i].path == path {
                entry.paths[i].last_seen_at = now;
                entry.paths[i].writable = writable;
                proof {
                    assert(first_exact_binding(before.paths@, path@, i as int));
                    let c = choose|c: int| first_exact_binding(before.paths@, path@, c);
                    if c < i {
                        assert(before.paths@[c].path@ != path@);
                    }
                    if c > i {
                        assert(before.paths@[i as int].path@ != path@);
                    }
                    assert(entry.paths@ =~= before.paths@.update(
                        i as int,
                        PathBinding { path: before.paths@[i as int].path, last_seen_at: now, writable },
                    ));
                }
                self.registry.insert(file_id, entry);
                assert(self.registry@ =~= before_map.insert(file_id, self.registry@[file_id]));
                return Ok(());
            }
            i = i + 1;
        }
        entry.paths.push(PathBinding { path, last_seen_at: now, writable });
        self.registry.insert(file_id, entry);
        assert(self.registry@ =~= before_map.insert(file_id, self.registry@[file_id]));
        Ok(())
    }

    /// Binds `path` to `file_id` as `bind_path_at` does, stamped with the
    /// current time.
    pub fn bind_path(&mut self, file_id: FileId, path: String, writable: bool) -> (r: Result<
        (),
        LocalMetadataError,
    >)
        ensures
            old(self).records_valid() ==> final(self).records_valid(),
            final(self).file_map() == old(self).file_map(),
            exists|now: Timestamp|
                bind_effect(
                    old(self).registry_map(),
                    final(self).registry_map(),
                    r,
                    file_id,
                    path,
                    writable,
                    now,
                ),
    {
        let now = Timestamp::now();
        self.bind_path_at(file_id, path, writable, now)
    }

    /// Removes every binding of exactly `path`; identity stays. Absent
    /// bindings are no error.
    pub fn unbind_path(&mut self, file_id: FileId, path: &str) -> (r: Result<(), LocalMetadataError>)
        ensures
            old(self).records_valid() ==> final(self).records_valid(),
            final(self).file_map() == old(self).file_map(),
            !old(self).registry_map().contains_key(file_id) ==> r == Err::<(), LocalMetadataError>(
                LocalMetadataError::NotFound(file_id),
            ) && final(self).registry_map() == old(self).registry_map(),
            old(self).registry_map().contains_key(file_id) ==> ({
                let before = old(self).registry_map()[file_id];
                let after = final(self).registry_map()[file_id];
                &&& r is Ok
                &&& final(self).registry_map() == old(self).registry_map().insert(file_id, after)
                &&& after == (LocalRegistryEntry { paths: after.paths, ..before })
                &&& after.paths@ == before.paths@.filter(|b: PathBinding| b.path@ != path@)
            }),
    {
        let ghost before_map = self.registry@;
        let mut entry = match self.registry.remove(&file_id) {
            Some(e) => e,
            None => {
                assert(self.registry@ =~= before_map);
                return Err(LocalMetadataError::NotFound(file_id));
            },
        };
        let ghost before = entry;
        let target = path.to_owned();
        let mut rest: Vec<PathBinding> = Vec::new();
        std::mem::swap(&mut rest, &mut entry.paths);
        let ghost pred = |b: PathBinding| b.path@ != path@;
        let ghost n = before.paths@.len();
        while rest.len() > 0
            invariant
                pred == (|b: PathBinding| b.path@ != path@),
                target@ == path@,
                entry == (LocalRegistryEntry { paths: entry.paths, ..before }),
                n == before.paths@.len(),
                rest.len() <= n,
                rest@ == before.paths@.subrange(n - rest.len(), n as int),
                entry.paths@ == before.paths@.subrange(0, n - rest.len()).filter(pred),
            decreases rest.len(),
        {
            let ghost done = n - rest.len();
            let b = rest.remove(0);
            proof {
                before.paths@.subrange(0, done).lemma_filter_push(b, pred);
                assert(before.paths@.subrange(0, done + 1) =~= before.paths@.subrange(0, done).push(b));
            }
            if !(b.path == target) {
                entry.paths.push(b);
            }
        }
        assert(before.paths@.subrange(0, n as int) =~= before.paths@);
        self.registry.insert(file_id, entry);
        assert(self.registry@ =~= before_map.insert(file_id, self.registry@[file_id]));
        Ok(())
    }

    /// Updates the local hydration, consent and auto-lock preferences; each
    /// one given as `None` stays as it is.
    pub fn set_local_preferences(
        &mut self,
        file_id: FileId,
        hydration: Option<Hydration>,
        consent: Option<Consent>,
        auto_lock: Option<AutoLockPreference>,
    ) -> (r: Result<(), LocalMetadataError>)
        ensures
            old(self).records_valid() ==> final(self).records_valid(),
            final(self).file_map() == old(self).file_map(),
            !old(self).registry_map().contains_key(file_id) ==> r == Err::<(), LocalMetadataError>(
                LocalMetadataError::NotFound(file_id),
            ) && final(self).registry_map() == old(self).registry_map(),
            old(self).registry_map().contains_key(file_id) ==> ({
                let before = old(self).registry_map()[file_id];
                &&& r is Ok
                &&& final(self).registry_map() == old(self).registry_map().insert(
                    file_id,
                    LocalRegistryEntry {
                        hydration: match hydration {
                            Some(h) => h,
                            None => before.hydration,
                        },
                        consent: match consent {
                            Some(c) => c,
                            None => before.consent,
                        },
                        auto_lock_preference: match auto_lock {
                            Some(a) => a,
                            None => before.auto_lock_preference,
                        },
                        ..before
                    },
                )
            }),
    {
        let ghost before_map = self.registry@;
        let mut entry = match self.registry.remove(&file_id) {
            Some(e) => e,
            None => {
                assert(self.registry@ =~= before_map);
                return Err(LocalMetadataError::NotFound(file_id));
            },
        };
        if let Some(h) = hydration {
            entry.hydration = h;
        }
        if let Some(c) = consent {
            entry.consent = c;
        }
        if let Some(a) = auto_lock {
            entry.auto_lock_preference = a;
        }
        self.registry.insert(file_id, entry);
        assert(self.registry@ =~= before_map.insert(file_id, self.registry@[file_id]));
        Ok(())
    }

    /// Records or clears the local error note of a file; shared metadata is
    /// untouched.
    pub fn set_local_error(&mut self, file_id: FileId, message: Option<String>) -> (r: Result<
        (),
        LocalMetadataError,
    >)
        ensures
            old(self).records_valid() ==> final(self).records_valid(),
            final(self).file_map() == old(self).file_map(),
            !old(self).registry_map().contains_key(file_id) ==> r == Err::<(), LocalMetadataError>(
                LocalMetadataError::NotFound(file_id),
            ) && final(self).registry_map() == old(self).registry_map(),
            old(self).registry_map().contains_key(file_id) ==> r is Ok && final(self).registry_map()
                == old(self).registry_map().insert(
                file_id,
                LocalRegistryEntry { last_error: message, ..old(self).registry_map()[file_id] },
            ),
    {
        let ghost before_map = self.registry@;
        let mut entry = match self.registry.remove(&file_id) {
            Some(e) => e,
            None => {
                assert(self.registry@ =~= before_map);
                return Err(LocalMetadataError::NotFound(file_id));
            },
        };
        entry.last_error = message;
        self.registry.insert(file_id, entry);
        assert(self.registry@ =~= before_map.insert(file_id, self.registry@[file_id]));
        Ok(())
    }

    /// Replaces the lock of a file record wholesale, and revalidates. A lock
    /// of another file is refused and nothing changes.
    pub fn set_lock(&mut self, file_id: FileId, lock: Option<LockRecord>) -> (r: Result<
        (),
        LocalMetadataError,
    >)
        ensures
            old(self).records_valid() ==> final(self).records_valid(),
            final(self).registry_map() == old(self).registry_map(),
            !old(self).file_map().contains_key(file_id) ==> r == Err::<(), LocalMetadataError>(
                LocalMetadataError::NotFound(file_id),
            ) && final(self).file_map() == old(self).file_map(),
            old(self).file_map().contains_key(file_id) && foreign_lock(lock, file_id) is Some ==> r
                == Err::<(), LocalMetadataError>(foreign_lock(lock, file_id)->0)
                && final(self).file_map() == old(self).file_map(),
            old(self).file_map().contains_key(file_id) && foreign_lock(lock, file_id) is None ==> ({
                let after = FileRecord { lock, ..old(self).file_map()[file_id] };
                match validation(after) {
                    Ok(_) => r is Ok && final(self).file_map() == old(self).file_map().insert(
                        file_id,
                        after,
                    ),
                    Err(e) => r == Err::<(), LocalMetadataError>(LocalMetadataError::Model(e))
                        && final(self).file_map() == old(self).file_map(),
                }
            }),
    {
        let ghost before_map = self.files@;
        let mut record = match self.files.remove(&file_id) {
            Some(rec) => rec,
            None => {
                assert(self.files@ =~= before_map);
                return Err(LocalMetadataError::NotFound(file_id));
            },
        };
        if let Some(other) = lock_is_foreign(&lock, file_id) {
            self.files.insert(file_id, record);
            assert(self.files@ =~= before_map);
            return Err(LocalMetadataError::LockMismatch(other));
        }
        if let Err(e) = assert_file_invariants(&record) {
            self.files.insert(file_id, record);
            assert(self.files@ =~= before_map);
            return Err(LocalMetadataError::Model(e));
        }
        record.lock = lock;
        self.files.insert(file_id, record);
        Ok(())
    }

    /// Inserts or replaces the state of one device in a file record: the
    /// entry of the same device is replaced, or else the state is appended.
    /// The result is validated before it is stored.
    pub fn upsert_device_state(&mut self, file_id: FileId, device_state: DeviceFileState) -> (r:
        Result<(), LocalMetadataError>)
        ensures
            old(self).records_valid() ==> final(self).records_valid(),
            final(self).registry_map() == old(self).registry_map(),
            !old(self).file_map().contains_key(file_id) ==> r == Err::<(), LocalMetadataError>(
                LocalMetadataError::NotFound(file_id),
            ) && final(self).file_map() == old(self).file_map(),
            old(self).file_map().contains_key(file_id) ==> ({
                let before = old(self).file_map()[file_id];
                let states = upserted_states(before.device_states@, device_state);
                match validation_of(
                    version_ids(before.versions@),
                    before.head_version_id,
                    device_ids(states),
                ) {
                    Ok(_) => {
                        let after = final(self).file_map()[file_id];
                        &&& r is Ok
                        &&& final(self).file_map() == old(self).file_map().insert(file_id, after)
                        &&& after == (FileRecord { device_states: after.device_states, ..before })
                        &&& after.device_states@ == states
                    },
                    Err(e) => r == Err::<(), LocalMetadataError>(LocalMetadataError::Model(e))
                        && final(self).file_map() == old(self).file_map(),
                }
            }),
    {
        let ghost before_map = self.files@;
        let mut record = match self.files.remove(&file_id) {
            Some(rec) => rec,
            None => {
                assert(self.files@ =~= before_map);
                return Err(LocalMetadataError::NotFound(file_id));
            },
        };
        let found = device_index(&record.device_states, device_state.device_id);
        proof {
            lemma_upserted_states(record.device_states@, device_state, found);
        }
        let vids = collect_version_ids(&record.versions);
        let mut dids = collect_device_ids(&record.device_states);
        if found.is_none() {
            dids.push(device_state.device_id);
        }
        if let Err(e) = validate_ids(&vids, record.head_version_id, &dids) {
            self.files.insert(file_id, record);
            assert(self.files@ =~= before_map);
            return Err(LocalMetadataError::Model(e));
        }
        match found {
            Some(i) => {
                record.device_states.set(i, device_state);
            },
            None => {
                record.device_states.push(device_state);
            },
        }
        self.files.insert(file_id, record);
        assert(self.files@ =~= before_map.insert(file_id, self.files@[file_id]));
        Ok(())
    }

    /// Appends a version to a file record and makes `version_id` its head;
    /// when the file has a registry entry, its local version follows. The
    /// result is validated before anything is stored.
    pub fn append_version(
        &mut self,
        file_id: FileId,
        version_id: VersionId,
        version_record: VersionRecord,
    ) -> (r: Result<(), LocalMetadataError>)
        ensures
            old(self).records_valid() ==> final(self).records_valid(),
            !old(self).file_map().contains_key(file_id) ==> r == Err::<(), LocalMetadataError>(
                LocalMetadataError::NotFound(file_id),
            ) && final(self).file_map() == old(self).file_map() && final(self).registry_map()
                == old(self).registry_map(),
            old(self).file_map().contains_key(file_id) ==> ({
                let before = old(self).file_map()[file_id];
                match validation_of(
                    version_ids(before.versions@).push(version_record.version_id),
                    version_id,
                    device_ids(before.device_states@),
                ) {
                    Ok(_) => {
                        let after = final(self).file_map()[file_id];
                        &&& r is Ok
                        &&& final(self).file_map() == old(self).file_map().insert(file_id, after)
                        &&& after == (FileRecord {
                            head_version_id: version_id,
                            versions: after.versions,
                            ..before
                        })
                        &&& after.versions@ == before.versions@.push(version_record)
                        &&& after.head_version_id == version_id
                        &&& after.versions@.len() == before.versions@.len() + 1
                        &&& final(self).registry_map() == if old(self).registry_map().contains_key(
                            file_id,
                        ) {
                            old(self).registry_map().insert(
                                file_id,
                                LocalRegistryEntry {
                                    local_version_id: Some(version_id),
                                    ..old(self).registry_map()[file_id]
                                },
                            )
                        } else {
                            old(self).registry_map()
                        }
                    },
                    Err(e) => r == Err::<(), LocalMetadataError>(LocalMetadataError::Model(e))
                        && final(self).file_map() == old(self).file_map()
                        && final(self).registry_map() == old(self).registry_map(),
                }
            }),
    {
        let ghost before_map = self.files@;
        let mut record = match self.files.remove(&file_id) {
            Some(rec) => rec,
            None => {
                assert(self.files@ =~= before_map);
                return Err(LocalMetadataError::NotFound(file_id));
            },
        };
        let mut vids = collect_version_ids(&record.versions);
        vids.push(version_record.version_id);
        let dids = collect_device_ids(&record.device_states);
        if let Err(e) = validate_ids(&vids, version_id, &dids) {
            self.files.insert(file_id, record);
            assert(self.files@ =~= before_map);
            return Err(LocalMetadataError::Model(e));
        }
        record.head_version_id = version_id;
        record.versions.push(version_record);
        assert(version_ids(record.versions@) =~= vids@);
        self.files.insert(file_id, record);
        assert(self.files@ =~= before_map.insert(file_id, self.files@[file_id]));
        let ghost reg_before = self.registry@;
        if let Some(mut entry) = self.registry.remove(&file_id) {
            entry.local_version_id = Some(version_id);
            self.registry.insert(file_id, entry);
        } else {
            assert(self.registry@ =~= reg_before);
        }
        Ok(())
    }

    /// The record of a file, if the store has one.
    pub fn file_record(&self, file_id: &FileId) -> (r: Option<&FileRecord>)
        ensures
            match r {
                Some(rec) => self.file_map().contains_key(*file_id) && *rec == self.file_map()[*file_id],
                None => !self.file_map().contains_key(*file_id),
            },
    {
        self.files.get(file_id)
    }

    /// The registry entry of a file, if the store has one.
    pub fn registry_entry(&self, file_id: &FileId) -> (r: Option<&LocalRegistryEntry>)
        ensures
            match r {
                Some(e) => self.registry_map().contains_key(*file_id) && *e == self.registry_map()[*file_id],
                None => !self.registry_map().contains_key(*file_id),
            },
    {
        self.registry.get(file_id)
    }

    /// Every file record, in no particular order.
    pub fn files(&self) -> (r: Vec<&FileRecord>)
        ensures
            r@.len() == self.file_map().dom().len(),
            forall|i: int| 0 <= i < r@.len() ==> self.file_map().values().contains(*r@[i]),
            forall|k: FileId| #[trigger] self.file_map().contains_key(k) ==> exists|i: int|
                0 <= i < r@.len() && *r@[i] == self.file_map()[k],
    {
        let mut out: Vec<&FileRecord> = Vec::new();
        for (k, v) in it: self.files.iter()
            invariant
                out@.len() == it.index(),
                it.seq().len() == self.files@.dom().len(),
                forall|i: int|
                    #![trigger it.seq()[i]]
                    #![trigger out@[i]]
                    0 <= i < out@.len() ==> *out@[i] == *it.seq()[i].1,
                forall|i: int| 0 <= i < out@.len() ==> self.files@.values().contains(*out@[i]),
        {
            proof {
                assert(self.files@.contains_key(*k) && self.files@[*k] == *v);
            }
            out.push(v);
        }
        out
    }

    /// Every registry entry, in no particular order.
    pub fn registry_entries(&self) -> (r: Vec<&LocalRegistryEntry>)
        ensures
            r@.len() == self.registry_map().dom().len(),
            forall|i: int| 0 <= i < r@.len() ==> self.registry_map().values().contains(*r@[i]),
            forall|k: FileId| #[trigger] self.registry_map().contains_key(k) ==> exists|i: int|
                0 <= i < r@.len() && *r@[i] == self.registry_map()[k],
    {
        let mut out: Vec<&LocalRegistryEntry> = Vec::new();
        for (k, v) in it: self.registry.iter()
            invariant
                out@.len() == it.index(),
                it.seq().len() == self.registry@.dom().len(),
                forall|i: int|
                    #![trigger it.seq()[i]]
                    #![trigger out@[i]]
                    0 <= i < out@.len() ==> *out@[i] == *it.seq()[i].1,
                forall|i: int| 0 <= i < out@.len() ==> self.registry@.values().contains(*out@[i]),
        {
            proof {
                assert(self.registry@.contains_key(*k) && self.registry@[*k] == *v);
            }
            out.push(v);
        }
        out
    }
}

impl Default for LocalMetadataStore {
    /// An empty store.
    fn default() -> (r: Self)
        ensures
            r.records_valid(),
            r.file_map() == Map::<FileId, FileRecord>::empty(),
            r.registry_map() == Map::<FileId, LocalRegistryEntry>::empty(),
    {
        LocalMetadataStore::new()
    }
}

/// A file other than `file_id` that binds `path`, ignoring ASCII case, if
/// there is one.
fn find_alias(registry: &HashMap<FileId, LocalRegistryEntry>, file_id: FileId, path: &str) -> (r:
    Option<FileId>)
    ensures
        r is None <==> !bound_elsewhere(registry@, file_id, path@),
        r matches Some(other) ==> registry@.contains_key(other) && other != file_id && entry_binds(
            registry@[other],
            path@,
        ),
{
    for (other_id, other_entry) in it: registry.iter()
        invariant
            forall|j: int|
                0 <= j < it.index() ==> !(*it.seq()[j].0 != file_id && entry_binds(
                    *it.seq()[j].1,
                    path@,
                )),
    {
        if *other_id != file_id && binds_ignoring_case(other_entry, path) {
            assert(entry_binds(registry@[*other_id], path@));
            return Some(*other_id);
        }
    }
    None
}

/// Whether `e` binds `path`, ignoring ASCII case.
fn binds_ignoring_case(e: &LocalRegistryEntry, path: &str) -> (r: bool)
    ensures
        r == entry_binds(*e, path@),
{
    let mut i: usize = 0;
    while i < e.paths.len()
        invariant
            i <= e.paths.len(),
            forall|k: int| 0 <= k < i ==> !same_ignoring_ascii_case(#[trigger] e.paths@[k].path@, path@),
        decreases e.paths.len() - i,
    {
        if eq_ignore_ascii_case(e.paths[i].path.as_str(), path) {
            return true;
        }
        i = i + 1;
    }
    false
}

/// Binding is alias-exclusive across files, ignoring ASCII case. When file
/// `a` binds `path` and no file but `a` and `b` does, binding `path` to `b`
/// fails with `PathAlreadyBound(a)` and changes nothing; binding to `b` a
/// path `fresh` that no file but `b` binds succeeds.
pub proof fn lemma_bind_alias_exclusive(
    registry: Map<FileId, LocalRegistryEntry>,
    a: FileId,
    b: FileId,
    path: String,
    fresh: String,
    writable: bool,
    now: Timestamp,
)
    requires
        a != b,
        registry.contains_key(a),
        registry.contains_key(b),
        entry_binds(registry[a], path@),
        forall|x: FileId|
            registry.contains_key(x) && x != a && x != b ==> !entry_binds(registry[x], path@),
        forall|x: FileId| registry.contains_key(x) && x != b ==> !entry_binds(registry[x], fresh@),
    ensures
        forall|after: Map<FileId, LocalRegistryEntry>, r: Result<(), LocalMetadataError>|
            #[trigger] bind_effect(registry, after, r, b, path, writable, now) ==> r == Err::<
                (),
                LocalMetadataError,
            >(LocalMetadataError::PathAlreadyBound(a)) && after == registry,
        forall|after: Map<FileId, LocalRegistryEntry>, r: Result<(), LocalMetadataError>|
            #[trigger] bind_effect(registry, after, r, b, fresh, writable, now) ==> r is Ok,
{
    assert(bound_elsewhere(registry, b, path@));
}

/// No path is bound, ignoring ASCII case, to two different files.
pub open spec fn alias_free(registry: Map<FileId, LocalRegistryEntry>) -> bool {
    forall|x: FileId, y: FileId, i: int|
        registry.contains_key(x) && registry.contains_key(y) && x != y && 0 <= i
            < registry[x].paths@.len() ==> !#[trigger] entry_binds(
            registry[y],
            registry[x].paths@[i].path@,
        )
}

/// Binding keeps the registry alias-free: after any bind, a path bound to
/// one file is still bound, ignoring ASCII case, to no other file.
pub proof fn lemma_bind_keeps_alias_free(
    before: Map<FileId, LocalRegistryEntry>,
    after: Map<FileId, LocalRegistryEntry>,
    r: Result<(), LocalMetadataError>,
    file_id: FileId,
    path: String,
    writable: bool,
    now: Timestamp,
)
    requires
        alias_free(before),
        bind_effect(before, after, r, file_id, path, writable, now),
    ensures
        alias_free(after),
{
    if !bound_elsewhere(before, file_id, path@) && before.contains_key(file_id) {
        let b = before[file_id].paths@;
        let a = after[file_id].paths@;
        // Every binding after the bind has the path of a binding before it,
        // or is `path` itself.
        assert forall|i: int| 0 <= i < a.len() implies (a[i].path@ == path@ || exists|j: int|
            0 <= j < b.len() && #[trigger] b[j].path@ == a[i].path@) by {
            if exists|c: int| first_exact_binding(b, path@, c) {
                let c = choose|c: int| first_exact_binding(b, path@, c);
                assert(a[i].path@ == b[i].path@);
            } else {
                if i < b.len() {
                    assert(a[i].path@ == b[i].path@);
                }
            }
        }
        // A file's bindings after the bind bind nothing new but `path`.
        assert forall|q: Seq<char>| #[trigger] entry_binds(after[file_id], q) implies (
        same_ignoring_ascii_case(path@, q) || entry_binds(before[file_id], q)) by {
            let i = choose|i: int| 0 <= i < a.len() && same_ignoring_ascii_case(a[i].path@, q);
            if a[i].path@ != path@ {
                let j = choose|j: int| 0 <= j < b.len() && #[trigger] b[j].path@ == a[i].path@;
                assert(same_ignoring_ascii_case(b[j].path@, q));
            }
        }
        assert forall|x: FileId, y: FileId, i: int|
            after.contains_key(x) && after.contains_key(y) && x != y && 0 <= i
                < after[x].paths@.len() implies !#[trigger] entry_binds(
                after[y],
                after[x].paths@[i].path@,
            ) by {
            let p = after[x].paths@[i].path@;
            if x == file_id {
                if p == path@ {
                    assert(!entry_binds(before[y], path@));
                } else {
                    let j = choose|j: int| 0 <= j < b.len() && #[trigger] b[j].path@ == p;
                    assert(!entry_binds(before[y], before[x].paths@[j].path@));
                }
            } else if y == file_id {
                assert(!entry_binds(before[y], p));
                if entry_binds(after[y], p) {
                    assert(same_ignoring_ascii_case(path@, p));
                    assert(same_ignoring_ascii_case(p, path@));
                    assert(entry_binds(before[x], path@)) by {
                        assert(same_ignoring_ascii_case(before[x].paths@[i].path@, path@));
                    }
                }
            } else {
                assert(!entry_binds(before[y], before[x].paths@[i].path@));
            }
        }
    }
}

} // verus!
