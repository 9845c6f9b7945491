//! The shared per-file record, the local registry entry, and the single
//! validation pass over a file's aggregate state.
use crate::time::Timestamp;
use std::collections::HashSet;
use vstd::prelude::*;

verus! {

broadcast use vstd::std_specs::hash::group_hash_axioms;

/// Globally unique, lexicographically sortable 128-bit identifier of a file.
pub type FileId = u128;

/// Identifier of a device.
pub type DeviceId = u128;

/// Identifier of a version.
pub type VersionId = u128;

/// Identifier of a lock.
pub type LockId = u128;

/// Identifier of a transfer session.
pub type TransferSessionId = u128;

/// Relies on ulid's `Ulid::new`: a fresh identifier made of the current time
/// and random bits. Nothing is promised of its value.
#[verifier::external_body]
pub(crate) fn mint_id() -> (r: u128) {
    ulid::Ulid::new().0
}

/// Content-addressed byte range of one version: the unit of resumable
/// transfer.
#[derive(Clone, Debug, PartialEq, Eq)]
pub struct ChunkRef {
    pub offset: u64,
    pub length: u64,
    /// Strong content hash, such as SHA-256 in hex.
    pub hash: String,
}

impl ChunkRef {
    /// A field-by-field copy.
    pub fn duplicate(&self) -> (r: ChunkRef)
        ensures
            r == *self,
    {
        ChunkRef { offset: self.offset, length: self.length, hash: self.hash.clone() }
    }
}

/// Immutable snapshot of a file's content, one link of its history chain.
#[derive(Clone, Debug, PartialEq, Eq)]
pub struct VersionRecord {
    pub version_id: VersionId,
    pub file_id: FileId,
    pub parent_version_id: Option<VersionId>,
    pub origin_device_id: DeviceId,
    pub timestamp: Timestamp,
    pub content_hash: String,
    pub size_bytes: u64,
    pub chunks: Vec<ChunkRef>,
}

/// Exclusive lock held by one device on one file.
#[derive(Clone, Debug, PartialEq, Eq)]
pub struct LockRecord {
    pub lock_id: LockId,
    pub file_id: FileId,
    pub owner_device_id: DeviceId,
    pub owner_user_id: String,
    pub mode: LockMode,
    pub acquired_at: Timestamp,
    pub auto_lock: bool,
    /// Carried for an outside scheduler; never enforced here.
    pub expires_at: Option<Timestamp>,
}

#[derive(Clone, Copy, Debug, PartialEq, Eq, Structural, Hash)]
pub enum LockMode {
    Exclusive,
}

/// Sync status of one device for one file.
#[derive(Clone, Copy, Debug, PartialEq, Eq, Structural, Hash)]
pub enum DeviceFileStateKind {
    Absent,
    AvailableRemote,
    Pulling,
    Ready,
    Pushing,
    LockBlocked,
    Conflict,
    Error,
}

/// One entry of a file's device state vector.
#[derive(Clone, Debug, PartialEq, Eq)]
pub struct DeviceFileState {
    pub device_id: DeviceId,
    pub state: DeviceFileStateKind,
    pub known_head_version_id: Option<VersionId>,
    pub last_seen_at: Timestamp,
    pub last_error: Option<String>,
}

/// Encryption envelope metadata; the keys themselves stay local.
#[derive(Clone, Debug, PartialEq, Eq)]
pub struct EncryptionInfo {
    pub key_id: String,
    pub algo: String,
    pub iv_salt: Option<String>,
}

/// The shared aggregate root for one file.
#[derive(Clone, Debug, PartialEq, Eq)]
pub struct FileRecord {
    pub file_id: FileId,
    pub origin_device_id: DeviceId,
    pub created_at: Timestamp,
    pub head_version_id: VersionId,
    pub versions: Vec<VersionRecord>,
    pub lock: Option<LockRecord>,
    pub device_states: Vec<DeviceFileState>,
    pub encryption: EncryptionInfo,
}

/// Local-only view of a file: where it lives on this device and the local
/// preferences for it.
#[derive(Clone, Debug, PartialEq, Eq)]
pub struct LocalRegistryEntry {
    pub file_id: FileId,
    pub paths: Vec<PathBinding>,
    pub local_version_id: Option<VersionId>,
    pub hydration: Hydration,
    pub consent: Consent,
    pub pin: PinPreference,
    pub auto_lock_preference: AutoLockPreference,
    pub last_error: Option<String>,
}

/// A filesystem path at which a file is bound on this device.
#[derive(Clone, Debug, PartialEq, Eq)]
pub struct PathBinding {
    pub path: String,
    pub last_seen_at: Timestamp,
    pub writable: bool,
}

/// Whether a file's bytes are present locally.
#[derive(Clone, Copy, Debug, PartialEq, Eq, Structural, Hash)]
pub enum Hydration {
    FullyPresent,
    Partial,
    /// No bytes of the file are present locally.
    NotPresent,
}

#[derive(Clone, Copy, Debug, PartialEq, Eq, Structural, Hash)]
pub enum Consent {
    Approved,
    Revoked,
}

#[derive(Clone, Copy, Debug, PartialEq, Eq, Structural, Hash)]
pub enum PinPreference {
    /// No pin preference.
    Unpinned,
    KeepLatest,
}

#[derive(Clone, Copy, Debug, PartialEq, Eq, Structural, Hash)]
pub enum AutoLockPreference {
    OnEdit,
    Manual,
}

/// Reporting snapshot of one transfer.
#[derive(Clone, Debug, PartialEq, Eq)]
pub struct TransferSession {
    pub transfer_session_id: TransferSessionId,
    pub file_id: FileId,
    pub direction: TransferDirection,
    pub from_device_id: DeviceId,
    pub to_device_id: DeviceId,
    pub active_chunks: Vec<ChunkRef>,
    pub retry_count: u32,
    pub status: TransferStatus,
}

#[derive(Clone, Copy, Debug, PartialEq, Eq, Structural, Hash)]
pub enum TransferDirection {
    Push,
    Pull,
}

#[derive(Clone, Debug, PartialEq, Eq)]
pub enum TransferStatus {
    InProgress,
    Completed,
    Failed(String),
}

/// Ways in which a file record breaks its structural invariants.
#[derive(Clone, Copy, Debug, PartialEq, Eq, Structural)]
pub enum ModelError {
    /// The head version id names no entry of the version list.
    MissingHead(VersionId),
    /// A version id occurs twice in the version list.
    DuplicateVersion(VersionId),
    /// Kept for callers that match on it; a record holds at most one lock,
    /// so validation never reports it.
    MultipleLocks,
    /// A device id occurs twice in the device state vector.
    MissingDevice(DeviceId),
}

/// The version ids of a version list, in order.
pub open spec fn version_ids(vs: Seq<VersionRecord>) -> Seq<VersionId> {
    vs.map_values(|v: VersionRecord| v.version_id)
}

/// The device ids of a device state vector, in order.
pub open spec fn device_ids(ds: Seq<DeviceFileState>) -> Seq<DeviceId> {
    ds.map_values(|d: DeviceFileState| d.device_id)
}

/// Position `i` holds a value that already occurs before it.
pub open spec fn repeats_earlier(s: Seq<u128>, i: int) -> bool {
    0 <= i < s.len() && exists|j: int| 0 <= j < i && s[j] == s[i]
}

/// Some value occurs twice.
#[verifier::opaque]
pub open spec fn has_repeat(s: Seq<u128>) -> bool {
    exists|i: int| repeats_earlier(s, i)
}

/// The first position that repeats an earlier value.
#[verifier::opaque]
pub open spec fn first_repeat(s: Seq<u128>) -> int {
    choose|i: int| repeats_earlier(s, i) && forall|k: int| 0 <= k < i ==> !repeats_earlier(s, k)
}

/// Outcome of validating a record given by its version ids, its head and
/// its device ids: the first repeated version id, else a head that is not
/// among the versions, else the first repeated device id.
pub open spec fn validation_of(
    vids: Seq<VersionId>,
    head: VersionId,
    dids: Seq<DeviceId>,
) -> Result<(), ModelError> {
    if has_repeat(vids) {
        Err(ModelError::DuplicateVersion(vids[first_repeat(vids)]))
    } else if !vids.contains(head) {
        Err(ModelError::MissingHead(head))
    } else if has_repeat(dids) {
        Err(ModelError::MissingDevice(dids[first_repeat(dids)]))
    } else {
        Ok(())
    }
}

/// Outcome of validating a record.
pub open spec fn validation(r: FileRecord) -> Result<(), ModelError> {
    validation_of(version_ids(r.versions@), r.head_version_id, device_ids(r.device_states@))
}

/// The record satisfies the structural invariants that validation checks.
pub open spec fn record_valid(r: FileRecord) -> bool {
    validation(r) is Ok
}

/// The version list has a version with this id.
pub open spec fn has_version(vs: Seq<VersionRecord>, id: VersionId) -> bool {
    exists|i: int| 0 <= i < vs.len() && vs[i].version_id == id
}

proof fn lemma_first_repeat_is(s: Seq<u128>, i: int)
    requires
        repeats_earlier(s, i),
        forall|k: int| 0 <= k < i ==> !repeats_earlier(s, k),
    ensures
        has_repeat(s),
        first_repeat(s) == i,
{
    reveal(has_repeat);
    reveal(first_repeat);
    let f = first_repeat(s);
    assert(repeats_earlier(s, f) && forall|k: int| 0 <= k < f ==> !repeats_earlier(s, k));
    if f < i {
        assert(!repeats_earlier(s, f));
    } else if f > i {
        assert(!repeats_earlier(s, i));
    }
}

/// Finds the first position of `ids` that repeats an earlier value, if any.
fn find_first_repeat(ids: &Vec<u128>) -> (r: Option<usize>)
    ensures
        r is None <==> !has_repeat(ids@),
        r matches Some(i) ==> i < ids@.len() && has_repeat(ids@) && i == first_repeat(ids@),
{
    let mut seen: HashSet<u128> = HashSet::new();
    let mut i: usize = 0;
    while i < ids.len()
        invariant
            i <= ids.len(),
            forall|x: u128| seen@.contains(x) <==> exists|j: int| 0 <= j < i && ids@[j] == x,
            forall|k: int| 0 <= k < i ==> !repeats_earlier(ids@, k),
        decreases ids.len() - i,
    {
        let id = ids[i];
        if !seen.insert(id) {
            proof {
                lemma_first_repeat_is(ids@, i as int);
            }
            return Some(i);
        }
        proof {
            assert forall|x: u128| seen@.contains(x) implies exists|j: int|
                0 <= j < i + 1 && ids@[j] == x by {
                if x == id {
                    assert(ids@[i as int] == x);
                }
            }
        }
        i = i + 1;
    }
    proof {
        reveal(has_repeat);
        assert forall|k: int| !repeats_earlier(ids@, k) by {
            if 0 <= k < ids@.len() {
                assert(!repeats_earlier(ids@, k));
            }
        }
    }
    None
}

/// Whether `x` occurs in `ids`.
pub(crate) fn contains_id(ids: &Vec<u128>, x: u128) -> (r: bool)
    ensures
        r == ids@.contains(x),
{
    let mut i: usize = 0;
    while i < ids.len()
        invariant
            i <= ids.len(),
            forall|k: int| 0 <= k < i ==> ids@[k] != x,
        decreases ids.len() - i,
    {
        if ids[i] == x {
            return true;
        }
        i = i + 1;
    }
    false
}

/// The version ids of `vs`, in order.
pub(crate) fn collect_version_ids(vs: &Vec<VersionRecord>) -> (r: Vec<u128>)
    ensures
        r@ == version_ids(vs@),
{
    let mut ids: Vec<u128> = Vec::new();
    let mut i: usize = 0;
    while i < vs.len()
        invariant
            i <= vs.len(),
            ids@ == version_ids(vs@).subrange(0, i as int),
        decreases vs.len() - i,
    {
        ids.push(vs[i].version_id);
        assert(ids@ == version_ids(vs@).subrange(0, i + 1));
        i = i + 1;
    }
    assert(ids@ == version_ids(vs@));
    ids
}

/// The device ids of `ds`, in order.
pub(crate) fn collect_device_ids(ds: &Vec<DeviceFileState>) -> (r: Vec<u128>)
    ensures
        r@ == device_ids(ds@),
{
    let mut ids: Vec<u128> = Vec::new();
    let mut i: usize = 0;
    while i < ds.len()
        invariant
            i <= ds.len(),
            ids@ == device_ids(ds@).subrange(0, i as int),
        decreases ds.len() - i,
    {
        ids.push(ds[i].device_id);
        assert(ids@ == device_ids(ds@).subrange(0, i + 1));
        i = i + 1;
    }
    assert(ids@ == device_ids(ds@));
    ids
}

/// Validates a record given by its version ids, its head and its device
/// ids.
pub(crate) fn validate_ids(vids: &Vec<u128>, head: VersionId, dids: &Vec<u128>) -> (r: Result<
    (),
    ModelError,
>)
    ensures
        r == validation_of(vids@, head, dids@),
{
    if let Some(k) = find_first_repeat(vids) {
        return Err(ModelError::DuplicateVersion(vids[k]));
    }
    if !contains_id(vids, head) {
        return Err(ModelError::MissingHead(head));
    }
    if let Some(k) = find_first_repeat(dids) {
        return Err(ModelError::MissingDevice(dids[k]));
    }
    Ok(())
}

/// Validates the structural invariants of a shared file record: version ids
/// are distinct, the head is one of them, and device ids are distinct.
pub fn assert_file_invariants(record: &FileRecord) -> (r: Result<(), ModelError>)
    ensures
        r == validation(*record),
{
    let vids = collect_version_ids(&record.versions);
    let dids = collect_device_ids(&record.device_states);
    validate_ids(&vids, record.head_version_id, &dids)
}

proof fn lemma_has_repeat_iff(s: Seq<u128>)
    ensures
        has_repeat(s) <==> !s.no_duplicates(),
{
    reveal(has_repeat);
    if has_repeat(s) {
        let i = choose|i: int| repeats_earlier(s, i);
        let j = choose|j: int| 0 <= j < i && s[j] == s[i];
        assert(!s.no_duplicates());
    }
    if !s.no_duplicates() {
        let (i, j) = choose|i: int, j: int|
            0 <= i < s.len() && 0 <= j < s.len() && i != j && s[i] == s[j];
        if i < j {
            assert(repeats_earlier(s, j));
        } else {
            assert(repeats_earlier(s, i));
        }
    }
}

/// Validation succeeds exactly when the head id is among the version ids,
/// the version ids are distinct, and the device ids are distinct.
pub proof fn lemma_validation_succeeds_iff(r: FileRecord)
    ensures
        (validation(r) is Ok) <==> {
            &&& version_ids(r.versions@).contains(r.head_version_id)
            &&& version_ids(r.versions@).no_duplicates()
            &&& device_ids(r.device_states@).no_duplicates()
        },
{
    lemma_has_repeat_iff(version_ids(r.versions@));
    lemma_has_repeat_iff(device_ids(r.device_states@));
}

} // verus!
