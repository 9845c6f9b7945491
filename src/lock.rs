//! Lock acquisition and release, and the write-conflict rule: decisions over
//! a file record snapshot whose result the caller persists.
use crate::model::{
    mint_id, DeviceFileState, DeviceFileStateKind, DeviceId, FileRecord, LockId, LockMode,
    LockRecord, VersionId,
};
use crate::time::Timestamp;
use vstd::prelude::*;

verus! {

/// How a lock request came about.
#[derive(Clone, Copy, Debug, PartialEq, Eq, Structural)]
pub enum LockRequestKind {
    Manual,
    Auto,
}

/// Outcome of a lock request.
#[derive(Clone, Debug, PartialEq, Eq)]
pub enum LockAcquisition {
    Acquired(LockRecord),
    Denied(LockDenial),
}

/// Who holds the lock that denied a request, and since when.
#[derive(Clone, Copy, Debug, PartialEq, Eq, Structural)]
pub struct LockDenial {
    pub holder_device: DeviceId,
    pub acquired_at: Timestamp,
}

#[derive(Clone, Copy, Debug, PartialEq, Eq, Structural)]
pub enum LockError {
    /// Kept for callers that match on it; the decisions here never report it.
    MissingFile,
    /// The record's lock belongs to another file.
    LockMismatch,
}

/// Verdict on a prospective write.
#[derive(Clone, Copy, Debug, PartialEq, Eq, Structural)]
pub enum ConflictCheck {
    Allowed,
    Conflict { current_head: VersionId, base_head: VersionId },
    LockedBy(DeviceId),
}

/// `rec` is the lock that `device_id` and `user_id` obtain on `file`: an
/// exclusive lock on that file, without expiry.
pub open spec fn is_granted_lock(
    rec: LockRecord,
    file: FileRecord,
    device_id: DeviceId,
    user_id: String,
    auto_lock: bool,
) -> bool {
    &&& rec.file_id == file.file_id
    &&& rec.owner_device_id == device_id
    &&& rec.owner_user_id == user_id
    &&& rec.mode == LockMode::Exclusive
    &&& rec.auto_lock == auto_lock
    &&& rec.expires_at is None
}

/// The answer to a lock request on a record that is already locked.
pub open spec fn refusal(file: FileRecord) -> Result<LockAcquisition, LockError>
    recommends
        file.lock is Some,
{
    let l = file.lock->0;
    if l.file_id != file.file_id {
        Err(LockError::LockMismatch)
    } else {
        Ok(LockAcquisition::Denied(LockDenial { holder_device: l.owner_device_id, acquired_at: l.acquired_at }))
    }
}

/// The verdict on a write by `caller_device` based on `caller_base_head`.
pub open spec fn conflict_verdict(
    file: FileRecord,
    caller_device: DeviceId,
    caller_base_head: VersionId,
) -> ConflictCheck {
    match file.lock {
        Some(l) => if l.owner_device_id == caller_device {
            ConflictCheck::Allowed
        } else {
            ConflictCheck::LockedBy(l.owner_device_id)
        },
        None => if caller_base_head == file.head_version_id {
            ConflictCheck::Allowed
        } else {
            ConflictCheck::Conflict { current_head: file.head_version_id, base_head: caller_base_head }
        },
    }
}

/// Requests an exclusive lock with a given lock id and acquisition time.
/// An unlocked record grants it; a locked one denies it, whoever holds it.
pub fn acquire_lock_with(
    file: &FileRecord,
    device_id: DeviceId,
    user_id: String,
    request: LockRequestKind,
    auto_lock: bool,
    lock_id: LockId,
    acquired_at: Timestamp,
) -> (r: Result<LockAcquisition, LockError>)
    ensures
        file.lock is Some ==> r == refusal(*file),
        file.lock is None ==> (r matches Ok(LockAcquisition::Acquired(rec)) && is_granted_lock(
            rec,
            *file,
            device_id,
            user_id,
            auto_lock,
        ) && rec.lock_id == lock_id && rec.acquired_at == acquired_at),
{
    if let Some(lock) = &file.lock {
        if lock.file_id != file.file_id {
            return Err(LockError::LockMismatch);
        }
        return Ok(
            LockAcquisition::Denied(
                LockDenial { holder_device: lock.owner_device_id, acquired_at: lock.acquired_at },
            ),
        );
    }
    let record = LockRecord {
        lock_id,
        file_id: file.file_id,
        owner_device_id: device_id,
        owner_user_id: user_id,
        mode: LockMode::Exclusive,
        acquired_at,
        auto_lock,
        expires_at: None,
    };
    Ok(LockAcquisition::Acquired(record))
}

/// Attempts to acquire an exclusive lock for a device, minting a fresh lock
/// id and stamping the current time. An existing lock is respected.
pub fn acquire_lock(
    file: &FileRecord,
    device_id: DeviceId,
    user_id: String,
    request: LockRequestKind,
    auto_lock: bool,
) -> (r: Result<LockAcquisition, LockError>)
    ensures
        file.lock is Some ==> r == refusal(*file),
        file.lock is None ==> (r matches Ok(LockAcquisition::Acquired(rec)) && is_granted_lock(
            rec,
            *file,
            device_id,
            user_id,
            auto_lock,
        )),
{
    if file.lock.is_some() {
        // A locked record refuses the request; no lock id or time is needed.
        return acquire_lock_with(file, device_id, user_id, request, auto_lock, 0, Timestamp::epoch());
    }
    let lock_id = mint_id();
    let now = Timestamp::now();
    acquire_lock_with(file, device_id, user_id, request, auto_lock, lock_id, now)
}

/// Releases the lock when `device_id` holds it; otherwise leaves the record
/// as it is.
pub fn release_lock(file: &mut FileRecord, device_id: DeviceId) -> (r: Result<(), LockError>)
    ensures
        match old(file).lock {
            Some(l) => if l.file_id != old(file).file_id {
                r == Err::<(), LockError>(LockError::LockMismatch) && *final(file) == *old(file)
            } else if l.owner_device_id == device_id {
                r is Ok && *final(file) == (FileRecord { lock: None, ..*old(file) })
            } else {
                r is Ok && *final(file) == *old(file)
            },
            None => r is Ok && *final(file) == *old(file),
        },
{
    let mut release = false;
    if let Some(lock) = &file.lock {
        if lock.file_id != file.file_id {
            return Err(LockError::LockMismatch);
        }
        release = lock.owner_device_id == device_id;
    }
    if release {
        file.lock = None;
    }
    Ok(())
}

/// Decides whether a write by `caller_device`, based on `caller_base_head`,
/// may proceed: a lock held by the caller always allows it, a lock held by
/// another device blocks it, and without a lock the base must be the head.
pub fn check_conflict(
    file: &FileRecord,
    caller_device: DeviceId,
    caller_base_head: VersionId,
) -> (r: ConflictCheck)
    ensures
        r == conflict_verdict(*file, caller_device, caller_base_head),
{
    if let Some(lock) = &file.lock {
        if lock.owner_device_id == caller_device {
            return ConflictCheck::Allowed;
        } else {
            return ConflictCheck::LockedBy(lock.owner_device_id);
        }
    }
    if caller_base_head == file.head_version_id {
        ConflictCheck::Allowed
    } else {
        ConflictCheck::Conflict { current_head: file.head_version_id, base_head: caller_base_head }
    }
}

/// `i` is the first position of `ds` that belongs to `device_id`.
pub open spec fn is_first_of_device(ds: Seq<DeviceFileState>, device_id: DeviceId, i: int) -> bool {
    &&& 0 <= i < ds.len()
    &&& ds[i].device_id == device_id
    &&& forall|k: int| 0 <= k < i ==> ds[k].device_id != device_id
}

/// Marks the device's state entry as lock-blocked, for observability only.
pub fn mark_lock_blocked(file: &mut FileRecord, device_id: DeviceId)
    ensures
        *final(file) == (FileRecord { device_states: final(file).device_states, ..*old(file) }),
        (forall|k: int| 0 <= k < old(file).device_states@.len()
            ==> old(file).device_states@[k].device_id != device_id) ==> final(file).device_states@
            == old(file).device_states@,
        forall|i: int| #[trigger]
            is_first_of_device(old(file).device_states@, device_id, i)
                ==> final(file).device_states@ == old(file).device_states@.update(
                i,
                DeviceFileState { state: DeviceFileStateKind::LockBlocked, ..old(file).device_states@[i] },
            ),
{
    let mut i: usize = 0;
    while i < file.device_states.len()
        invariant
            i <= file.device_states.len(),
            *file == *old(file),
            forall|k: int| 0 <= k < i ==> file.device_states@[k].device_id != device_id,
        decreases file.device_states.len() - i,
    {
        if file.device_states[i].device_id == device_id {
            file.device_states[i].state = DeviceFileStateKind::LockBlocked;
            return;
        }
        i = i + 1;
    }
}

/// Locks exclude each other: once the lock granted on an unlocked record
/// is stored in it, every further request, from any device (the holder
/// included), is denied in favour of the holder and is never granted.
pub proof fn lemma_lock_mutual_exclusion(
    file: FileRecord,
    granted: LockRecord,
    device_id: DeviceId,
    user_id: String,
    auto_lock: bool,
)
    requires
        file.lock is None,
        is_granted_lock(granted, file, device_id, user_id, auto_lock),
    ensures
        ({
            let locked = FileRecord { lock: Some(granted), ..file };
            &&& refusal(locked) == Ok::<LockAcquisition, LockError>(
                LockAcquisition::Denied(
                    LockDenial { holder_device: device_id, acquired_at: granted.acquired_at },
                ),
            )
            &&& !(refusal(locked) matches Ok(LockAcquisition::Acquired(_)))
        }),
{
}

/// The conflict rule as a truth table: a write is allowed exactly when the
/// caller holds the lock or, without a lock, its base is the head; it is
/// locked out exactly when another device holds the lock; it conflicts
/// exactly when there is no lock and its base is not the head.
pub proof fn lemma_conflict_truth_table(
    file: FileRecord,
    caller_device: DeviceId,
    caller_base_head: VersionId,
)
    ensures
        ({
            let v = conflict_verdict(file, caller_device, caller_base_head);
            &&& (v is Allowed) <==> ((file.lock matches Some(l) && l.owner_device_id
                == caller_device) || (file.lock is None && caller_base_head
                == file.head_version_id))
            &&& (v is LockedBy) <==> (file.lock matches Some(l) && l.owner_device_id
                != caller_device)
            &&& (v is Conflict) <==> (file.lock is None && caller_base_head
                != file.head_version_id)
        }),
{
}

} // verus!
