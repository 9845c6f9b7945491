//! Consistency core of a multi-device file-synchronization engine.
//!
//! The crate defines the shared per-file record and its structural
//! invariants, a memory-resident metadata store whose mutations are
//! validated atomically, the locking and write-conflict rules, append-only
//! version history with rollback and retention, and resumable chunk-level
//! transfer bookkeeping.

pub mod file_monitor;
pub mod file_transfer;
pub mod identity;
pub mod local_store;
pub mod lock;
pub mod model;
pub mod time;
pub mod versioning;

pub use file_monitor::{
    normalize_event, CreateKind, FileChangeKind, FileEvent, FileEventSink, MetadataKind,
    ModifyKind, RemoveKind, RenameMode, WatchEventKind,
};
pub use file_transfer::{
    can_retry, next_chunk, to_session, RetryPolicy, TransferError, TransferPlan,
    TransferProgress,
};
pub use identity::{
    choose_path, ConnectionPath, DeviceIdentity, DiscoveryConfig, IdentityError,
    PathSelection, PeerAdvertisement, RelayHint, SessionId, SocketAddress, UserAuthToken, UserId,
};
pub use local_store::{LocalMetadataError, LocalMetadataStore};
pub use lock::{
    acquire_lock, acquire_lock_with, check_conflict, mark_lock_blocked, release_lock,
    ConflictCheck, LockAcquisition, LockDenial, LockError, LockRequestKind,
};
pub use model::{
    assert_file_invariants, AutoLockPreference, ChunkRef, Consent, DeviceFileState,
    DeviceFileStateKind, DeviceId, EncryptionInfo, FileId, FileRecord, Hydration,
    LocalRegistryEntry, LockId, LockMode, LockRecord, ModelError, PathBinding, PinPreference,
    TransferDirection, TransferSession, TransferSessionId, TransferStatus, VersionId,
    VersionRecord,
};
pub use time::{TimeSpan, Timestamp};
pub use versioning::{
    apply_retention, list_versions, rollback_to_version, VersionRetention, VersioningError,
};
