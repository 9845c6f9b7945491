//! Normalized file-change events, and the classification of raw watcher
//! notifications into them.
use crate::time::Timestamp;
use vstd::prelude::*;

verus! {

/// A file-level change that triggers synchronization.
#[derive(Clone, Debug, PartialEq, Eq)]
pub enum FileChangeKind {
    Created,
    Modified,
    Removed,
    Renamed { from: String, to: String },
    Metadata,
    Other,
}

/// A normalized file event, as delivered to sinks.
#[derive(Clone, Debug, PartialEq, Eq)]
pub struct FileEvent {
    pub path: String,
    pub kind: FileChangeKind,
    pub occurred_at: Timestamp,
}

/// Receives normalized file events; typically the sync orchestrator.
pub trait FileEventSink: Send + Sync + 'static {
    fn handle(&self, event: FileEvent);
}

/// What a filesystem watcher reports a change to be.
#[derive(Clone, Copy, Debug, PartialEq, Eq, Structural)]
pub enum WatchEventKind {
    Any,
    Access,
    Create(CreateKind),
    Modify(ModifyKind),
    Remove(RemoveKind),
    Other,
}

#[derive(Clone, Copy, Debug, PartialEq, Eq, Structural)]
pub enum CreateKind {
    Any,
    File,
    Folder,
    Other,
}

#[derive(Clone, Copy, Debug, PartialEq, Eq, Structural)]
pub enum ModifyKind {
    Any,
    Data,
    Metadata(MetadataKind),
    Name(RenameMode),
    Other,
}

#[derive(Clone, Copy, Debug, PartialEq, Eq, Structural)]
pub enum MetadataKind {
    Any,
    AccessTime,
    WriteTime,
    Permissions,
    Ownership,
    Extended,
    Other,
}

#[derive(Clone, Copy, Debug, PartialEq, Eq, Structural)]
pub enum RenameMode {
    Any,
    To,
    From,
    Both,
    Other,
}

#[derive(Clone, Copy, Debug, PartialEq, Eq, Structural)]
pub enum RemoveKind {
    Any,
    File,
    Folder,
    Other,
}

/// The change that a watcher notification stands for. A rename is
/// recognised only in its "to" form with exactly two paths, from and to.
pub open spec fn change_kind(kind: WatchEventKind, paths: Seq<String>) -> FileChangeKind {
    match kind {
        WatchEventKind::Create(CreateKind::File)
        | WatchEventKind::Create(CreateKind::Any)
        | WatchEventKind::Create(CreateKind::Other) => FileChangeKind::Created,
        WatchEventKind::Modify(ModifyKind::Data)
        | WatchEventKind::Modify(ModifyKind::Any)
        | WatchEventKind::Modify(ModifyKind::Other)
        | WatchEventKind::Modify(ModifyKind::Name(RenameMode::Both)) => FileChangeKind::Modified,
        WatchEventKind::Modify(ModifyKind::Metadata(MetadataKind::Any)) => FileChangeKind::Metadata,
        WatchEventKind::Remove(RemoveKind::File)
        | WatchEventKind::Remove(RemoveKind::Any)
        | WatchEventKind::Remove(RemoveKind::Other) => FileChangeKind::Removed,
        WatchEventKind::Modify(ModifyKind::Name(RenameMode::To)) => if paths.len() == 2 {
            FileChangeKind::Renamed { from: paths[0], to: paths[1] }
        } else {
            FileChangeKind::Other
        },
        _ => FileChangeKind::Other,
    }
}

/// Turns a watcher notification into a normalized event: its kind is
/// classified, and its primary path is the first one reported, or empty.
pub fn normalize_event(kind: WatchEventKind, paths: Vec<String>, occurred_at: Timestamp) -> (r:
    FileEvent)
    ensures
        r.kind == change_kind(kind, paths@),
        r.path@ == if paths@.len() > 0 {
            paths@[0]@
        } else {
            Seq::<char>::empty()
        },
        r.occurred_at == occurred_at,
{
    let change = match kind {
        WatchEventKind::Create(CreateKind::File)
        | WatchEventKind::Create(CreateKind::Any)
        | WatchEventKind::Create(CreateKind::Other) => FileChangeKind::Created,
        WatchEventKind::Modify(ModifyKind::Data)
        | WatchEventKind::Modify(ModifyKind::Any)
        | WatchEventKind::Modify(ModifyKind::Other)
        | WatchEventKind::Modify(ModifyKind::Name(RenameMode::Both)) => FileChangeKind::Modified,
        WatchEventKind::Modify(ModifyKind::Metadata(MetadataKind::Any)) => FileChangeKind::Metadata,
        WatchEventKind::Remove(RemoveKind::File)
        | WatchEventKind::Remove(RemoveKind::Any)
        | WatchEventKind::Remove(RemoveKind::Other) => FileChangeKind::Removed,
        WatchEventKind::Modify(ModifyKind::Name(RenameMode::To)) => {
            if paths.len() == 2 {
                FileChangeKind::Renamed { from: paths[0].clone(), to: paths[1].clone() }
            } else {
                FileChangeKind::Other
            }
        },
        _ => FileChangeKind::Other,
    };
    let path = if paths.len() > 0 {
        paths[0].clone()
    } else {
        String::new()
    };
    FileEvent { path, kind: change, occurred_at }
}

} // verus!
