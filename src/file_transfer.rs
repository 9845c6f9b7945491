//! Resumable chunk-level transfer bookkeeping for one transfer session,
//! independent of the store.
use crate::model::{
    ChunkRef, DeviceId, FileId, TransferDirection, TransferSession, TransferSessionId,
    TransferStatus, VersionId,
};
use crate::time::{TimeSpan, Timestamp};
use std::collections::HashSet;
use vstd::prelude::*;

verus! {

broadcast use vstd::std_specs::hash::group_hash_axioms;

/// The ordered chunks to send or fetch for one version of one file.
#[derive(Clone, Debug, PartialEq, Eq)]
pub struct TransferPlan {
    pub file_id: FileId,
    pub version_id: VersionId,
    pub direction: TransferDirection,
    pub chunks: Vec<ChunkRef>,
}

/// Chunks completed and chunks failed so far, keyed by chunk offset.
#[derive(Debug, PartialEq, Eq)]
pub struct TransferProgress {
    pub session_id: TransferSessionId,
    pub started_at: Timestamp,
    pub completed_chunks: HashSet<u64>,
    /// Offsets to retry.
    pub failed_chunks: HashSet<u64>,
}

/// How often a chunk may be attempted; the backoff is advice for the
/// caller's own scheduling.
#[derive(Clone, Copy, Debug, PartialEq, Eq, Structural)]
pub struct RetryPolicy {
    pub max_attempts: u32,
    pub backoff: TimeSpan,
}

#[derive(Clone, Copy, Debug, PartialEq, Eq, Structural)]
pub enum TransferError {
    /// Kept for callers that match on it; the decisions here never report it.
    ChunkMissing(u64),
    /// The chunk at this offset has used up its attempts.
    MaxRetries(u64),
    /// Kept for callers that match on it; the decisions here never report it.
    Completed,
}

/// The completed and failed offsets after marking `offset` done: completion
/// wins over an earlier failure.
pub open spec fn after_mark_done(completed: Set<u64>, failed: Set<u64>, offset: u64) -> (Set<u64>, Set<u64>) {
    (completed.insert(offset), failed.remove(offset))
}

/// The failed offsets after marking `offset` failed: a completed offset is
/// never recorded as failed.
pub open spec fn after_mark_failed(completed: Set<u64>, failed: Set<u64>, offset: u64) -> Set<u64> {
    if completed.contains(offset) {
        failed
    } else {
        failed.insert(offset)
    }
}

/// Every chunk of the plan has its offset completed.
pub open spec fn plan_complete(chunks: Seq<ChunkRef>, completed: Set<u64>) -> bool {
    forall|i: int| 0 <= i < chunks.len() ==> completed.contains(#[trigger] chunks[i].offset)
}

/// `i` is the first chunk of the plan whose offset is not completed.
pub open spec fn is_first_pending(chunks: Seq<ChunkRef>, completed: Set<u64>, i: int) -> bool {
    &&& 0 <= i < chunks.len()
    &&& !completed.contains(chunks[i].offset)
    &&& forall|k: int| 0 <= k < i ==> completed.contains(#[trigger] chunks[k].offset)
}

/// The completed offsets after marking each of `offsets` done, in order.
pub open spec fn done_after(completed: Set<u64>, offsets: Seq<u64>) -> Set<u64>
    decreases offsets.len(),
{
    if offsets.len() == 0 {
        completed
    } else {
        after_mark_done(done_after(completed, offsets.drop_last()), Set::empty(), offsets.last()).0
    }
}

impl TransferProgress {
    /// Fresh progress for a session, started now, with nothing completed or
    /// failed.
    pub fn new(session_id: TransferSessionId) -> (r: Self)
        ensures
            r.session_id == session_id,
            r.started_at.wf(),
            r.completed_chunks@ == Set::<u64>::empty(),
            r.failed_chunks@ == Set::<u64>::empty(),
    {
        TransferProgress {
            session_id,
            started_at: Timestamp::now(),
            completed_chunks: HashSet::new(),
            failed_chunks: HashSet::new(),
        }
    }

    /// Marks the chunk at `offset` done and clears any failure recorded for
    /// it. Marking it again changes nothing.
    pub fn mark_done(&mut self, offset: u64)
        ensures
            (final(self).completed_chunks@, final(self).failed_chunks@) == after_mark_done(
                old(self).completed_chunks@,
                old(self).failed_chunks@,
                offset,
            ),
            final(self).session_id == old(self).session_id,
            final(self).started_at == old(self).started_at,
    {
        self.completed_chunks.insert(offset);
        self.failed_chunks.remove(&offset);
    }

    /// Records a failure of the chunk at `offset` for retry, unless that
    /// chunk is already completed.
    pub fn mark_failed(&mut self, offset: u64)
        ensures
            final(self).failed_chunks@ == after_mark_failed(
                old(self).completed_chunks@,
                old(self).failed_chunks@,
                offset,
            ),
            final(self).completed_chunks@ == old(self).completed_chunks@,
            final(self).session_id == old(self).session_id,
            final(self).started_at == old(self).started_at,
    {
        if !self.completed_chunks.contains(&offset) {
            self.failed_chunks.insert(offset);
        }
    }

    /// Whether every chunk of the plan is completed.
    pub fn is_complete(&self, plan: &TransferPlan) -> (r: bool)
        ensures
            r == plan_complete(plan.chunks@, self.completed_chunks@),
    {
        let mut i: usize = 0;
        while i < plan.chunks.len()
            invariant
                i <= plan.chunks.len(),
                forall|k: int| 0 <= k < i ==> self.completed_chunks@.contains(#[trigger] plan.chunks@[k].offset),
            decreases plan.chunks.len() - i,
        {
            if !self.completed_chunks.contains(&plan.chunks[i].offset) {
                return false;
            }
            i = i + 1;
        }
        true
    }
}

/// The first chunk of the plan, in plan order, that is not completed.
pub fn next_chunk(plan: &TransferPlan, progress: &TransferProgress) -> (r: Option<ChunkRef>)
    ensures
        r is None <==> plan_complete(plan.chunks@, progress.completed_chunks@),
        r matches Some(c) ==> exists|i: int|
            is_first_pending(plan.chunks@, progress.completed_chunks@, i) && c == plan.chunks@[i],
{
    let mut i: usize = 0;
    while i < plan.chunks.len()
        invariant
            i <= plan.chunks.len(),
            forall|k: int| 0 <= k < i ==> progress.completed_chunks@.contains(#[trigger] plan.chunks@[k].offset),
        decreases plan.chunks.len() - i,
    {
        if !progress.completed_chunks.contains(&plan.chunks[i].offset) {
            assert(is_first_pending(plan.chunks@, progress.completed_chunks@, i as int));
            return Some(plan.chunks[i].duplicate());
        }
        i = i + 1;
    }
    None
}

/// Whether the chunk at `offset` may be attempted again: while `attempt` is
/// below the policy's maximum.
pub fn can_retry(offset: u64, attempt: u32, policy: &RetryPolicy) -> (r: Result<(), TransferError>)
    ensures
        r == if attempt >= policy.max_attempts {
            Err(TransferError::MaxRetries(offset))
        } else {
            Ok(())
        },
{
    if attempt >= policy.max_attempts {
        return Err(TransferError::MaxRetries(offset));
    }
    Ok(())
}

/// A copy of every chunk of `chunks`, in order.
fn duplicate_chunks(chunks: &Vec<ChunkRef>) -> (r: Vec<ChunkRef>)
    ensures
        r@ == chunks@,
{
    let mut out: Vec<ChunkRef> = Vec::new();
    let mut i: usize = 0;
    while i < chunks.len()
        invariant
            i <= chunks.len(),
            out@ == chunks@.subrange(0, i as int),
        decreases chunks.len() - i,
    {
        out.push(chunks[i].duplicate());
        assert(out@ =~= chunks@.subrange(0, i + 1));
        i = i + 1;
    }
    assert(out@ =~= chunks@);
    out
}

/// A reporting snapshot of a transfer. Its active chunks are the whole plan,
/// not the remaining work; its retry count is the number of failed offsets,
/// truncated to 32 bits.
pub fn to_session(
    plan: &TransferPlan,
    progress: &TransferProgress,
    from: DeviceId,
    to: DeviceId,
    status: TransferStatus,
) -> (r: TransferSession)
    ensures
        r.transfer_session_id == progress.session_id,
        r.file_id == plan.file_id,
        r.direction == plan.direction,
        r.from_device_id == from,
        r.to_device_id == to,
        r.active_chunks@ == plan.chunks@,
        r.retry_count == progress.failed_chunks@.len() % 0x1_0000_0000,
        r.status == status,
{
    let failed = progress.failed_chunks.len() as u64;
    let retry_count = (failed % 0x1_0000_0000u64) as u32;
    TransferSession {
        transfer_session_id: progress.session_id,
        file_id: plan.file_id,
        direction: plan.direction,
        from_device_id: from,
        to_device_id: to,
        active_chunks: duplicate_chunks(&plan.chunks),
        retry_count,
        status,
    }
}

/// Marking a chunk done is idempotent: marking it a second time leaves the
/// completed and failed offsets as the first time did.
pub proof fn lemma_mark_done_idempotent(completed: Set<u64>, failed: Set<u64>, offset: u64)
    ensures
        ({
            let once = after_mark_done(completed, failed, offset);
            after_mark_done(once.0, once.1, offset) == once
        }),
{
    let once = after_mark_done(completed, failed, offset);
    assert(once.0.insert(offset) =~= once.0);
    assert(once.1.remove(offset) =~= once.1);
}

/// Once every offset of the plan has been marked done, in any order and
/// among any others, the plan is complete and no chunk is pending.
pub proof fn lemma_all_done_completes(chunks: Seq<ChunkRef>, completed: Set<u64>, offsets: Seq<u64>)
    requires
        forall|i: int| 0 <= i < chunks.len() ==> offsets.contains(#[trigger] chunks[i].offset),
    ensures
        plan_complete(chunks, done_after(completed, offsets)),
        forall|i: int| !is_first_pending(chunks, done_after(completed, offsets), i),
{
    lemma_done_after_contains(completed, offsets);
}

proof fn lemma_done_after_contains(completed: Set<u64>, offsets: Seq<u64>)
    ensures
        forall|x: u64| offsets.contains(x) ==> #[trigger] done_after(completed, offsets).contains(x),
    decreases offsets.len(),
{
    if offsets.len() > 0 {
        let d = offsets.drop_last();
        lemma_done_after_contains(completed, d);
        assert(done_after(completed, offsets) == done_after(completed, d).insert(offsets.last()));
        assert forall|x: u64| offsets.contains(x) implies #[trigger] done_after(completed, offsets).contains(x) by {
            let k = choose|k: int| 0 <= k < offsets.len() && offsets[k] == x;
            if k < d.len() {
                assert(d[k] == x);
                assert(d.contains(x));
            }
        }
    }
}

} // verus!
