//! Append-only version history: rollback by appending, and pruning by age
//! and by count.
use crate::model::{
    collect_device_ids, collect_version_ids, device_ids, has_version, validate_ids, validation_of,
    version_ids, FileRecord, ModelError, VersionId, VersionRecord,
};
use crate::time::{TimeSpan, Timestamp};
use vstd::prelude::*;

verus! {

/// How many versions to keep, and optionally how old they may be.
#[derive(Clone, Copy, Debug, PartialEq, Eq, Structural)]
pub struct VersionRetention {
    /// Keep at most this many versions; the head is always kept, and a
    /// limit of zero keeps as much as a limit of one.
    pub max_versions: usize,
    /// Optionally drop versions older than this age, relative to now.
    pub max_age: Option<TimeSpan>,
}

#[derive(Clone, Copy, Debug, PartialEq, Eq, Structural)]
pub enum VersioningError {
    /// The version named as rollback target is not in the history.
    MissingVersion(VersionId),
    /// The change would break the record's invariants; nothing was changed.
    Model(ModelError),
}

/// The count limit that pruning enforces: at least one.
pub open spec fn effective_max(max_versions: usize) -> int {
    if max_versions == 0 {
        1
    } else {
        max_versions as int
    }
}

/// Timestamp of the version at position `p`.
pub open spec fn stamp_at(vs: Seq<VersionRecord>, p: usize) -> Timestamp {
    vs[p as int].timestamp
}

/// Inserts position `p` into `s` after every position whose version is not
/// newer than it, scanning from the back: one step of a stable insertion
/// sort by timestamp.
pub open spec fn insert_by_time(s: Seq<usize>, p: usize, vs: Seq<VersionRecord>) -> Seq<usize>
    decreases s.len(),
{
    if s.len() == 0 {
        seq![p]
    } else if stamp_at(vs, s.last()).spec_le(stamp_at(vs, p)) {
        s.push(p)
    } else {
        insert_by_time(s.drop_last(), p, vs).push(s.last())
    }
}

/// The positions `s`, stably sorted by the timestamps of their versions.
pub open spec fn sort_by_time(s: Seq<usize>, vs: Seq<VersionRecord>) -> Seq<usize>
    decreases s.len(),
{
    if s.len() == 0 {
        s
    } else {
        insert_by_time(sort_by_time(s.drop_last(), vs), s.last(), vs)
    }
}

/// Pruning keeps the version at position `p` when it is the head or not
/// older than `cutoff`; without a cutoff, only the head is kept.
pub open spec fn kept_at(
    vs: Seq<VersionRecord>,
    head: VersionId,
    cutoff: Option<Timestamp>,
    p: usize,
) -> bool {
    vs[p as int].version_id == head || (cutoff matches Some(c) && c.spec_le(vs[p as int].timestamp))
}

/// The positions of `s` that pruning against `cutoff` keeps, in order.
pub open spec fn keep_recent(
    s: Seq<usize>,
    vs: Seq<VersionRecord>,
    head: VersionId,
    cutoff: Option<Timestamp>,
) -> Seq<usize> {
    s.filter(|p: usize| kept_at(vs, head, cutoff, p))
}

/// Every position of a version list, in order.
pub open spec fn all_positions(n: nat) -> Seq<usize> {
    Seq::new(n, |i: int| i as usize)
}

/// The age limit's cutoff: `max_age` before `now`, or the Unix epoch when
/// that instant cannot be represented.
pub open spec fn age_cutoff(now: Timestamp, max_age: TimeSpan) -> Timestamp {
    match now.spec_checked_sub(max_age) {
        Some(t) => t,
        None => Timestamp { secs: 0, nanos: 0 },
    }
}

/// Positions left after the age phase: with an age limit, the head and the
/// versions not older than the cutoff, in stored order.
pub open spec fn after_age(
    vs: Seq<VersionRecord>,
    head: VersionId,
    policy: VersionRetention,
    now: Timestamp,
) -> Seq<usize> {
    match policy.max_age {
        Some(a) => keep_recent(all_positions(vs.len()), vs, head, Some(age_cutoff(now, a))),
        None => all_positions(vs.len()),
    }
}

/// The positions of `s` whose versions are not the head, in order.
pub open spec fn non_head(s: Seq<usize>, vs: Seq<VersionRecord>, head: VersionId) -> Seq<usize> {
    s.filter(|p: usize| vs[p as int].version_id != head)
}

/// The index, among the time-sorted versions other than the head, of the
/// oldest one the count phase keeps: the head counts against the limit, so
/// `effective_max - 1` of the others are kept.
pub open spec fn boundary_index(others_len: int, max_versions: usize) -> int {
    let k = effective_max(max_versions) - 1;
    if others_len > k {
        others_len - k
    } else {
        0
    }
}

/// The retention boundary of the time-sorted positions `sorted`: the
/// timestamp of the oldest version other than the head that the count phase
/// keeps, or none when it keeps no such version.
pub open spec fn count_boundary(
    sorted: Seq<usize>,
    vs: Seq<VersionRecord>,
    head: VersionId,
    max_versions: usize,
) -> Option<Timestamp> {
    let others = non_head(sorted, vs, head);
    if effective_max(max_versions) == 1 || others.len() == 0 {
        None
    } else {
        Some(stamp_at(vs, others[boundary_index(others.len() as int, max_versions)]))
    }
}

/// Positions, in their final order, of the versions that retention keeps.
/// When more than `max(1, max_versions)` remain after the age phase, they
/// are sorted by timestamp; the head stays, and of the others the newest
/// `max(1, max_versions) - 1` stay, together with every version that shares
/// the timestamp of the oldest of those.
pub open spec fn retention_positions(
    vs: Seq<VersionRecord>,
    head: VersionId,
    policy: VersionRetention,
    now: Timestamp,
) -> Seq<usize> {
    let s = after_age(vs, head, policy, now);
    if s.len() > effective_max(policy.max_versions) {
        let sorted = sort_by_time(s, vs);
        keep_recent(sorted, vs, head, count_boundary(sorted, vs, head, policy.max_versions))
    } else {
        s
    }
}

/// The version list that retention leaves, in its final order.
pub open spec fn retained_versions(
    vs: Seq<VersionRecord>,
    head: VersionId,
    policy: VersionRetention,
    now: Timestamp,
) -> Seq<VersionRecord> {
    retention_positions(vs, head, policy, now).map_values(|p: usize| vs[p as int])
}

/// All positions of `s` are below `n` and none repeats.
pub open spec fn distinct_below(s: Seq<usize>, n: int) -> bool {
    &&& s.no_duplicates()
    &&& forall|k: int| 0 <= k < s.len() ==> s[k] < n
}

proof fn lemma_insert_by_time_at(s: Seq<usize>, p: usize, vs: Seq<VersionRecord>, j: int)
    requires
        0 <= j <= s.len(),
        forall|k: int| j <= k < s.len() ==> !stamp_at(vs, #[trigger] s[k]).spec_le(stamp_at(vs, p)),
        j > 0 ==> stamp_at(vs, s[j - 1]).spec_le(stamp_at(vs, p)),
    ensures
        insert_by_time(s, p, vs) == s.insert(j, p),
    decreases s.len(),
{
    if s.len() == 0 {
        assert(s.insert(j, p) =~= seq![p]);
    } else if j == s.len() {
        assert(s.insert(j, p) =~= s.push(p));
    } else {
        assert(!stamp_at(vs, s.last()).spec_le(stamp_at(vs, p)));
        lemma_insert_by_time_at(s.drop_last(), p, vs, j);
        assert(s.drop_last().insert(j, p).push(s.last()) =~= s.insert(j, p));
    }
}

proof fn lemma_insert_by_time_contents(s: Seq<usize>, p: usize, vs: Seq<VersionRecord>)
    ensures
        insert_by_time(s, p, vs).len() == s.len() + 1,
        forall|x: usize| #[trigger]
            insert_by_time(s, p, vs).contains(x) <==> (s.contains(x) || x == p),
        s.no_duplicates() && !s.contains(p) ==> insert_by_time(s, p, vs).no_duplicates(),
    decreases s.len(),
{
    let r = insert_by_time(s, p, vs);
    if s.len() == 0 {
        assert forall|x: usize| r.contains(x) <==> (s.contains(x) || x == p) by {
            if r.contains(x) {
                assert(r[0] == x);
            }
            if x == p {
                assert(r[0] == x);
            }
        }
    } else if stamp_at(vs, s.last()).spec_le(stamp_at(vs, p)) {
        assert forall|x: usize| r.contains(x) <==> (s.contains(x) || x == p) by {
            if r.contains(x) {
                let k = choose|k: int| 0 <= k < r.len() && r[k] == x;
                if k < s.len() {
                    assert(s[k] == x);
                }
            }
            if s.contains(x) {
                let k = choose|k: int| 0 <= k < s.len() && s[k] == x;
                assert(r[k] == x);
            }
            if x == p {
                assert(r[s.len() as int] == x);
            }
        }
    } else {
        let d = s.drop_last();
        let t = insert_by_time(d, p, vs);
        lemma_insert_by_time_contents(d, p, vs);
        assert(r == t.push(s.last()));
        assert forall|x: usize| r.contains(x) <==> (s.contains(x) || x == p) by {
            if r.contains(x) {
                let k = choose|k: int| 0 <= k < r.len() && r[k] == x;
                if k < t.len() {
                    assert(t.contains(x));
                    if d.contains(x) {
                        let m = choose|m: int| 0 <= m < d.len() && d[m] == x;
                        assert(s[m] == x);
                    }
                } else {
                    assert(s[s.len() - 1] == x);
                }
            }
            if s.contains(x) {
                let k = choose|k: int| 0 <= k < s.len() && s[k] == x;
                if k < d.len() {
                    assert(d[k] == x);
                    assert(t.contains(x));
                    let m = choose|m: int| 0 <= m < t.len() && t[m] == x;
                    assert(r[m] == x);
                } else {
                    assert(r[t.len() as int] == x);
                }
            }
            if x == p {
                assert(t.contains(p));
                let m = choose|m: int| 0 <= m < t.len() && t[m] == p;
                assert(r[m] == x);
            }
        }
        if s.no_duplicates() && !s.contains(p) {
            assert(!d.contains(p)) by {
                if d.contains(p) {
                    let m = choose|m: int| 0 <= m < d.len() && d[m] == p;
                    assert(s[m] == p);
                }
            }
            assert(d.no_duplicates());
            assert(!d.contains(s.last())) by {
                if d.contains(s.last()) {
                    let m = choose|m: int| 0 <= m < d.len() && d[m] == s.last();
                    assert(s[m] == s[s.len() - 1]);
                }
            }
            assert(!t.contains(s.last()));
            assert forall|a: int, b: int|
                0 <= a < r.len() && 0 <= b < r.len() && a != b implies r[a] != r[b] by {
                if a < t.len() && b < t.len() {
                } else if a < t.len() {
                    assert(t.contains(r[a]));
                } else if b < t.len() {
                    assert(t.contains(r[b]));
                }
            }
        }
    }
}

proof fn lemma_sort_by_time_contents(s: Seq<usize>, vs: Seq<VersionRecord>)
    ensures
        sort_by_time(s, vs).len() == s.len(),
        forall|x: usize| #[trigger] sort_by_time(s, vs).contains(x) <==> s.contains(x),
        s.no_duplicates() ==> sort_by_time(s, vs).no_duplicates(),
    decreases s.len(),
{
    if s.len() > 0 {
        let d = s.drop_last();
        lemma_sort_by_time_contents(d, vs);
        lemma_insert_by_time_contents(sort_by_time(d, vs), s.last(), vs);
        assert forall|x: usize| #[trigger] sort_by_time(s, vs).contains(x) <==> s.contains(x) by {
            if s.contains(x) && x != s.last() {
                let k = choose|k: int| 0 <= k < s.len() && s[k] == x;
                assert(d[k] == x);
            }
            if d.contains(x) {
                let k = choose|k: int| 0 <= k < d.len() && d[k] == x;
                assert(s[k] == x);
            }
            if x == s.last() {
                assert(s[s.len() - 1] == x);
            }
        }
        if s.no_duplicates() {
            assert(!d.contains(s.last())) by {
                if d.contains(s.last()) {
                    let m = choose|m: int| 0 <= m < d.len() && d[m] == s.last();
                    assert(s[m] == s[s.len() - 1]);
                }
            }
        }
    }
}

/// Every position below `n`, in order.
fn positions_below(n: usize) -> (r: Vec<usize>)
    ensures
        r@ == all_positions(n as nat),
        distinct_below(r@, n as int),
{
    let mut r: Vec<usize> = Vec::new();
    let mut i: usize = 0;
    while i < n
        invariant
            i <= n,
            r@ == all_positions(i as nat),
        decreases n - i,
    {
        r.push(i);
        assert(r@ =~= all_positions((i + 1) as nat));
        i = i + 1;
    }
    r
}

/// The positions of `s` whose versions pruning against `cutoff` keeps.
fn keep_recent_positions(
    s: &Vec<usize>,
    vs: &Vec<VersionRecord>,
    head: VersionId,
    cutoff: Option<Timestamp>,
) -> (r: Vec<usize>)
    requires
        distinct_below(s@, vs@.len() as int),
    ensures
        r@ == keep_recent(s@, vs@, head, cutoff),
        distinct_below(r@, vs@.len() as int),
        forall|x: usize| r@.contains(x) ==> s@.contains(x),
{
    let ghost pred = |p: usize| kept_at(vs@, head, cutoff, p);
    let mut r: Vec<usize> = Vec::new();
    let mut i: usize = 0;
    while i < s.len()
        invariant
            i <= s.len(),
            distinct_below(s@, vs@.len() as int),
            pred == (|p: usize| kept_at(vs@, head, cutoff, p)),
            r@ == s@.subrange(0, i as int).filter(pred),
            distinct_below(r@, vs@.len() as int),
            forall|x: usize| r@.contains(x) ==> s@.subrange(0, i as int).contains(x),
        decreases s.len() - i,
    {
        let p = s[i];
        proof {
            s@.subrange(0, i as int).lemma_filter_push(p, pred);
            assert(s@.subrange(0, i + 1) =~= s@.subrange(0, i as int).push(p));
        }
        let v = &vs[p];
        let keep = v.version_id == head || match cutoff {
            Some(c) => c.le(&v.timestamp),
            None => false,
        };
        if keep {
            proof {
                assert(!r@.contains(p)) by {
                    if r@.contains(p) {
                        let k = choose|k: int| 0 <= k < i && s@.subrange(0, i as int)[k] == p;
                        assert(s@[k] == s@[i as int]);
                    }
                }
            }
            let ghost r0 = r@;
            r.push(p);
            proof {
                assert forall|x: usize| r@.contains(x) implies s@.subrange(0, i + 1).contains(x) by {
                    let k = choose|k: int| 0 <= k < r@.len() && r@[k] == x;
                    if k < r@.len() - 1 {
                        assert(r0[k] == x);
                        assert(r0.contains(x));
                        let m = choose|m: int| 0 <= m < i && s@.subrange(0, i as int)[m] == x;
                        assert(s@.subrange(0, i + 1)[m] == x);
                    } else {
                        assert(s@.subrange(0, i + 1)[i as int] == x);
                    }
                }
            }
        } else {
            proof {
                assert forall|x: usize| r@.contains(x) implies s@.subrange(0, i + 1).contains(x) by {
                    let m = choose|m: int| 0 <= m < i && s@.subrange(0, i as int)[m] == x;
                    assert(s@.subrange(0, i + 1)[m] == x);
                }
            }
        }
        i = i + 1;
    }
    assert(s@.subrange(0, s@.len() as int) =~= s@);
    proof {
        assert forall|x: usize| r@.contains(x) implies s@.contains(x) by {
            let m = choose|m: int| 0 <= m < s@.len() && s@.subrange(0, s@.len() as int)[m] == x;
            assert(s@[m] == x);
        }
    }
    r
}

/// Inserts `p` into `out` as one step of the stable sort by timestamp.
fn insert_position(out: &mut Vec<usize>, p: usize, vs: &Vec<VersionRecord>)
    requires
        p < vs.len(),
        forall|k: int| 0 <= k < old(out)@.len() ==> old(out)@[k] < vs@.len(),
    ensures
        final(out)@ == insert_by_time(old(out)@, p, vs@),
{
    let mut j: usize = out.len();
    while j > 0 && !vs[out[j - 1]].timestamp.le(&vs[p].timestamp)
        invariant
            j <= out.len(),
            p < vs.len(),
            *out == *old(out),
            forall|k: int| 0 <= k < out@.len() ==> out@[k] < vs@.len(),
            forall|k: int| j <= k < out@.len() ==> !stamp_at(vs@, #[trigger] out@[k]).spec_le(
                stamp_at(vs@, p),
            ),
        decreases j,
    {
        j = j - 1;
    }
    proof {
        lemma_insert_by_time_at(out@, p, vs@, j as int);
    }
    out.insert(j, p);
}

/// The positions `s`, stably sorted by the timestamps of their versions.
fn sort_positions(s: &Vec<usize>, vs: &Vec<VersionRecord>) -> (r: Vec<usize>)
    requires
        distinct_below(s@, vs@.len() as int),
    ensures
        r@ == sort_by_time(s@, vs@),
        distinct_below(r@, vs@.len() as int),
        forall|x: usize| r@.contains(x) <==> s@.contains(x),
{
    let mut out: Vec<usize> = Vec::new();
    let mut i: usize = 0;
    while i < s.len()
        invariant
            i <= s.len(),
            distinct_below(s@, vs@.len() as int),
            out@ == sort_by_time(s@.subrange(0, i as int), vs@),
            forall|k: int| 0 <= k < out@.len() ==> out@[k] < vs@.len(),
        decreases s.len() - i,
    {
        proof {
            assert(s@.subrange(0, i + 1).drop_last() =~= s@.subrange(0, i as int));
            lemma_sort_by_time_contents(s@.subrange(0, i as int), vs@);
        }
        insert_position(&mut out, s[i], vs);
        proof {
            lemma_insert_by_time_contents(sort_by_time(s@.subrange(0, i as int), vs@), s@[i as int], vs@);
            assert forall|k: int| 0 <= k < out@.len() implies out@[k] < vs@.len() by {
                assert(out@.contains(out@[k]));
            }
        }
        i = i + 1;
    }
    proof {
        assert(s@.subrange(0, s@.len() as int) =~= s@);
        lemma_sort_by_time_contents(s@, vs@);
    }
    out
}

/// Positions, in their final order, of the versions that retention keeps.
fn retention_order(
    vs: &Vec<VersionRecord>,
    head: VersionId,
    policy: &VersionRetention,
    now: Timestamp,
) -> (r: Vec<usize>)
    requires
        now.wf(),
        policy.max_age matches Some(a) ==> a.wf(),
    ensures
        r@ == retention_positions(vs@, head, *policy, now),
        distinct_below(r@, vs@.len() as int),
{
    let all = positions_below(vs.len());
    let s = match policy.max_age {
        Some(a) => {
            let cutoff = match now.checked_sub(&a) {
                Some(t) => t,
                None => Timestamp::epoch(),
            };
            keep_recent_positions(&all, vs, head, Some(cutoff))
        },
        None => all,
    };
    let limit: usize = if policy.max_versions == 0 {
        1
    } else {
        policy.max_versions
    };
    if s.len() > limit {
        let sorted = sort_positions(&s, vs);
        let others = non_head_positions(&sorted, vs, head);
        let boundary = if limit == 1 || others.len() == 0 {
            None
        } else {
            let k = limit - 1;
            let i = if others.len() > k {
                others.len() - k
            } else {
                0
            };
            Some(vs[others[i]].timestamp)
        };
        keep_recent_positions(&sorted, vs, head, boundary)
    } else {
        s
    }
}

/// The positions of `s` whose versions are not the head, in order.
fn non_head_positions(s: &Vec<usize>, vs: &Vec<VersionRecord>, head: VersionId) -> (r: Vec<usize>)
    requires
        distinct_below(s@, vs@.len() as int),
    ensures
        r@ == non_head(s@, vs@, head),
        forall|k: int| 0 <= k < r@.len() ==> r@[k] < vs@.len(),
{
    let ghost pred = |p: usize| vs@[p as int].version_id != head;
    let mut r: Vec<usize> = Vec::new();
    let mut i: usize = 0;
    while i < s.len()
        invariant
            i <= s.len(),
            distinct_below(s@, vs@.len() as int),
            pred == (|p: usize| vs@[p as int].version_id != head),
            r@ == s@.subrange(0, i as int).filter(pred),
            forall|k: int| 0 <= k < r@.len() ==> r@[k] < vs@.len(),
        decreases s.len() - i,
    {
        let p = s[i];
        proof {
            s@.subrange(0, i as int).lemma_filter_push(p, pred);
            assert(s@.subrange(0, i + 1) =~= s@.subrange(0, i as int).push(p));
        }
        if vs[p].version_id != head {
            r.push(p);
        }
        i = i + 1;
    }
    assert(s@.subrange(0, s@.len() as int) =~= s@);
    r
}

/// Moves the versions at positions `sel` out of `vs`, in the order of `sel`.
fn take_positions(vs: Vec<VersionRecord>, sel: &Vec<usize>) -> (r: Vec<VersionRecord>)
    requires
        distinct_below(sel@, vs@.len() as int),
    ensures
        r@ == sel@.map_values(|p: usize| vs@[p as int]),
{
    let ghost orig = vs@;
    let mut rest = vs;
    let mut slots: Vec<Option<VersionRecord>> = Vec::new();
    while rest.len() > 0
        invariant
            slots@.len() + rest@.len() == orig.len(),
            forall|k: int| 0 <= k < slots@.len() ==> slots@[k] == Some(orig[k]),
            rest@ == orig.subrange(slots@.len() as int, orig.len() as int),
        decreases rest.len(),
    {
        let v = rest.remove(0);
        slots.push(Some(v));
    }
    let mut out: Vec<VersionRecord> = Vec::new();
    let mut c: usize = 0;
    while c < sel.len()
        invariant
            c <= sel.len(),
            distinct_below(sel@, orig.len() as int),
            slots@.len() == orig.len(),
            out@.len() == c,
            forall|k: int| 0 <= k < c ==> out@[k] == orig[sel@[k] as int],
            forall|k: int| c <= k < sel@.len() ==> slots@[#[trigger] sel@[k] as int] == Some(orig[sel@[k] as int]),
        decreases sel.len() - c,
    {
        let p = sel[c];
        let item = slots[p].take();
        proof {
            assert forall|k: int| c + 1 <= k < sel@.len() implies slots@[#[trigger] sel@[k] as int] == Some(orig[sel@[k] as int]) by {
                assert(sel@[k] != sel@[c as int]);
            }
        }
        if let Some(v) = item {
            out.push(v);
        }
        c = c + 1;
    }
    assert(out@ =~= sel@.map_values(|p: usize| orig[p as int]));
    out
}

/// Prunes the history of `file`: first, with an age limit, every version
/// older than `now` minus that age but the head; then, while more than
/// `max_versions` remain, every version older than the retention boundary
/// but the head, leaving the survivors sorted by timestamp. Versions at the
/// boundary timestamp are all kept. The result is validated before it is
/// stored; when validation fails nothing changes.
pub fn apply_retention(file: &mut FileRecord, policy: &VersionRetention, now: Timestamp) -> (r:
    Result<(), VersioningError>)
    requires
        now.wf(),
        policy.max_age matches Some(a) ==> a.wf(),
    ensures
        ({
            let kept = retained_versions(old(file).versions@, old(file).head_version_id, *policy, now);
            match validation_of(
                version_ids(kept),
                old(file).head_version_id,
                device_ids(old(file).device_states@),
            ) {
                Ok(_) => r is Ok && final(file).versions@ == kept && *final(file) == (FileRecord {
                    versions: final(file).versions,
                    ..*old(file)
                }),
                Err(e) => r == Err::<(), VersioningError>(VersioningError::Model(e))
                    && *final(file) == *old(file),
            }
        }),
{
    let head = file.head_version_id;
    let sel = retention_order(&file.versions, head, policy, now);
    let ghost kept = retained_versions(file.versions@, head, *policy, now);
    let mut kept_ids: Vec<u128> = Vec::new();
    let mut c: usize = 0;
    while c < sel.len()
        invariant
            c <= sel.len(),
            distinct_below(sel@, file.versions@.len() as int),
            kept_ids@.len() == c,
            forall|k: int| 0 <= k < c ==> kept_ids@[k] == file.versions@[sel@[k] as int].version_id,
        decreases sel.len() - c,
    {
        kept_ids.push(file.versions[sel[c]].version_id);
        c = c + 1;
    }
    assert(kept_ids@ =~= version_ids(kept));
    let dids = collect_device_ids(&file.device_states);
    if let Err(e) = validate_ids(&kept_ids, head, &dids) {
        return Err(VersioningError::Model(e));
    }
    let mut vs: Vec<VersionRecord> = Vec::new();
    std::mem::swap(&mut vs, &mut file.versions);
    file.versions = take_positions(vs, &sel);
    Ok(())
}

/// Restores an earlier version by appending `new_version`, built by the
/// caller from the restored content, and making it the head. History is
/// never truncated. The target must be in the history; the result is
/// validated before it is stored, and when validation fails nothing
/// changes.
pub fn rollback_to_version(
    file: &mut FileRecord,
    target_version_id: VersionId,
    new_version: VersionRecord,
) -> (r: Result<(), VersioningError>)
    ensures
        !has_version(old(file).versions@, target_version_id) ==> r == Err::<(), VersioningError>(
            VersioningError::MissingVersion(target_version_id),
        ) && *final(file) == *old(file),
        has_version(old(file).versions@, target_version_id) ==> match validation_of(
            version_ids(old(file).versions@).push(new_version.version_id),
            new_version.version_id,
            device_ids(old(file).device_states@),
        ) {
            Ok(_) => r is Ok && final(file).versions@ == old(file).versions@.push(new_version)
                && *final(file) == (FileRecord {
                head_version_id: new_version.version_id,
                versions: final(file).versions,
                ..*old(file)
            }),
            Err(e) => r == Err::<(), VersioningError>(VersioningError::Model(e)) && *final(file)
                == *old(file),
        },
{
    let mut found = false;
    let mut i: usize = 0;
    while i < file.versions.len()
        invariant
            i <= file.versions.len(),
            !found ==> forall|k: int| 0 <= k < i ==> file.versions@[k].version_id != target_version_id,
            found ==> has_version(file.versions@, target_version_id),
        decreases file.versions.len() - i,
    {
        if file.versions[i].version_id == target_version_id {
            found = true;
        }
        i = i + 1;
    }
    if !found {
        return Err(VersioningError::MissingVersion(target_version_id));
    }
    let mut vids = collect_version_ids(&file.versions);
    vids.push(new_version.version_id);
    let dids = collect_device_ids(&file.device_states);
    if let Err(e) = validate_ids(&vids, new_version.version_id, &dids) {
        return Err(VersioningError::Model(e));
    }
    file.head_version_id = new_version.version_id;
    file.versions.push(new_version);
    Ok(())
}

/// The history of `file`, in stored order.
pub fn list_versions(file: &FileRecord) -> (r: &[VersionRecord])
    ensures
        r@ == file.versions@,
{
    file.versions.as_slice()
}

/// The positions `s` are ordered by the timestamps of their versions.
pub open spec fn time_ordered(s: Seq<usize>, vs: Seq<VersionRecord>) -> bool {
    forall|i: int, j: int|
        0 <= i < j < s.len() ==> stamp_at(vs, #[trigger] s[i]).spec_le(stamp_at(vs, #[trigger] s[j]))
}

/// The count phase of retention runs: after the age phase more than
/// `max(1, max_versions)` versions remain.
pub open spec fn count_phase_runs(
    vs: Seq<VersionRecord>,
    head: VersionId,
    policy: VersionRetention,
    now: Timestamp,
) -> bool {
    after_age(vs, head, policy, now).len() > effective_max(policy.max_versions)
}

/// In the count phase, a version other than the head that is sorted before
/// the boundary has the boundary timestamp itself, so it is kept with the
/// boundary version.
pub open spec fn boundary_tie(
    vs: Seq<VersionRecord>,
    head: VersionId,
    policy: VersionRetention,
    now: Timestamp,
) -> bool {
    let s = after_age(vs, head, policy, now);
    let sorted = sort_by_time(s, vs);
    let others = non_head(sorted, vs, head);
    let b = boundary_index(others.len() as int, policy.max_versions);
    &&& count_phase_runs(vs, head, policy, now)
    &&& count_boundary(sorted, vs, head, policy.max_versions) is Some
    &&& exists|j: int| 0 <= j < b && stamp_at(vs, #[trigger] others[j]) == stamp_at(vs, others[b])
}

proof fn lemma_insert_by_time_ordered(s: Seq<usize>, p: usize, vs: Seq<VersionRecord>)
    requires
        time_ordered(s, vs),
    ensures
        time_ordered(insert_by_time(s, p, vs), vs),
    decreases s.len(),
{
    let r = insert_by_time(s, p, vs);
    if s.len() == 0 {
    } else if stamp_at(vs, s.last()).spec_le(stamp_at(vs, p)) {
        assert forall|i: int, j: int| 0 <= i < j < r.len() implies stamp_at(vs, #[trigger] r[i]).spec_le(
            stamp_at(vs, #[trigger] r[j]),
        ) by {
            if j == s.len() && i < s.len() - 1 {
                assert(stamp_at(vs, s[i]).spec_le(stamp_at(vs, s[s.len() - 1])));
            }
        }
    } else {
        let d = s.drop_last();
        let t = insert_by_time(d, p, vs);
        assert(time_ordered(d, vs)) by {
            assert forall|i: int, j: int| 0 <= i < j < d.len() implies stamp_at(vs, #[trigger] d[i]).spec_le(
                stamp_at(vs, #[trigger] d[j]),
            ) by {
                assert(d[i] == s[i] && d[j] == s[j]);
            }
        }
        lemma_insert_by_time_ordered(d, p, vs);
        lemma_insert_by_time_contents(d, p, vs);
        assert forall|i: int, j: int| 0 <= i < j < r.len() implies stamp_at(vs, #[trigger] r[i]).spec_le(
            stamp_at(vs, #[trigger] r[j]),
        ) by {
            if j == t.len() {
                assert(r[i] == t[i]);
                assert(t.contains(t[i]));
                if d.contains(t[i]) {
                    let m = choose|m: int| 0 <= m < d.len() && d[m] == t[i];
                    assert(s[m] == t[i]);
                    assert(stamp_at(vs, s[m]).spec_le(stamp_at(vs, s[s.len() - 1])));
                }
            } else {
                assert(r[i] == t[i] && r[j] == t[j]);
            }
        }
    }
}

proof fn lemma_sort_by_time_ordered(s: Seq<usize>, vs: Seq<VersionRecord>)
    ensures
        time_ordered(sort_by_time(s, vs), vs),
    decreases s.len(),
{
    if s.len() > 0 {
        lemma_sort_by_time_ordered(s.drop_last(), vs);
        lemma_insert_by_time_ordered(sort_by_time(s.drop_last(), vs), s.last(), vs);
    }
}

proof fn lemma_filter_suffix_len(s: Seq<usize>, pred: spec_fn(usize) -> bool, b: int)
    requires
        0 <= b <= s.len(),
        forall|k: int| 0 <= k < b ==> !pred(#[trigger] s[k]),
        forall|k: int| b <= k < s.len() ==> pred(#[trigger] s[k]),
    ensures
        s.filter(pred).len() == s.len() - b,
    decreases s.len(),
{
    reveal(Seq::filter);
    if s.len() > 0 {
        let d = s.drop_last();
        if b == s.len() {
            assert(!pred(s[s.len() - 1]));
            lemma_filter_suffix_len(d, pred, b - 1 + 1 - 1);
        } else {
            assert(pred(s[s.len() - 1]));
            lemma_filter_suffix_len(d, pred, b);
        }
    }
}

proof fn lemma_filter_ordered(s: Seq<usize>, pred: spec_fn(usize) -> bool, vs: Seq<VersionRecord>)
    requires
        time_ordered(s, vs),
    ensures
        time_ordered(s.filter(pred), vs),
    decreases s.len(),
{
    reveal(Seq::filter);
    if s.len() > 0 {
        let d = s.drop_last();
        assert(time_ordered(d, vs)) by {
            assert forall|i: int, j: int| 0 <= i < j < d.len() implies stamp_at(vs, #[trigger] d[i]).spec_le(
                stamp_at(vs, #[trigger] d[j]),
            ) by {
                assert(d[i] == s[i] && d[j] == s[j]);
            }
        }
        lemma_filter_ordered(d, pred, vs);
        let f = d.filter(pred);
        if pred(s.last()) {
            let r = f.push(s.last());
            assert forall|i: int, j: int| 0 <= i < j < r.len() implies stamp_at(vs, #[trigger] r[i]).spec_le(
                stamp_at(vs, #[trigger] r[j]),
            ) by {
                if j == f.len() {
                    assert(r[i] == f[i]);
                    assert(f.contains(f[i]));
                    d.lemma_filter_contains_rev(pred, f[i]);
                    let m = choose|m: int| 0 <= m < d.len() && d[m] == f[i];
                    assert(s[m] == f[i]);
                    assert(stamp_at(vs, s[m]).spec_le(stamp_at(vs, s[s.len() - 1])));
                } else {
                    assert(r[i] == f[i] && r[j] == f[j]);
                }
            }
        }
    }
}

proof fn lemma_filter_distinct(s: Seq<usize>, pred: spec_fn(usize) -> bool)
    requires
        s.no_duplicates(),
    ensures
        s.filter(pred).no_duplicates(),
    decreases s.len(),
{
    reveal(Seq::filter);
    if s.len() > 0 {
        let d = s.drop_last();
        assert(d.no_duplicates());
        lemma_filter_distinct(d, pred);
        let f = d.filter(pred);
        if pred(s.last()) {
            assert(!f.contains(s.last())) by {
                if f.contains(s.last()) {
                    d.lemma_filter_contains_rev(pred, s.last());
                    let m = choose|m: int| 0 <= m < d.len() && d[m] == s.last();
                    assert(s[m] == s[s.len() - 1]);
                }
            }
            let r = f.push(s.last());
            assert forall|a: int, b: int| 0 <= a < r.len() && 0 <= b < r.len() && a != b implies r[a] != r[b] by {
                if a < f.len() && b < f.len() {
                } else if a < f.len() {
                    assert(f.contains(r[a]));
                } else {
                    assert(f.contains(r[b]));
                }
            }
        }
    }
}

proof fn lemma_filter_split_len(
    s: Seq<usize>,
    pred: spec_fn(usize) -> bool,
    a: spec_fn(usize) -> bool,
    b: spec_fn(usize) -> bool,
)
    requires
        forall|x: usize| #[trigger] pred(x) ==> a(x) || b(x),
    ensures
        s.filter(pred).len() <= s.filter(a).len() + s.filter(b).len(),
    decreases s.len(),
{
    reveal(Seq::filter);
    if s.len() > 0 {
        lemma_filter_split_len(s.drop_last(), pred, a, b);
    }
}

proof fn lemma_filter_filter_len(s: Seq<usize>, q: spec_fn(usize) -> bool, p: spec_fn(usize) -> bool)
    ensures
        s.filter(|x: usize| q(x) && p(x)).len() == s.filter(q).filter(p).len(),
    decreases s.len(),
{
    reveal(Seq::filter);
    if s.len() > 0 {
        let d = s.drop_last();
        lemma_filter_filter_len(d, q, p);
        if q(s.last()) {
            d.filter(q).lemma_filter_push(s.last(), p);
        }
    }
}

proof fn lemma_at_most_one_head(s: Seq<usize>, vs: Seq<VersionRecord>, head: VersionId)
    requires
        s.no_duplicates(),
        forall|k: int| 0 <= k < s.len() ==> s[k] < vs.len(),
        version_ids(vs).no_duplicates(),
    ensures
        s.filter(|p: usize| vs[p as int].version_id == head).len() <= 1,
    decreases s.len(),
{
    reveal(Seq::filter);
    let is_head = |p: usize| vs[p as int].version_id == head;
    if s.len() > 0 {
        let d = s.drop_last();
        assert(d.no_duplicates());
        lemma_at_most_one_head(d, vs, head);
        if is_head(s.last()) {
            assert forall|k: int| 0 <= k < d.len() implies !is_head(#[trigger] d[k]) by {
                assert(s[k] != s[s.len() - 1]);
                assert(version_ids(vs)[d[k] as int] == vs[d[k] as int].version_id);
                assert(version_ids(vs)[s.last() as int] == vs[s.last() as int].version_id);
            }
            lemma_filter_suffix_len(d, is_head, d.len() as int);
        }
    }
}

/// Retention never evicts the head: when the history holds the head, so does
/// what retention leaves. And in a history with distinct version ids it
/// leaves at most `max(1, max_versions)` versions, the head included, except
/// where versions tie with the boundary timestamp.
pub proof fn lemma_retention_bounds(
    vs: Seq<VersionRecord>,
    head: VersionId,
    policy: VersionRetention,
    now: Timestamp,
)
    requires
        vs.len() <= usize::MAX,
    ensures
        has_version(vs, head) ==> has_version(retained_versions(vs, head, policy, now), head),
        version_ids(vs).no_duplicates() && !boundary_tie(vs, head, policy, now)
            ==> retained_versions(vs, head, policy, now).len() <= effective_max(policy.max_versions),
{
    broadcast use Seq::lemma_filter_contains, Seq::lemma_filter_contains_rev, Seq::lemma_filter_len;
    let all = all_positions(vs.len());
    let s = after_age(vs, head, policy, now);
    let kept = retention_positions(vs, head, policy, now);
    let sorted = sort_by_time(s, vs);
    let m = policy.max_versions;
    let cb = count_boundary(sorted, vs, head, m);
    lemma_sort_by_time_contents(s, vs);
    if has_version(vs, head) {
        let p = choose|p: int| 0 <= p < vs.len() && vs[p].version_id == head;
        assert(all[p] == p as usize);
        assert(s.contains(p as usize)) by {
            match policy.max_age {
                Some(a) => {
                    assert(kept_at(vs, head, Some(age_cutoff(now, a)), all[p]));
                    assert(all.filter(|q: usize| kept_at(vs, head, Some(age_cutoff(now, a)), q)).contains(all[p]));
                },
                None => {},
            }
        }
        assert(kept.contains(p as usize)) by {
            if s.len() > effective_max(m) {
                assert(sorted.contains(p as usize));
                let k = choose|k: int| 0 <= k < sorted.len() && sorted[k] == p as usize;
                assert(kept_at(vs, head, cb, sorted[k]));
                assert(sorted.filter(|q: usize| kept_at(vs, head, cb, q)).contains(sorted[k]));
            }
        }
        let k = choose|k: int| 0 <= k < kept.len() && kept[k] == p as usize;
        assert(retained_versions(vs, head, policy, now)[k] == vs[p]);
    }
    if version_ids(vs).no_duplicates() && !boundary_tie(vs, head, policy, now) && s.len() > effective_max(m) {
        let pred = |q: usize| kept_at(vs, head, cb, q);
        let is_head = |q: usize| vs[q as int].version_id == head;
        let not_head = |q: usize| vs[q as int].version_id != head;
        let recent = |q: usize| cb matches Some(c) && c.spec_le(vs[q as int].timestamp);
        let others = non_head(sorted, vs, head);
        let k = effective_max(m) - 1;
        // The kept versions are the head and the recent others.
        lemma_filter_split_len(sorted, pred, is_head, |q: usize| not_head(q) && recent(q));
        lemma_filter_filter_len(sorted, not_head, recent);
        assert(others == sorted.filter(not_head));
        // At most one head.
        assert(all.no_duplicates() && forall|i: int| 0 <= i < all.len() ==> all[i] < vs.len());
        assert(s.no_duplicates() && forall|i: int| 0 <= i < s.len() ==> s[i] < vs.len()) by {
            match policy.max_age {
                Some(a) => {
                    let f = |q: usize| kept_at(vs, head, Some(age_cutoff(now, a)), q);
                    lemma_filter_distinct(all, f);
                    assert forall|i: int| 0 <= i < s.len() implies s[i] < vs.len() by {
                        assert(all.filter(f).contains(s[i]));
                        let j = choose|j: int| 0 <= j < all.len() && all[j] == s[i];
                    }
                },
                None => {},
            }
        }
        lemma_sort_by_time_contents(s, vs);
        assert forall|i: int| 0 <= i < sorted.len() implies sorted[i] < vs.len() by {
            assert(sorted.contains(sorted[i]));
            let j = choose|j: int| 0 <= j < s.len() && s[j] == sorted[i];
        }
        lemma_at_most_one_head(sorted, vs, head);
        // At most `k` recent others.
        lemma_sort_by_time_ordered(s, vs);
        lemma_filter_ordered(sorted, not_head, vs);
        if cb is None {
            lemma_filter_suffix_len(others, recent, others.len() as int);
        } else if others.len() > k {
            let b = boundary_index(others.len() as int, m);
            let c = stamp_at(vs, others[b]);
            assert forall|j: int| 0 <= j < b implies !recent(#[trigger] others[j]) by {
                assert(stamp_at(vs, others[j]).spec_le(stamp_at(vs, others[b])));
                assert(stamp_at(vs, others[j]) != c);
            }
            assert forall|j: int| b <= j < others.len() implies recent(#[trigger] others[j]) by {
                if j > b {
                    assert(stamp_at(vs, others[b]).spec_le(stamp_at(vs, others[j])));
                }
            }
            lemma_filter_suffix_len(others, recent, b);
        }
    }
}

} // verus!
