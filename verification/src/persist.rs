//! The snapshot record a task round-trips through on disk, and the proof that
//! the round trip loses nothing.
//!
//! A [`PersistedTask`] holds exactly the fields the snapshot file keeps. The
//! engine builds one from each live task when saving, and reconstitutes tasks
//! from them when loading; serialization of the records themselves is the
//! host's concern.

use vstd::prelude::*;
use crate::task::Task;
use crate::types::TaskStatus;

verus! {

/// One task as it appears in the snapshot file.
#[derive(Clone, Debug)]
pub struct PersistedTask {
    pub id: String,
    pub url: String,
    pub save_path: String,
    pub filename: String,
    pub total_bytes: Option<u64>,
    pub downloaded_bytes: u64,
    pub status: TaskStatus,
    pub pending_segments: Vec<(u64, u64)>,
    pub supports_range: bool,
    pub created_at: i64,
}

/// An exact copy of a segment list.
fn copy_segments(v: &Vec<(u64, u64)>) -> (r: Vec<(u64, u64)>)
    ensures
        r@ == v@,
{
    let mut r: Vec<(u64, u64)> = Vec::new();
    let n = v.len();
    let mut i: usize = 0;
    while i < n
        invariant
            0 <= i <= n,
            n == v@.len(),
            r@ == v@.take(i as int),
        decreases n - i,
    {
        r.push(*v.get(i).unwrap());
        proof {
            assert(r@ =~= v@.take(i as int + 1));
        }
        i = i + 1;
    }
    proof {
        assert(v@.take(n as int) =~= v@);
    }
    r
}

impl PersistedTask {
    /// Snapshot a live task: every field the on-disk record keeps, copied as
    /// it stands.
    pub fn from_task(task: &Task) -> (p: PersistedTask)
        ensures
            p.id@ == task.id@,
            p.url@ == task.url@,
            p.save_path@ == task.save_path@,
            p.filename@ == task.filename@,
            p.total_bytes == task.total_bytes,
            p.downloaded_bytes == task.downloaded,
            p.status == task.status,
            p.pending_segments@ == task.pending_segments@,
            p.supports_range == task.supports_range,
            p.created_at == task.created_at,
    {
        PersistedTask {
            id: task.id.clone(),
            url: task.url.clone(),
            save_path: task.save_path.clone(),
            filename: task.filename.clone(),
            total_bytes: task.total_bytes,
            downloaded_bytes: task.downloaded,
            status: task.status,
            pending_segments: copy_segments(&task.pending_segments),
            supports_range: task.supports_range,
            created_at: task.created_at,
        }
    }
}

impl Task {
    /// Reconstitute a task from its snapshot record, exactly as stored; the
    /// transient fields (error text, speed sample) start empty.
    pub fn from_persisted(p: PersistedTask) -> (t: Task)
        ensures
            t.id == p.id,
            t.url == p.url,
            t.save_path == p.save_path,
            t.filename == p.filename,
            t.total_bytes == p.total_bytes,
            t.downloaded == p.downloaded_bytes,
            t.status == p.status,
            t.error_message is None,
            t.pending_segments == p.pending_segments,
            t.supports_range == p.supports_range,
            t.created_at == p.created_at,
            t.last_sample is None,
    {
        Task {
            id: p.id,
            url: p.url,
            save_path: p.save_path,
            filename: p.filename,
            total_bytes: p.total_bytes,
            downloaded: p.downloaded_bytes,
            status: p.status,
            error_message: None,
            pending_segments: p.pending_segments,
            supports_range: p.supports_range,
            created_at: p.created_at,
            last_sample: None,
        }
    }
}

/// Round trip: snapshotting a task and reconstituting it preserves every
/// snapshot field — identity, URL, paths, total, progress, status, the
/// pending ranges, range support and creation time.
pub proof fn lemma_persist_round_trip(t: &Task, p: PersistedTask, t2: &Task)
    requires
        call_ensures(PersistedTask::from_task, (t,), p),
        call_ensures(Task::from_persisted, (p,), *t2),
    ensures
        t2.id@ == t.id@,
        t2.url@ == t.url@,
        t2.save_path@ == t.save_path@,
        t2.filename@ == t.filename@,
        t2.total_bytes == t.total_bytes,
        t2.downloaded == t.downloaded,
        t2.status == t.status,
        t2.pending_segments@ == t.pending_segments@,
        t2.supports_range == t.supports_range,
        t2.created_at == t.created_at,
{
}

} // verus!
