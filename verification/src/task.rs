//! The per-task state machine: creation, the pending-range queue, progress
//! accounting, and the status transitions a run goes through.
//!
//! The key invariant, [`task_wf`], ties the byte counter to the queue: for a
//! task with a known total, the bytes already credited plus the bytes still
//! pending always equal the total. Every transition here preserves it, which
//! is what makes a `Completed` task provably fully downloaded.

use vstd::prelude::*;
use crate::types::{TaskStatus, TaskError, CreateTaskInput, seg_wf, seg_len, segs_total};
use crate::types::{static_segments, lemma_chain_total, lemma_chain_bounds, lemma_chain_disjoint};
use crate::text::{url_path_basename, join_path, spec_url_path_basename, spec_join_path};

verus! {

/// Default number of pieces a range-supporting download is split into.
pub const DEFAULT_CONNECTIONS: usize = 8;

/// Upper bound on the per-task worker count.
pub const MAX_WORKERS: usize = 32;

/// One download task as the engine tracks it in memory.
pub struct Task {
    /// Opaque unique identifier, stable for the task's lifetime.
    pub id: String,
    /// Current source URL.
    pub url: String,
    /// Absolute destination file path.
    pub save_path: String,
    /// Basename of the destination file.
    pub filename: String,
    /// Total size when the origin reported one.
    pub total_bytes: Option<u64>,
    /// Bytes received and handed to the writer so far.
    pub downloaded: u64,
    /// Where the task stands in its lifecycle.
    pub status: TaskStatus,
    /// Last error text, if a run failed.
    pub error_message: Option<String>,
    /// Inclusive byte ranges not yet fetched, in fetch order.
    pub pending_segments: Vec<(u64, u64)>,
    /// Whether the origin honours byte-range requests.
    pub supports_range: bool,
    /// Creation time, seconds since the epoch.
    pub created_at: i64,
    /// Last `(downloaded, seconds)` sample for speed estimation.
    pub last_sample: Option<(u64, i64)>,
}

/// The segments are individually well formed and strictly ordered, each
/// ending before the next begins.
pub open spec fn segs_sorted(segs: Seq<(u64, u64)>) -> bool {
    &&& forall|i: int| 0 <= i < segs.len() ==> seg_wf(#[trigger] segs[i])
    &&& forall|i: int| 0 <= i < segs.len() - 1 ==> (#[trigger] segs[i]).1 < segs[i + 1].0
}

/// Well-formedness of a task.
///
/// The pending queue is ordered and disjoint; when the total size is known,
/// every pending byte lies below it and `downloaded` plus the pending bytes
/// equal it exactly; the byte accounting can never overflow the counter; and
/// a completed task has nothing pending.
pub open spec fn task_wf(t: &Task) -> bool {
    &&& segs_sorted(t.pending_segments@)
    &&& t.downloaded + segs_total(t.pending_segments@) <= u64::MAX
    &&& t.total_bytes is Some ==> {
        &&& forall|i: int|
            0 <= i < t.pending_segments@.len() ==> (#[trigger] t.pending_segments@[i]).1
                < t.total_bytes->0
        &&& t.downloaded + segs_total(t.pending_segments@) == t.total_bytes->0
    }
    &&& t.status == TaskStatus::Completed ==> t.pending_segments@.len() == 0
}

/// Every sequence of well-formed segments covers a non-negative number of
/// bytes, and at least one byte per segment.
pub proof fn lemma_segs_total_at_least_len(segs: Seq<(u64, u64)>)
    requires
        forall|i: int| 0 <= i < segs.len() ==> seg_wf(#[trigger] segs[i]),
    ensures
        segs_total(segs) >= segs.len(),
    decreases segs.len(),
{
    if segs.len() > 0 {
        assert(forall|i: int|
            0 <= i < segs.drop_first().len() ==> seg_wf(#[trigger] segs.drop_first()[i]));
        lemma_segs_total_at_least_len(segs.drop_first());
    }
}

/// A task in `Completed` has an empty pending queue, and, when its total is
/// known, has downloaded exactly that many bytes.
pub proof fn lemma_completed_task_drained(t: &Task)
    requires
        task_wf(t),
        t.status == TaskStatus::Completed,
    ensures
        t.pending_segments@.len() == 0,
        t.total_bytes is Some ==> t.downloaded == t.total_bytes->0,
{
}

/// Whenever a task's total is known, its downloaded counter never exceeds it.
pub proof fn lemma_downloaded_bounded(t: &Task)
    requires
        task_wf(t),
        t.total_bytes is Some,
    ensures
        t.downloaded <= t.total_bytes->0,
{
    lemma_segs_total_at_least_len(t.pending_segments@);
}

/// The initial pending queue of a new task: a static split when ranges are
/// supported and the size is known, the whole file as one piece when only the
/// size is known, and nothing otherwise.
pub open spec fn spec_initial_segments(supports_range: bool, total_bytes: Option<u64>) -> Seq<
    (u64, u64),
> {
    if supports_range {
        if total_bytes is Some && total_bytes->0 > 0 {
            spec_static_split(total_bytes->0)
        } else {
            Seq::empty()
        }
    } else {
        if total_bytes is Some && total_bytes->0 > 0 {
            seq![(0u64, (total_bytes->0 - 1) as u64)]
        } else {
            Seq::empty()
        }
    }
}

/// The split `static_segments` produces for a positive total and the default
/// piece count.
pub open spec fn spec_static_split(total: u64) -> Seq<(u64, u64)> {
    let k = if DEFAULT_CONNECTIONS as int <= total as int {
        DEFAULT_CONNECTIONS as int
    } else {
        total as int
    };
    let chunk = total as int / k;
    Seq::new(
        k as nat,
        |i: int|
            (
                (i * chunk) as u64,
                if i == k - 1 {
                    (total - 1) as u64
                } else {
                    ((i + 1) * chunk - 1) as u64
                },
            ),
    )
}

/// What a freshly created task looks like: identity and timestamp as given,
/// filename from the input or the URL's basename, save path joined from
/// directory and filename, counters at zero, `Pending`, and the initial
/// segmentation as its queue.
pub open spec fn new_task_spec(
    t: Task,
    input: CreateTaskInput,
    supports_range: bool,
    total_bytes: Option<u64>,
    id: Seq<char>,
    created_at: i64,
) -> bool {
    &&& t.id@ == id
    &&& t.url == input.url
    &&& t.filename@ == (match input.filename {
        Some(f) => f@,
        None => spec_url_path_basename(input.url@),
    })
    &&& t.save_path@ == spec_join_path(input.save_dir@, t.filename@)
    &&& t.total_bytes == total_bytes
    &&& t.downloaded == 0
    &&& t.status == TaskStatus::Pending
    &&& t.error_message is None
    &&& t.pending_segments@ == spec_initial_segments(supports_range, total_bytes)
    &&& t.supports_range == supports_range
    &&& t.created_at == created_at
    &&& t.last_sample is None
}

impl Task {
    /// Build a new task in `Pending` from its creation input and the probe's
    /// findings. The filename falls back to the URL's basename, the save path
    /// joins directory and filename, and the pending queue is the initial
    /// segmentation of the total.
    pub fn new(
        input: CreateTaskInput,
        supports_range: bool,
        total_bytes: Option<u64>,
        id: String,
        created_at: i64,
    ) -> (t: Task)
        ensures
            task_wf(&t),
            new_task_spec(t, input, supports_range, total_bytes, id@, created_at),
    {
        let filename = match input.filename {
            Some(f) => f,
            None => url_path_basename(input.url.as_str()),
        };
        let save_path = join_path(input.save_dir.as_str(), filename.as_str());
        let pending_segments: Vec<(u64, u64)> = if supports_range {
            let total = match total_bytes {
                Some(t) => t,
                None => 0,
            };
            if total > 0 {
                let segs = static_segments(total, DEFAULT_CONNECTIONS);
                proof {
                    lemma_chain_total(segs@, 0, total as int - 1);
                    lemma_chain_bounds(segs@, 0, total as int - 1);
                    lemma_chain_disjoint(segs@, 0, total as int - 1);
                    assert(segs@ =~= spec_static_split(total));
                }
                segs
            } else {
                Vec::new()
            }
        } else {
            match total_bytes {
                Some(t) if t > 0 => {
                    let mut v: Vec<(u64, u64)> = Vec::new();
                    v.push((0, t - 1));
                    proof {
                        assert(v@[0] == (0u64, (t - 1) as u64));
                        assert(v@.drop_first() =~= Seq::<(u64, u64)>::empty());
                        assert(segs_total(Seq::<(u64, u64)>::empty()) == 0);
                        assert(segs_total(v@) == t);
                    }
                    v
                },
                _ => Vec::new(),
            }
        };
        Task {
            id,
            url: input.url,
            save_path,
            filename,
            total_bytes,
            downloaded: 0,
            status: TaskStatus::Pending,
            error_message: None,
            pending_segments,
            supports_range,
            created_at,
            last_sample: None,
        }
    }

    /// Current value of the byte counter.
    pub fn downloaded_bytes(&self) -> (r: u64)
        ensures
            r == self.downloaded,
    {
        self.downloaded
    }

    /// The segment the next fetch will work on, without removing it.
    pub fn next_pending(&self) -> (r: Option<(u64, u64)>)
        ensures
            r == (if self.pending_segments@.len() > 0 {
                Some(self.pending_segments@[0])
            } else {
                None::<(u64, u64)>
            }),
    {
        if self.pending_segments.len() > 0 {
            Some(*self.pending_segments.get(0).unwrap())
        } else {
            None
        }
    }

    /// Remove and return the segment at the head of the pending queue.
    pub fn take_next_segment(&mut self) -> (r: Option<(u64, u64)>)
        ensures
            old(self).pending_segments@.len() == 0 ==> r is None && *final(self) == *old(self),
            old(self).pending_segments@.len() > 0 ==> {
                &&& r == Some(old(self).pending_segments@[0])
                &&& final(self).pending_segments@ == old(self).pending_segments@.drop_first()
                &&& unchanged_but_queue(old(self), final(self))
            },
    {
        if self.pending_segments.len() > 0 {
            Some(self.pending_segments.remove(0))
        } else {
            None
        }
    }

    /// Add unconditionally to the byte counter.
    pub fn add_downloaded(&mut self, delta: u64)
        requires
            old(self).downloaded + delta <= u64::MAX,
        ensures
            final(self).downloaded == old(self).downloaded + delta,
            final(self).pending_segments == old(self).pending_segments,
            unchanged_but_progress(old(self), final(self)),
    {
        self.downloaded = self.downloaded + delta;
    }

    /// Record a `(downloaded, time)` pair for later speed estimation.
    pub fn set_speed_sample(&mut self, downloaded: u64, at_secs: i64)
        ensures
            final(self).last_sample == Some((downloaded, at_secs)),
            final(self).downloaded == old(self).downloaded,
            final(self).pending_segments == old(self).pending_segments,
            unchanged_but_progress(old(self), final(self)),
    {
        self.last_sample = Some((downloaded, at_secs));
    }

    /// Instantaneous rate: bytes gained since the last sample divided by the
    /// seconds elapsed, unknown without a sample or elapsed time.
    pub fn speed_bps(&self, now_secs: i64) -> (r: Option<u64>)
        ensures
            r == spec_speed_bps(self, now_secs),
    {
        match self.last_sample {
            None => None,
            Some((prev, at)) => {
                if now_secs <= at {
                    None
                } else {
                    assert(1 <= now_secs as int - at as int <= u64::MAX);
                    let elapsed: u64 = ((now_secs as i128) - (at as i128)) as u64;
                    let gained = if self.downloaded >= prev {
                        self.downloaded - prev
                    } else {
                        0
                    };
                    Some(gained / elapsed)
                }
            },
        }
    }
}

/// Bytes credited for a fetch of the head segment that returned `received`
/// bytes: the whole segment when enough arrived, else what did arrive.
pub open spec fn fetch_credit(seg: (u64, u64), received: u64) -> int {
    if received as int <= seg_len(seg) {
        received as int
    } else {
        seg_len(seg)
    }
}

/// The pending queue after a fetch of its head returned `received` bytes: the
/// head leaves when fully covered, else it shrinks to its unreceived tail.
pub open spec fn spec_queue_after_fetch(segs: Seq<(u64, u64)>, received: u64) -> Seq<(u64, u64)> {
    let seg = segs[0];
    if received as int >= seg_len(seg) {
        segs.drop_first()
    } else {
        seq![((seg.0 + received) as u64, seg.1)] + segs.drop_first()
    }
}

impl Task {
    /// Move the task into `Downloading` so a run can begin; refused unless it
    /// stands in `Pending` or `Paused`. Both `start` and `resume` come here.
    pub fn begin(&mut self) -> (r: Result<(), TaskError>)
        ensures
            old(self).status == TaskStatus::Pending || old(self).status == TaskStatus::Paused
                ==> {
                &&& r == Ok::<(), TaskError>(())
                &&& final(self).status == TaskStatus::Downloading
                &&& final(self).pending_segments == old(self).pending_segments
                &&& final(self).downloaded == old(self).downloaded
                &&& final(self).last_sample == old(self).last_sample
                &&& unchanged_but_status(old(self), final(self))
            },
            !(old(self).status == TaskStatus::Pending || old(self).status == TaskStatus::Paused)
                ==> r == Err::<(), TaskError>(TaskError::InvalidState) && *final(self) == *old(
                self,
            ),
            task_wf(old(self)) ==> task_wf(final(self)),
    {
        match self.status {
            TaskStatus::Pending | TaskStatus::Paused => {
                self.status = TaskStatus::Downloading;
                Ok(())
            },
            _ => Err(TaskError::InvalidState),
        }
    }

    /// Ask a downloading task to stop at the next range boundary: `Paused`
    /// when it was `Downloading`, a no-op in any other status.
    pub fn pause(&mut self)
        ensures
            old(self).status == TaskStatus::Downloading ==> {
                &&& final(self).status == TaskStatus::Paused
                &&& final(self).pending_segments == old(self).pending_segments
                &&& final(self).downloaded == old(self).downloaded
                &&& final(self).last_sample == old(self).last_sample
                &&& unchanged_but_status(old(self), final(self))
            },
            old(self).status != TaskStatus::Downloading ==> *final(self) == *old(self),
            task_wf(old(self)) ==> task_wf(final(self)),
    {
        if matches!(self.status, TaskStatus::Downloading) {
            self.status = TaskStatus::Paused;
        }
    }

    /// Mark the task `Cancelled`; workers observe this and exit.
    pub fn cancel(&mut self)
        ensures
            final(self).status == TaskStatus::Cancelled,
            final(self).pending_segments == old(self).pending_segments,
            final(self).downloaded == old(self).downloaded,
            final(self).last_sample == old(self).last_sample,
            unchanged_but_status(old(self), final(self)),
            task_wf(old(self)) ==> task_wf(final(self)),
    {
        self.status = TaskStatus::Cancelled;
    }

    /// Record a fetch failure: the task turns `Failed` with the message, and
    /// the range it was working on stays in the queue for a later resume.
    pub fn apply_fetch_failure(&mut self, message: String)
        ensures
            final(self).status == TaskStatus::Failed,
            final(self).error_message == Some(message),
            final(self).pending_segments == old(self).pending_segments,
            final(self).downloaded == old(self).downloaded,
            final(self).last_sample == old(self).last_sample,
            final(self).id == old(self).id,
            final(self).url == old(self).url,
            final(self).save_path == old(self).save_path,
            final(self).filename == old(self).filename,
            final(self).total_bytes == old(self).total_bytes,
            final(self).supports_range == old(self).supports_range,
            final(self).created_at == old(self).created_at,
            task_wf(old(self)) ==> task_wf(final(self)),
    {
        self.error_message = Some(message);
        self.status = TaskStatus::Failed;
    }

    /// Credit a successful fetch of the head segment that returned `received`
    /// bytes: the counter grows by what the segment actually gained, and the
    /// segment leaves the queue, or shrinks to its unreceived tail when the
    /// body came up short.
    pub fn apply_fetch_success(&mut self, received: u64)
        requires
            task_wf(old(self)),
            old(self).status == TaskStatus::Downloading,
            old(self).pending_segments@.len() > 0,
        ensures
            task_wf(final(self)),
            final(self).downloaded == old(self).downloaded + fetch_credit(
                old(self).pending_segments@[0],
                received,
            ),
            final(self).pending_segments@ == spec_queue_after_fetch(
                old(self).pending_segments@,
                received,
            ),
            final(self).last_sample == old(self).last_sample,
            unchanged_but_progress(old(self), final(self)),
    {
        proof {
            lemma_segs_total_at_least_len(self.pending_segments@.drop_first());
            assert(forall|i: int|
                0 <= i < self.pending_segments@.drop_first().len() ==> seg_wf(
                    #[trigger] self.pending_segments@.drop_first()[i],
                ));
        }
        let (start, end) = *self.pending_segments.get(0).unwrap();
        let ghost old_segs = self.pending_segments@;
        let len = end - start + 1;
        if received >= len {
            self.downloaded = self.downloaded + len;
            self.pending_segments.remove(0);
            proof {
                assert(self.pending_segments@ =~= old_segs.drop_first());
                assert(forall|i: int|
                    0 <= i < old_segs.drop_first().len() ==> #[trigger] old_segs.drop_first()[i]
                        == old_segs[i + 1]);
            }
        } else {
            self.downloaded = self.downloaded + received;
            self.pending_segments.remove(0);
            self.pending_segments.insert(0, (start + received, end));
            proof {
                let new_segs = self.pending_segments@;
                assert(new_segs =~= seq![((start + received) as u64, end)]
                    + old_segs.drop_first());
                assert(new_segs[0] == ((start + received) as u64, end));
                assert(new_segs.drop_first() =~= old_segs.drop_first());
                assert(segs_total(new_segs) == seg_len(new_segs[0]) + segs_total(
                    old_segs.drop_first(),
                ));
                assert(forall|i: int|
                    0 <= i < old_segs.drop_first().len() ==> #[trigger] old_segs.drop_first()[i]
                        == old_segs[i + 1]);
            }
        }
    }

    /// Reap a finished run: a task still `Downloading` with nothing pending
    /// becomes `Completed`; says whether that happened.
    pub fn finish_run(&mut self) -> (completed: bool)
        ensures
            completed == (old(self).status == TaskStatus::Downloading && old(
                self,
            ).pending_segments@.len() == 0),
            completed ==> {
                &&& final(self).status == TaskStatus::Completed
                &&& final(self).pending_segments == old(self).pending_segments
                &&& final(self).downloaded == old(self).downloaded
                &&& final(self).last_sample == old(self).last_sample
                &&& unchanged_but_status(old(self), final(self))
            },
            !completed ==> *final(self) == *old(self),
            task_wf(old(self)) ==> task_wf(final(self)),
    {
        if matches!(self.status, TaskStatus::Downloading) && self.pending_segments.len() == 0 {
            self.status = TaskStatus::Completed;
            true
        } else {
            false
        }
    }

    /// Whether the whole task state satisfies [`task_wf`].
    pub fn is_well_formed(&self) -> (r: bool)
        ensures
            r == task_wf(self),
    {
        let n = self.pending_segments.len();
        let mut i: usize = 0;
        while i < n
            invariant
                0 <= i <= n,
                n == self.pending_segments@.len(),
                forall|j: int|
                    0 <= j < i as int ==> seg_wf(#[trigger] self.pending_segments@[j]) && (j
                        < n as int - 1 ==> self.pending_segments@[j].1 < self.pending_segments@[j
                        + 1].0) && (self.total_bytes is Some ==> self.pending_segments@[j].1
                        < self.total_bytes->0),
            decreases n - i,
        {
            let (start, end) = *self.pending_segments.get(i).unwrap();
            if start > end {
                return false;
            }
            if i + 1 < n {
                let (nstart, _nend) = *self.pending_segments.get(i + 1).unwrap();
                if end >= nstart {
                    return false;
                }
            }
            match self.total_bytes {
                Some(t) => {
                    if end >= t {
                        return false;
                    }
                },
                None => {},
            }
            i = i + 1;
        }
        let mut sum: u128 = 0;
        i = 0;
        while i < n
            invariant
                0 <= i <= n,
                n == self.pending_segments@.len(),
                forall|j: int| 0 <= j < n as int ==> seg_wf(#[trigger] self.pending_segments@[j]),
                sum == segs_total(self.pending_segments@.take(i as int)),
                sum <= i as int * (u64::MAX as int + 1),
            decreases n - i,
        {
            let (start, end) = *self.pending_segments.get(i).unwrap();
            proof {
                lemma_segs_total_take_one_more(self.pending_segments@, i as int);
                assert((i as int + 1) * (u64::MAX as int + 1) == i as int * (u64::MAX as int + 1)
                    + (u64::MAX as int + 1)) by (nonlinear_arith);
                vstd::arithmetic::mul::lemma_mul_inequality(
                    i as int + 1,
                    n as int,
                    u64::MAX as int + 1,
                );
                vstd::arithmetic::mul::lemma_mul_inequality(
                    n as int,
                    u64::MAX as int,
                    u64::MAX as int + 1,
                );
            }
            sum = sum + (end as u128 - start as u128 + 1);
            i = i + 1;
        }
        proof {
            assert(self.pending_segments@.take(n as int) =~= self.pending_segments@);
        }
        let counter_ok: bool = sum <= (u64::MAX - self.downloaded) as u128;
        let total_ok: bool = match self.total_bytes {
            Some(t) => self.downloaded as u128 + sum == t as u128,
            None => true,
        };
        let completed_ok: bool = !matches!(self.status, TaskStatus::Completed) || n == 0;
        counter_ok && total_ok && completed_ok
    }
}

/// How many workers a run may use: exactly one when the server lacks range
/// support, else the requested connection count (default
/// [`DEFAULT_CONNECTIONS`]) clamped between one and [`MAX_WORKERS`].
pub fn worker_count(supports_range: bool, max_connections: Option<usize>) -> (r: usize)
    ensures
        !supports_range ==> r == 1,
        supports_range ==> {
            let req = match max_connections {
                Some(m) => m as int,
                None => DEFAULT_CONNECTIONS as int,
            };
            r == (if req < 1 {
                1int
            } else if req > MAX_WORKERS as int {
                MAX_WORKERS as int
            } else {
                req
            })
        },
        1 <= r <= MAX_WORKERS,
{
    if !supports_range {
        return 1;
    }
    let req = match max_connections {
        Some(m) => m,
        None => DEFAULT_CONNECTIONS,
    };
    if req < 1 {
        1
    } else if req > MAX_WORKERS {
        MAX_WORKERS
    } else {
        req
    }
}

/// Whether a worker observing this status must exit instead of pulling the
/// next range.
pub fn worker_should_stop(status: TaskStatus) -> (r: bool)
    ensures
        r == (status == TaskStatus::Paused || status == TaskStatus::Cancelled || status
            == TaskStatus::Completed),
{
    matches!(status, TaskStatus::Paused | TaskStatus::Cancelled | TaskStatus::Completed)
}

/// `segs_total` of one more element of a prefix.
proof fn lemma_segs_total_take_one_more(segs: Seq<(u64, u64)>, i: int)
    requires
        0 <= i < segs.len(),
    ensures
        segs_total(segs.take(i + 1)) == segs_total(segs.take(i)) + seg_len(segs[i]),
    decreases i,
{
    if i == 0 {
        assert(segs.take(0) =~= Seq::<(u64, u64)>::empty());
        assert(segs.take(1).drop_first() =~= Seq::<(u64, u64)>::empty());
        assert(segs.take(1)[0] == segs[0]);
    } else {
        lemma_segs_total_take_one_more(segs.drop_first(), i - 1);
        assert(segs.take(i + 1).drop_first() =~= segs.drop_first().take(i));
        assert(segs.take(i).drop_first() =~= segs.drop_first().take(i - 1));
        assert(segs.take(i + 1)[0] == segs[0]);
        assert(segs.take(i)[0] == segs[0]);
        assert(segs.drop_first()[i - 1] == segs[i]);
    }
}

/// All fields except the status agree between two task values.
pub open spec fn unchanged_but_status(a: &Task, b: &Task) -> bool {
    &&& b.id == a.id
    &&& b.url == a.url
    &&& b.save_path == a.save_path
    &&& b.filename == a.filename
    &&& b.total_bytes == a.total_bytes
    &&& b.error_message == a.error_message
    &&& b.supports_range == a.supports_range
    &&& b.created_at == a.created_at
}

/// What `speed_bps` reports: unknown without a sample or when no time has
/// passed, else the byte gain over the elapsed seconds, saturating at zero
/// if the counter moved backwards.
pub open spec fn spec_speed_bps(t: &Task, now_secs: i64) -> Option<u64> {
    match t.last_sample {
        None => None,
        Some((prev, at)) => if now_secs <= at {
            None
        } else {
            let gained: u64 = if t.downloaded >= prev {
                (t.downloaded - prev) as u64
            } else {
                0u64
            };
            Some((gained as int / (now_secs - at)) as u64)
        },
    }
}

/// All fields except the pending queue agree between two task values.
pub open spec fn unchanged_but_queue(a: &Task, b: &Task) -> bool {
    &&& b.id == a.id
    &&& b.url == a.url
    &&& b.save_path == a.save_path
    &&& b.filename == a.filename
    &&& b.total_bytes == a.total_bytes
    &&& b.downloaded == a.downloaded
    &&& b.status == a.status
    &&& b.error_message == a.error_message
    &&& b.supports_range == a.supports_range
    &&& b.created_at == a.created_at
    &&& b.last_sample == a.last_sample
}

/// All fields except the byte counter, queue and speed sample agree.
pub open spec fn unchanged_but_progress(a: &Task, b: &Task) -> bool {
    &&& b.id == a.id
    &&& b.url == a.url
    &&& b.save_path == a.save_path
    &&& b.filename == a.filename
    &&& b.total_bytes == a.total_bytes
    &&& b.status == a.status
    &&& b.error_message == a.error_message
    &&& b.supports_range == a.supports_range
    &&& b.created_at == a.created_at
}

} // verus!
