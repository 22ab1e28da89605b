//! Basic data types of the engine: task status, byte-range segments, and the
//! static segmentation of a known total size into equal pieces.

use vstd::prelude::*;
use vstd::arithmetic::div_mod::{lemma_fundamental_div_mod, lemma_div_non_zero};
use vstd::arithmetic::mul::{lemma_mul_inequality, lemma_mul_is_distributive_add_other_way};

verus! {

/// Status of a download task over its lifetime.
#[derive(Clone, Copy, Debug, PartialEq, Eq, Structural)]
pub enum TaskStatus {
    Pending,
    Downloading,
    Paused,
    Completed,
    Failed,
    Cancelled,
}

/// Parameters for creating a task: source URL, destination directory, and an
/// optional filename overriding the derived one.
#[derive(Clone, Debug)]
pub struct CreateTaskInput {
    pub url: String,
    pub save_dir: String,
    pub filename: Option<String>,
}

/// Snapshot of one task for display: identity, progress and status.
#[derive(Clone, Debug)]
pub struct TaskInfo {
    pub id: String,
    pub url: String,
    pub filename: String,
    pub save_path: String,
    pub total_bytes: Option<u64>,
    pub downloaded_bytes: u64,
    pub status: TaskStatus,
    pub error_message: Option<String>,
    pub speed_bps: Option<u64>,
    pub created_at: i64,
}

/// Smallest piece a range is worth splitting into when refining segmentation.
pub const MIN_SEGMENT_SIZE: u64 = 64 * 1024;

/// Why a scheduler operation was refused.
#[derive(Clone, Copy, Debug, PartialEq, Eq, Structural)]
pub enum TaskError {
    /// No task with the given identifier exists.
    NotFound,
    /// The task's current status does not allow the operation.
    InvalidState,
    /// A task with the given identifier already exists.
    DuplicateId,
}

impl TaskError {
    /// A fixed human-readable text for the error.
    pub fn message(&self) -> (r: String)
        ensures
            r@ == (match self {
                TaskError::NotFound => "task not found"@,
                TaskError::InvalidState => "task status does not allow this operation"@,
                TaskError::DuplicateId => "task id already exists"@,
            }),
    {
        match self {
            TaskError::NotFound => String::from_str("task not found"),
            TaskError::InvalidState => String::from_str(
                "task status does not allow this operation",
            ),
            TaskError::DuplicateId => String::from_str("task id already exists"),
        }
    }
}

/// An inclusive byte range `(start, end)` is well formed when its bounds are
/// ordered.
pub open spec fn seg_wf(s: (u64, u64)) -> bool {
    s.0 <= s.1
}

/// Number of bytes an inclusive segment covers.
pub open spec fn seg_len(s: (u64, u64)) -> int {
    s.1 - s.0 + 1
}

/// Total number of bytes covered by a sequence of segments.
pub open spec fn segs_total(segs: Seq<(u64, u64)>) -> int
    decreases segs.len(),
{
    if segs.len() == 0 {
        0
    } else {
        seg_len(segs[0]) + segs_total(segs.drop_first())
    }
}

/// The segments cover exactly the byte range `[lo, hi]`, in order, without
/// gaps or overlaps: the first starts at `lo`, each next one starts right
/// after its predecessor ends, and the last ends at `hi`.
pub open spec fn segs_chain(segs: Seq<(u64, u64)>, lo: int, hi: int) -> bool
    decreases segs.len(),
{
    if segs.len() == 0 {
        lo == hi + 1
    } else {
        &&& segs[0].0 == lo
        &&& segs[0].0 <= segs[0].1
        &&& segs[0].1 <= hi
        &&& segs_chain(segs.drop_first(), segs[0].1 + 1, hi)
    }
}

/// A chain covering `[lo, hi]` covers exactly `hi - lo + 1` bytes.
pub proof fn lemma_chain_total(segs: Seq<(u64, u64)>, lo: int, hi: int)
    requires
        segs_chain(segs, lo, hi),
    ensures
        segs_total(segs) == hi - lo + 1,
    decreases segs.len(),
{
    if segs.len() > 0 {
        lemma_chain_total(segs.drop_first(), segs[0].1 + 1, hi);
    }
}

/// In a chain every segment is well formed and lies within `[lo, hi]`.
pub proof fn lemma_chain_bounds(segs: Seq<(u64, u64)>, lo: int, hi: int)
    requires
        segs_chain(segs, lo, hi),
    ensures
        forall|i: int| 0 <= i < segs.len() ==> lo <= #[trigger] segs[i].0 <= segs[i].1 <= hi,
    decreases segs.len(),
{
    if segs.len() > 0 {
        lemma_chain_bounds(segs.drop_first(), segs[0].1 + 1, hi);
        assert forall|i: int| 0 <= i < segs.len() implies lo <= #[trigger] segs[i].0 <= segs[i].1
            <= hi by {
            if i > 0 {
                assert(segs.drop_first()[i - 1] == segs[i]);
            }
        }
    }
}

/// Segments of a chain are pairwise disjoint: an earlier one ends strictly
/// before a later one starts.
pub proof fn lemma_chain_disjoint(segs: Seq<(u64, u64)>, lo: int, hi: int)
    requires
        segs_chain(segs, lo, hi),
    ensures
        forall|i: int, j: int|
            0 <= i < j < segs.len() ==> #[trigger] segs[i].1 < #[trigger] segs[j].0,
    decreases segs.len(),
{
    if segs.len() > 0 {
        lemma_chain_disjoint(segs.drop_first(), segs[0].1 + 1, hi);
        lemma_chain_bounds(segs.drop_first(), segs[0].1 + 1, hi);
        assert forall|i: int, j: int|
            0 <= i < j < segs.len() implies #[trigger] segs[i].1 < #[trigger] segs[j].0 by {
            if i > 0 {
                assert(segs.drop_first()[i - 1] == segs[i]);
                assert(segs.drop_first()[j - 1] == segs[j]);
            } else {
                assert(segs.drop_first()[j - 1] == segs[j]);
            }
        }
    }
}

/// Every byte of `[lo, hi]` lies in some segment of a chain covering it.
pub proof fn lemma_chain_covers(segs: Seq<(u64, u64)>, lo: int, hi: int, x: int)
    requires
        segs_chain(segs, lo, hi),
        lo <= x <= hi,
    ensures
        exists|i: int| 0 <= i < segs.len() && #[trigger] segs[i].0 <= x <= segs[i].1,
    decreases segs.len(),
{
    if segs[0].0 <= x <= segs[0].1 {
        assert(segs[0].0 <= x <= segs[0].1);
    } else {
        lemma_chain_covers(segs.drop_first(), segs[0].1 + 1, hi, x);
        let i = choose|i: int|
            0 <= i < segs.drop_first().len() && #[trigger] segs.drop_first()[i].0 <= x
                <= segs.drop_first()[i].1;
        assert(segs[i + 1].0 <= x <= segs[i + 1].1);
    }
}

/// Appending a segment that starts right after a chain ends extends the chain.
proof fn lemma_chain_push(segs: Seq<(u64, u64)>, lo: int, mid: int, s: (u64, u64), hi: int)
    requires
        segs_chain(segs, lo, mid),
        s.0 == mid + 1,
        s.0 <= s.1,
        s.1 == hi,
    ensures
        segs_chain(segs.push(s), lo, hi),
    decreases segs.len(),
{
    let p = segs.push(s);
    if segs.len() == 0 {
        assert(p[0] == s);
        assert(p.drop_first() =~= Seq::<(u64, u64)>::empty());
        assert(segs_chain(Seq::<(u64, u64)>::empty(), hi + 1, hi));
        assert(segs_chain(p, lo, hi));
    } else {
        assert(p[0] == segs[0]);
        lemma_chain_push(segs.drop_first(), segs[0].1 + 1, mid, s, hi);
        assert(p.drop_first() =~= segs.drop_first().push(s));
        assert(segs_chain(p, lo, hi));
    }
}

/// Split `[0, total - 1]` into `min(n, total)` contiguous pieces of
/// `total / min(n, total)` bytes each, the last absorbing the remainder.
/// Returns no segments when the total or the requested count is zero.
pub fn static_segments(total: u64, n: usize) -> (r: Vec<(u64, u64)>)
    ensures
        (total == 0 || n == 0) ==> r@.len() == 0,
        total > 0 && n > 0 ==> {
            let k = if n as int <= total as int { n as int } else { total as int };
            let chunk = total as int / k;
            &&& r@.len() == k
            &&& forall|i: int| #![trigger r@[i]]
                0 <= i < k ==> r@[i].0 == i * chunk && r@[i].1 == (
                if i == k - 1 {
                    total - 1
                } else {
                    (i + 1) * chunk - 1
                })
            &&& segs_chain(r@, 0, total as int - 1)
        },
{
    let mut segs: Vec<(u64, u64)> = Vec::new();
    if n == 0 || total == 0 {
        return segs;
    }
    let k: u64 = if n as u64 <= total {
        n as u64
    } else {
        total
    };
    let chunk: u64 = total / k;
    proof {
        lemma_div_non_zero(total as int, k as int);
        lemma_fundamental_div_mod(total as int, k as int);
    }
    let ghost gk = k as int;
    let ghost gchunk = chunk as int;
    let mut i: u64 = 0;
    while i < k
        invariant
            1 <= k <= total,
            gk == k as int,
            gchunk == total as int / gk,
            chunk as int == gchunk,
            1 <= chunk,
            gk * gchunk <= total as int,
            0 <= i <= k,
            segs@.len() == i as int,
            forall|j: int| #![trigger segs@[j]]
                0 <= j < i as int ==> segs@[j].0 == j * gchunk && segs@[j].1 == (
                if j == gk - 1 {
                    total - 1
                } else {
                    (j + 1) * gchunk - 1
                }),
            i < k ==> segs_chain(segs@, 0, i as int * gchunk - 1),
            i == k ==> segs_chain(segs@, 0, total as int - 1),
        decreases k - i,
    {
        proof {
            lemma_mul_inequality(i as int + 1, gk, gchunk);
            lemma_mul_is_distributive_add_other_way(gchunk, i as int, 1);
        }
        let start: u64 = i * chunk;
        let end: u64 = if i == k - 1 {
            total - 1
        } else {
            (i + 1) * chunk - 1
        };
        proof {
            if i as int == gk - 1 {
                lemma_mul_is_distributive_add_other_way(gchunk, gk - 1, 1);
                lemma_chain_push(segs@, 0, i as int * gchunk - 1, (start, end), total as int - 1);
            } else {
                lemma_chain_push(
                    segs@,
                    0,
                    i as int * gchunk - 1,
                    (start, end),
                    (i as int + 1) * gchunk - 1,
                );
            }
        }
        segs.push((start, end));
        i = i + 1;
    }
    segs
}

/// The status word a `download-finished` event carries: `completed` when the
/// run drained its queue, `failed` otherwise.
pub fn finished_event_status(completed: bool) -> (r: String)
    ensures
        r@ == (if completed {
            "completed"@
        } else {
            "failed"@
        }),
{
    if completed {
        String::from_str("completed")
    } else {
        String::from_str("failed")
    }
}

/// A freshly made identifier for a task.
///
/// Relies on `uuid::Uuid::new_v4` and its `Display` form: a random
/// version-4 UUID rendered as 36 hyphenated hexadecimal characters.
/// Nothing further is assumed of the value: callers treat collisions as
/// possible and check the identifier against the tasks they already hold.
#[verifier::external_body]
pub fn new_task_id() -> (r: String)
    ensures
        r@.len() == 36,
{
    uuid::Uuid::new_v4().to_string()
}

} // verus!
