//! The worker: drains the task stream and tracks what it did.
//!
//! The worker observes tasks in the order the channel delivers them.
//! Copies below a size threshold go through one whole-file copy; larger
//! ones are streamed in bounded chunks, whose sizes `next_chunk_len`
//! fixes so that the chunks exactly cover the file. The worker switches
//! into delete mode when the first delete task arrives and never
//! switches back; a task failure is recorded and never stops the run.

use vstd::prelude::*;

use crate::counters::sat_add;
use crate::scanner::copies_before_deletes;
use crate::tasks::{Task, TaskV};

verus! {

/// Size of one streamed-copy chunk.
pub const COPY_CHUNK_BYTES: u64 = 4 * 1024 * 1024;

/// Largest file still copied in one whole-file operation; anything
/// larger is streamed chunk by chunk.
pub const WHOLE_COPY_MAX_BYTES: u64 = 50 * 1024 * 1024;

/// Whether a copy of this size is streamed in chunks rather than done
/// in one whole-file operation.
pub fn use_streamed_copy(bytes: u64) -> (r: bool)
    ensures
        r == (bytes > WHOLE_COPY_MAX_BYTES),
{
    bytes > WHOLE_COPY_MAX_BYTES
}

/// The size of the next chunk of a streamed copy: a full chunk while a
/// full chunk is left, the remainder at the end, zero exactly when the
/// whole file is covered. Repeated chunks therefore cover the file
/// completely and never overshoot.
pub fn next_chunk_len(total: u64, copied: u64) -> (r: u64)
    requires
        copied <= total,
    ensures
        r == if total - copied >= COPY_CHUNK_BYTES {
            COPY_CHUNK_BYTES as int
        } else {
            total - copied
        },
        copied + r <= total,
        r == 0 <==> copied == total,
{
    let left = total - copied;
    if left >= COPY_CHUNK_BYTES {
        COPY_CHUNK_BYTES
    } else {
        left
    }
}

/// What the worker has done so far in one run.
#[derive(Clone, PartialEq, Eq, Debug)]
pub struct WorkerState {
    /// Set by the first delete task, never cleared: the copy phase is
    /// over and the progress display switches once.
    pub is_delete_step: bool,
    /// Delete tasks processed; a failed removal still counts, as the
    /// run tolerates it.
    pub deleted_count: u64,
    /// Copy tasks that failed; the run goes on regardless.
    pub failed_count: u64,
}

/// The state after observing one task with the given outcome.
pub open spec fn worker_step_spec(s: WorkerState, t: TaskV, ok: bool) -> WorkerState {
    match t {
        TaskV::Copy(_) => WorkerState {
            failed_count: if ok {
                s.failed_count
            } else {
                sat_add(s.failed_count as int, 1) as u64
            },
            ..s
        },
        TaskV::Delete(_) => WorkerState {
            is_delete_step: true,
            deleted_count: sat_add(s.deleted_count as int, 1) as u64,
            ..s
        },
    }
}

impl WorkerState {
    /// The state at the start of a run: copy mode, nothing done.
    pub fn new() -> (r: WorkerState)
        ensures
            r == (WorkerState { is_delete_step: false, deleted_count: 0u64, failed_count: 0u64 }),
    {
        WorkerState { is_delete_step: false, deleted_count: 0, failed_count: 0 }
    }

    /// Records one observed task. Delete mode is entered by the first
    /// delete task and never left; a copy task never enters it.
    pub fn observe(&mut self, task: &Task, ok: bool)
        ensures
            *final(self) == worker_step_spec(*old(self), task@, ok),
            final(self).is_delete_step == (old(self).is_delete_step || task@ is Delete),
    {
        match task {
            Task::Copy(_) => {
                if !ok {
                    self.failed_count = self.failed_count.saturating_add(1);
                }
            },
            Task::Delete(_) => {
                self.is_delete_step = true;
                self.deleted_count = self.deleted_count.saturating_add(1);
            },
        }
    }
}

/// Whether the stream holds a delete task.
pub open spec fn delete_seen(tasks: Seq<TaskV>) -> bool {
    exists|k: int| 0 <= k < tasks.len() && !(#[trigger] tasks[k]).is_copy()
}

/// In a stream with all copies first, every copy task stands strictly
/// before every delete task: the worker observes it earlier.
pub proof fn lemma_copy_observed_before_delete(tasks: Seq<TaskV>, i: int, j: int)
    requires
        copies_before_deletes(tasks),
        0 <= i < tasks.len(),
        0 <= j < tasks.len(),
        tasks[i].is_copy(),
        !tasks[j].is_copy(),
    ensures
        i < j,
{
    if j < i {
        assert(tasks[j].is_copy());
    }
}

/// In a stream with all copies first, a worker that starts in copy mode
/// is still in copy mode when it reaches any copy task: the mode
/// switches exactly once, at the first delete.
pub proof fn lemma_copy_mode_until_first_delete(tasks: Seq<TaskV>, i: int)
    requires
        copies_before_deletes(tasks),
        0 <= i < tasks.len(),
        tasks[i].is_copy(),
    ensures
        !delete_seen(tasks.take(i)),
{
    assert forall|k: int| 0 <= k < i implies (#[trigger] tasks.take(i)[k]).is_copy() by {
        assert(tasks.take(i)[k] == tasks[k]);
        assert(tasks[i].is_copy() && k < i);
        assert(tasks[k].is_copy());
    }
}

} // verus!
