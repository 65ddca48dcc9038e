//! The bounded task channel between scanner and worker.
//!
//! A fixed-capacity FIFO queue of tasks, backed by a crossbeam bounded
//! channel. Sending into a full channel is ruled out by contract: the
//! caller drains first, which is the backpressure the design asks for.
//! `pump_through_channel` shows the channel preserves the task stream
//! exactly: what the worker side drains is what the scanner side sent,
//! in the same order.

use vstd::prelude::*;

use crate::tasks::Task;

verus! {

/// A bounded FIFO channel of tasks, holding both endpoints.
#[verifier::external_body]
pub struct TaskChannel {
    tx: crossbeam::channel::Sender<Task>,
    rx: crossbeam::channel::Receiver<Task>,
}

/// The tasks the channel holds, oldest first.
pub uninterp spec fn channel_tasks(ch: TaskChannel) -> Seq<Task>;

/// The capacity the channel was created with.
pub uninterp spec fn channel_bound(ch: TaskChannel) -> nat;

/// The largest capacity a channel is created with here; well below the
/// point where the channel's index arithmetic would refuse it.
pub const MAX_CHANNEL_BOUND: usize = 0x1000_0000;

impl TaskChannel {
    /// Relies on `crossbeam::channel::bounded`: for a positive capacity
    /// that its index arithmetic accepts, it returns the two ends of an
    /// empty FIFO channel that holds at most `cap` messages.
    #[verifier::external_body]
    pub(crate) fn new(cap: usize) -> (r: TaskChannel)
        requires
            1 <= cap <= MAX_CHANNEL_BOUND,
        ensures
            channel_tasks(r) == Seq::<Task>::empty(),
            channel_bound(r) == cap,
    {
        let (tx, rx) = crossbeam::channel::bounded(cap);
        TaskChannel { tx, rx }
    }

    /// Relies on `crossbeam::channel::Sender::try_send`: on a channel
    /// that is neither full nor disconnected it enqueues the message
    /// behind the ones already held.
    #[verifier::external_body]
    pub(crate) fn send(&mut self, t: Task)
        requires
            channel_tasks(*old(self)).len() < channel_bound(*old(self)),
        ensures
            channel_tasks(*final(self)) == channel_tasks(*old(self)).push(t),
            channel_bound(*final(self)) == channel_bound(*old(self)),
    {
        self.tx.try_send(t).unwrap();
    }

    /// Relies on `crossbeam::channel::Receiver::try_recv`: on a
    /// non-empty channel it dequeues the oldest message.
    #[verifier::external_body]
    pub(crate) fn recv(&mut self) -> (r: Task)
        requires
            channel_tasks(*old(self)).len() > 0,
        ensures
            channel_tasks(*old(self)) == seq![r] + channel_tasks(*final(self)),
            channel_bound(*final(self)) == channel_bound(*old(self)),
    {
        self.rx.try_recv().unwrap()
    }

    /// Relies on `crossbeam::channel::Receiver::len`: the number of
    /// messages the channel holds.
    #[verifier::external_body]
    pub(crate) fn len(&self) -> (r: usize)
        ensures
            r == channel_tasks(*self).len(),
    {
        self.rx.len()
    }
}

/// Runs a task stream through a bounded channel of capacity `cap`,
/// draining under backpressure whenever the channel is full, and
/// returns the drained stream: the very same tasks in the very same
/// order.
pub fn pump_through_channel(tasks: Vec<Task>, cap: usize) -> (out: Vec<Task>)
    requires
        1 <= cap <= MAX_CHANNEL_BOUND,
    ensures
        out@ == tasks@,
{
    let ghost all = tasks@;
    let mut ch = TaskChannel::new(cap);
    let mut out: Vec<Task> = Vec::new();
    let mut pending = tasks;
    while pending.len() > 0
        invariant
            cap >= 1,
            channel_bound(ch) == cap,
            channel_tasks(ch).len() <= cap,
            out@ + channel_tasks(ch) + pending@ == all,
        decreases pending@.len() * 2 + channel_tasks(ch).len(),
    {
        if ch.len() == cap {
            let t = ch.recv();
            out.push(t);
            proof {
                assert(out@ + channel_tasks(ch) + pending@ =~= all);
            }
        } else {
            let t = pending.remove(0);
            ch.send(t);
            proof {
                assert(out@ + channel_tasks(ch) + pending@ =~= all);
            }
        }
    }
    while ch.len() > 0
        invariant
            channel_bound(ch) == cap,
            out@ + channel_tasks(ch) == all,
        decreases channel_tasks(ch).len(),
    {
        let t = ch.recv();
        out.push(t);
        proof {
            assert(out@ + channel_tasks(ch) =~= all);
        }
    }
    proof {
        assert(out@ =~= all);
    }
    out
}

/// The whole pipeline in its sequential form: scans both trees, then
/// carries every planned task through the bounded channel. What comes
/// out is exactly the plan, and the worker side meets every copy task
/// before the first delete task.
pub fn run_pipeline(
    op: &crate::scanner::SyncOperation,
    source: &Vec<crate::tasks::FileEntry>,
    target: &Vec<crate::tasks::FileEntry>,
    counters: &mut crate::counters::Counters,
) -> (out: Vec<Task>)
    ensures
        out.deep_view() == crate::scanner::planned_copies(
            op@,
            source.deep_view(),
            target.deep_view(),
        ) + crate::scanner::planned_deletes(op@, source.deep_view(), target.deep_view()),
        crate::scanner::copies_before_deletes(out.deep_view()),
        crate::counters::counters_le(*old(counters), *final(counters)),
{
    let tasks = crate::scanner::plan_tasks(op, source, target, counters);
    let ghost planned = tasks.deep_view();
    let ghost planned_at = tasks@;
    let out = pump_through_channel(tasks, crate::CHANNEL_CAPACITY);
    proof {
        assert(out@ == planned_at);
        assert(out.deep_view().len() == out@.len());
        assert(planned.len() == planned_at.len());
        assert forall|k: int| 0 <= k < out@.len() implies out.deep_view()[k] == planned[k] by {
            assert(out.deep_view()[k] == out@[k]@);
            assert(planned[k] == planned_at[k]@);
        }
        assert(out.deep_view() =~= planned);
    }
    out
}

} // verus!
