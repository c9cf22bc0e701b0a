//! The bookkeeping of a task: its id, how often it ran, whether it is
//! scheduled, whether its future has finished, and the last error it met. The
//! future itself is held by the executor around it, which polls it when the
//! task still has one and hands the outcome over.
use vstd::prelude::*;
use crate::error::IoError;

verus! {

/// A task's bookkeeping.
pub struct Task {
    id: usize,
    run_count: usize,
    last_poll: u64,
    scheduled: bool,
    finished: bool,
    last_error: Option<IoError>,
}

/// A snapshot of a task's bookkeeping.
#[derive(Debug)]
pub struct TaskStatus {
    pub id: usize,
    pub run_count: usize,
    pub last_poll: u64,
    pub is_scheduled: bool,
    pub last_error: Option<String>,
}

/// The outcome of running a task once.
#[derive(Debug, Clone, Copy, PartialEq, Eq, Structural)]
pub enum Poll {
    Ready,
    Pending,
}

/// A task's bookkeeping as values: id, run count, time of the last run,
/// whether it is scheduled, and the message of the last error.
pub type TaskState = (usize, usize, u64, bool, Option<Seq<char>>);

/// A call that changes a task's bookkeeping.
pub enum TaskEvent {
    /// `record_poll` at the time.
    Polled(u64),
    /// `mark_scheduled` with the flag.
    Scheduled(bool),
    /// `record_error` with an error of the message.
    Failed(Seq<char>),
}

/// The bookkeeping of a task just created.
pub open spec fn fresh_task(id: usize, now: u64) -> TaskState {
    (id, 0, now, false, None)
}

/// The bookkeeping after one call.
pub open spec fn step_task(s: TaskState, e: TaskEvent) -> TaskState {
    match e {
        TaskEvent::Polled(now) => (s.0, if s.1 < usize::MAX { (s.1 + 1) as usize } else { s.1 }, now, s.3, s.4),
        TaskEvent::Scheduled(b) => (s.0, s.1, s.2, b, s.4),
        TaskEvent::Failed(m) => (s.0, s.1, s.2, s.3, Some(m)),
    }
}

/// The bookkeeping after the calls, in order.
pub open spec fn run_task(s: TaskState, es: Seq<TaskEvent>) -> TaskState
    decreases es.len(),
{
    if es.len() == 0 {
        s
    } else {
        step_task(run_task(s, es.drop_last()), es.last())
    }
}

/// How many of the calls record a run.
pub open spec fn poll_count(es: Seq<TaskEvent>) -> nat
    decreases es.len(),
{
    if es.len() == 0 {
        0
    } else {
        poll_count(es.drop_last()) + if es.last() is Polled {
            1nat
        } else {
            0nat
        }
    }
}

/// The flag of the last call that marks the task, `false` without one.
pub open spec fn last_schedule(es: Seq<TaskEvent>) -> bool
    decreases es.len(),
{
    if es.len() == 0 {
        false
    } else {
        match es.last() {
            TaskEvent::Scheduled(b) => b,
            _ => last_schedule(es.drop_last()),
        }
    }
}

/// The message of the last error recorded, if any.
pub open spec fn last_failure(es: Seq<TaskEvent>) -> Option<Seq<char>>
    decreases es.len(),
{
    if es.len() == 0 {
        None
    } else {
        match es.last() {
            TaskEvent::Failed(m) => Some(m),
            _ => last_failure(es.drop_last()),
        }
    }
}

/// After any calls on a new task, its status gives the task's id, the number
/// of runs recorded (held at the largest `usize`), the flag of the last call
/// that marked it (`false` if none) and the last error recorded (none if
/// none).
pub proof fn law_task_status(id: usize, now: u64, es: Seq<TaskEvent>)
    ensures
        run_task(fresh_task(id, now), es).0 == id,
        run_task(fresh_task(id, now), es).1 == if poll_count(es) < usize::MAX { poll_count(es) } else { usize::MAX as nat },
        run_task(fresh_task(id, now), es).3 == last_schedule(es),
        run_task(fresh_task(id, now), es).4 == last_failure(es),
    decreases es.len(),
{
    if es.len() > 0 {
        law_task_status(id, now, es.drop_last());
    }
}

/// The id that follows `id`: one more, wrapping to zero past the largest
/// `usize` as an atomic counter does.
pub open spec fn next_task_id(id: usize) -> usize {
    if id < usize::MAX { (id + 1) as usize } else { 0 }
}

/// The counter that hands out task ids, from zero, each one more than the one
/// before.
pub struct TaskIds {
    next: usize,
}

impl TaskIds {
    /// The id handed out next.
    pub closed spec fn spec_next(&self) -> usize {
        self.next
    }

    /// A counter that starts at zero.
    pub fn new() -> (r: Self)
        ensures
            r.spec_next() == 0,
    {
        TaskIds { next: 0 }
    }

    /// Hands out the next id.
    pub fn next_id(&mut self) -> (r: usize)
        ensures
            r == old(self).spec_next(),
            final(self).spec_next() == next_task_id(old(self).spec_next()),
    {
        let id = self.next;
        self.next = self.next.wrapping_add(1);
        proof {
            if id < usize::MAX {
                assert(self.next == id + 1);
            }
        }
        id
    }
}

/// Ids handed out one after another increase, until the counter wraps past the
/// largest `usize`: the `k`-th id from a counter at `start` is `start + k`.
pub open spec fn ids_from(start: usize, k: nat) -> usize
    decreases k,
{
    if k == 0 {
        start
    } else {
        next_task_id(ids_from(start, (k - 1) as nat))
    }
}

/// Before the counter wraps, the ids handed out are `start`, `start + 1`, ...,
/// so each is greater than every one before it.
pub proof fn law_task_ids_increase(start: usize, k: nat)
    requires
        start + k <= usize::MAX,
    ensures
        ids_from(start, k) == start + k,
        forall|j: nat| j < k ==> ids_from(start, j) < ids_from(start, k),
    decreases k,
{
    if k > 0 {
        law_task_ids_increase(start, (k - 1) as nat);
    }
}

impl Task {
    /// The task's bookkeeping as values.
    pub open spec fn spec_state(&self) -> TaskState {
        (self.spec_id(), self.spec_run_count(), self.spec_last_poll(), self.spec_scheduled(), self.spec_last_error())
    }

    /// The task's id.
    pub closed spec fn spec_id(&self) -> usize {
        self.id
    }

    /// How many times the task ran.
    pub closed spec fn spec_run_count(&self) -> usize {
        self.run_count
    }

    /// When the task last ran.
    pub closed spec fn spec_last_poll(&self) -> u64 {
        self.last_poll
    }

    /// Whether the task is scheduled.
    pub closed spec fn spec_scheduled(&self) -> bool {
        self.scheduled
    }

    /// Whether the task's future has finished (and was dropped).
    pub closed spec fn spec_finished(&self) -> bool {
        self.finished
    }

    /// The message of the last error, if any.
    pub closed spec fn spec_last_error(&self) -> Option<Seq<char>> {
        match self.last_error {
            Some(e) => Some(e.spec_message()),
            None => None,
        }
    }

    /// A task with a future, created at time `now`, under the next id of
    /// `ids`: not run, not scheduled, not finished, without error.
    pub fn new(ids: &mut TaskIds, now: u64) -> (r: Self)
        ensures
            r.spec_id() == old(ids).spec_next(),
            final(ids).spec_next() == next_task_id(old(ids).spec_next()),
            r.spec_run_count() == 0,
            r.spec_last_poll() == now,
            !r.spec_scheduled(),
            r.spec_last_error().is_none(),
            r.spec_state() == fresh_task(old(ids).spec_next(), now),
            !r.spec_finished(),
    {
        let id = ids.next_id();
        Task { id, run_count: 0, last_poll: now, scheduled: false, finished: false, last_error: None }
    }

    /// Marks the task scheduled or not.
    pub fn mark_scheduled(&mut self, scheduled: bool)
        ensures
            final(self).spec_scheduled() == scheduled,
            final(self).spec_state() == step_task(old(self).spec_state(), TaskEvent::Scheduled(scheduled)),
            final(self).spec_finished() == old(self).spec_finished(),
            final(self).spec_id() == old(self).spec_id(),
            final(self).spec_run_count() == old(self).spec_run_count(),
            final(self).spec_last_poll() == old(self).spec_last_poll(),
            final(self).spec_last_error() == old(self).spec_last_error(),
    {
        self.scheduled = scheduled;
    }

    /// Whether the task is scheduled.
    pub fn is_scheduled(&self) -> (r: bool)
        ensures
            r == self.spec_scheduled(),
    {
        self.scheduled
    }

    /// Records that the task ran at time `now` (the count stays at its maximum).
    pub fn record_poll(&mut self, now: u64)
        ensures
            final(self).spec_run_count() == if old(self).spec_run_count() < usize::MAX {
                old(self).spec_run_count() + 1
            } else {
                old(self).spec_run_count() as int
            },
            final(self).spec_last_poll() == now,
            final(self).spec_state() == step_task(old(self).spec_state(), TaskEvent::Polled(now)),
            final(self).spec_finished() == old(self).spec_finished(),
            final(self).spec_id() == old(self).spec_id(),
            final(self).spec_scheduled() == old(self).spec_scheduled(),
            final(self).spec_last_error() == old(self).spec_last_error(),
    {
        self.run_count = self.run_count.saturating_add(1);
        self.last_poll = now;
    }

    /// Records the last error the task met.
    pub fn record_error(&mut self, error: IoError)
        ensures
            final(self).spec_last_error() == Some(error.spec_message()),
            final(self).spec_state() == step_task(old(self).spec_state(), TaskEvent::Failed(error.spec_message())),
            final(self).spec_finished() == old(self).spec_finished(),
            final(self).spec_id() == old(self).spec_id(),
            final(self).spec_run_count() == old(self).spec_run_count(),
            final(self).spec_last_poll() == old(self).spec_last_poll(),
            final(self).spec_scheduled() == old(self).spec_scheduled(),
    {
        self.last_error = Some(error);
    }

    /// Polls the task. A finished task is ready at once: its future is gone and
    /// is not polled, so `outcome` is not consulted. Otherwise `outcome` is what
    /// polling its future gave: ready drops the future, which finishes the
    /// task; pending keeps it. The bookkeeping is not changed.
    pub fn poll(&mut self, outcome: Poll) -> (r: Poll)
        ensures
            r == if old(self).spec_finished() { Poll::Ready } else { outcome },
            final(self).spec_finished() == (old(self).spec_finished() || outcome == Poll::Ready),
            final(self).spec_state() == old(self).spec_state(),
    {
        if self.finished {
            return Poll::Ready;
        }
        if outcome == Poll::Ready {
            self.finished = true;
        }
        outcome
    }

    /// Wakes the task. A task already scheduled is left alone (`None`). Without
    /// a scheduler the error "Attempted to wake task with uninitialized
    /// scheduler" is recorded (`None`). Otherwise the task is marked scheduled,
    /// a run at time `now` is recorded and the task is polled with `outcome`;
    /// when that poll is ready the task is no longer scheduled. Handing a copy
    /// of the task to the scheduler is the caller's.
    pub fn wake(&mut self, has_scheduler: bool, outcome: Poll, now: u64) -> (r: Option<Poll>)
        ensures
            old(self).spec_scheduled() ==> r is None && *final(self) == *old(self),
            !old(self).spec_scheduled() && !has_scheduler ==> r is None && final(self).spec_state() == step_task(
                old(self).spec_state(),
                TaskEvent::Failed("Attempted to wake task with uninitialized scheduler"@),
            ) && final(self).spec_finished() == old(self).spec_finished(),
            !old(self).spec_scheduled() && has_scheduler ==> {
                let p = if old(self).spec_finished() { Poll::Ready } else { outcome };
                &&& r == Some(p)
                &&& final(self).spec_finished() == (old(self).spec_finished() || outcome == Poll::Ready)
                &&& final(self).spec_state() == step_task(
                    step_task(
                        step_task(old(self).spec_state(), TaskEvent::Scheduled(true)),
                        TaskEvent::Polled(now),
                    ),
                    TaskEvent::Scheduled(p == Poll::Pending),
                )
            },
    {
        if self.scheduled {
            return None;
        }
        if !has_scheduler {
            self.record_error(IoError::runtime_error("Attempted to wake task with uninitialized scheduler"));
            return None;
        }
        self.mark_scheduled(true);
        self.record_poll(now);
        let p = self.poll(outcome);
        if p == Poll::Ready {
            self.mark_scheduled(false);
        }
        Some(p)
    }

    /// A snapshot of the task's bookkeeping.
    pub fn status(&self) -> (r: TaskStatus)
        ensures
            r.id == self.spec_id(),
            r.run_count == self.spec_run_count(),
            r.last_poll == self.spec_last_poll(),
            r.is_scheduled == self.spec_scheduled(),
            match (r.last_error, self.spec_last_error()) {
                (Some(a), Some(b)) => a@ == b,
                (None, None) => true,
                _ => false,
            },
    {
        TaskStatus {
            id: self.id,
            run_count: self.run_count,
            last_poll: self.last_poll,
            is_scheduled: self.scheduled,
            last_error: match &self.last_error {
                Some(e) => Some(e.to_string()),
                None => None,
            },
        }
    }
}

} // verus!
