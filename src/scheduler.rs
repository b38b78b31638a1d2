//! Periodic tasks with at-most-one-in-flight semantics.
//!
//! Time is a monotonic count of milliseconds kept by the caller. A task is
//! ready when no run of it is in flight and its deadline has passed; the
//! driver marks it busy when it dispatches it, and the run's returned delay
//! sets the next deadline when the run completes.
use vstd::prelude::*;

verus! {

/// What the scheduler knows of a task at one moment.
pub struct TaskState {
    pub next_time: u64,
    pub running: bool,
}

/// A task is ready when it is idle and its deadline has passed.
pub open spec fn ready_spec(s: TaskState, now: u64) -> bool {
    !s.running && now >= s.next_time
}

/// A job together with its schedule.
pub struct Task<J> {
    job: J,
    next_time: u64,
    running: bool,
}

impl<J> View for Task<J> {
    type V = TaskState;

    closed spec fn view(&self) -> TaskState {
        TaskState { next_time: self.next_time, running: self.running }
    }
}

impl<J> Task<J> {
    /// The job that the task runs.
    pub closed spec fn job_spec(&self) -> J {
        self.job
    }

    /// A task whose first run is due `period` milliseconds after `now`.
    pub fn new(job: J, period: u64, now: u64) -> (t: Self)
        requires
            now + period <= u64::MAX,
        ensures
            t@ == (TaskState { next_time: (now + period) as u64, running: false }),
            t.job_spec() == job,
    {
        Task { job, next_time: now + period, running: false }
    }

    /// Whether the task may be dispatched at `now`.
    pub fn ready(&self, now: u64) -> (r: bool)
        ensures
            r == ready_spec(self@, now),
    {
        !self.running && now >= self.next_time
    }

    /// Records that a run of the task is in flight.
    pub fn mark_as_busy(&mut self)
        ensures
            final(self)@ == (TaskState { running: true, ..old(self)@ }),
            final(self).job_spec() == old(self).job_spec(),
    {
        self.running = true;
    }

    /// Records the end of a run at `now` that asked to run again after
    /// `delay` milliseconds.
    pub fn finish_job(&mut self, now: u64, delay: u64)
        requires
            now + delay <= u64::MAX,
        ensures
            final(self)@ == (TaskState { next_time: (now + delay) as u64, running: false }),
            final(self).job_spec() == old(self).job_spec(),
    {
        self.next_time = now + delay;
        self.running = false;
    }

    /// One tick of the driver for the task: dispatches it (marks it busy
    /// and returns `true`) exactly when it is ready, and leaves it as it is
    /// otherwise.
    pub fn try_dispatch(&mut self, now: u64) -> (dispatched: bool)
        ensures
            dispatched == ready_spec(old(self)@, now),
            dispatched ==> final(self)@ == (TaskState { running: true, ..old(self)@ }),
            !dispatched ==> final(self)@ == old(self)@,
            final(self).job_spec() == old(self).job_spec(),
    {
        if self.ready(now) {
            self.mark_as_busy();
            true
        } else {
            false
        }
    }

    /// The job that the task runs.
    pub fn get_job(&self) -> (j: &J)
        ensures
            *j == self.job_spec(),
    {
        &self.job
    }
}

/// A task whose run is in flight is never ready, whatever the time.
pub proof fn lemma_running_task_not_ready(s: TaskState, now: u64)
    ensures
        s.running ==> !ready_spec(s, now),
{
}

/// A dispatched task is not dispatched again before its run finishes: after
/// a tick that dispatched it, no later tick does, until `finish_job`.
pub proof fn lemma_at_most_one_in_flight(s: TaskState, now: u64, later: u64)
    requires
        ready_spec(s, now),
    ensures
        !ready_spec(TaskState { running: true, ..s }, later),
{
}

/// Collects tasks and settings before the driver starts.
pub struct TaskSchedulerBuilder<J> {
    tasks: Vec<Task<J>>,
    n_workers: usize,
    period_resolution: u64,
}

impl<J> TaskSchedulerBuilder<J> {
    /// The tasks added so far, in order.
    pub closed spec fn tasks_spec(&self) -> Seq<Task<J>> {
        self.tasks@
    }

    /// The number of worker threads.
    pub closed spec fn n_workers_spec(&self) -> usize {
        self.n_workers
    }

    /// The driver's tick, in milliseconds.
    pub closed spec fn period_resolution_spec(&self) -> u64 {
        self.period_resolution
    }

    /// No tasks, four workers, a tick of one second.
    pub fn new() -> (b: Self)
        ensures
            b.tasks_spec().len() == 0,
            b.n_workers_spec() == 4,
            b.period_resolution_spec() == 1000,
    {
        TaskSchedulerBuilder { tasks: Vec::new(), n_workers: 4, period_resolution: 1000 }
    }

    /// Sets the number of worker threads.
    pub fn n_workers(self, cnt: usize) -> (b: Self)
        ensures
            b.n_workers_spec() == cnt,
            b.tasks_spec() == self.tasks_spec(),
            b.period_resolution_spec() == self.period_resolution_spec(),
    {
        let mut b = self;
        b.n_workers = cnt;
        b
    }

    /// Sets the driver's tick, in milliseconds.
    pub fn period_resolution(self, period: u64) -> (b: Self)
        ensures
            b.period_resolution_spec() == period,
            b.tasks_spec() == self.tasks_spec(),
            b.n_workers_spec() == self.n_workers_spec(),
    {
        let mut b = self;
        b.period_resolution = period;
        b
    }

    /// Adds a task after those already added.
    pub fn add_task(&mut self, task: Task<J>)
        ensures
            final(self).tasks_spec() == old(self).tasks_spec().push(task),
            final(self).n_workers_spec() == old(self).n_workers_spec(),
            final(self).period_resolution_spec() == old(self).period_resolution_spec(),
    {
        self.tasks.push(task);
    }

    /// Hands the tasks and settings to the driver.
    pub fn into_parts(self) -> (r: (Vec<Task<J>>, usize, u64))
        ensures
            r.0@ == self.tasks_spec(),
            r.1 == self.n_workers_spec(),
            r.2 == self.period_resolution_spec(),
    {
        (self.tasks, self.n_workers, self.period_resolution)
    }
}

} // verus!
