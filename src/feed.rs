//! What every feed job decides after a run: how long until the next run,
//! and how the results of two sources combine.
use vstd::prelude::*;
use crate::scheduler::{Task, TaskSchedulerBuilder, TaskState};

verus! {

/// The periodic jobs of the service.
#[derive(Clone, Copy, Debug, PartialEq, Eq, Structural)]
pub enum Feed {
    ActiveFire,
    Cctv,
    FireEvent,
    Forecast,
    Wind,
    ReportMap,
    ShelterData,
    ShelterUpdate,
}

/// Seconds until a feed's next run, after a run that succeeded or failed:
/// a long period after success, a short one after failure.
pub open spec fn next_delay_spec(feed: Feed, success: bool) -> u64 {
    match feed {
        Feed::ActiveFire => if success { 900 } else { 60 },
        Feed::Cctv => 60,
        Feed::FireEvent => if success { 180 } else { 60 },
        Feed::Forecast => if success { 1800 } else { 60 },
        Feed::Wind => if success { 300 } else { 60 },
        Feed::ReportMap => if success { 30 } else { 2 },
        Feed::ShelterData => 300,
        Feed::ShelterUpdate => 3600,
    }
}

/// Seconds until a feed's next run (see [`next_delay_spec`]).
pub fn next_delay(feed: Feed, success: bool) -> (r: u64)
    ensures
        r == next_delay_spec(feed, success),
{
    match feed {
        Feed::ActiveFire => if success { 900 } else { 60 },
        Feed::Cctv => 60,
        Feed::FireEvent => if success { 180 } else { 60 },
        Feed::Forecast => if success { 1800 } else { 60 },
        Feed::Wind => if success { 300 } else { 60 },
        Feed::ReportMap => if success { 30 } else { 2 },
        Feed::ShelterData => 300,
        Feed::ShelterUpdate => 3600,
    }
}

/// A failed run is never followed by a longer wait than a successful one.
pub proof fn lemma_failure_retries_sooner(feed: Feed)
    ensures
        next_delay_spec(feed, false) <= next_delay_spec(feed, true),
{
}

/// The retry budget of a forecast run: larger for the first run at start-up.
pub fn forecast_retry_budget(initial: bool) -> (r: usize)
    ensures
        r == if initial { 16usize } else { 8usize },
{
    if initial {
        16
    } else {
        8
    }
}

/// The results of two sources, where either alone is enough: both
/// succeeded gives the first's items then the second's; one succeeded gives
/// its items; both failed gives the first's error.
pub fn merge_sources<T>(first: Result<Vec<T>, String>, second: Result<Vec<T>, String>) -> (r: Result<Vec<T>, String>)
    ensures
        match (first, second) {
            (Ok(a), Ok(b)) => r matches Ok(v) && v@ == a@ + b@,
            (Ok(a), Err(_)) => r matches Ok(v) && v@ == a@,
            (Err(_), Ok(b)) => r matches Ok(v) && v@ == b@,
            (Err(e), Err(_)) => r matches Err(x) && x@ == e@,
        },
{
    match (first, second) {
        (Ok(mut a), Ok(mut b)) => {
            let ghost a0 = a@;
            let ghost b0 = b@;
            a.append(&mut b);
            assert(a@ =~= a0 + b0);
            Ok(a)
        },
        (Ok(a), Err(_)) => Ok(a),
        (Err(_), Ok(b)) => Ok(b),
        (Err(e), Err(_)) => Err(e),
    }
}

/// The latest start time, in milliseconds, at which a job can still be
/// scheduled an hour ahead.
pub const MAX_START_TIME: u64 = 9223372036854775807;

/// What registering a feed's job does to the scheduler's task list: one
/// task added last, idle, due `delay` seconds after `now`.
pub open spec fn registered_spec<J>(
    before: Seq<Task<J>>,
    after: Seq<Task<J>>,
    job: J,
    now: u64,
    delay: u64,
) -> bool {
    &&& after.len() == before.len() + 1
    &&& after.drop_last() == before
    &&& after.last()@ == (TaskState { next_time: (now + delay * 1000) as u64, running: false })
    &&& after.last().job_spec() == job
}

/// Registers a feed's job: its first run comes after the delay that the
/// start-up run's outcome calls for (see [`next_delay_spec`]).
pub fn register_feed<J>(
    scheduler: &mut TaskSchedulerBuilder<J>,
    feed: Feed,
    job: J,
    first_run_ok: bool,
    now: u64,
)
    requires
        now <= MAX_START_TIME,
    ensures
        registered_spec(
            old(scheduler).tasks_spec(),
            final(scheduler).tasks_spec(),
            job,
            now,
            next_delay_spec(feed, first_run_ok),
        ),
        final(scheduler).n_workers_spec() == old(scheduler).n_workers_spec(),
        final(scheduler).period_resolution_spec() == old(scheduler).period_resolution_spec(),
{
    let delay = next_delay(feed, first_run_ok);
    scheduler.add_task(Task::new(job, delay * 1000, now));
    assert(scheduler.tasks_spec().drop_last() =~= old(scheduler).tasks_spec());
}

} // verus!
