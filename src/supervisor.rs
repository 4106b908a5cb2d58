use vstd::prelude::*;

use crate::job::Status;

verus! {

/// Seconds a timed-out job is given to exit after the graceful signal,
/// before it is killed.
pub const GRACEFUL_SHUTDOWN_SECS: u64 = 2;

/// A signal sent to a job's whole process group.
#[derive(Debug, Clone, Copy, PartialEq, Eq, Structural)]
pub enum GroupSignal {
    /// Graceful termination (`SIGTERM`).
    Terminate,
    /// Forceful kill (`SIGKILL`).
    Kill,
}

/// How a child process ended, as far as the operating system reports it.
#[derive(Debug, Clone, Copy, PartialEq, Eq, Structural)]
pub struct ExitInfo {
    /// The process exited normally with status zero.
    pub success: bool,
    /// The exit code, when the process exited rather than being killed.
    pub code: Option<i32>,
}

/// Where a supervisor stands while it waits.
#[derive(Debug, Clone, Copy, PartialEq, Eq, Structural)]
pub enum Phase {
    /// Waiting for stop, timeout or exit.
    Watching,
    /// Timed out and signalled; waiting for stop, exit or the grace timer.
    Grace,
}

/// One of the three things a supervisor waits for.
#[derive(Debug, Clone, Copy, PartialEq, Eq, Structural)]
pub enum Event {
    /// The stop latch was set.
    Stop,
    /// The armed timer ran out: the job's timeout, or the grace period.
    Timer,
    /// The child exited; `None` when its status could not be read.
    Exit(Option<ExitInfo>),
}

/// How supervision of a job ended.
#[derive(Debug, Clone, Copy, PartialEq, Eq, Structural)]
pub enum Outcome {
    /// Stopped from outside; the stopper has written the record.
    Stopped,
    /// Killed after the timeout and the grace period.
    Timeout,
    /// The child exited by itself.
    Completed(Option<ExitInfo>),
}

/// What a supervisor does next.
#[derive(Debug, Clone, Copy, PartialEq, Eq, Structural)]
pub enum Step {
    /// Send the signal to the process group and wait on in the phase.
    Escalate(GroupSignal, Phase),
    /// Send the signal, if any, and end supervision with the outcome.
    Finish(Option<GroupSignal>, Outcome),
}

/// The event taken when several are ready at once: stop first, then the
/// timer, then the child's exit.
pub open spec fn spec_pick_event(stop: bool, timer: bool, exit: Option<Option<ExitInfo>>) -> Option<
    Event,
> {
    if stop {
        Some(Event::Stop)
    } else if timer {
        Some(Event::Timer)
    } else {
        match exit {
            Some(s) => Some(Event::Exit(s)),
            None => None,
        }
    }
}

/// A supervisor's transition: a stop ends it as `Stopped` in any phase; an
/// exit ends it as `Completed`; the timeout sends the graceful signal and
/// starts the grace period; the end of the grace period kills the group
/// and ends it as `Timeout`.
pub open spec fn spec_step(phase: Phase, ev: Event) -> Step {
    match ev {
        Event::Stop => Step::Finish(None, Outcome::Stopped),
        Event::Exit(s) => Step::Finish(None, Outcome::Completed(s)),
        Event::Timer => match phase {
            Phase::Watching => Step::Escalate(GroupSignal::Terminate, Phase::Grace),
            Phase::Grace => Step::Finish(Some(GroupSignal::Kill), Outcome::Timeout),
        },
    }
}

/// The record update an outcome calls for: none after a stop (the stopper
/// wrote it), `stopped` without a code after a timeout, and `completed` or
/// `failed` with the exit code after an exit.
pub open spec fn spec_final_update(o: Outcome) -> Option<(Status, Option<i32>)> {
    match o {
        Outcome::Stopped => None,
        Outcome::Timeout => Some((Status::Stopped, None)),
        Outcome::Completed(Some(e)) => if e.success {
            Some((Status::Completed, e.code))
        } else {
            Some((Status::Failed, e.code))
        },
        Outcome::Completed(None) => Some((Status::Failed, None)),
    }
}

/// Chooses among the events that are ready, by priority.
pub fn pick_event(stop: bool, timer: bool, exit: Option<Option<ExitInfo>>) -> (r: Option<Event>)
    ensures
        r == spec_pick_event(stop, timer, exit),
{
    if stop {
        Some(Event::Stop)
    } else if timer {
        Some(Event::Timer)
    } else {
        match exit {
            Some(s) => Some(Event::Exit(s)),
            None => None,
        }
    }
}

/// The next step of a supervisor in `phase` on event `ev`.
pub fn step(phase: Phase, ev: Event) -> (r: Step)
    ensures
        r == spec_step(phase, ev),
{
    match ev {
        Event::Stop => Step::Finish(None, Outcome::Stopped),
        Event::Exit(s) => Step::Finish(None, Outcome::Completed(s)),
        Event::Timer => match phase {
            Phase::Watching => Step::Escalate(GroupSignal::Terminate, Phase::Grace),
            Phase::Grace => Step::Finish(Some(GroupSignal::Kill), Outcome::Timeout),
        },
    }
}

/// Seconds the timer of a phase runs: the job's timeout while watching
/// (none without one), the grace period after it.
pub fn timer_secs(phase: Phase, timeout_secs: Option<u64>) -> (r: Option<u64>)
    ensures
        phase == Phase::Watching ==> r == timeout_secs,
        phase == Phase::Grace ==> r == Some(GRACEFUL_SHUTDOWN_SECS),
{
    match phase {
        Phase::Watching => timeout_secs,
        Phase::Grace => Some(GRACEFUL_SHUTDOWN_SECS),
    }
}

/// The status and exit code to record for an outcome, if any.
pub fn final_update(o: Outcome) -> (r: Option<(Status, Option<i32>)>)
    ensures
        r == spec_final_update(o),
        r matches Some((s, _)) ==> s.spec_is_terminal(),
{
    match o {
        Outcome::Stopped => None,
        Outcome::Timeout => Some((Status::Stopped, None)),
        Outcome::Completed(Some(e)) => if e.success {
            Some((Status::Completed, e.code))
        } else {
            Some((Status::Failed, e.code))
        },
        Outcome::Completed(None) => Some((Status::Failed, None)),
    }
}

/// The process group to signal for a recorded pid, and the signal: none for
/// pid 0, which would name the daemon's own group, nor for a value that is
/// no process id.
pub fn group_target(pid: u32, force: bool) -> (r: Option<(i32, GroupSignal)>)
    ensures
        (pid == 0 || pid > i32::MAX) ==> r is None,
        (0 < pid <= i32::MAX) ==> r == Some((pid as i32, if force {
            GroupSignal::Kill
        } else {
            GroupSignal::Terminate
        })),
{
    if pid == 0 || pid > i32::MAX as u32 {
        None
    } else {
        let sig = if force {
            GroupSignal::Kill
        } else {
            GroupSignal::Terminate
        };
        Some((pid as i32, sig))
    }
}

/// Relies on `nix::sys::signal::killpg`: sends the signal to every process
/// in group `pgid`. Delivery is not reported.
#[verifier::external_body]
fn send_group_signal(pgid: i32, sig: GroupSignal)
    requires
        pgid > 0,
{
    let s = match sig {
        GroupSignal::Terminate => nix::sys::signal::Signal::SIGTERM,
        GroupSignal::Kill => nix::sys::signal::Signal::SIGKILL,
    };
    let _ = nix::sys::signal::killpg(nix::unistd::Pid::from_raw(pgid), s);
}

/// Signals the whole process group led by `pid`: forcefully when `force`,
/// else gracefully. Pid 0 is never signalled.
pub fn kill_process_group(pid: u32, force: bool) {
    if let Some((pgid, sig)) = group_target(pid, force) {
        send_group_signal(pgid, sig);
    }
}

} // verus!
