use jb::daemon::{wait_response, wait_step, DaemonState, Dispatch, Request, Response, RunSpec, WaitStep};
use jb::job::{Job, Status};
use jb::store::Database;
use jb::supervisor::{ExitInfo, Outcome};

fn run_spec(command: &str, key: Option<&str>) -> RunSpec {
    RunSpec {
        command: command.to_string(),
        name: None,
        cwd: "/tmp".to_string(),
        project: "/tmp".to_string(),
        timeout_secs: None,
        context: None,
        idempotency_key: key.map(|k| k.to_string()),
    }
}

fn fresh_state() -> DaemonState {
    DaemonState::new(Database::new(), 1_000_000)
}

fn status_of(state: &mut DaemonState, id: &str) -> Job {
    match state.handle_request(Request::Status { id: id.to_string() }, 0, 1) {
        Dispatch::Reply(Response::Job(j)) => j,
        _ => panic!("no such job"),
    }
}

#[test]
fn happy_path_run_then_complete() {
    let mut state = fresh_state();
    let job = match state.handle_request(Request::Run(run_spec("echo hi", None)), 2_000_000, 1) {
        Dispatch::Supervise(Response::Job(j), k) => {
            assert_eq!(j.id, k.id);
            j
        }
        _ => panic!("run was not admitted"),
    };
    assert!(job.status == Status::Pending || job.status == Status::Running);
    assert_eq!(job.id.len(), 4);
    assert_eq!(job.command, "echo hi");
    assert_eq!(job.cwd, "/tmp");

    state.start_supervision(job.id.clone(), 4321, 2_100_000);
    let running = status_of(&mut state, &job.id);
    assert_eq!(running.status, Status::Running);
    assert_eq!(running.pid, Some(4321));
    assert_eq!(running.started_at, Some(2_100_000));
    assert_eq!(state.running_count(), 1);

    let exit = ExitInfo { success: true, code: Some(0) };
    state.finish_supervision(&job.id, Outcome::Completed(Some(exit)), 2_500_000);
    let done = status_of(&mut state, &job.id);
    assert_eq!(done.status, Status::Completed);
    assert_eq!(done.exit_code, Some(0));
    assert_eq!(done.finished_at, Some(2_500_000));
    assert_eq!(state.running_count(), 0);

    match wait_step(Some(done), 0, Some(1)) {
        WaitStep::Done(j) => assert_eq!(j.status, Status::Completed),
        _ => panic!("wait on a terminal job must end at once"),
    }
}

#[test]
fn failing_exit_is_recorded_as_failed() {
    let mut state = fresh_state();
    let job = match state.handle_request(Request::Run(run_spec("false", None)), 2, 1) {
        Dispatch::Supervise(Response::Job(j), _) => j,
        _ => panic!("run was not admitted"),
    };
    state.start_supervision(job.id.clone(), 55, 3);
    state.finish_supervision(&job.id, Outcome::Completed(Some(ExitInfo { success: false, code: Some(3) })), 4);
    let j = status_of(&mut state, &job.id);
    assert_eq!(j.status, Status::Failed);
    assert_eq!(j.exit_code, Some(3));
    let job2 = match state.handle_request(Request::Run(run_spec("kill -9 $$", None)), 5, 1) {
        Dispatch::Supervise(Response::Job(j), _) => j,
        _ => panic!("run was not admitted"),
    };
    state.start_supervision(job2.id.clone(), 56, 6);
    state.finish_supervision(&job2.id, Outcome::Completed(None), 7);
    let j2 = status_of(&mut state, &job2.id);
    assert_eq!(j2.status, Status::Failed);
    assert_eq!(j2.exit_code, None);
}

#[test]
fn idempotent_runs_share_one_job() {
    let mut state = fresh_state();
    let first = match state.handle_request(Request::Run(run_spec("echo one", Some("k1"))), 10, 1) {
        Dispatch::Supervise(Response::Job(j), _) => j,
        _ => panic!("first run was not admitted"),
    };
    let second = match state.handle_request(Request::Run(run_spec("echo two", Some("k1"))), 20, 1) {
        Dispatch::Reply(Response::Job(j)) => j,
        _ => panic!("second run must return the existing job without a supervisor"),
    };
    assert_eq!(first.id, second.id);
    assert_eq!(second.command, "echo one");
    assert_eq!(state.total_jobs(), 1);
}

#[test]
fn timeout_outcome_is_stopped_without_code() {
    let mut state = fresh_state();
    let mut spec = run_spec("sleep 60", None);
    spec.timeout_secs = Some(1);
    let job = match state.handle_request(Request::Run(spec), 10, 1) {
        Dispatch::Supervise(Response::Job(j), _) => j,
        _ => panic!("run was not admitted"),
    };
    assert_eq!(job.timeout_secs, Some(1));
    state.start_supervision(job.id.clone(), 999_999, 11);
    state.finish_supervision(&job.id, Outcome::Timeout, 3_500_000);
    let j = status_of(&mut state, &job.id);
    assert_eq!(j.status, Status::Stopped);
    assert_eq!(j.exit_code, None);
}

#[test]
fn stop_then_second_stop_is_not_running() {
    let mut state = fresh_state();
    let job = match state.handle_request(Request::Run(run_spec("sleep 5", None)), 10, 1) {
        Dispatch::Supervise(Response::Job(j), _) => j,
        _ => panic!("run was not admitted"),
    };
    // pid 0 is never signalled, so nothing outside the test is touched.
    state.start_supervision(job.id.clone(), 0, 11);
    match state.handle_request(Request::Stop { id: job.id.clone(), force: false }, 500_000, 1) {
        Dispatch::Stopped(id) => assert_eq!(id, job.id),
        _ => panic!("stop of a running job must succeed"),
    }
    state.finish_supervision(&job.id, Outcome::Stopped, 600_000);
    let j = status_of(&mut state, &job.id);
    assert_eq!(j.status, Status::Stopped);
    assert_eq!(j.finished_at, Some(500_000));
    match state.handle_request(Request::Stop { id: job.id.clone(), force: false }, 700_000, 1) {
        Dispatch::Reply(Response::Error(m)) => assert!(m.contains("not running")),
        _ => panic!("second stop must fail"),
    }
}

#[test]
fn stop_beats_a_late_exit() {
    let mut state = fresh_state();
    let job = match state.handle_request(Request::Run(run_spec("sleep 5", None)), 10, 1) {
        Dispatch::Supervise(Response::Job(j), _) => j,
        _ => panic!("run was not admitted"),
    };
    state.start_supervision(job.id.clone(), 0, 11);
    assert!(matches!(state.stop_job(&job.id, true, 20), Response::Ack));
    state.finish_supervision(&job.id, Outcome::Completed(Some(ExitInfo { success: true, code: Some(0) })), 30);
    let j = status_of(&mut state, &job.id);
    assert_eq!(j.status, Status::Stopped);
    assert_eq!(j.exit_code, None);
    match state.stop_job(&job.id, false, 40) {
        Response::Error(m) => assert_eq!(m, format!("Job {} is not running", job.id)),
        _ => panic!("no live supervisor is left"),
    }
}

#[test]
fn restart_interrupts_orphans() {
    let mut db = Database::new();
    let mut running = Job::new_at("r1r1".to_string(), "sleep 9".to_string(), "/".to_string(), "/".to_string(), 5);
    running.status = Status::Pending;
    db.insert(running).unwrap();
    db.update_started_at("r1r1", 77, 6);
    db.insert(Job::new_at("p1p1".to_string(), "true".to_string(), "/".to_string(), "/".to_string(), 7)).unwrap();
    let mut state = DaemonState::new(db, 9_000_000);
    let r = status_of(&mut state, "r1r1");
    let p = status_of(&mut state, "p1p1");
    assert_eq!(r.status, Status::Interrupted);
    assert_eq!(r.finished_at, Some(9_000_000));
    assert_eq!(p.status, Status::Interrupted);
    assert_eq!(p.finished_at, Some(9_000_000));
    assert_eq!(state.running_count(), 0);
}

#[test]
fn shutdown_interrupts_live_jobs() {
    let mut state = fresh_state();
    let job = match state.handle_request(Request::Run(run_spec("sleep 100", None)), 10, 1) {
        Dispatch::Supervise(Response::Job(j), _) => j,
        _ => panic!("run was not admitted"),
    };
    state.start_supervision(job.id.clone(), 0, 11);
    let drained = state.interrupt_running_jobs(50);
    assert_eq!(drained.len(), 1);
    assert_eq!(drained[0].id, job.id);
    assert_eq!(state.running_count(), 0);
    let j = status_of(&mut state, &job.id);
    assert_eq!(j.status, Status::Interrupted);
    assert_eq!(j.finished_at, Some(50));
}

#[test]
fn status_list_ping_wait_and_shutdown_requests() {
    let mut state = fresh_state();
    match state.handle_request(Request::Status { id: "nope".to_string() }, 0, 1) {
        Dispatch::Reply(Response::Error(m)) => assert_eq!(m, "Job not found: nope"),
        _ => panic!("missing job must be reported"),
    }
    for i in 0..3 {
        let _ = state.handle_request(Request::Run(run_spec(&format!("echo {i}"), None)), 10 + i, 1);
    }
    match state.handle_request(Request::List { status: Some("PENDING".to_string()), limit: Some(2) }, 0, 1) {
        Dispatch::Reply(Response::Jobs(v)) => {
            assert_eq!(v.len(), 2);
            assert_eq!(v[0].command, "echo 2");
        }
        _ => panic!("list must answer with jobs"),
    }
    match state.handle_request(Request::List { status: Some("unknown".to_string()), limit: None }, 0, 1) {
        Dispatch::Reply(Response::Jobs(v)) => assert_eq!(v.len(), 3),
        _ => panic!("list must answer with jobs"),
    }
    match state.handle_request(Request::Ping, 4_000_000, 4242) {
        Dispatch::Reply(Response::Pong { pid, uptime_secs, running_jobs, total_jobs }) => {
            assert_eq!(pid, 4242);
            assert_eq!(uptime_secs, 3);
            assert_eq!(running_jobs, 0);
            assert_eq!(total_jobs, 3);
        }
        _ => panic!("ping must answer with pong"),
    }
    match state.handle_request(Request::Wait { id: "ab".to_string(), timeout_secs: Some(4) }, 0, 1) {
        Dispatch::Wait(id, t) => {
            assert_eq!(id, "ab");
            assert_eq!(t, Some(4));
        }
        _ => panic!("wait is handed to the poller"),
    }
    assert!(matches!(state.handle_request(Request::Shutdown, 0, 1), Dispatch::Shutdown));
}

#[test]
fn wait_steps() {
    let pending = Job::new_at("w1".to_string(), "x".to_string(), "/".to_string(), "/".to_string(), 1);
    assert!(matches!(wait_step(None, 0, None), WaitStep::Missing));
    assert!(matches!(wait_step(Some(pending.clone()), 999, Some(1)), WaitStep::Poll));
    assert!(matches!(wait_step(Some(pending.clone()), 1000, Some(1)), WaitStep::TimedOut));
    assert!(matches!(wait_step(Some(pending), 1_000_000, None), WaitStep::Poll));
}

#[test]
fn uptime_counts_whole_seconds() {
    let state = fresh_state();
    assert_eq!(state.uptime_secs(3_999_999), 2);
    assert_eq!(state.uptime_secs(0), 0);
}

#[test]
fn admit_run_mints_from_draws() {
    let mut state = fresh_state();
    let draws = vec![vec![1, 2, 3, 4]];
    let a = state.admit_run(run_spec("echo a", None), 10, &draws).unwrap();
    assert!(a.created);
    assert_eq!(a.job.id, "1234");
    assert_eq!(a.job.status, Status::Pending);
    let again = state.admit_run(run_spec("echo b", None), 20, &draws);
    assert!(again.is_err());
    assert_eq!(state.total_jobs(), 1);
    let keyed = state.admit_run(run_spec("echo c", Some("k")), 30, &vec![vec![5, 5, 5, 5]]).unwrap();
    let repeat = state.admit_run(run_spec("echo d", Some("k")), 40, &Vec::new()).unwrap();
    assert!(!repeat.created);
    assert_eq!(repeat.job.id, keyed.job.id);
    assert_eq!(repeat.job.command, "echo c");
}

#[test]
fn spawn_failure_marks_the_job_failed() {
    let mut state = fresh_state();
    let job = match state.handle_request(Request::Run(run_spec("true", None)), 10, 1) {
        Dispatch::Supervise(Response::Job(j), _) => j,
        _ => panic!("run was not admitted"),
    };
    state.spawn_failed(&job.id, 20);
    let j = status_of(&mut state, &job.id);
    assert_eq!(j.status, Status::Failed);
    assert_eq!(j.exit_code, None);
    assert_eq!(j.finished_at, Some(20));
    assert_eq!(state.running_count(), 0);
}

#[test]
fn wait_responses() {
    match wait_response("ab12", WaitStep::Missing) {
        Some(Response::Error(m)) => assert_eq!(m, "Job not found: ab12"),
        _ => panic!("missing job must be reported"),
    }
    match wait_response("ab12", WaitStep::TimedOut) {
        Some(Response::Error(m)) => assert!(m.contains("timed out")),
        _ => panic!("timeout must be reported"),
    }
    assert!(wait_response("ab12", WaitStep::Poll).is_none());
}
