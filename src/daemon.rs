use vstd::prelude::*;

use crate::job::{Job, JobError, JobView, Status, status_named};
use crate::store::{
    Database, first_where, finish_row, has_id, key_is, key_taken, lookup, on_id, opt_view,
    recover_row, slot, start_row, valid_id, views, digit_draws, draws_view, draw_ids,
    first_fresh_id,
};
use crate::supervisor::{Outcome, final_update, kill_process_group, spec_final_update};
use crate::text::{copy_string, join2, join3, opt_str_view, str_eq};

verus! {

/// A job that has a live supervisor: its id and process-group leader.
#[derive(Debug)]
pub struct RunningJob {
    pub id: String,
    pub pid: u32,
}

pub open spec fn handle_views(v: Seq<RunningJob>) -> Seq<(Seq<char>, u32)> {
    v.map_values(|h: RunningJob| (h.id@, h.pid))
}

pub open spec fn handle_ids_unique(hs: Seq<(Seq<char>, u32)>) -> bool {
    forall|i: int, j: int|
        0 <= i < hs.len() && 0 <= j < hs.len() && i != j ==> (#[trigger] hs[i]).0 != (
        #[trigger] hs[j]).0
}

/// The pid of the live job `id`, if it has a supervisor.
pub open spec fn handle_pid(hs: Seq<(Seq<char>, u32)>, id: Seq<char>) -> Option<u32> {
    if exists|i: int| 0 <= i < hs.len() && (#[trigger] hs[i]).0 == id {
        Some(hs[choose|i: int| 0 <= i < hs.len() && (#[trigger] hs[i]).0 == id].1)
    } else {
        None
    }
}

/// `rows` after every job in `hs` is marked interrupted at `now`, in order.
pub open spec fn interrupt_all(rows: Seq<JobView>, hs: Seq<(Seq<char>, u32)>, now: i64) -> Seq<
    JobView,
>
    decreases hs.len(),
{
    if hs.len() == 0 {
        rows
    } else {
        on_id(
            interrupt_all(rows, hs.drop_last(), now),
            hs.last().0,
            finish_row(Status::Interrupted, None, now),
        )
    }
}

/// What a `Run` request brought about.
#[derive(Debug)]
pub struct Admission {
    /// The job record returned to the client.
    pub job: Job,
    /// Whether the job is new and needs a supervisor; `false` when an
    /// earlier job with the same idempotency key was returned instead.
    pub created: bool,
}

/// The parameters of a `Run` request.
pub struct RunSpec {
    pub command: String,
    pub name: Option<String>,
    pub cwd: String,
    pub project: String,
    pub timeout_secs: Option<u64>,
    pub context: Option<String>,
    pub idempotency_key: Option<String>,
}

/// The record a `Run` request creates under `id` at `now`.
pub open spec fn run_record(r: RunSpec, id: Seq<char>, now: i64) -> JobView {
    JobView {
        id: id,
        name: opt_str_view(r.name),
        command: r.command@,
        status: Status::Pending,
        project: r.project@,
        cwd: r.cwd@,
        pid: None,
        exit_code: None,
        created_at: now,
        started_at: None,
        finished_at: None,
        timeout_secs: r.timeout_secs,
        context: opt_str_view(r.context),
        idempotency_key: opt_str_view(r.idempotency_key),
    }
}

/// No row carries a well-formed minted id, so no draw can collide.
pub open spec fn no_valid_ids(rows: Seq<JobView>) -> bool {
    forall|i: int| 0 <= i < rows.len() ==> !valid_id(#[trigger] rows[i].id)
}

/// The text clients get when no fresh id could be minted.
pub open spec fn exhausted_text() -> Seq<char> {
    "Too many jobs - run `jb clean` to remove old jobs"@
}

/// The in-memory side of the daemon: the job store, the live supervisors
/// and the start time (microseconds since the epoch).
pub struct DaemonState {
    pub db: Database,
    pub running: Vec<RunningJob>,
    pub started_at: i64,
}

/// What the daemon does with one request.
pub enum Dispatch {
    /// Send the response.
    Reply(Response),
    /// Send the response, then start supervising the new job.
    Supervise(Response, Job),
    /// The job was stopped: wake its supervisor, then acknowledge.
    Stopped(String),
    /// Poll the job until it is terminal or the wait times out.
    Wait(String, Option<u64>),
    /// Acknowledge, then shut down.
    Shutdown,
}

/// A request from a client.
pub enum Request {
    Run(RunSpec),
    Stop { id: String, force: bool },
    Status { id: String },
    List { status: Option<String>, limit: Option<usize> },
    Wait { id: String, timeout_secs: Option<u64> },
    Ping,
    Shutdown,
}

/// A reply to a client.
#[derive(Debug)]
pub enum Response {
    Job(Job),
    Jobs(Vec<Job>),
    /// The request was carried out; there is nothing to return.
    Ack,
    Error(String),
    Pong { pid: u32, uptime_secs: u64, running_jobs: usize, total_jobs: usize },
}

/// One decision of a waiter polling a job.
#[derive(Debug)]
pub enum WaitStep {
    /// The job is terminal: answer with it.
    Done(Job),
    /// No such job.
    Missing,
    /// The wait ran out before the job ended.
    TimedOut,
    /// Poll again after the interval.
    Poll,
}

/// Milliseconds between two polls of a waiter.
pub const WAIT_POLL_MS: u64 = 100;

/// A waiter's decision on one poll: a terminal job ends the wait at once,
/// whatever time has passed; a missing job ends it; else it times out once
/// `elapsed_ms` reaches the timeout, and polls again otherwise.
pub fn wait_step(found: Option<Job>, elapsed_ms: u64, timeout_secs: Option<u64>) -> (r: WaitStep)
    ensures
        match found {
            None => r is Missing,
            Some(j) => if j.status.spec_is_terminal() {
                r matches WaitStep::Done(d) && d@ == j@
            } else {
                match timeout_secs {
                    Some(t) => if elapsed_ms as int >= t as int * 1000 {
                        r is TimedOut
                    } else {
                        r is Poll
                    },
                    None => r is Poll,
                }
            },
        },
{
    match found {
        None => WaitStep::Missing,
        Some(j) => {
            if j.status.is_terminal() {
                WaitStep::Done(j)
            } else {
                match timeout_secs {
                    Some(t) => {
                        if t > u64::MAX / 1000 || elapsed_ms < t * 1000 {
                            WaitStep::Poll
                        } else {
                            WaitStep::TimedOut
                        }
                    },
                    None => WaitStep::Poll,
                }
            }
        },
    }
}

/// The answer to a wait on job `id` that a poll decision ends, if it ends
/// the wait: the terminal record, `Job not found: <id>`, or `Wait timed out`.
pub fn wait_response(id: &str, step: WaitStep) -> (r: Option<Response>)
    ensures
        match step {
            WaitStep::Done(j) => r matches Some(Response::Job(x)) && x@ == j@,
            WaitStep::Missing => r matches Some(Response::Error(m)) && m@ == not_found_text(id@),
            WaitStep::TimedOut => r matches Some(Response::Error(m)) && m@ == "Wait timed out"@,
            WaitStep::Poll => r is None,
        },
{
    match step {
        WaitStep::Done(j) => Some(Response::Job(j)),
        WaitStep::Missing => Some(Response::Error(join2("Job not found: ", id))),
        WaitStep::TimedOut => Some(Response::Error("Wait timed out".to_owned())),
        WaitStep::Poll => None,
    }
}

fn find_handle(hs: &Vec<RunningJob>, id: &str) -> (r: Option<usize>)
    requires
        handle_ids_unique(handle_views(hs@)),
    ensures
        match r {
            Some(k) => k < hs@.len() && hs@[k as int].id@ == id@ && handle_pid(
                handle_views(hs@),
                id@,
            ) == Some(hs@[k as int].pid),
            None => handle_pid(handle_views(hs@), id@) is None,
        },
{
    let ghost v = handle_views(hs@);
    let mut i: usize = 0;
    while i < hs.len()
        invariant
            0 <= i <= hs@.len(),
            v == handle_views(hs@),
            handle_ids_unique(v),
            forall|k: int| 0 <= k < i ==> (#[trigger] hs@[k]).id@ != id@,
        decreases hs@.len() - i,
    {
        if str_eq(hs[i].id.as_str(), id) {
            proof {
                assert(v[i as int].0 == id@);
                let c = choose|c: int| 0 <= c < v.len() && (#[trigger] v[c]).0 == id@;
                assert(c == i);
            }
            return Some(i);
        }
        i = i + 1;
    }
    assert forall|k: int| 0 <= k < v.len() implies (#[trigger] v[k]).0 != id@ by {
        assert(v[k].0 == hs@[k].id@);
    }
    None
}

/// Fixed text of an error, for clients.
pub fn error_text(e: JobError) -> (r: &'static str)
    ensures
        r@ == match e {
            JobError::BadInput => "Invalid input"@,
            JobError::NotFound => "Job not found"@,
            JobError::Ambiguous => "Ambiguous job name"@,
            JobError::Conflict => "Job already exists"@,
            JobError::Exhausted => "Too many jobs - run `jb clean` to remove old jobs"@,
        },
{
    match e {
        JobError::BadInput => "Invalid input",
        JobError::NotFound => "Job not found",
        JobError::Ambiguous => "Ambiguous job name",
        JobError::Conflict => "Job already exists",
        JobError::Exhausted => "Too many jobs - run `jb clean` to remove old jobs",
    }
}

impl DaemonState {
    pub open spec fn wf(&self) -> bool {
        &&& self.db.wf()
        &&& handle_ids_unique(handle_views(self.running@))
    }

    /// The daemon's state at start: every pending or running record left by
    /// an earlier daemon is marked interrupted at `now`, and no job is live.
    pub fn new(db: Database, now: i64) -> (r: DaemonState)
        requires
            db.wf(),
        ensures
            r.wf(),
            r.db@ == db@.map_values(recover_row(now)),
            r.running@.len() == 0,
            r.started_at == now,
    {
        let mut db = db;
        db.recover_orphans_at(now);
        DaemonState { db, running: Vec::new(), started_at: now }
    }

    /// Whole seconds since the daemon started; 0 if the clock went back.
    pub fn uptime_secs(&self, now: i64) -> (r: u64)
        ensures
            now >= self.started_at ==> r == (now - self.started_at) / 1_000_000,
            now < self.started_at ==> r == 0,
    {
        if now >= self.started_at {
            let d = (now as i128 - self.started_at as i128) / 1_000_000;
            d as u64
        } else {
            0
        }
    }

    /// Number of jobs with a live supervisor.
    pub fn running_count(&self) -> (r: usize)
        ensures
            r == self.running@.len(),
    {
        self.running.len()
    }

    /// Number of records in the store.
    pub fn total_jobs(&self) -> (r: usize)
        requires
            self.wf(),
        ensures
            r == self.db@.len(),
    {
        self.db.len()
    }

    /// The record `get` finds for an id or id prefix.
    pub fn get_job(&self, id: &str) -> (r: Option<Job>)
        requires
            self.wf(),
        ensures
            opt_view(r) == lookup(self.db@, id@),
    {
        self.db.get(id)
    }

    /// Records in a status, newest first, cut to a limit.
    pub fn list_jobs(&self, status: Option<Status>, limit: Option<usize>) -> (r: Vec<Job>)
        requires
            self.wf(),
        ensures
            views(r@) == crate::store::first_n(
                crate::store::newest(self.db@, 0, crate::store::status_is(status)),
                limit,
            ),
    {
        self.db.list(status, limit)
    }

    /// Admits a `Run` request at time `now`, minting from the given draws.
    /// A request whose idempotency key an earlier job carries gets that job
    /// back and changes nothing. Otherwise the id of the first draw that no
    /// row carries is taken and a pending record inserted under it; when
    /// every draw collides the store is unchanged and the error is
    /// `Exhausted`.
    pub fn admit_run(&mut self, req: RunSpec, now: i64, draws: &Vec<Vec<u64>>) -> (r: Result<
        Admission,
        JobError,
    >)
        requires
            old(self).wf(),
            digit_draws(draws_view(draws@)),
        ensures
            final(self).wf(),
            final(self).running@ == old(self).running@,
            final(self).started_at == old(self).started_at,
            match opt_str_view(req.idempotency_key) {
                Some(k) if first_where(old(self).db@, 0, key_is(k)) is Some => r matches Ok(a)
                    && !a.created && Some(a.job@) == first_where(old(self).db@, 0, key_is(k))
                    && final(self).db@ == old(self).db@,
                _ => match first_fresh_id(old(self).db@, draws_view(draws@)) {
                    Some(id) => {
                        &&& valid_id(id)
                        &&& !has_id(old(self).db@, id)
                        &&& r matches Ok(a)
                        &&& a.created
                        &&& a.job@ == run_record(req, id, now)
                        &&& final(self).db@ == old(self).db@.insert(slot(old(self).db@, now), a.job@)
                    },
                    None => r == Err::<Admission, JobError>(JobError::Exhausted) && final(self).db@
                        == old(self).db@,
                },
            },
    {
        let ghost rows = self.db@;
        let ghost key = opt_str_view(req.idempotency_key);
        proof {
            crate::store::lemma_first_fresh_valid(rows, draws_view(draws@));
        }
        if let Some(k) = &req.idempotency_key {
            if let Some(existing) = self.db.get_by_idempotency_key(k.as_str()) {
                return Ok(Admission { job: existing, created: false });
            }
        }
        proof {
            if key_taken(rows, key) {
                let m = choose|m: int| 0 <= m < rows.len() && (#[trigger] rows[m]).idempotency_key == key;
                crate::store::lemma_first_where_some(rows, 0, m, key_is(key->0));
            }
        }
        let id = match self.db.first_fresh(draws) {
            Ok(id) => id,
            Err(e) => return Err(e),
        };
        let RunSpec { command, name, cwd, project, timeout_secs, context, idempotency_key } = req;
        let job = Job {
            id,
            name,
            command,
            status: Status::Pending,
            project,
            cwd,
            pid: None,
            exit_code: None,
            created_at: now,
            started_at: None,
            finished_at: None,
            timeout_secs,
            context,
            idempotency_key,
        };
        let reply = job.snapshot();
        match self.db.insert(job) {
            Ok(()) => Ok(Admission { job: reply, created: true }),
            Err(e) => Err(e),
        }
    }

    /// Admits a `Run` request at time `now`, minting the id from fresh
    /// random draws (see `admit_run`). Admission can fail only with
    /// `Exhausted`, and cannot fail when no row carries a well-formed id.
    pub fn spawn_job_at(&mut self, req: RunSpec, now: i64) -> (r: Result<Admission, JobError>)
        requires
            old(self).wf(),
        ensures
            final(self).wf(),
            final(self).running@ == old(self).running@,
            final(self).started_at == old(self).started_at,
            match opt_str_view(req.idempotency_key) {
                Some(k) if first_where(old(self).db@, 0, key_is(k)) is Some => r matches Ok(a)
                    && !a.created && Some(a.job@) == first_where(old(self).db@, 0, key_is(k))
                    && final(self).db@ == old(self).db@,
                _ => match r {
                    Ok(a) => {
                        &&& a.created
                        &&& a.job@ == run_record(req, a.job@.id, now)
                        &&& valid_id(a.job@.id)
                        &&& !has_id(old(self).db@, a.job@.id)
                        &&& final(self).db@ == old(self).db@.insert(slot(old(self).db@, now), a.job@)
                    },
                    Err(e) => e == JobError::Exhausted && final(self).db@ == old(self).db@,
                },
            },
            no_valid_ids(old(self).db@) ==> r is Ok,
    {
        let draws = draw_ids();
        self.admit_run(req, now, &draws)
    }

    /// Admits a `Run` request now; see `spawn_job_at`.
    pub fn spawn_job(&mut self, req: RunSpec) -> (r: Result<Admission, JobError>)
        requires
            old(self).wf(),
        ensures
            final(self).wf(),
            final(self).running@ == old(self).running@,
            match opt_str_view(req.idempotency_key) {
                Some(k) if first_where(old(self).db@, 0, key_is(k)) is Some => r matches Ok(a)
                    && !a.created && Some(a.job@) == first_where(old(self).db@, 0, key_is(k))
                    && final(self).db@ == old(self).db@,
                _ => match r {
                    Ok(a) => {
                        &&& a.created
                        &&& valid_id(a.job@.id)
                        &&& !has_id(old(self).db@, a.job@.id)
                        &&& exists|now: i64|
                            a.job@ == run_record(req, a.job@.id, now) && final(self).db@
                                == old(self).db@.insert(slot(old(self).db@, now), a.job@)
                    },
                    Err(e) => e == JobError::Exhausted && final(self).db@ == old(self).db@,
                },
            },
            no_valid_ids(old(self).db@) ==> r is Ok,
    {
        let now = crate::clock::now_micros();
        self.spawn_job_at(req, now)
    }

    /// A job whose child could not be spawned: recorded as failed at `now`,
    /// without an exit code; no supervisor is registered.
    pub fn spawn_failed(&mut self, id: &str, now: i64)
        requires
            old(self).wf(),
        ensures
            final(self).wf(),
            final(self).running@ == old(self).running@,
            final(self).started_at == old(self).started_at,
            final(self).db@ == on_id(old(self).db@, id@, finish_row(Status::Failed, None, now)),
    {
        self.db.update_finished_at(id, Status::Failed, None, now);
    }

    /// Records that the job's child runs as group leader `pid` since `now`,
    /// and registers its supervisor.
    pub fn start_supervision(&mut self, id: String, pid: u32, now: i64)
        requires
            old(self).wf(),
        ensures
            final(self).wf(),
            final(self).db@ == on_id(old(self).db@, id@, start_row(pid, now)),
            final(self).started_at == old(self).started_at,
            handle_pid(handle_views(final(self).running@), id@) == Some(pid),
            forall|other: Seq<char>|
                other != id@ ==> #[trigger] handle_pid(handle_views(final(self).running@), other)
                    == handle_pid(handle_views(old(self).running@), other),
    {
        self.db.update_started_at(id.as_str(), pid, now);
        let ghost hs0 = handle_views(self.running@);
        match find_handle(&self.running, id.as_str()) {
            Some(k) => {
                self.running[k].pid = pid;
                let ghost hs1 = handle_views(self.running@);
                assert(hs1 =~= hs0.update(k as int, (id@, pid)));
                proof {
                    assert forall|a: int, b: int|
                        0 <= a < hs1.len() && 0 <= b < hs1.len() && a != b implies (
                        #[trigger] hs1[a]).0 != (#[trigger] hs1[b]).0 by {
                        assert(hs1[a].0 == hs0[a].0);
                        assert(hs1[b].0 == hs0[b].0);
                    }
                    lemma_handle_pid_at(hs1, k as int);
                    assert forall|other: Seq<char>| other != id@ implies #[trigger] handle_pid(
                        hs1,
                        other,
                    ) == handle_pid(hs0, other) by {
                        if exists|j: int| 0 <= j < hs0.len() && (#[trigger] hs0[j]).0 == other {
                            let j = choose|j: int| 0 <= j < hs0.len() && (#[trigger] hs0[j]).0 == other;
                            lemma_handle_pid_at(hs0, j);
                            lemma_handle_pid_at(hs1, j);
                        } else {
                            assert(!exists|j: int| 0 <= j < hs1.len() && (#[trigger] hs1[j]).0 == other);
                        }
                    }
                }
            },
            None => {
                proof {
                    lemma_handle_pid_none(hs0, id@);
                }
                self.running.push(RunningJob { id, pid });
                let ghost hs1 = handle_views(self.running@);
                assert(hs1 =~= hs0.push((id@, pid)));
                proof {
                    lemma_handle_pid_at(hs1, hs0.len() as int);
                    assert forall|other: Seq<char>| other != id@ implies #[trigger] handle_pid(
                        hs1,
                        other,
                    ) == handle_pid(hs0, other) by {
                        if exists|j: int| 0 <= j < hs0.len() && (#[trigger] hs0[j]).0 == other {
                            let j = choose|j: int| 0 <= j < hs0.len() && (#[trigger] hs0[j]).0 == other;
                            lemma_handle_pid_at(hs0, j);
                            lemma_handle_pid_at(hs1, j);
                        } else {
                            assert(!exists|j: int| 0 <= j < hs1.len() && (#[trigger] hs1[j]).0 == other);
                        }
                    }
                }
            },
        }
    }

    /// Stops the live job `id`: signals its process group (forcefully when
    /// `force`) and records it as stopped at `now`. A job without a live
    /// supervisor is answered with an error and nothing changes.
    pub fn stop_job(&mut self, id: &str, force: bool, now: i64) -> (r: Response)
        requires
            old(self).wf(),
        ensures
            final(self).wf(),
            final(self).running@ == old(self).running@,
            final(self).started_at == old(self).started_at,
            match handle_pid(handle_views(old(self).running@), id@) {
                Some(_) => r is Ack && final(self).db@ == on_id(
                    old(self).db@,
                    id@,
                    finish_row(Status::Stopped, None, now),
                ),
                None => r matches Response::Error(m) && m@ == not_running_text(id@)
                    && final(self).db@ == old(self).db@,
            },
    {
        match find_handle(&self.running, id) {
            Some(k) => {
                let pid = self.running[k].pid;
                kill_process_group(pid, force);
                self.db.update_finished_at(id, Status::Stopped, None, now);
                Response::Ack
            },
            None => Response::Error(join3("Job ", id, " is not running")),
        }
    }

    /// Ends supervision of `id` with `outcome` at `now`: removes its
    /// handle and writes the record the outcome calls for.
    pub fn finish_supervision(&mut self, id: &str, outcome: Outcome, now: i64)
        requires
            old(self).wf(),
        ensures
            final(self).wf(),
            final(self).started_at == old(self).started_at,
            final(self).db@ == match spec_final_update(outcome) {
                Some((s, c)) => on_id(old(self).db@, id@, finish_row(s, c, now)),
                None => old(self).db@,
            },
            handle_pid(handle_views(final(self).running@), id@) is None,
            forall|other: Seq<char>|
                other != id@ ==> #[trigger] handle_pid(handle_views(final(self).running@), other)
                    == handle_pid(handle_views(old(self).running@), other),
    {
        let ghost hs0 = handle_views(self.running@);
        match find_handle(&self.running, id) {
            Some(k) => {
                let _h = self.running.remove(k);
                let ghost hs1 = handle_views(self.running@);
                assert(hs1 =~= hs0.remove(k as int));
                proof {
                    lemma_handle_remove(hs0, k as int);
                }
            },
            None => {
                proof {
                    lemma_handle_pid_none(hs0, id@);
                }
            },
        }
        match final_update(outcome) {
            Some((s, c)) => {
                self.db.update_finished_at(id, s, c, now);
            },
            None => {},
        }
    }

    /// Shutdown fan-out: drains every live handle, sends each process group
    /// the graceful signal and records the job as interrupted at `now`.
    /// Returns the drained handles, in registration order.
    pub fn interrupt_running_jobs(&mut self, now: i64) -> (r: Vec<RunningJob>)
        requires
            old(self).wf(),
        ensures
            final(self).wf(),
            final(self).started_at == old(self).started_at,
            final(self).running@.len() == 0,
            handle_views(r@) == handle_views(old(self).running@),
            final(self).db@ == interrupt_all(old(self).db@, handle_views(old(self).running@), now),
    {
        let ghost rows = self.db@;
        let ghost start = self.started_at;
        let mut drained: Vec<RunningJob> = Vec::new();
        std::mem::swap(&mut drained, &mut self.running);
        let ghost hs = handle_views(drained@);
        let n = drained.len();
        let mut i: usize = 0;
        while i < n
            invariant
                0 <= i <= n,
                n == drained@.len(),
                hs == handle_views(drained@),
                self.db.wf(),
                self.running@.len() == 0,
                self.started_at == start,
                self.db@ == interrupt_all(rows, hs.subrange(0, i as int), now),
            decreases n - i,
        {
            kill_process_group(drained[i].pid, false);
            self.db.update_finished_at(drained[i].id.as_str(), Status::Interrupted, None, now);
            assert(hs.subrange(0, i + 1).drop_last() =~= hs.subrange(0, i as int));
            assert(hs.subrange(0, i + 1).last() == hs[i as int]);
            i = i + 1;
        }
        assert(hs.subrange(0, n as int) =~= hs);
        assert(handle_views(self.running@) =~= Seq::<(Seq<char>, u32)>::empty());
        drained
    }
}

/// The error text for a job that does not exist.
pub open spec fn not_found_text(id: Seq<char>) -> Seq<char> {
    "Job not found: "@ + id
}

/// The status a `List` request filters on: an unknown name filters
/// nothing.
pub open spec fn list_filter(s: Option<Seq<char>>) -> Option<Status> {
    match s {
        Some(t) => status_named(t),
        None => None,
    }
}

/// Whole seconds between `start` and `now`, 0 if the clock went back.
pub open spec fn uptime_between(start: i64, now: i64) -> int {
    if now >= start {
        (now - start) / 1_000_000
    } else {
        0
    }
}

impl DaemonState {
    /// Answers one request at time `now`; `daemon_pid` is this process's id.
    /// `Run` admits the job (see `spawn_job_at`), `Stop` resolves the id or
    /// prefix and stops the job if it is running, `Status` and `List` read
    /// the store, `Wait` is handed to the caller's polling loop, and `Ping`
    /// and `Shutdown` report and acknowledge.
    #[verifier::rlimit(40)]
    pub fn handle_request(&mut self, req: Request, now: i64, daemon_pid: u32) -> (r: Dispatch)
        requires
            old(self).wf(),
        ensures
            final(self).wf(),
            final(self).started_at == old(self).started_at,
            match req {
                Request::Run(spec) => final(self).running@ == old(self).running@ && match opt_str_view(
                    spec.idempotency_key,
                ) {
                    Some(k) if first_where(old(self).db@, 0, key_is(k)) is Some => r matches Dispatch::Reply(
                        Response::Job(j),
                    ) && Some(j@) == first_where(old(self).db@, 0, key_is(k)) && final(self).db@
                        == old(self).db@,
                    _ => {
                        &&& ((r matches Dispatch::Supervise(Response::Job(j), k) && k@ == j@ && j@
                            == run_record(spec, j@.id, now) && valid_id(j@.id) && !has_id(
                            old(self).db@,
                            j@.id,
                        ) && final(self).db@ == old(self).db@.insert(slot(old(self).db@, now), j@))
                            || (r matches Dispatch::Reply(Response::Error(m)) && m@ == exhausted_text()
                            && final(self).db@ == old(self).db@))
                        &&& (no_valid_ids(old(self).db@) ==> r is Supervise)
                    },
                },
                Request::Stop { id, force } => final(self).running@ == old(self).running@ && match lookup(
                    old(self).db@,
                    id@,
                ) {
                    None => r matches Dispatch::Reply(Response::Error(m)) && m@ == not_found_text(id@)
                        && final(self).db@ == old(self).db@,
                    Some(j) => if j.status != Status::Running {
                        r matches Dispatch::Reply(Response::Error(m)) && m@ == not_running_text(j.id)
                            && final(self).db@ == old(self).db@
                    } else {
                        match handle_pid(handle_views(old(self).running@), j.id) {
                            Some(_) => r matches Dispatch::Stopped(x) && x@ == j.id && final(self).db@
                                == on_id(old(self).db@, j.id, finish_row(Status::Stopped, None, now)),
                            None => r matches Dispatch::Reply(Response::Error(m)) && m@
                                == not_running_text(j.id) && final(self).db@ == old(self).db@,
                        }
                    },
                },
                Request::Status { id } => final(self).running@ == old(self).running@ && final(self).db@
                    == old(self).db@ && match lookup(old(self).db@, id@) {
                    Some(j) => r matches Dispatch::Reply(Response::Job(x)) && x@ == j,
                    None => r matches Dispatch::Reply(Response::Error(m)) && m@ == not_found_text(id@),
                },
                Request::List { status, limit } => {
                    &&& final(self).running@ == old(self).running@
                    &&& final(self).db@ == old(self).db@
                    &&& (r matches Dispatch::Reply(Response::Jobs(v)) && views(v@)
                        == crate::store::first_n(
                        crate::store::newest(
                            old(self).db@,
                            0,
                            crate::store::status_is(list_filter(opt_str_view(status))),
                        ),
                        limit,
                    ))
                },
                Request::Wait { id, timeout_secs } => {
                    &&& final(self).running@ == old(self).running@
                    &&& final(self).db@ == old(self).db@
                    &&& (r matches Dispatch::Wait(x, t) && x@ == id@ && t == timeout_secs)
                },
                Request::Ping => {
                    &&& final(self).running@ == old(self).running@
                    &&& final(self).db@ == old(self).db@
                    &&& (r matches Dispatch::Reply(
                        Response::Pong { pid, uptime_secs, running_jobs, total_jobs },
                    ) && pid == daemon_pid && uptime_secs == uptime_between(old(self).started_at, now)
                        && running_jobs == old(self).running@.len() && total_jobs
                        == old(self).db@.len())
                },
                Request::Shutdown => final(self).running@ == old(self).running@ && final(self).db@
                    == old(self).db@ && r is Shutdown,
            },
    {
        match req {
            Request::Run(spec) => match self.spawn_job_at(spec, now) {
                Ok(a) => {
                    if a.created {
                        let copy = a.job.snapshot();
                        Dispatch::Supervise(Response::Job(a.job), copy)
                    } else {
                        Dispatch::Reply(Response::Job(a.job))
                    }
                },
                Err(e) => Dispatch::Reply(Response::Error(copy_string(&error_text(e).to_owned()))),
            },
            Request::Stop { id, force } => match self.db.get(id.as_str()) {
                None => Dispatch::Reply(Response::Error(join2("Job not found: ", id.as_str()))),
                Some(j) => {
                    if j.status != Status::Running {
                        Dispatch::Reply(Response::Error(join3("Job ", j.id.as_str(), " is not running")))
                    } else {
                        match self.stop_job(j.id.as_str(), force, now) {
                            Response::Ack => Dispatch::Stopped(j.id),
                            other => Dispatch::Reply(other),
                        }
                    }
                },
            },
            Request::Status { id } => match self.db.get(id.as_str()) {
                Some(j) => Dispatch::Reply(Response::Job(j)),
                None => Dispatch::Reply(Response::Error(join2("Job not found: ", id.as_str()))),
            },
            Request::List { status, limit } => {
                let filter = match &status {
                    Some(s) => match Status::parse(s.as_str()) {
                        Ok(st) => Some(st),
                        Err(_) => None,
                    },
                    None => None,
                };
                Dispatch::Reply(Response::Jobs(self.db.list(filter, limit)))
            },
            Request::Wait { id, timeout_secs } => Dispatch::Wait(id, timeout_secs),
            Request::Ping => Dispatch::Reply(
                Response::Pong {
                    pid: daemon_pid,
                    uptime_secs: self.uptime_secs(now),
                    running_jobs: self.running.len(),
                    total_jobs: self.db.len(),
                },
            ),
            Request::Shutdown => Dispatch::Shutdown,
        }
    }
}

/// The error text for stopping a job that is not running.
pub open spec fn not_running_text(id: Seq<char>) -> Seq<char> {
    "Job "@ + id + " is not running"@
}

/// The handle at index `i` is the one `handle_pid` finds for its id.
proof fn lemma_handle_pid_at(hs: Seq<(Seq<char>, u32)>, i: int)
    requires
        handle_ids_unique(hs),
        0 <= i < hs.len(),
    ensures
        handle_pid(hs, hs[i].0) == Some(hs[i].1),
{
    assert(exists|j: int| 0 <= j < hs.len() && (#[trigger] hs[j]).0 == hs[i].0);
    let c = choose|j: int| 0 <= j < hs.len() && (#[trigger] hs[j]).0 == hs[i].0;
    assert(c == i);
}

/// Without a handle for `id`, there is nothing to find.
proof fn lemma_handle_pid_none(hs: Seq<(Seq<char>, u32)>, id: Seq<char>)
    requires
        handle_pid(hs, id) is None,
    ensures
        forall|j: int| 0 <= j < hs.len() ==> (#[trigger] hs[j]).0 != id,
{
}

/// Removing the handle at `k` keeps ids unique, forgets its id and keeps
/// every other id's pid.
proof fn lemma_handle_remove(hs: Seq<(Seq<char>, u32)>, k: int)
    requires
        handle_ids_unique(hs),
        0 <= k < hs.len(),
    ensures
        handle_ids_unique(hs.remove(k)),
        handle_pid(hs.remove(k), hs[k].0) is None,
        forall|other: Seq<char>|
            other != hs[k].0 ==> #[trigger] handle_pid(hs.remove(k), other) == handle_pid(hs, other),
{
    let h = hs.remove(k);
    assert forall|a: int, b: int|
        0 <= a < h.len() && 0 <= b < h.len() && a != b implies (#[trigger] h[a]).0 != (
        #[trigger] h[b]).0 by {
        let a0 = if a < k {
            a
        } else {
            a + 1
        };
        let b0 = if b < k {
            b
        } else {
            b + 1
        };
        assert(h[a] == hs[a0]);
        assert(h[b] == hs[b0]);
    }
    assert forall|j: int| 0 <= j < h.len() implies (#[trigger] h[j]).0 != hs[k].0 by {
        let j0 = if j < k {
            j
        } else {
            j + 1
        };
        assert(h[j] == hs[j0]);
    }
    assert forall|other: Seq<char>| other != hs[k].0 implies #[trigger] handle_pid(h, other)
        == handle_pid(hs, other) by {
        if exists|j: int| 0 <= j < hs.len() && (#[trigger] hs[j]).0 == other {
            let j = choose|j: int| 0 <= j < hs.len() && (#[trigger] hs[j]).0 == other;
            lemma_handle_pid_at(hs, j);
            assert(j != k);
            let j1 = if j < k {
                j
            } else {
                j - 1
            };
            assert(h[j1] == hs[j]);
            lemma_handle_pid_at(h, j1);
        } else {
            assert forall|j: int| 0 <= j < h.len() implies (#[trigger] h[j]).0 != other by {
                let j0 = if j < k {
                    j
                } else {
                    j + 1
                };
                assert(h[j] == hs[j0]);
            }
        }
    }
}

} // verus!
