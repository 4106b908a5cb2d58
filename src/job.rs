use vstd::prelude::*;

use crate::text::{eq_ignore_ascii_case, fold_ascii, opt_str_view, copy_opt_string, copy_string};

verus! {

/// Lifecycle state of a job: `Pending -> Running -> terminal`.
#[derive(Debug, Clone, Copy, PartialEq, Eq, Structural)]
pub enum Status {
    Pending,
    Running,
    Completed,
    Failed,
    Stopped,
    Interrupted,
}

/// Why a store or protocol operation did not succeed.
#[derive(Debug, Clone, Copy, PartialEq, Eq, Structural)]
pub enum JobError {
    /// Malformed input: an unknown status, a malformed duration.
    BadInput,
    /// No job matches the given id or name.
    NotFound,
    /// Several jobs carry the given name and no tie-break was asked for.
    Ambiguous,
    /// The id or idempotency key of a new job is already taken.
    Conflict,
    /// Every attempt to mint a fresh id collided with an existing one.
    Exhausted,
}

pub open spec fn status_name(s: Status) -> Seq<char> {
    match s {
        Status::Pending => seq!['p', 'e', 'n', 'd', 'i', 'n', 'g'],
        Status::Running => seq!['r', 'u', 'n', 'n', 'i', 'n', 'g'],
        Status::Completed => seq!['c', 'o', 'm', 'p', 'l', 'e', 't', 'e', 'd'],
        Status::Failed => seq!['f', 'a', 'i', 'l', 'e', 'd'],
        Status::Stopped => seq!['s', 't', 'o', 'p', 'p', 'e', 'd'],
        Status::Interrupted => seq!['i', 'n', 't', 'e', 'r', 'r', 'u', 'p', 't', 'e', 'd'],
    }
}

/// The status whose name equals `s` up to ASCII case, if any.
pub open spec fn status_named(s: Seq<char>) -> Option<Status> {
    let f = fold_ascii(s);
    if f == status_name(Status::Pending) {
        Some(Status::Pending)
    } else if f == status_name(Status::Running) {
        Some(Status::Running)
    } else if f == status_name(Status::Completed) {
        Some(Status::Completed)
    } else if f == status_name(Status::Failed) {
        Some(Status::Failed)
    } else if f == status_name(Status::Stopped) {
        Some(Status::Stopped)
    } else if f == status_name(Status::Interrupted) {
        Some(Status::Interrupted)
    } else {
        None
    }
}

/// Status names are already in small letters.
proof fn lemma_name_folded(st: Status)
    ensures
        fold_ascii(status_name(st)) == status_name(st),
{
    assert(fold_ascii(status_name(st)) =~= status_name(st));
}

impl Status {
    /// Terminal states are absorbing: no transition leaves them.
    pub open spec fn spec_is_terminal(self) -> bool {
        match self {
            Status::Completed | Status::Failed | Status::Stopped | Status::Interrupted => true,
            _ => false,
        }
    }

    pub fn is_terminal(&self) -> (r: bool)
        ensures
            r == self.spec_is_terminal(),
    {
        match self {
            Status::Completed | Status::Failed | Status::Stopped | Status::Interrupted => true,
            _ => false,
        }
    }

    /// The lowercase name under which the status is stored and shown.
    pub fn as_str(&self) -> (r: &'static str)
        ensures
            r@ == status_name(*self),
    {
        match self {
            Status::Pending => {
                proof { reveal_strlit("pending"); }
                "pending"
            },
            Status::Running => {
                proof { reveal_strlit("running"); }
                "running"
            },
            Status::Completed => {
                proof { reveal_strlit("completed"); }
                "completed"
            },
            Status::Failed => {
                proof { reveal_strlit("failed"); }
                "failed"
            },
            Status::Stopped => {
                proof { reveal_strlit("stopped"); }
                "stopped"
            },
            Status::Interrupted => {
                proof { reveal_strlit("interrupted"); }
                "interrupted"
            },
        }
    }

    /// Reads a status as stored: a name that does not parse (a corrupt row)
    /// reads as `Interrupted`.
    pub fn parse_stored(s: &str) -> (r: Status)
        ensures
            r == match status_named(s@) {
                Some(st) => st,
                None => Status::Interrupted,
            },
    {
        match Status::parse(s) {
            Ok(st) => st,
            Err(_) => Status::Interrupted,
        }
    }

    /// Parses a status name, ignoring case; an unknown name is `BadInput`.
    pub fn parse(s: &str) -> (r: Result<Status, JobError>)
        ensures
            match status_named(s@) {
                Some(st) => r == Ok::<Status, JobError>(st),
                None => r == Err::<Status, JobError>(JobError::BadInput),
            },
    {
        let all = [
            Status::Pending,
            Status::Running,
            Status::Completed,
            Status::Failed,
            Status::Stopped,
            Status::Interrupted,
        ];
        let mut i: usize = 0;
        while i < 6
            invariant
                0 <= i <= 6,
                all@ == seq![
                    Status::Pending,
                    Status::Running,
                    Status::Completed,
                    Status::Failed,
                    Status::Stopped,
                    Status::Interrupted,
                ],
                forall|k: int| 0 <= k < i ==> fold_ascii(s@) != status_name(#[trigger] all@[k]),
            decreases 6 - i,
        {
            let st = all[i];
            proof {
                lemma_name_folded(st);
            }
            if eq_ignore_ascii_case(s, st.as_str()) {
                return Ok(st);
            }
            i = i + 1;
        }
        assert(fold_ascii(s@) != status_name(all@[0]));
        assert(fold_ascii(s@) != status_name(all@[1]));
        assert(fold_ascii(s@) != status_name(all@[2]));
        assert(fold_ascii(s@) != status_name(all@[3]));
        assert(fold_ascii(s@) != status_name(all@[4]));
        assert(fold_ascii(s@) != status_name(all@[5]));
        Err(JobError::BadInput)
    }
}

/// The mathematical content of a job record: strings as character sequences.
pub struct JobView {
    pub id: Seq<char>,
    pub name: Option<Seq<char>>,
    pub command: Seq<char>,
    pub status: Status,
    pub project: Seq<char>,
    pub cwd: Seq<char>,
    pub pid: Option<u32>,
    pub exit_code: Option<i32>,
    pub created_at: i64,
    pub started_at: Option<i64>,
    pub finished_at: Option<i64>,
    pub timeout_secs: Option<u64>,
    pub context: Option<Seq<char>>,
    pub idempotency_key: Option<Seq<char>>,
}

/// One submitted shell command and the record of its execution.
///
/// Timestamps are microseconds since the Unix epoch, UTC. `context` holds
/// the caller's free-form JSON value as text; the library never reads it.
#[derive(Debug, Clone)]
pub struct Job {
    pub id: String,
    pub name: Option<String>,
    pub command: String,
    pub status: Status,
    pub project: String,
    pub cwd: String,
    pub pid: Option<u32>,
    pub exit_code: Option<i32>,
    pub created_at: i64,
    pub started_at: Option<i64>,
    pub finished_at: Option<i64>,
    pub timeout_secs: Option<u64>,
    pub context: Option<String>,
    pub idempotency_key: Option<String>,
}

impl View for Job {
    type V = JobView;

    open spec fn view(&self) -> JobView {
        JobView {
            id: self.id@,
            name: opt_str_view(self.name),
            command: self.command@,
            status: self.status,
            project: self.project@,
            cwd: self.cwd@,
            pid: self.pid,
            exit_code: self.exit_code,
            created_at: self.created_at,
            started_at: self.started_at,
            finished_at: self.finished_at,
            timeout_secs: self.timeout_secs,
            context: opt_str_view(self.context),
            idempotency_key: opt_str_view(self.idempotency_key),
        }
    }
}

/// A record as `spawn` first writes it: pending, never started, not finished.
pub open spec fn fresh_record(
    j: JobView,
    id: Seq<char>,
    command: Seq<char>,
    cwd: Seq<char>,
    project: Seq<char>,
    created_at: i64,
) -> bool {
    &&& j.id == id
    &&& j.name is None
    &&& j.command == command
    &&& j.status == Status::Pending
    &&& j.project == project
    &&& j.cwd == cwd
    &&& j.pid is None
    &&& j.exit_code is None
    &&& j.created_at == created_at
    &&& j.started_at is None
    &&& j.finished_at is None
    &&& j.timeout_secs is None
    &&& j.context is None
    &&& j.idempotency_key is None
}

/// A record is consistent when it carries a finish time exactly when its
/// status is terminal.
pub open spec fn consistent(j: JobView) -> bool {
    j.finished_at is Some <==> j.status.spec_is_terminal()
}

impl Job {
    /// A pending record created at `created_at`.
    pub fn new_at(id: String, command: String, cwd: String, project: String, created_at: i64) -> (r: Job)
        ensures
            fresh_record(r@, id@, command@, cwd@, project@, created_at),
    {
        Job {
            id,
            name: None,
            command,
            status: Status::Pending,
            project,
            cwd,
            pid: None,
            exit_code: None,
            created_at,
            started_at: None,
            finished_at: None,
            timeout_secs: None,
            context: None,
            idempotency_key: None,
        }
    }

    /// A pending record created now.
    pub fn new(id: String, command: String, cwd: String, project: String) -> (r: Job)
        ensures
            fresh_record(r@, id@, command@, cwd@, project@, r.created_at),
    {
        let now = crate::clock::now_micros();
        Job::new_at(id, command, cwd, project, now)
    }

    pub fn with_name(self, name: String) -> (r: Job)
        ensures
            r@ == (JobView { name: Some(name@), ..self@ }),
    {
        Job { name: Some(name), ..self }
    }

    pub fn with_timeout(self, secs: u64) -> (r: Job)
        ensures
            r@ == (JobView { timeout_secs: Some(secs), ..self@ }),
    {
        Job { timeout_secs: Some(secs), ..self }
    }

    /// Attaches the caller's context, a JSON value as text.
    pub fn with_context(self, context: String) -> (r: Job)
        ensures
            r@ == (JobView { context: Some(context@), ..self@ }),
    {
        Job { context: Some(context), ..self }
    }

    pub fn with_idempotency_key(self, key: String) -> (r: Job)
        ensures
            r@ == (JobView { idempotency_key: Some(key@), ..self@ }),
    {
        Job { idempotency_key: Some(key), ..self }
    }

    /// The id cut to at most eight characters, for display.
    pub fn short_id(&self) -> (r: String)
        ensures
            self.id@.len() <= 8 ==> r@ == self.id@,
            self.id@.len() > 8 ==> r@ == self.id@.subrange(0, 8),
    {
        let n = self.id.as_str().unicode_len();
        if n <= 8 {
            copy_string(&self.id)
        } else {
            self.id.as_str().substring_char(0, 8).to_owned()
        }
    }

    /// A copy of the record, field for field.
    pub fn snapshot(&self) -> (r: Job)
        ensures
            r@ == self@,
    {
        Job {
            id: copy_string(&self.id),
            name: copy_opt_string(&self.name),
            command: copy_string(&self.command),
            status: self.status,
            project: copy_string(&self.project),
            cwd: copy_string(&self.cwd),
            pid: self.pid,
            exit_code: self.exit_code,
            created_at: self.created_at,
            started_at: self.started_at,
            finished_at: self.finished_at,
            timeout_secs: self.timeout_secs,
            context: copy_opt_string(&self.context),
            idempotency_key: copy_opt_string(&self.idempotency_key),
        }
    }
}

} // verus!
