use vstd::prelude::*;

use crate::text::{copy_string, join2, join3, starts_with};

verus! {

/// `base` joined with the relative or absolute path `rest`, as
/// `Path::join` does: an absolute `rest` replaces `base`, an empty `base`
/// gives `rest`, and one `/` separates them otherwise.
pub open spec fn path_join(base: Seq<char>, rest: Seq<char>) -> Seq<char> {
    if rest.len() > 0 && rest[0] == '/' {
        rest
    } else if base.len() == 0 {
        rest
    } else if base.last() == '/' {
        base + rest
    } else {
        base + seq!['/'] + rest
    }
}

pub fn join_path(base: &str, rest: &str) -> (r: String)
    ensures
        r@ == path_join(base@, rest@),
{
    proof {
        reveal_strlit("/");
    }
    if starts_with(rest, "/") {
        assert(rest@.len() > 0 && rest@[0] == '/') by {
            assert(rest@.subrange(0, 1)[0] == rest@[0]);
        }
        return rest.to_owned();
    }
    assert(!(rest@.len() > 0 && rest@[0] == '/')) by {
        if rest@.len() > 0 && rest@[0] == '/' {
            assert(rest@.subrange(0, 1) =~= "/"@);
        }
    }
    let n = base.unicode_len();
    if n == 0 {
        rest.to_owned()
    } else if base.get_char(n - 1) == '/' {
        join2(base, rest)
    } else {
        join3(base, "/", rest)
    }
}

/// Where the daemon keeps its files: the database, the job logs, the
/// socket and the pid file, all under one root directory.
pub struct Paths {
    root: String,
}

impl Paths {
    pub closed spec fn root_view(&self) -> Seq<char> {
        self.root@
    }

    /// Paths under the given root directory.
    pub fn with_root(root: String) -> (r: Paths)
        ensures
            r.root_view() == root@,
    {
        Paths { root }
    }

    /// Paths under `~/.jb`; `None` when there is no home directory.
    pub fn new() -> (r: Option<Paths>)
        ensures
            r matches Some(p) ==> exists|home: Seq<char>| p.root_view() == path_join(home, ".jb"@),
    {
        match home_dir() {
            Some(home) => Some(Paths { root: join_path(home.as_str(), ".jb") }),
            None => None,
        }
    }

    pub fn root(&self) -> (r: &String)
        ensures
            r@ == self.root_view(),
    {
        &self.root
    }

    /// The job database.
    pub fn database(&self) -> (r: String)
        ensures
            r@ == path_join(self.root_view(), "job.db"@),
    {
        join_path(self.root.as_str(), "job.db")
    }

    /// The directory of job logs.
    pub fn logs_dir(&self) -> (r: String)
        ensures
            r@ == path_join(self.root_view(), "logs"@),
    {
        join_path(self.root.as_str(), "logs")
    }

    /// The combined output log of job `job_id`.
    pub fn log_file(&self, job_id: &str) -> (r: String)
        ensures
            r@ == path_join(path_join(self.root_view(), "logs"@), job_id@ + ".log"@),
    {
        let dir = self.logs_dir();
        let name = join2(job_id, ".log");
        join_path(dir.as_str(), name.as_str())
    }

    /// The daemon's listening socket.
    pub fn socket(&self) -> (r: String)
        ensures
            r@ == path_join(self.root_view(), "daemon.sock"@),
    {
        join_path(self.root.as_str(), "daemon.sock")
    }

    /// The file holding the running daemon's pid.
    pub fn pid_file(&self) -> (r: String)
        ensures
            r@ == path_join(self.root_view(), "daemon.pid"@),
    {
        join_path(self.root.as_str(), "daemon.pid")
    }

    /// A copy of these paths.
    pub fn duplicate(&self) -> (r: Paths)
        ensures
            r.root_view() == self.root_view(),
    {
        Paths { root: copy_string(&self.root) }
    }
}

/// Relies on `dirs::home_dir`: the user's home directory, from the
/// environment or the user database; `None` when it is unknown or not UTF-8.
#[verifier::external_body]
fn home_dir() -> (r: Option<String>) {
    match dirs::home_dir() {
        Some(p) => p.into_os_string().into_string().ok(),
        None => None,
    }
}

} // verus!
