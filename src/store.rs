use vstd::prelude::*;

use crate::job::{Job, JobError, JobView, Status};
use crate::text::{is_prefix, opt_str_is, starts_with, str_eq};

verus! {

/// The views of a sequence of records.
pub open spec fn views(v: Seq<Job>) -> Seq<JobView> {
    v.map_values(|j: Job| j@)
}

pub open spec fn ids_unique(rows: Seq<JobView>) -> bool {
    forall|i: int, j: int|
        0 <= i < rows.len() && 0 <= j < rows.len() && i != j ==> #[trigger] rows[i].id
            != #[trigger] rows[j].id
}

pub open spec fn keys_unique(rows: Seq<JobView>) -> bool {
    forall|i: int, j: int|
        0 <= i < rows.len() && 0 <= j < rows.len() && i != j && (#[trigger] rows[i]).idempotency_key
            is Some ==> rows[i].idempotency_key != (#[trigger] rows[j]).idempotency_key
}

/// Rows are kept in order of creation time, oldest first.
pub open spec fn sorted_by_creation(rows: Seq<JobView>) -> bool {
    forall|i: int, j: int|
        0 <= i <= j < rows.len() ==> (#[trigger] rows[i]).created_at <= (#[trigger] rows[j]).created_at
}

/// The store's invariant: ids and idempotency keys are unique, and rows are
/// in creation order.
pub open spec fn store_wf(rows: Seq<JobView>) -> bool {
    &&& ids_unique(rows)
    &&& keys_unique(rows)
    &&& sorted_by_creation(rows)
}

pub open spec fn has_id(rows: Seq<JobView>, id: Seq<char>) -> bool {
    exists|i: int| 0 <= i < rows.len() && (#[trigger] rows[i]).id == id
}

/// `key` is present and already carried by some row.
pub open spec fn key_taken(rows: Seq<JobView>, key: Option<Seq<char>>) -> bool {
    key is Some && exists|i: int| 0 <= i < rows.len() && (#[trigger] rows[i]).idempotency_key == key
}

/// The first row at or after index `lo` that satisfies `pred`.
pub open spec fn first_where(rows: Seq<JobView>, lo: int, pred: spec_fn(JobView) -> bool) -> Option<
    JobView,
>
    decreases rows.len() - lo,
{
    if lo < 0 || lo >= rows.len() {
        None
    } else if pred(rows[lo]) {
        Some(rows[lo])
    } else {
        first_where(rows, lo + 1, pred)
    }
}

/// The rows at or after index `lo` that satisfy `pred`, newest first.
pub open spec fn newest(rows: Seq<JobView>, lo: int, pred: spec_fn(JobView) -> bool) -> Seq<JobView>
    decreases rows.len() - lo,
{
    if lo < 0 || lo >= rows.len() {
        Seq::empty()
    } else {
        let rest = newest(rows, lo + 1, pred);
        if pred(rows[lo]) {
            rest.push(rows[lo])
        } else {
            rest
        }
    }
}

pub open spec fn id_is(id: Seq<char>) -> spec_fn(JobView) -> bool {
    |j: JobView| j.id == id
}

pub open spec fn id_starts(p: Seq<char>) -> spec_fn(JobView) -> bool {
    |j: JobView| is_prefix(p, j.id)
}

pub open spec fn key_is(key: Seq<char>) -> spec_fn(JobView) -> bool {
    |j: JobView| j.idempotency_key == Some(key)
}

pub open spec fn name_is(name: Seq<char>) -> spec_fn(JobView) -> bool {
    |j: JobView| j.name == Some(name)
}

/// Matches every row when no status is given, else the rows in that status.
pub open spec fn status_is(st: Option<Status>) -> spec_fn(JobView) -> bool {
    |j: JobView|
        match st {
            Some(s) => j.status == s,
            None => true,
        }
}

/// What `get` returns: the row with exactly this id, else the first row in
/// storage order whose id starts with it.
pub open spec fn lookup(rows: Seq<JobView>, q: Seq<char>) -> Option<JobView> {
    match first_where(rows, 0, id_is(q)) {
        Some(j) => Some(j),
        None => first_where(rows, 0, id_starts(q)),
    }
}

/// At most the first `n` elements of `s`.
pub open spec fn first_n(s: Seq<JobView>, n: Option<usize>) -> Seq<JobView> {
    match n {
        Some(k) => if k < s.len() {
            s.take(k as int)
        } else {
            s
        },
        None => s,
    }
}

/// The index at which a row created at `c` enters: after every row created
/// at or before `c`.
pub open spec fn slot(rows: Seq<JobView>, c: i64) -> int
    decreases rows.len(),
{
    if rows.len() == 0 {
        0
    } else if rows.last().created_at > c {
        slot(rows.drop_last(), c)
    } else {
        rows.len() as int
    }
}

pub open spec fn opt_view(o: Option<Job>) -> Option<JobView> {
    match o {
        Some(j) => Some(j@),
        None => None,
    }
}

/// `newest` from a later index is a prefix of `newest` from an earlier one.
pub proof fn lemma_newest_prefix(rows: Seq<JobView>, i: int, j: int, pred: spec_fn(JobView) -> bool)
    requires
        0 <= j <= i <= rows.len(),
    ensures
        newest(rows, i, pred).len() <= newest(rows, j, pred).len(),
        newest(rows, j, pred).subrange(0, newest(rows, i, pred).len() as int) == newest(
            rows,
            i,
            pred,
        ),
    decreases i - j,
{
    if j < i {
        lemma_newest_prefix(rows, i, j + 1, pred);
        let a = newest(rows, i, pred);
        let b = newest(rows, j + 1, pred);
        if pred(rows[j]) {
            assert(b.push(rows[j]).subrange(0, a.len() as int) =~= b.subrange(0, a.len() as int));
        }
    } else {
        assert(newest(rows, j, pred).subrange(0, newest(rows, i, pred).len() as int)
            =~= newest(rows, i, pred));
    }
}

/// Every element of `newest` is a row that satisfies the predicate.
pub proof fn lemma_newest_members(rows: Seq<JobView>, lo: int, pred: spec_fn(JobView) -> bool)
    requires
        0 <= lo <= rows.len(),
    ensures
        forall|k: int|
            0 <= k < newest(rows, lo, pred).len() ==> pred(#[trigger] newest(rows, lo, pred)[k])
                && exists|m: int| lo <= m < rows.len() && rows[m] == newest(rows, lo, pred)[k],
    decreases rows.len() - lo,
{
    if lo < rows.len() {
        lemma_newest_members(rows, lo + 1, pred);
        let rest = newest(rows, lo + 1, pred);
        assert forall|k: int| 0 <= k < newest(rows, lo, pred).len() implies pred(
            #[trigger] newest(rows, lo, pred)[k],
        ) && exists|m: int| lo <= m < rows.len() && rows[m] == newest(rows, lo, pred)[k] by {
            if k < rest.len() {
                assert(newest(rows, lo, pred)[k] == rest[k]);
                let m = choose|m: int| lo + 1 <= m < rows.len() && rows[m] == rest[k];
                assert(lo <= m < rows.len() && rows[m] == newest(rows, lo, pred)[k]);
            } else {
                assert(rows[lo] == newest(rows, lo, pred)[k]);
            }
        }
    }
}

/// A record store: the durable table of jobs, held in creation order.
pub struct Database {
    rows: Vec<Job>,
}

impl View for Database {
    type V = Seq<JobView>;

    closed spec fn view(&self) -> Seq<JobView> {
        views(self.rows@)
    }
}

fn pick(rows: &Vec<Job>, k: usize) -> (r: Job)
    requires
        k < rows@.len(),
    ensures
        r@ == views(rows@)[k as int],
{
    rows[k].snapshot()
}

impl Database {
    pub open spec fn wf(&self) -> bool {
        store_wf(self@)
    }

    /// An empty store.
    pub fn new() -> (r: Database)
        ensures
            r.wf(),
            r@ == Seq::<JobView>::empty(),
    {
        let r = Database { rows: Vec::new() };
        assert(r@ =~= Seq::<JobView>::empty());
        r
    }

    /// Number of rows.
    pub fn len(&self) -> (r: usize)
        ensures
            r == self@.len(),
    {
        self.rows.len()
    }

    /// The index of the row with exactly this id.
    fn find_id(&self, id: &str) -> (r: Option<usize>)
        requires
            self.wf(),
        ensures
            match r {
                Some(k) => k < self@.len() && self@[k as int].id == id@,
                None => !has_id(self@, id@),
            },
    {
        let mut i: usize = 0;
        while i < self.rows.len()
            invariant
                0 <= i <= self.rows@.len(),
                forall|k: int| 0 <= k < i ==> (#[trigger] self@[k]).id != id@,
            decreases self.rows@.len() - i,
        {
            if str_eq(self.rows[i].id.as_str(), id) {
                return Some(i);
            }
            i = i + 1;
        }
        None
    }

    /// Whether a row with exactly this id exists.
    pub fn job_exists(&self, id: &str) -> (r: bool)
        requires
            self.wf(),
        ensures
            r == has_id(self@, id@),
    {
        self.find_id(id).is_some()
    }

    /// The row with exactly this id if there is one, else the first row in
    /// storage order whose id starts with `q`.
    pub fn get(&self, q: &str) -> (r: Option<Job>)
        requires
            self.wf(),
        ensures
            opt_view(r) == lookup(self@, q@),
    {
        let ghost rows = self@;
        let mut exact: Option<usize> = None;
        let mut prefix: Option<usize> = None;
        let mut i: usize = self.rows.len();
        while i > 0
            invariant
                0 <= i <= rows.len(),
                rows == self@,
                match exact {
                    Some(k) => i <= k < rows.len() && first_where(rows, i as int, id_is(q@)) == Some(
                        rows[k as int],
                    ),
                    None => first_where(rows, i as int, id_is(q@)) is None,
                },
                match prefix {
                    Some(k) => i <= k < rows.len() && first_where(rows, i as int, id_starts(q@))
                        == Some(rows[k as int]),
                    None => first_where(rows, i as int, id_starts(q@)) is None,
                },
            decreases i,
        {
            i = i - 1;
            let row = &self.rows[i];
            if str_eq(row.id.as_str(), q) {
                exact = Some(i);
            }
            if starts_with(row.id.as_str(), q) {
                prefix = Some(i);
            }
        }
        match exact {
            Some(k) => Some(pick(&self.rows, k)),
            None => match prefix {
                Some(k) => Some(pick(&self.rows, k)),
                None => None,
            },
        }
    }

    /// The row that carries this idempotency key, if any.
    pub fn get_by_idempotency_key(&self, key: &str) -> (r: Option<Job>)
        requires
            self.wf(),
        ensures
            opt_view(r) == first_where(self@, 0, key_is(key@)),
    {
        let ghost rows = self@;
        let mut found: Option<usize> = None;
        let mut i: usize = self.rows.len();
        while i > 0
            invariant
                0 <= i <= rows.len(),
                rows == self@,
                match found {
                    Some(k) => i <= k < rows.len() && first_where(rows, i as int, key_is(key@))
                        == Some(rows[k as int]),
                    None => first_where(rows, i as int, key_is(key@)) is None,
                },
            decreases i,
        {
            i = i - 1;
            if opt_str_is(&self.rows[i].idempotency_key, key) {
                found = Some(i);
            }
        }
        match found {
            Some(k) => Some(pick(&self.rows, k)),
            None => None,
        }
    }
}


impl Database {
    /// Adds a record at its place in creation order. Fails with `Conflict`,
    /// leaving the store as it was, when its id or its idempotency key is
    /// already taken.
    #[verifier::rlimit(40)]
    pub fn insert(&mut self, job: Job) -> (r: Result<(), JobError>)
        requires
            old(self).wf(),
        ensures
            final(self).wf(),
            r is Ok <==> !has_id(old(self)@, job@.id) && !key_taken(
                old(self)@,
                job@.idempotency_key,
            ),
            r is Ok ==> final(self)@ == old(self)@.insert(slot(old(self)@, job.created_at), job@),
            r is Err ==> r == Err::<(), JobError>(JobError::Conflict) && final(self)@ == old(self)@,
    {
        let ghost rows = self@;
        if self.find_id(job.id.as_str()).is_some() {
            return Err(JobError::Conflict);
        }
        match &job.idempotency_key {
            Some(key) => {
                let found = self.get_by_idempotency_key(key.as_str());
                proof {
                    if key_taken(rows, job@.idempotency_key) {
                        let m = choose|m: int|
                            0 <= m < rows.len() && (#[trigger] rows[m]).idempotency_key
                                == job@.idempotency_key;
                        lemma_first_where_some(rows, 0, m, key_is(key@));
                    }
                    if found.is_some() {
                        lemma_first_where_member(rows, 0, key_is(key@));
                    }
                }
                if found.is_some() {
                    return Err(JobError::Conflict);
                }
            },
            None => {},
        }
        let c = job.created_at;
        let mut i: usize = self.rows.len();
        assert(rows.subrange(0, i as int) =~= rows);
        while i > 0 && self.rows[i - 1].created_at > c
            invariant
                0 <= i <= rows.len(),
                rows == self@,
                slot(rows, c) == slot(rows.subrange(0, i as int), c),
                forall|k: int| i <= k < rows.len() ==> (#[trigger] rows[k]).created_at > c,
            decreases i,
        {
            assert(rows.subrange(0, i as int).drop_last() =~= rows.subrange(0, i - 1));
            i = i - 1;
        }
        assert(slot(rows, c) == i) by {
            if i > 0 {
                assert(rows.subrange(0, i as int).last() == rows[i - 1]);
            }
        }
        let ghost jv = job@;
        self.rows.insert(i, job);
        assert(self@ =~= rows.insert(i as int, jv));
        assert forall|a: int, b: int|
            0 <= a <= b < self@.len() implies (#[trigger] self@[a]).created_at
            <= (#[trigger] self@[b]).created_at by {
            if i > 0 && a < i {
                assert(rows[a].created_at <= rows[i - 1].created_at);
            }
        }
        Ok(())
    }

    /// The rows in the given status (every row when none is given), newest
    /// first, cut to `limit` rows when a limit is given.
    pub fn list(&self, status: Option<Status>, limit: Option<usize>) -> (r: Vec<Job>)
        requires
            self.wf(),
        ensures
            views(r@) == first_n(newest(self@, 0, status_is(status)), limit),
    {
        let ghost rows = self@;
        let ghost pred = status_is(status);
        let mut out: Vec<Job> = Vec::new();
        let mut i: usize = self.rows.len();
        while i > 0 && !limit_reached(limit, out.len())
            invariant
                0 <= i <= rows.len(),
                rows == self@,
                pred == status_is(status),
                views(out@) == newest(rows, i as int, pred),
                match limit {
                    Some(n) => out@.len() <= n,
                    None => true,
                },
            decreases i,
        {
            i = i - 1;
            let keep = match status {
                Some(s) => self.rows[i].status == s,
                None => true,
            };
            if keep {
                let ghost before = out@;
                out.push(pick(&self.rows, i));
                assert(views(out@) =~= views(before).push(rows[i as int]));
            }
        }
        proof {
            lemma_newest_prefix(rows, i as int, 0, pred);
        }
        out
    }

    /// How many rows are in the given status (all rows when none is given).
    pub fn count(&self, status: Option<Status>) -> (r: usize)
        requires
            self.wf(),
        ensures
            r == newest(self@, 0, status_is(status)).len(),
    {
        let ghost rows = self@;
        let ghost pred = status_is(status);
        let mut n: usize = 0;
        let total = self.rows.len();
        let mut i: usize = total;
        while i > 0
            invariant
                0 <= i <= rows.len(),
                rows == self@,
                pred == status_is(status),
                n == newest(rows, i as int, pred).len(),
                rows.len() == total,
                n <= rows.len() - i,
            decreases i,
        {
            i = i - 1;
            let keep = match status {
                Some(s) => self.rows[i].status == s,
                None => true,
            };
            if keep {
                n = n + 1;
            }
        }
        n
    }

    /// Every row carrying this name, newest first.
    pub fn get_by_name(&self, name: &str) -> (r: Vec<Job>)
        requires
            self.wf(),
        ensures
            views(r@) == newest(self@, 0, name_is(name@)),
    {
        let ghost rows = self@;
        let mut out: Vec<Job> = Vec::new();
        let mut i: usize = self.rows.len();
        while i > 0
            invariant
                0 <= i <= rows.len(),
                rows == self@,
                views(out@) == newest(rows, i as int, name_is(name@)),
            decreases i,
        {
            i = i - 1;
            if opt_str_is(&self.rows[i].name, name) {
                let ghost before = out@;
                out.push(pick(&self.rows, i));
                assert(views(out@) =~= views(before).push(rows[i as int]));
            }
        }
        out
    }
}

fn limit_reached(limit: Option<usize>, n: usize) -> (r: bool)
    ensures
        r == match limit {
            Some(k) => n >= k,
            None => false,
        },
{
    match limit {
        Some(k) => n >= k,
        None => false,
    }
}

/// When some row at or after `lo` satisfies `pred`, `first_where` finds one.
pub proof fn lemma_first_where_some(rows: Seq<JobView>, lo: int, m: int, pred: spec_fn(JobView) -> bool)
    requires
        0 <= lo <= m < rows.len(),
        pred(rows[m]),
    ensures
        first_where(rows, lo, pred) is Some,
    decreases m - lo,
{
    if !pred(rows[lo]) {
        lemma_first_where_some(rows, lo + 1, m, pred);
    }
}

/// What `first_where` finds is a row that satisfies `pred`.
pub proof fn lemma_first_where_member(rows: Seq<JobView>, lo: int, pred: spec_fn(JobView) -> bool)
    requires
        0 <= lo,
        first_where(rows, lo, pred) is Some,
    ensures
        exists|m: int|
            lo <= m < rows.len() && rows[m] == first_where(rows, lo, pred)->0 && pred(rows[m]),
    decreases rows.len() - lo,
{
    if !pred(rows[lo]) {
        lemma_first_where_member(rows, lo + 1, pred);
    } else {
        assert(rows[lo] == first_where(rows, lo, pred)->0);
    }
}


/// `rows` with `f` applied to the row whose id is `id`.
pub open spec fn on_id(rows: Seq<JobView>, id: Seq<char>, f: spec_fn(JobView) -> JobView) -> Seq<
    JobView,
> {
    rows.map_values(|j: JobView| if j.id == id { f(j) } else { j })
}

/// The later of two instants.
pub open spec fn later(a: i64, b: i64) -> i64 {
    if a < b {
        b
    } else {
        a
    }
}

/// The last instant a record was stamped with: its start, else its creation.
pub open spec fn last_stamp(j: JobView) -> i64 {
    match j.started_at {
        Some(s) => later(s, j.created_at),
        None => j.created_at,
    }
}

/// The later of two instants.
pub fn later_of(a: i64, b: i64) -> (r: i64)
    ensures
        r == later(a, b),
{
    if a < b {
        b
    } else {
        a
    }
}

fn last_stamp_of(j: &Job) -> (r: i64)
    ensures
        r == last_stamp(j@),
{
    match j.started_at {
        Some(s) => later_of(s, j.created_at),
        None => j.created_at,
    }
}

/// `update_started`: a live row becomes running with its process and start
/// time (`now`, or its creation time if that is later); a terminal row is
/// left as it is.
pub open spec fn start_row(pid: u32, now: i64) -> spec_fn(JobView) -> JobView {
    |j: JobView|
        if j.status.spec_is_terminal() {
            j
        } else {
            JobView {
                status: Status::Running,
                pid: Some(pid),
                started_at: Some(later(now, j.created_at)),
                ..j
            }
        }
}

/// `update_finished`: a live row takes the final status, exit code and
/// finish time (`now`, or its last stamp if that is later); a terminal row is
/// left as it is.
pub open spec fn finish_row(status: Status, code: Option<i32>, now: i64) -> spec_fn(JobView) -> JobView {
    |j: JobView|
        if j.status.spec_is_terminal() {
            j
        } else {
            JobView {
                status: status,
                exit_code: code,
                finished_at: Some(later(now, last_stamp(j))),
                ..j
            }
        }
}

/// `update_status`: a live row takes the new status, and a finish time when
/// that status is terminal; a terminal row is left as it is.
pub open spec fn status_row(status: Status, now: i64) -> spec_fn(JobView) -> JobView {
    |j: JobView|
        if j.status.spec_is_terminal() {
            j
        } else if status.spec_is_terminal() {
            JobView { status: status, finished_at: Some(later(now, last_stamp(j))), ..j }
        } else {
            JobView { status: status, ..j }
        }
}

/// Orphan recovery: a pending or running row becomes interrupted, finished
/// at `now` (or at its last stamp if that is later).
pub open spec fn recover_row(now: i64) -> spec_fn(JobView) -> JobView {
    |j: JobView|
        if j.status == Status::Pending || j.status == Status::Running {
            JobView { status: Status::Interrupted, finished_at: Some(later(now, last_stamp(j))), ..j }
        } else {
            j
        }
}

/// Rows that `delete_old(before, st)` removes: terminal rows created before
/// `before`, and only those in status `st` when one is given. Live rows are
/// never removed.
pub open spec fn doomed(before: i64, st: Option<Status>) -> spec_fn(JobView) -> bool {
    |j: JobView|
        j.created_at < before && j.status.spec_is_terminal() && match st {
            Some(s) => j.status == s,
            None => true,
        }
}

/// The rows that `doom` spares, in their order.
pub open spec fn spared(rows: Seq<JobView>, doom: spec_fn(JobView) -> bool) -> Seq<JobView>
    decreases rows.len(),
{
    if rows.len() == 0 {
        rows
    } else {
        let s = spared(rows.drop_last(), doom);
        if doom(rows.last()) {
            s
        } else {
            s.push(rows.last())
        }
    }
}

/// A change that keeps each row's id, key and creation time keeps the
/// store's invariant.
pub proof fn lemma_map_keeps_wf(rows: Seq<JobView>, f: spec_fn(JobView) -> JobView)
    requires
        store_wf(rows),
        forall|j: JobView|
            (#[trigger] f(j)).id == j.id && f(j).idempotency_key == j.idempotency_key
                && f(j).created_at == j.created_at,
    ensures
        store_wf(rows.map_values(f)),
{
    let n = rows.map_values(f);
    assert forall|i: int| 0 <= i < rows.len() implies #[trigger] n[i] == f(rows[i]) by {}
}

impl Database {
    /// Marks a live row as running under process `pid`, started at `now`.
    pub fn update_started_at(&mut self, id: &str, pid: u32, now: i64)
        requires
            old(self).wf(),
        ensures
            final(self).wf(),
            final(self)@ == on_id(old(self)@, id@, start_row(pid, now)),
    {
        let ghost rows = self@;
        let ghost f = |j: JobView| if j.id == id@ { start_row(pid, now)(j) } else { j };
        if let Some(k) = self.find_id(id) {
            if !self.rows[k].status.is_terminal() {
                self.rows[k].status = Status::Running;
                self.rows[k].pid = Some(pid);
                let at = later_of(now, self.rows[k].created_at);
                self.rows[k].started_at = Some(at);
            }
        }
        assert(self@ =~= rows.map_values(f));
        proof {
            lemma_map_keeps_wf(rows, f);
        }
    }

    /// Marks a live row as running under process `pid`, started now.
    pub fn update_started(&mut self, id: &str, pid: u32)
        requires
            old(self).wf(),
        ensures
            final(self).wf(),
            exists|now: i64| final(self)@ == on_id(old(self)@, id@, start_row(pid, now)),
    {
        let now = crate::clock::now_micros();
        self.update_started_at(id, pid, now);
    }

    /// Gives a live row its final status and exit code, finished at `now`.
    pub fn update_finished_at(&mut self, id: &str, status: Status, exit_code: Option<i32>, now: i64)
        requires
            old(self).wf(),
            status.spec_is_terminal(),
        ensures
            final(self).wf(),
            final(self)@ == on_id(old(self)@, id@, finish_row(status, exit_code, now)),
    {
        let ghost rows = self@;
        let ghost f = |j: JobView|
            if j.id == id@ {
                finish_row(status, exit_code, now)(j)
            } else {
                j
            };
        if let Some(k) = self.find_id(id) {
            if !self.rows[k].status.is_terminal() {
                let at = later_of(now, last_stamp_of(&self.rows[k]));
                self.rows[k].status = status;
                self.rows[k].exit_code = exit_code;
                self.rows[k].finished_at = Some(at);
            }
        }
        assert(self@ =~= rows.map_values(f));
        proof {
            lemma_map_keeps_wf(rows, f);
        }
    }

    /// Gives a live row its final status and exit code, finished now.
    pub fn update_finished(&mut self, id: &str, status: Status, exit_code: Option<i32>)
        requires
            old(self).wf(),
            status.spec_is_terminal(),
        ensures
            final(self).wf(),
            exists|now: i64|
                final(self)@ == on_id(old(self)@, id@, finish_row(status, exit_code, now)),
    {
        let now = crate::clock::now_micros();
        self.update_finished_at(id, status, exit_code, now);
    }

    /// Sets the status of a live row; a terminal status also stamps the
    /// finish time `now`.
    pub fn update_status_at(&mut self, id: &str, status: Status, now: i64)
        requires
            old(self).wf(),
        ensures
            final(self).wf(),
            final(self)@ == on_id(old(self)@, id@, status_row(status, now)),
    {
        let ghost rows = self@;
        let ghost f = |j: JobView| if j.id == id@ { status_row(status, now)(j) } else { j };
        if let Some(k) = self.find_id(id) {
            if !self.rows[k].status.is_terminal() {
                let at = later_of(now, last_stamp_of(&self.rows[k]));
                self.rows[k].status = status;
                if status.is_terminal() {
                    self.rows[k].finished_at = Some(at);
                }
            }
        }
        assert(self@ =~= rows.map_values(f));
        proof {
            lemma_map_keeps_wf(rows, f);
        }
    }

    /// Sets the status of a live row; a terminal status also stamps the
    /// finish time, now.
    pub fn update_status(&mut self, id: &str, status: Status)
        requires
            old(self).wf(),
        ensures
            final(self).wf(),
            exists|now: i64| final(self)@ == on_id(old(self)@, id@, status_row(status, now)),
    {
        let now = crate::clock::now_micros();
        self.update_status_at(id, status, now);
    }

    /// Rewrites every pending or running row to interrupted, finished at
    /// `now`: after a restart no supervisor owns them.
    pub fn recover_orphans_at(&mut self, now: i64)
        requires
            old(self).wf(),
        ensures
            final(self).wf(),
            final(self)@ == old(self)@.map_values(recover_row(now)),
    {
        let ghost rows = self@;
        let n = self.rows.len();
        let mut i: usize = 0;
        assert forall|k: int| 0 <= k < n implies (#[trigger] self.rows@[k])@ == rows[k] by {}
        while i < n
            invariant
                0 <= i <= n,
                n == rows.len(),
                self.rows@.len() == n,
                forall|k: int| 0 <= k < i ==> (#[trigger] self.rows@[k])@ == recover_row(now)(rows[k]),
                forall|k: int| i <= k < n ==> (#[trigger] self.rows@[k])@ == rows[k],
            decreases n - i,
        {
            let st = self.rows[i].status;
            if st == Status::Pending || st == Status::Running {
                let at = later_of(now, last_stamp_of(&self.rows[i]));
                self.rows[i].status = Status::Interrupted;
                self.rows[i].finished_at = Some(at);
            }
            i = i + 1;
        }
        assert(self@ =~= rows.map_values(recover_row(now)));
        proof {
            lemma_map_keeps_wf(rows, recover_row(now));
        }
    }

    /// Orphan recovery, stamped with the current time.
    pub fn recover_orphans(&mut self)
        requires
            old(self).wf(),
        ensures
            final(self).wf(),
            exists|now: i64| final(self)@ == old(self)@.map_values(recover_row(now)),
    {
        let now = crate::clock::now_micros();
        self.recover_orphans_at(now);
    }

    /// Removes the terminal rows created before `before`, only those in
    /// status `status` when one is given; returns how many went. Pending and
    /// running rows always stay.
    pub fn delete_old(&mut self, before: i64, status: Option<Status>) -> (r: usize)
        requires
            old(self).wf(),
        ensures
            final(self).wf(),
            final(self)@ == spared(old(self)@, doomed(before, status)),
            r == old(self)@.len() - final(self)@.len(),
    {
        let ghost rows = self@;
        let ghost d = doomed(before, status);
        let n = self.rows.len();
        let mut kept: Vec<Job> = Vec::new();
        let ghost mut idx: Seq<int> = Seq::empty();
        let mut i: usize = 0;
        while i < n
            invariant
                0 <= i <= n,
                n == rows.len(),
                rows == self@,
                store_wf(rows),
                d == doomed(before, status),
                views(kept@) == spared(rows.subrange(0, i as int), d),
                kept@.len() <= i,
                idx.len() == kept@.len(),
                forall|a: int| 0 <= a < idx.len() ==> 0 <= #[trigger] idx[a] < i,
                forall|a: int, b: int| 0 <= a < b < idx.len() ==> #[trigger] idx[a] < #[trigger] idx[b],
                forall|a: int| 0 <= a < idx.len() ==> #[trigger] views(kept@)[a] == rows[idx[a]],
            decreases n - i,
        {
            let row = &self.rows[i];
            let gone = row.created_at < before && row.status.is_terminal() && match status {
                Some(s) => row.status == s,
                None => true,
            };
            assert(rows.subrange(0, i + 1).drop_last() =~= rows.subrange(0, i as int));
            assert(rows.subrange(0, i + 1).last() == rows[i as int]);
            if !gone {
                let ghost before_kept = kept@;
                kept.push(pick(&self.rows, i));
                assert(views(kept@) =~= views(before_kept).push(rows[i as int]));
                proof {
                    idx = idx.push(i as int);
                }
            }
            i = i + 1;
        }
        assert(rows.subrange(0, n as int) =~= rows);
        let count = n - kept.len();
        self.rows = kept;
        let ghost nrows = self@;
        assert forall|a: int, b: int|
            0 <= a < nrows.len() && 0 <= b < nrows.len() && a != b implies #[trigger] nrows[a].id
            != #[trigger] nrows[b].id by {
            assert(nrows[a] == rows[idx[a]]);
            assert(nrows[b] == rows[idx[b]]);
            if a < b {
                assert(idx[a] < idx[b]);
            } else {
                assert(idx[b] < idx[a]);
            }
        }
        assert forall|a: int, b: int|
            0 <= a < nrows.len() && 0 <= b < nrows.len() && a != b && (
            #[trigger] nrows[a]).idempotency_key is Some implies nrows[a].idempotency_key != (
            #[trigger] nrows[b]).idempotency_key by {
            assert(nrows[a] == rows[idx[a]]);
            assert(nrows[b] == rows[idx[b]]);
            if a < b {
                assert(idx[a] < idx[b]);
            } else {
                assert(idx[b] < idx[a]);
            }
        }
        assert forall|a: int, b: int| 0 <= a <= b < nrows.len() implies (
        #[trigger] nrows[a]).created_at <= (#[trigger] nrows[b]).created_at by {
            assert(nrows[a] == rows[idx[a]]);
            assert(nrows[b] == rows[idx[b]]);
            if a < b {
                assert(idx[a] < idx[b]);
            }
        }
        count
    }
}


/// Number of characters in a minted job id.
pub const ID_LEN: usize = 4;

/// Draws made before `generate_id` gives up.
pub const ID_ATTEMPTS: usize = 100;

/// The base-36 digit for `d`: `0`-`9`, then `a`-`z`.
pub open spec fn digit_char(d: u64) -> char {
    if d < 10 {
        ((48 + d) as u8) as char
    } else {
        ((87 + d) as u8) as char
    }
}

pub open spec fn is_id_char(c: char) -> bool {
    (48 <= (c as u32) && (c as u32) <= 57) || (97 <= (c as u32) && (c as u32) <= 122)
}

/// A well-formed minted id: four lowercase base-36 characters.
pub open spec fn valid_id(s: Seq<char>) -> bool {
    s.len() == ID_LEN && forall|i: int| 0 <= i < s.len() ==> is_id_char(#[trigger] s[i])
}

/// Relies on `rand::random_range`: an integer drawn from `0..n` by the
/// thread-local generator.
#[verifier::external_body]
fn random_below(n: u64) -> (r: u64)
    requires
        n > 0,
    ensures
        r < n,
{
    rand::random_range(0..n)
}

pub fn base36_digit(d: u64) -> (c: char)
    requires
        d < 36,
    ensures
        c == digit_char(d),
        is_id_char(c),
{
    if d < 10 {
        ((48 + d) as u8) as char
    } else {
        ((87 + d) as u8) as char
    }
}

/// The id spelled by the given base-36 digits.
pub fn id_from_digits(digits: &Vec<u64>) -> (r: String)
    requires
        forall|i: int| 0 <= i < digits@.len() ==> #[trigger] digits@[i] < 36,
    ensures
        r@ == digits@.map_values(|d: u64| digit_char(d)),
        forall|i: int| 0 <= i < r@.len() ==> is_id_char(#[trigger] r@[i]),
{
    let mut cs: Vec<char> = Vec::new();
    let mut i: usize = 0;
    while i < digits.len()
        invariant
            0 <= i <= digits@.len(),
            forall|k: int| 0 <= k < digits@.len() ==> #[trigger] digits@[k] < 36,
            cs@ == digits@.subrange(0, i as int).map_values(|d: u64| digit_char(d)),
            forall|k: int| 0 <= k < cs@.len() ==> is_id_char(#[trigger] cs@[k]),
        decreases digits@.len() - i,
    {
        let c = base36_digit(digits[i]);
        cs.push(c);
        assert(cs@ =~= digits@.subrange(0, i + 1).map_values(|d: u64| digit_char(d)));
        i = i + 1;
    }
    assert(digits@.subrange(0, digits@.len() as int) =~= digits@);
    crate::text::string_of(&cs)
}

/// The id a draw of base-36 digits spells.
pub open spec fn digits_id(d: Seq<u64>) -> Seq<char> {
    d.map_values(|x: u64| digit_char(x))
}

/// The digit sequences of a list of draws.
pub open spec fn draws_view(v: Seq<Vec<u64>>) -> Seq<Seq<u64>> {
    v.map_values(|d: Vec<u64>| d@)
}

/// Every draw holds `ID_LEN` base-36 digits.
pub open spec fn digit_draws(ds: Seq<Seq<u64>>) -> bool {
    forall|i: int|
        0 <= i < ds.len() ==> (#[trigger] ds[i]).len() == ID_LEN && forall|k: int|
            0 <= k < ds[i].len() ==> #[trigger] ds[i][k] < 36
}

/// The id of the first draw that no row carries.
pub open spec fn first_fresh_id(rows: Seq<JobView>, ds: Seq<Seq<u64>>) -> Option<Seq<char>>
    decreases ds.len(),
{
    if ds.len() == 0 {
        None
    } else if !has_id(rows, digits_id(ds[0])) {
        Some(digits_id(ds[0]))
    } else {
        first_fresh_id(rows, ds.drop_first())
    }
}

/// What `first_fresh` picks is a well-formed id no row carries, and when no
/// row carries a well-formed id, the first draw is picked.
pub proof fn lemma_first_fresh_valid(rows: Seq<JobView>, ds: Seq<Seq<u64>>)
    requires
        digit_draws(ds),
    ensures
        first_fresh_id(rows, ds) matches Some(id) ==> valid_id(id) && !has_id(rows, id),
        ds.len() > 0 && (forall|i: int| 0 <= i < rows.len() ==> !valid_id(#[trigger] rows[i].id))
            ==> first_fresh_id(rows, ds) is Some,
    decreases ds.len(),
{
    if ds.len() > 0 {
        let id = digits_id(ds[0]);
        assert(ds[0].len() == ID_LEN);
        assert forall|k: int| 0 <= k < id.len() implies is_id_char(#[trigger] id[k]) by {
            assert(ds[0][k] < 36);
            let d = ds[0][k];
            if d < 10 {
                assert(((48 + d) as u8) as char as u32 == 48 + d);
            } else {
                assert(((87 + d) as u8) as char as u32 == 87 + d);
            }
        }
        assert(valid_id(id));
        if (forall|i: int| 0 <= i < rows.len() ==> !valid_id(#[trigger] rows[i].id)) {
            assert(!has_id(rows, id));
        }
        let rest = ds.drop_first();
        assert forall|i: int| 0 <= i < rest.len() implies (#[trigger] rest[i]).len() == ID_LEN
            && forall|k: int| 0 <= k < rest[i].len() ==> #[trigger] rest[i][k] < 36 by {
            assert(rest[i] == ds[i + 1]);
        }
        lemma_first_fresh_valid(rows, rest);
    }
}

/// Draws `ID_ATTEMPTS` candidate ids, each `ID_LEN` random base-36 digits.
pub fn draw_ids() -> (r: Vec<Vec<u64>>)
    ensures
        r@.len() == ID_ATTEMPTS,
        digit_draws(draws_view(r@)),
{
    let mut out: Vec<Vec<u64>> = Vec::new();
    let mut a: usize = 0;
    while a < ID_ATTEMPTS
        invariant
            0 <= a <= ID_ATTEMPTS,
            out@.len() == a,
            digit_draws(draws_view(out@)),
        decreases ID_ATTEMPTS - a,
    {
        let mut digits: Vec<u64> = Vec::new();
        let mut k: usize = 0;
        while k < ID_LEN
            invariant
                0 <= k <= ID_LEN,
                digits@.len() == k,
                forall|i: int| 0 <= i < digits@.len() ==> #[trigger] digits@[i] < 36,
            decreases ID_LEN - k,
        {
            digits.push(random_below(36));
            k = k + 1;
        }
        let ghost before = out@;
        out.push(digits);
        assert(draws_view(out@) =~= draws_view(before).push(out@[a as int]@));
        a = a + 1;
    }
    out
}

/// How `resolve` treats a name shared by several jobs.
#[derive(Debug, Clone, Copy, PartialEq, Eq, Structural)]
pub struct ResolveOptions {
    /// Take the newest of them instead of failing with `Ambiguous`.
    pub latest: bool,
}

/// What `resolve` answers: the job `get` finds; else the only job with that
/// name, or the newest of several when `latest`; else `NotFound` or
/// `Ambiguous`.
pub open spec fn resolution(rows: Seq<JobView>, q: Seq<char>, latest: bool) -> Result<JobView, JobError> {
    match lookup(rows, q) {
        Some(j) => Ok(j),
        None => {
            let named = newest(rows, 0, name_is(q));
            if named.len() == 0 {
                Err(JobError::NotFound)
            } else if named.len() == 1 || latest {
                Ok(named[0])
            } else {
                Err(JobError::Ambiguous)
            }
        },
    }
}

pub open spec fn result_view(r: Result<Job, JobError>) -> Result<JobView, JobError> {
    match r {
        Ok(j) => Ok(j@),
        Err(e) => Err(e),
    }
}

impl Database {
    /// The id spelled by the first draw that no row carries; `Exhausted`
    /// when every draw collides (or there is none).
    pub fn first_fresh(&self, draws: &Vec<Vec<u64>>) -> (r: Result<String, JobError>)
        requires
            self.wf(),
            digit_draws(draws_view(draws@)),
        ensures
            match first_fresh_id(self@, draws_view(draws@)) {
                Some(id) => r matches Ok(s) && s@ == id,
                None => r == Err::<String, JobError>(JobError::Exhausted),
            },
    {
        let ghost dv = draws_view(draws@);
        let n = draws.len();
        let mut i: usize = 0;
        assert(dv.subrange(0, n as int) =~= dv);
        while i < n
            invariant
                0 <= i <= n,
                n == draws@.len(),
                dv == draws_view(draws@),
                digit_draws(dv),
                self.wf(),
                first_fresh_id(self@, dv) == first_fresh_id(self@, dv.subrange(i as int, n as int)),
            decreases n - i,
        {
            assert(dv[i as int] == draws@[i as int]@);
            let id = id_from_digits(&draws[i]);
            assert(dv.subrange(i as int, n as int).drop_first() =~= dv.subrange(i + 1, n as int));
            assert(dv.subrange(i as int, n as int)[0] == dv[i as int]);
            if !self.job_exists(id.as_str()) {
                return Ok(id);
            }
            i = i + 1;
        }
        Err(JobError::Exhausted)
    }

    /// Mints an id that no row carries: `ID_ATTEMPTS` random ids of
    /// `ID_LEN` base-36 characters are drawn, and the first that no row
    /// carries is taken; when all collide the error is `Exhausted`. A store
    /// in which no row carries a well-formed id always gets one.
    pub fn generate_id(&self) -> (r: Result<String, JobError>)
        requires
            self.wf(),
        ensures
            match r {
                Ok(id) => valid_id(id@) && !has_id(self@, id@),
                Err(e) => e == JobError::Exhausted,
            },
            (forall|i: int| 0 <= i < self@.len() ==> !valid_id(#[trigger] self@[i].id)) ==> r is Ok,
    {
        let draws = draw_ids();
        let r = self.first_fresh(&draws);
        proof {
            lemma_first_fresh_valid(self@, draws_view(draws@));
        }
        r
    }

    /// Finds a job by id, id prefix or name; several jobs with that name
    /// are `Ambiguous` unless `opts.latest` picks the newest.
    pub fn resolve_with_options(&self, q: &str, opts: &ResolveOptions) -> (r: Result<Job, JobError>)
        requires
            self.wf(),
        ensures
            result_view(r) == resolution(self@, q@, opts.latest),
    {
        match self.get(q) {
            Some(j) => Ok(j),
            None => {
                let mut named = self.get_by_name(q);
                let n = named.len();
                if n == 0 {
                    Err(JobError::NotFound)
                } else if n == 1 || opts.latest {
                    let ghost before = named@;
                    let j = named.swap_remove(0);
                    assert(j@ == views(before)[0]);
                    Ok(j)
                } else {
                    Err(JobError::Ambiguous)
                }
            },
        }
    }

    /// Finds a job by id, id prefix or name; several jobs with that name
    /// are `Ambiguous`.
    pub fn resolve(&self, q: &str) -> (r: Result<Job, JobError>)
        requires
            self.wf(),
        ensures
            result_view(r) == resolution(self@, q@, false),
    {
        self.resolve_with_options(q, &ResolveOptions { latest: false })
    }
}

} // verus!
