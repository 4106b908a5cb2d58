use vstd::prelude::*;

use crate::job::{consistent, JobError, JobView, Status};
use crate::store::{
    doomed, finish_row, last_stamp, later, first_where, has_id, lemma_newest_members, id_is, id_starts, key_is, key_taken, lookup, newest, name_is, on_id, recover_row,
    resolution, slot, spared, start_row, status_row, store_wf, sorted_by_creation, lemma_map_keeps_wf,
};
use crate::text::is_prefix;

verus! {

/// Every record carries a finish time exactly when its status is terminal.
pub open spec fn all_consistent(rows: Seq<JobView>) -> bool {
    forall|i: int| 0 <= i < rows.len() ==> consistent(#[trigger] rows[i])
}

/// No record that was terminal in `before` shows another status, or
/// another finish time, in `after`.
pub open spec fn terminal_kept(before: Seq<JobView>, after: Seq<JobView>) -> bool {
    forall|i: int, j: int|
        0 <= i < before.len() && 0 <= j < after.len() && (#[trigger] before[i]).status.spec_is_terminal()
            && (#[trigger] after[j]).id == before[i].id ==> after[j].status == before[i].status
            && after[j].finished_at == before[i].finished_at
}

/// Every row of `spared(rows, d)` is a row of `rows` that `d` spares.
pub proof fn lemma_spared_members(rows: Seq<JobView>, d: spec_fn(JobView) -> bool)
    ensures
        forall|k: int|
            0 <= k < spared(rows, d).len() ==> !d(#[trigger] spared(rows, d)[k]) && exists|m: int|
                0 <= m < rows.len() && rows[m] == spared(rows, d)[k],
    decreases rows.len(),
{
    if rows.len() > 0 {
        let init = rows.drop_last();
        lemma_spared_members(init, d);
        let s = spared(init, d);
        assert forall|k: int| 0 <= k < spared(rows, d).len() implies !d(
            #[trigger] spared(rows, d)[k],
        ) && exists|m: int| 0 <= m < rows.len() && rows[m] == spared(rows, d)[k] by {
            if k < s.len() {
                assert(spared(rows, d)[k] == s[k]);
                let m = choose|m: int| 0 <= m < init.len() && init[m] == s[k];
                assert(rows[m] == spared(rows, d)[k]);
            } else {
                assert(spared(rows, d)[k] == rows[rows.len() - 1]);
            }
        }
    }
}

/// A sequence none of whose rows `d` dooms is spared whole.
proof fn lemma_spared_all(rows: Seq<JobView>, d: spec_fn(JobView) -> bool)
    requires
        forall|k: int| 0 <= k < rows.len() ==> !d(#[trigger] rows[k]),
    ensures
        spared(rows, d) == rows,
    decreases rows.len(),
{
    if rows.len() > 0 {
        lemma_spared_all(rows.drop_last(), d);
        assert(rows.drop_last().push(rows.last()) =~= rows);
    }
}

/// With exactly one row from `lo` on satisfying `pred`, that row is found.
proof fn lemma_first_where_only(rows: Seq<JobView>, lo: int, m: int, pred: spec_fn(JobView) -> bool)
    requires
        0 <= lo <= m < rows.len(),
        pred(rows[m]),
        forall|k: int| lo <= k < rows.len() && k != m ==> !pred(#[trigger] rows[k]),
    ensures
        first_where(rows, lo, pred) == Some(rows[m]),
    decreases m - lo,
{
    if lo < m {
        lemma_first_where_only(rows, lo + 1, m, pred);
    }
}

/// With no row from `lo` on satisfying `pred`, nothing is found.
proof fn lemma_first_where_none(rows: Seq<JobView>, lo: int, pred: spec_fn(JobView) -> bool)
    requires
        0 <= lo,
        forall|k: int| lo <= k < rows.len() ==> !pred(#[trigger] rows[k]),
    ensures
        first_where(rows, lo, pred) is None,
    decreases rows.len() - lo,
{
    if lo < rows.len() {
        lemma_first_where_none(rows, lo + 1, pred);
    }
}

/// A record's finish time is set exactly when its status is terminal, and
/// every change the store makes keeps it so: the start and finish of a job,
/// a status change, orphan recovery, deletion, and the insertion of a record
/// that is itself consistent (as every record a `Run` creates is: pending,
/// with no finish time).
pub proof fn law_finish_time_iff_terminal(
    rows: Seq<JobView>,
    id: Seq<char>,
    pid: u32,
    status: Status,
    code: Option<i32>,
    now: i64,
    before: i64,
    filter: Option<Status>,
    job: JobView,
)
    requires
        all_consistent(rows),
    ensures
        all_consistent(on_id(rows, id, start_row(pid, now))),
        status.spec_is_terminal() ==> all_consistent(on_id(rows, id, finish_row(status, code, now))),
        all_consistent(on_id(rows, id, status_row(status, now))),
        all_consistent(rows.map_values(recover_row(now))),
        all_consistent(spared(rows, doomed(before, filter))),
        consistent(job) ==> all_consistent(rows.insert(slot(rows, job.created_at), job)),
{
    lemma_spared_members(rows, doomed(before, filter));
    let p = slot(rows, job.created_at);
    lemma_slot_range(rows, job.created_at);
    if consistent(job) {
        let n = rows.insert(p, job);
        assert forall|i: int| 0 <= i < n.len() implies consistent(#[trigger] n[i]) by {
            if i < p {
                assert(n[i] == rows[i]);
            } else if i > p {
                assert(n[i] == rows[i - 1]);
            }
        }
    }
}

proof fn lemma_slot_range(rows: Seq<JobView>, c: i64)
    ensures
        0 <= slot(rows, c) <= rows.len(),
    decreases rows.len(),
{
    if rows.len() > 0 {
        lemma_slot_range(rows.drop_last(), c);
    }
}

/// After `update_started` on a live job, its record holds the process id
/// and the start time: `now`, or the creation time if the clock reads
/// earlier.
pub proof fn law_started_sets_pid_and_time(rows: Seq<JobView>, i: int, pid: u32, now: i64)
    requires
        0 <= i < rows.len(),
        !rows[i].status.spec_is_terminal(),
    ensures
        on_id(rows, rows[i].id, start_row(pid, now))[i].pid == Some(pid),
        on_id(rows, rows[i].id, start_row(pid, now))[i].started_at == Some(
            later(now, rows[i].created_at),
        ),
        now >= rows[i].created_at ==> on_id(rows, rows[i].id, start_row(pid, now))[i].started_at
            == Some(now),
        on_id(rows, rows[i].id, start_row(pid, now))[i].status == Status::Running,
{
}

/// A terminal record is never seen to change: starting, finishing, a
/// status change, orphan recovery, deletion and insertion all leave it as
/// it was.
pub proof fn law_terminal_is_absorbing(
    rows: Seq<JobView>,
    id: Seq<char>,
    pid: u32,
    status: Status,
    code: Option<i32>,
    now: i64,
    before: i64,
    filter: Option<Status>,
    job: JobView,
)
    requires
        store_wf(rows),
    ensures
        terminal_kept(rows, on_id(rows, id, start_row(pid, now))),
        terminal_kept(rows, on_id(rows, id, finish_row(status, code, now))),
        terminal_kept(rows, on_id(rows, id, status_row(status, now))),
        terminal_kept(rows, rows.map_values(recover_row(now))),
        terminal_kept(rows, spared(rows, doomed(before, filter))),
        !has_id(rows, job.id) ==> terminal_kept(
            rows,
            rows.insert(slot(rows, job.created_at), job),
        ),
{
    let d = doomed(before, filter);
    lemma_spared_members(rows, d);
    let sp = spared(rows, d);
    assert forall|i: int, j: int|
        0 <= i < rows.len() && 0 <= j < sp.len() && (#[trigger] rows[i]).status.spec_is_terminal()
            && (#[trigger] sp[j]).id == rows[i].id implies sp[j].status == rows[i].status
        && sp[j].finished_at == rows[i].finished_at by {
        let m = choose|m: int| 0 <= m < rows.len() && rows[m] == sp[j];
        assert(m == i);
    }
    let p = slot(rows, job.created_at);
    lemma_slot_range(rows, job.created_at);
    if !has_id(rows, job.id) {
        let n = rows.insert(p, job);
        assert forall|i: int, j: int|
            0 <= i < rows.len() && 0 <= j < n.len() && (#[trigger] rows[i]).status.spec_is_terminal()
                && (#[trigger] n[j]).id == rows[i].id implies n[j].status == rows[i].status
            && n[j].finished_at == rows[i].finished_at by {
            if j < p {
                assert(n[j] == rows[j]);
                assert(j == i);
            } else if j > p {
                assert(n[j] == rows[j - 1]);
                assert(j - 1 == i);
            } else {
                assert(n[j] == job);
            }
        }
    }
}

/// After orphan recovery no record is pending or running; each of those
/// is interrupted, finished at the recovery time (or at its own last stamp,
/// should the clock read earlier).
pub proof fn law_recovery_leaves_no_live_rows(rows: Seq<JobView>, now: i64)
    ensures
        forall|i: int|
            0 <= i < rows.len() ==> (#[trigger] rows.map_values(recover_row(now))[i]).status
                != Status::Pending && rows.map_values(recover_row(now))[i].status != Status::Running,
        forall|i: int|
            0 <= i < rows.len() && (rows[i].status == Status::Pending || rows[i].status
                == Status::Running) ==> (#[trigger] rows.map_values(recover_row(now))[i]).status
                == Status::Interrupted && rows.map_values(recover_row(now))[i].finished_at == Some(
                later(now, last_stamp(rows[i])),
            ),
{
}

/// `delete_old(t, s)` twice in a row: the second call finds nothing left
/// to remove.
pub proof fn law_delete_old_twice(rows: Seq<JobView>, before: i64, filter: Option<Status>)
    ensures
        spared(spared(rows, doomed(before, filter)), doomed(before, filter)) == spared(
            rows,
            doomed(before, filter),
        ),
{
    let d = doomed(before, filter);
    lemma_spared_members(rows, d);
    lemma_spared_all(spared(rows, d), d);
}

/// Resolving a prefix that exactly one id starts with gives the same job as
/// looking up that full id.
pub proof fn law_unique_prefix_resolves(rows: Seq<JobView>, p: Seq<char>, m: int, latest: bool)
    requires
        store_wf(rows),
        0 <= m < rows.len(),
        is_prefix(p, rows[m].id),
        forall|k: int| 0 <= k < rows.len() && k != m ==> !is_prefix(p, #[trigger] rows[k].id),
    ensures
        lookup(rows, rows[m].id) == Some(rows[m]),
        resolution(rows, p, latest) == Ok::<JobView, JobError>(rows[m]),
{
    lemma_first_where_only(rows, 0, m, id_is(rows[m].id));
    lemma_first_where_only(rows, 0, m, id_starts(p));
    if exists|k: int| 0 <= k < rows.len() && rows[k].id == p {
        let k = choose|k: int| 0 <= k < rows.len() && rows[k].id == p;
        assert(rows[k].id.subrange(0, p.len() as int) =~= p);
        assert(is_prefix(p, rows[k].id));
        assert(k == m);
        lemma_first_where_only(rows, 0, m, id_is(p));
    } else {
        lemma_first_where_none(rows, 0, id_is(p));
    }
}

/// With two or more jobs of one name and no id or id prefix equal to it,
/// resolving the name fails as ambiguous, and with `latest` gives the
/// newest of them, a stored job that carries that name.
pub proof fn law_shared_name(rows: Seq<JobView>, name: Seq<char>)
    requires
        lookup(rows, name) is None,
        newest(rows, 0, name_is(name)).len() >= 2,
    ensures
        resolution(rows, name, false) == Err::<JobView, JobError>(JobError::Ambiguous),
        resolution(rows, name, true) == Ok::<JobView, JobError>(newest(rows, 0, name_is(name))[0]),
        newest(rows, 0, name_is(name))[0].name == Some(name),
        exists|m: int| 0 <= m < rows.len() && rows[m] == newest(rows, 0, name_is(name))[0],
{
    lemma_newest_members(rows, 0, name_is(name));
    assert(name_is(name)(newest(rows, 0, name_is(name))[0]));
}


/// Every row of `rows` is still present after an insertion.
proof fn lemma_insert_keeps(rows: Seq<JobView>, p: int, job: JobView, i: int)
    requires
        0 <= p <= rows.len(),
        0 <= i < rows.len(),
    ensures
        has_id(rows.insert(p, job), rows[i].id),
{
    let n = rows.insert(p, job);
    if i < p {
        assert(n[i] == rows[i]);
    } else {
        assert(n[i + 1] == rows[i]);
    }
}

/// `Run(k)` twice with one idempotency key `k` persists one job: once the
/// first request has inserted its record, the key finds exactly that record,
/// so the second request gets it back and leaves the store unchanged.
pub proof fn law_idempotent_run(rows: Seq<JobView>, job: JobView, k: Seq<char>)
    requires
        store_wf(rows),
        job.idempotency_key == Some(k),
        !key_taken(rows, Some(k)),
    ensures
        first_where(rows.insert(slot(rows, job.created_at), job), 0, key_is(k)) == Some(job),
        forall|i: int|
            0 <= i < rows.len() + 1 && (#[trigger] rows.insert(slot(rows, job.created_at), job)[i]).idempotency_key
                == Some(k) ==> i == slot(rows, job.created_at),
{
    let p = slot(rows, job.created_at);
    lemma_slot_range(rows, job.created_at);
    let n = rows.insert(p, job);
    assert forall|i: int| 0 <= i < n.len() && i != p implies !key_is(k)(#[trigger] n[i]) by {
        if i < p {
            assert(n[i] == rows[i]);
        } else {
            assert(n[i] == rows[i - 1]);
        }
    }
    lemma_first_where_only(n, 0, p, key_is(k));
}

/// Ids minted by successive admissions are pairwise distinct, and none was
/// carried by a record before the first admission: each one is absent from
/// the store when minted, and every record stays through later admissions.
pub proof fn law_admitted_ids_distinct(stores: Seq<Seq<JobView>>, jobs: Seq<JobView>)
    requires
        stores.len() == jobs.len() + 1,
        forall|k: int|
            0 <= k < jobs.len() ==> !has_id(#[trigger] stores[k], jobs[k].id) && stores[k + 1]
                == stores[k].insert(slot(stores[k], jobs[k].created_at), jobs[k]),
    ensures
        forall|a: int, b: int|
            0 <= a < jobs.len() && 0 <= b < jobs.len() && a != b ==> (#[trigger] jobs[a]).id != (
            #[trigger] jobs[b]).id,
        forall|a: int| 0 <= a < jobs.len() ==> !has_id(stores[0], (#[trigger] jobs[a]).id),
{
    assert forall|a: int| 0 <= a < jobs.len() implies !has_id(stores[0], (#[trigger] jobs[a]).id) by {
        if has_id(stores[0], jobs[a].id) {
            lemma_store_keeps(stores, jobs, a, jobs[a].id);
        }
    }
    assert forall|a: int, b: int|
        0 <= a < jobs.len() && 0 <= b < jobs.len() && a != b implies (#[trigger] jobs[a]).id != (
        #[trigger] jobs[b]).id by {
        if a < b {
            lemma_admitted_stays(stores, jobs, a, b);
        } else {
            lemma_admitted_stays(stores, jobs, b, a);
        }
    }
}

proof fn lemma_admitted_stays(stores: Seq<Seq<JobView>>, jobs: Seq<JobView>, a: int, b: int)
    requires
        stores.len() == jobs.len() + 1,
        forall|k: int|
            0 <= k < jobs.len() ==> !has_id(#[trigger] stores[k], jobs[k].id) && stores[k + 1]
                == stores[k].insert(slot(stores[k], jobs[k].created_at), jobs[k]),
        0 <= a < b <= jobs.len(),
    ensures
        has_id(stores[b], jobs[a].id),
    decreases b - a,
{
    let s = stores[b - 1];
    lemma_slot_range(s, jobs[b - 1].created_at);
    let p = slot(s, jobs[b - 1].created_at);
    if b - 1 == a {
        assert(stores[b][p] == jobs[a]);
    } else {
        lemma_admitted_stays(stores, jobs, a, b - 1);
        let i = choose|i: int| 0 <= i < s.len() && (#[trigger] s[i]).id == jobs[a].id;
        lemma_insert_keeps(s, p, jobs[b - 1], i);
    }
}


/// A record's stamps are in order: created, then started, then finished.
pub open spec fn stamps_ordered(j: JobView) -> bool {
    &&& (j.started_at matches Some(s) ==> j.created_at <= s)
    &&& (j.finished_at matches Some(f) ==> j.created_at <= f)
    &&& (j.started_at matches Some(s) && j.finished_at matches Some(f) ==> s <= f)
}

pub open spec fn all_ordered(rows: Seq<JobView>) -> bool {
    forall|i: int| 0 <= i < rows.len() ==> stamps_ordered(#[trigger] rows[i])
}

/// Creation, start and finish times stay in that order through every change
/// the store makes to consistent records: starting, finishing, a status
/// change, orphan recovery, deletion, and the insertion of an ordered record.
pub proof fn law_stamps_in_order(
    rows: Seq<JobView>,
    id: Seq<char>,
    pid: u32,
    status: Status,
    code: Option<i32>,
    now: i64,
    before: i64,
    filter: Option<Status>,
    job: JobView,
)
    requires
        all_consistent(rows),
        all_ordered(rows),
    ensures
        all_ordered(on_id(rows, id, start_row(pid, now))),
        all_ordered(on_id(rows, id, finish_row(status, code, now))),
        all_ordered(on_id(rows, id, status_row(status, now))),
        all_ordered(rows.map_values(recover_row(now))),
        all_ordered(spared(rows, doomed(before, filter))),
        stamps_ordered(job) ==> all_ordered(rows.insert(slot(rows, job.created_at), job)),
{
    lemma_spared_members(rows, doomed(before, filter));
    let p = slot(rows, job.created_at);
    lemma_slot_range(rows, job.created_at);
    if stamps_ordered(job) {
        let n = rows.insert(p, job);
        assert forall|i: int| 0 <= i < n.len() implies stamps_ordered(#[trigger] n[i]) by {
            if i < p {
                assert(n[i] == rows[i]);
            } else if i > p {
                assert(n[i] == rows[i - 1]);
            }
        }
    }
    let a = on_id(rows, id, start_row(pid, now));
    assert forall|i: int| 0 <= i < a.len() implies stamps_ordered(#[trigger] a[i]) by {
        assert(consistent(rows[i]) && stamps_ordered(rows[i]));
    }
}


/// A record present in the first store is present in every later one.
proof fn lemma_store_keeps(stores: Seq<Seq<JobView>>, jobs: Seq<JobView>, b: int, x: Seq<char>)
    requires
        stores.len() == jobs.len() + 1,
        forall|k: int|
            0 <= k < jobs.len() ==> !has_id(#[trigger] stores[k], jobs[k].id) && stores[k + 1]
                == stores[k].insert(slot(stores[k], jobs[k].created_at), jobs[k]),
        0 <= b <= jobs.len(),
        has_id(stores[0], x),
    ensures
        has_id(stores[b], x),
    decreases b,
{
    if b > 0 {
        lemma_store_keeps(stores, jobs, b - 1, x);
        let s = stores[b - 1];
        lemma_slot_range(s, jobs[b - 1].created_at);
        let i = choose|i: int| 0 <= i < s.len() && (#[trigger] s[i]).id == x;
        lemma_insert_keeps(s, slot(s, jobs[b - 1].created_at), jobs[b - 1], i);
    }
}

/// With no row matching `pred` from `lo` on, `newest` is empty; with one
/// such row, it is that row alone.
proof fn lemma_newest_one(rows: Seq<JobView>, lo: int, m: int, pred: spec_fn(JobView) -> bool)
    requires
        0 <= lo <= rows.len(),
        forall|k: int| lo <= k < rows.len() && k != m ==> !pred(#[trigger] rows[k]),
    ensures
        (lo <= m < rows.len() && pred(rows[m])) ==> newest(rows, lo, pred) == seq![rows[m]],
        !(lo <= m < rows.len() && pred(rows[m])) ==> newest(rows, lo, pred).len() == 0,
    decreases rows.len() - lo,
{
    if lo < rows.len() {
        lemma_newest_one(rows, lo + 1, m, pred);
        if lo == m && pred(rows[m]) {
            assert(newest(rows, lo, pred) =~= seq![rows[m]]);
        }
    }
}

/// With exactly two rows `ia < ib` matching `pred` from `lo` on, `newest`
/// lists the later one first.
proof fn lemma_newest_two(rows: Seq<JobView>, lo: int, ia: int, ib: int, pred: spec_fn(JobView) -> bool)
    requires
        0 <= lo <= ia < ib < rows.len(),
        pred(rows[ia]),
        pred(rows[ib]),
        forall|k: int| lo <= k < rows.len() && k != ia && k != ib ==> !pred(#[trigger] rows[k]),
    ensures
        newest(rows, lo, pred) == seq![rows[ib], rows[ia]],
    decreases ia - lo,
{
    if lo < ia {
        lemma_newest_two(rows, lo + 1, ia, ib, pred);
    } else {
        lemma_newest_one(rows, lo + 1, ib, pred);
        assert(newest(rows, lo, pred) =~= seq![rows[ib], rows[ia]]);
    }
}

/// Two jobs share a name, no other job carries it, and no id starts with
/// it: resolving the name is ambiguous, and with `latest` it gives the one
/// created later.
pub proof fn law_two_jobs_one_name(rows: Seq<JobView>, name: Seq<char>, a: int, b: int)
    requires
        store_wf(rows),
        0 <= a < rows.len(),
        0 <= b < rows.len(),
        rows[a].name == Some(name),
        rows[b].name == Some(name),
        rows[a].created_at < rows[b].created_at,
        forall|k: int| 0 <= k < rows.len() && k != a && k != b ==> rows[k].name != Some(name),
        forall|k: int| 0 <= k < rows.len() ==> !is_prefix(name, #[trigger] rows[k].id),
    ensures
        resolution(rows, name, false) == Err::<JobView, JobError>(JobError::Ambiguous),
        resolution(rows, name, true) == Ok::<JobView, JobError>(rows[b]),
{
    assert(a < b) by {
        if b < a {
            assert(rows[b].created_at <= rows[a].created_at);
        }
    }
    assert forall|k: int| 0 <= k < rows.len() implies !id_is(name)(#[trigger] rows[k]) by {
        if rows[k].id == name {
            assert(rows[k].id.subrange(0, name.len() as int) =~= name);
        }
    }
    lemma_first_where_none(rows, 0, id_is(name));
    assert forall|k: int| 0 <= k < rows.len() implies !id_starts(name)(#[trigger] rows[k]) by {}
    lemma_first_where_none(rows, 0, id_starts(name));
    assert forall|k: int| 0 <= k < rows.len() && k != a && k != b implies !name_is(name)(
        #[trigger] rows[k],
    ) by {}
    lemma_newest_two(rows, 0, a, b, name_is(name));
}


/// A change the store makes to its records, other than deletion.
pub enum StoreOp {
    Start(Seq<char>, u32, i64),
    Finish(Seq<char>, Status, Option<i32>, i64),
    SetStatus(Seq<char>, Status, i64),
    Recover(i64),
    Insert(JobView),
}

/// The records after one change; an insertion whose id or key is taken
/// leaves them as they were, as `insert` does.
pub open spec fn apply_op(rows: Seq<JobView>, op: StoreOp) -> Seq<JobView> {
    match op {
        StoreOp::Start(id, pid, now) => on_id(rows, id, start_row(pid, now)),
        StoreOp::Finish(id, st, code, now) => on_id(rows, id, finish_row(st, code, now)),
        StoreOp::SetStatus(id, st, now) => on_id(rows, id, status_row(st, now)),
        StoreOp::Recover(now) => rows.map_values(recover_row(now)),
        StoreOp::Insert(job) => if has_id(rows, job.id) || key_taken(rows, job.idempotency_key) {
            rows
        } else {
            rows.insert(slot(rows, job.created_at), job)
        },
    }
}

/// The records after a sequence of changes, in order.
pub open spec fn apply_ops(rows: Seq<JobView>, ops: Seq<StoreOp>) -> Seq<JobView>
    decreases ops.len(),
{
    if ops.len() == 0 {
        rows
    } else {
        apply_op(apply_ops(rows, ops.drop_last()), ops.last())
    }
}

/// Rows before `slot` were created no later than `c`, rows from it on later.
proof fn lemma_slot_split(rows: Seq<JobView>, c: i64)
    requires
        sorted_by_creation(rows),
    ensures
        0 <= slot(rows, c) <= rows.len(),
        forall|k: int| 0 <= k < slot(rows, c) ==> (#[trigger] rows[k]).created_at <= c,
        forall|k: int| slot(rows, c) <= k < rows.len() ==> (#[trigger] rows[k]).created_at > c,
    decreases rows.len(),
{
    if rows.len() > 0 {
        let init = rows.drop_last();
        assert(sorted_by_creation(init)) by {
            assert forall|i: int, j: int| 0 <= i <= j < init.len() implies (#[trigger] init[i]).created_at
                <= (#[trigger] init[j]).created_at by {
                assert(init[i] == rows[i] && init[j] == rows[j]);
            }
        }
        lemma_slot_split(init, c);
        if rows.last().created_at > c {
            assert forall|k: int| 0 <= k < slot(rows, c) implies (#[trigger] rows[k]).created_at <= c by {
                assert(rows[k] == init[k]);
            }
            assert forall|k: int| slot(rows, c) <= k < rows.len() implies (#[trigger] rows[k]).created_at
                > c by {
                if k < init.len() {
                    assert(rows[k] == init[k]);
                }
            }
        } else {
            assert forall|k: int| 0 <= k < rows.len() implies (#[trigger] rows[k]).created_at <= c by {
                assert(rows[k].created_at <= rows[rows.len() - 1].created_at);
            }
        }
    }
}

/// Inserting a record whose id and key are free keeps the invariant.
proof fn lemma_insert_wf(rows: Seq<JobView>, job: JobView)
    requires
        store_wf(rows),
        !has_id(rows, job.id),
        !key_taken(rows, job.idempotency_key),
    ensures
        store_wf(rows.insert(slot(rows, job.created_at), job)),
{
    let p = slot(rows, job.created_at);
    lemma_slot_split(rows, job.created_at);
    let n = rows.insert(p, job);
    assert forall|k: int| 0 <= k < n.len() implies #[trigger] n[k] == (if k < p {
        rows[k]
    } else if k == p {
        job
    } else {
        rows[k - 1]
    }) by {}
    assert forall|a: int, b: int| 0 <= a < n.len() && 0 <= b < n.len() && a != b implies #[trigger] n[a].id
        != #[trigger] n[b].id by {
        assert(n[a] == (if a < p { rows[a] } else if a == p { job } else { rows[a - 1] }));
        assert(n[b] == (if b < p { rows[b] } else if b == p { job } else { rows[b - 1] }));
    }
    assert forall|a: int, b: int|
        0 <= a < n.len() && 0 <= b < n.len() && a != b && (#[trigger] n[a]).idempotency_key is Some
            implies n[a].idempotency_key != (#[trigger] n[b]).idempotency_key by {
        assert(n[a] == (if a < p { rows[a] } else if a == p { job } else { rows[a - 1] }));
        assert(n[b] == (if b < p { rows[b] } else if b == p { job } else { rows[b - 1] }));
    }
    assert forall|a: int, b: int| 0 <= a <= b < n.len() implies (#[trigger] n[a]).created_at
        <= (#[trigger] n[b]).created_at by {
        assert(n[a] == (if a < p { rows[a] } else if a == p { job } else { rows[a - 1] }));
        assert(n[b] == (if b < p { rows[b] } else if b == p { job } else { rows[b - 1] }));
    }
}

/// One change keeps the invariant, and every terminal record stays as it was.
proof fn lemma_op_keeps(rows: Seq<JobView>, op: StoreOp)
    requires
        store_wf(rows),
    ensures
        store_wf(apply_op(rows, op)),
        forall|i: int|
            0 <= i < rows.len() && (#[trigger] rows[i]).status.spec_is_terminal() ==> exists|j: int|
                0 <= j < apply_op(rows, op).len() && apply_op(rows, op)[j] == rows[i],
{
    let n = apply_op(rows, op);
    match op {
        StoreOp::Insert(job) => {
            if !(has_id(rows, job.id) || key_taken(rows, job.idempotency_key)) {
                lemma_insert_wf(rows, job);
                lemma_slot_range(rows, job.created_at);
                let p = slot(rows, job.created_at);
                assert forall|i: int| 0 <= i < rows.len() && (#[trigger] rows[i]).status.spec_is_terminal()
                    implies exists|j: int| 0 <= j < n.len() && n[j] == rows[i] by {
                    if i < p {
                        assert(n[i] == rows[i]);
                    } else {
                        assert(n[i + 1] == rows[i]);
                    }
                }
            } else {
                assert forall|i: int| 0 <= i < rows.len() && (#[trigger] rows[i]).status.spec_is_terminal()
                    implies exists|j: int| 0 <= j < n.len() && n[j] == rows[i] by {
                    assert(n[i] == rows[i]);
                }
            }
        },
        StoreOp::Recover(now) => {
            lemma_map_keeps_wf(rows, recover_row(now));
            assert forall|i: int| 0 <= i < rows.len() && (#[trigger] rows[i]).status.spec_is_terminal()
                implies exists|j: int| 0 <= j < n.len() && n[j] == rows[i] by {
                assert(n[i] == rows[i]);
            }
        },
        StoreOp::Start(id, pid, now) => {
            let f = |j: JobView| if j.id == id { start_row(pid, now)(j) } else { j };
            lemma_map_keeps_wf(rows, f);
            assert forall|i: int| 0 <= i < rows.len() && (#[trigger] rows[i]).status.spec_is_terminal()
                implies exists|j: int| 0 <= j < n.len() && n[j] == rows[i] by {
                assert(n[i] == rows[i]);
            }
        },
        StoreOp::Finish(id, st, code, now) => {
            let f = |j: JobView| if j.id == id { finish_row(st, code, now)(j) } else { j };
            lemma_map_keeps_wf(rows, f);
            assert forall|i: int| 0 <= i < rows.len() && (#[trigger] rows[i]).status.spec_is_terminal()
                implies exists|j: int| 0 <= j < n.len() && n[j] == rows[i] by {
                assert(n[i] == rows[i]);
            }
        },
        StoreOp::SetStatus(id, st, now) => {
            let f = |j: JobView| if j.id == id { status_row(st, now)(j) } else { j };
            lemma_map_keeps_wf(rows, f);
            assert forall|i: int| 0 <= i < rows.len() && (#[trigger] rows[i]).status.spec_is_terminal()
                implies exists|j: int| 0 <= j < n.len() && n[j] == rows[i] by {
                assert(n[i] == rows[i]);
            }
        },
    }
}

/// Through any sequence of changes without deletion, the invariant holds
/// and a record read as terminal is read again unchanged: still present,
/// and the only record with its id.
pub proof fn law_terminal_stays_over_changes(rows: Seq<JobView>, ops: Seq<StoreOp>, i: int)
    requires
        store_wf(rows),
        0 <= i < rows.len(),
        rows[i].status.spec_is_terminal(),
    ensures
        store_wf(apply_ops(rows, ops)),
        exists|j: int| 0 <= j < apply_ops(rows, ops).len() && apply_ops(rows, ops)[j] == rows[i],
        forall|j: int|
            0 <= j < apply_ops(rows, ops).len() && (#[trigger] apply_ops(rows, ops)[j]).id
                == rows[i].id ==> apply_ops(rows, ops)[j] == rows[i],
    decreases ops.len(),
{
    if ops.len() > 0 {
        law_terminal_stays_over_changes(rows, ops.drop_last(), i);
        let mid = apply_ops(rows, ops.drop_last());
        let m = choose|m: int| 0 <= m < mid.len() && mid[m] == rows[i];
        lemma_op_keeps(mid, ops.last());
        assert(mid[m].status.spec_is_terminal());
    }
    let fin = apply_ops(rows, ops);
    let j0 = choose|j: int| 0 <= j < fin.len() && fin[j] == rows[i];
    assert forall|j: int| 0 <= j < fin.len() && (#[trigger] fin[j]).id == rows[i].id implies fin[j]
        == rows[i] by {
        if j != j0 {
            assert(fin[j].id != fin[j0].id);
        }
    }
}

} // verus!
