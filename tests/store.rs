use jb::job::{Job, JobError, Status};
use jb::store::{Database, ResolveOptions};

fn test_db() -> Database {
    Database::new()
}

fn create_test_job(id: &str, status: Status) -> Job {
    let mut job = Job::new(
        id.to_string(),
        format!("echo {id}"),
        "/tmp".to_string(),
        "/project".to_string(),
    );
    job.status = status;
    job
}

fn job_at(id: &str, status: Status, created_at: i64) -> Job {
    let mut job = Job::new_at(
        id.to_string(),
        format!("echo {id}"),
        "/tmp".to_string(),
        "/project".to_string(),
        created_at,
    );
    job.status = status;
    job
}

#[test]
fn test_insert_and_get() {
    let mut db = test_db();
    let job = create_test_job("abc1", Status::Pending);

    db.insert(job).unwrap();
    let retrieved = db.get("abc1").unwrap();

    assert_eq!(retrieved.id, "abc1");
    assert_eq!(retrieved.status, Status::Pending);
}

#[test]
fn test_get_nonexistent() {
    let db = test_db();
    let result = db.get("nonexistent");
    assert!(result.is_none());
}

#[test]
fn test_get_by_prefix() {
    let mut db = test_db();
    let job = create_test_job("xyz9", Status::Running);
    db.insert(job).unwrap();

    assert!(db.get("xyz9").is_some());
    assert!(db.get("xyz").is_some());
    assert!(db.get("xy").is_some());
}

#[test]
fn test_get_by_name() {
    let mut db = test_db();
    let job = create_test_job("abc1", Status::Running).with_name("my-job".to_string());
    db.insert(job).unwrap();

    let jobs = db.get_by_name("my-job");
    assert_eq!(jobs.len(), 1);
    assert_eq!(jobs[0].id, "abc1");

    let jobs = db.get_by_name("nonexistent");
    assert!(jobs.is_empty());
}

#[test]
fn test_list_no_filter() {
    let mut db = test_db();
    db.insert(create_test_job("a", Status::Running)).unwrap();
    db.insert(create_test_job("b", Status::Completed)).unwrap();
    db.insert(create_test_job("c", Status::Failed)).unwrap();

    let jobs = db.list(None, None);
    assert_eq!(jobs.len(), 3);
}

#[test]
fn test_list_with_status_filter() {
    let mut db = test_db();
    db.insert(create_test_job("a", Status::Running)).unwrap();
    db.insert(create_test_job("b", Status::Running)).unwrap();
    db.insert(create_test_job("c", Status::Failed)).unwrap();
    db.insert(create_test_job("d", Status::Completed)).unwrap();

    let running = db.list(Some(Status::Running), None);
    assert_eq!(running.len(), 2);

    let failed = db.list(Some(Status::Failed), None);
    assert_eq!(failed.len(), 1);
    assert_eq!(failed[0].id, "c");
}

#[test]
fn test_list_with_limit() {
    let mut db = test_db();
    for i in 0..20 {
        db.insert(create_test_job(&format!("job{i:02}"), Status::Completed))
            .unwrap();
    }

    let jobs = db.list(None, Some(10));
    assert_eq!(jobs.len(), 10);

    let jobs = db.list(None, Some(5));
    assert_eq!(jobs.len(), 5);
}

#[test]
fn test_list_with_status_and_limit() {
    let mut db = test_db();
    for i in 0..10 {
        db.insert(create_test_job(&format!("f{i}"), Status::Failed))
            .unwrap();
    }
    for i in 0..10 {
        db.insert(create_test_job(&format!("c{i}"), Status::Completed))
            .unwrap();
    }

    let failed = db.list(Some(Status::Failed), Some(3));
    assert_eq!(failed.len(), 3);
    assert!(failed.iter().all(|j| j.status == Status::Failed));
}

#[test]
fn test_list_ordered_by_created_at_desc() {
    let mut db = test_db();
    db.insert(job_at("a", Status::Completed, 1_000)).unwrap();
    db.insert(job_at("b", Status::Completed, 11_000)).unwrap();
    db.insert(job_at("c", Status::Completed, 21_000)).unwrap();

    let jobs = db.list(None, None);
    assert_eq!(jobs[0].id, "c");
    assert_eq!(jobs[1].id, "b");
    assert_eq!(jobs[2].id, "a");
}

#[test]
fn list_orders_by_creation_not_by_insertion() {
    let mut db = test_db();
    db.insert(job_at("b", Status::Completed, 20)).unwrap();
    db.insert(job_at("a", Status::Completed, 10)).unwrap();
    db.insert(job_at("c", Status::Completed, 30)).unwrap();
    let ids: Vec<String> = db.list(None, None).into_iter().map(|j| j.id).collect();
    assert_eq!(ids, vec!["c", "b", "a"]);
    let ids: Vec<String> = db.list(None, Some(0)).into_iter().map(|j| j.id).collect();
    assert!(ids.is_empty());
    let ids: Vec<String> = db.list(None, Some(50)).into_iter().map(|j| j.id).collect();
    assert_eq!(ids.len(), 3);
}

#[test]
fn test_update_status() {
    let mut db = test_db();
    db.insert(create_test_job("abc1", Status::Pending)).unwrap();

    db.update_status("abc1", Status::Running);
    let job = db.get("abc1").unwrap();
    assert_eq!(job.status, Status::Running);
}

#[test]
fn test_update_started() {
    let mut db = test_db();
    db.insert(create_test_job("abc1", Status::Pending)).unwrap();

    db.update_started("abc1", 12345);
    let job = db.get("abc1").unwrap();
    assert_eq!(job.status, Status::Running);
    assert_eq!(job.pid, Some(12345));
    assert!(job.started_at.is_some());
}

#[test]
fn test_update_finished() {
    let mut db = test_db();
    db.insert(create_test_job("abc1", Status::Running)).unwrap();

    db.update_finished("abc1", Status::Completed, Some(0));
    let job = db.get("abc1").unwrap();
    assert_eq!(job.status, Status::Completed);
    assert_eq!(job.exit_code, Some(0));
    assert!(job.finished_at.is_some());
}

#[test]
fn terminal_status_is_never_overwritten() {
    let mut db = test_db();
    db.insert(job_at("abc1", Status::Pending, 5)).unwrap();
    db.update_started_at("abc1", 77, 10);
    db.update_finished_at("abc1", Status::Stopped, None, 20);
    db.update_finished_at("abc1", Status::Completed, Some(0), 30);
    db.update_status_at("abc1", Status::Running, 40);
    db.update_started_at("abc1", 99, 50);
    db.recover_orphans_at(60);
    let job = db.get("abc1").unwrap();
    assert_eq!(job.status, Status::Stopped);
    assert_eq!(job.exit_code, None);
    assert_eq!(job.finished_at, Some(20));
    assert_eq!(job.pid, Some(77));
    assert_eq!(job.started_at, Some(10));
}

#[test]
fn update_status_to_terminal_stamps_finish_time() {
    let mut db = test_db();
    db.insert(job_at("abc1", Status::Pending, 5)).unwrap();
    db.update_status_at("abc1", Status::Failed, 42);
    let job = db.get("abc1").unwrap();
    assert_eq!(job.status, Status::Failed);
    assert_eq!(job.finished_at, Some(42));
}

#[test]
fn test_job_exists() {
    let mut db = test_db();
    db.insert(create_test_job("abc1", Status::Pending)).unwrap();

    assert!(db.job_exists("abc1"));
    assert!(!db.job_exists("xyz9"));
}

#[test]
fn test_generate_id() {
    let db = test_db();
    let id = db.generate_id().unwrap();

    assert_eq!(id.len(), 4);
    assert!(id.chars().all(|c| c.is_ascii_alphanumeric()));
}

#[test]
fn generated_id_is_lowercase_base36() {
    let db = test_db();
    for _ in 0..50 {
        let id = db.generate_id().unwrap();
        assert!(id.chars().all(|c| c.is_ascii_digit() || c.is_ascii_lowercase()));
    }
}

#[test]
fn test_generate_id_unique() {
    let db = test_db();
    let mut ids = std::collections::HashSet::new();

    for _ in 0..100 {
        let id = db.generate_id().unwrap();
        assert!(ids.insert(id), "Generated duplicate ID");
    }
}

#[test]
fn generated_ids_inserted_in_turn_are_distinct() {
    let mut db = test_db();
    let mut ids = std::collections::HashSet::new();
    for _ in 0..200 {
        let id = db.generate_id().unwrap();
        assert!(!db.job_exists(&id));
        db.insert(create_test_job(&id, Status::Pending)).unwrap();
        assert!(ids.insert(id));
    }
    assert_eq!(db.count(None), 200);
}

#[test]
fn test_idempotency_key() {
    let mut db = test_db();
    let job = create_test_job("abc1", Status::Pending).with_idempotency_key("unique-key".to_string());
    db.insert(job).unwrap();

    let found = db.get_by_idempotency_key("unique-key");
    assert!(found.is_some());
    assert_eq!(found.unwrap().id, "abc1");

    let not_found = db.get_by_idempotency_key("other-key");
    assert!(not_found.is_none());
}

#[test]
fn test_idempotency_key_unique_constraint() {
    let mut db = test_db();
    let job1 = create_test_job("abc1", Status::Pending).with_idempotency_key("same-key".to_string());
    let job2 = create_test_job("abc2", Status::Pending).with_idempotency_key("same-key".to_string());

    db.insert(job1).unwrap();
    assert!(db.insert(job2).is_err());
}

#[test]
fn insert_with_taken_id_is_a_conflict() {
    let mut db = test_db();
    db.insert(create_test_job("abc1", Status::Pending)).unwrap();
    assert_eq!(db.insert(create_test_job("abc1", Status::Failed)), Err(JobError::Conflict));
    assert_eq!(db.len(), 1);
    assert_eq!(db.get("abc1").unwrap().status, Status::Pending);
}

#[test]
fn test_count_all() {
    let mut db = test_db();
    assert_eq!(db.count(None), 0);

    db.insert(create_test_job("a", Status::Running)).unwrap();
    db.insert(create_test_job("b", Status::Completed)).unwrap();
    db.insert(create_test_job("c", Status::Failed)).unwrap();

    assert_eq!(db.count(None), 3);
}

#[test]
fn test_count_by_status() {
    let mut db = test_db();
    db.insert(create_test_job("a", Status::Running)).unwrap();
    db.insert(create_test_job("b", Status::Running)).unwrap();
    db.insert(create_test_job("c", Status::Failed)).unwrap();

    assert_eq!(db.count(Some(Status::Running)), 2);
    assert_eq!(db.count(Some(Status::Failed)), 1);
    assert_eq!(db.count(Some(Status::Completed)), 0);
}

#[test]
fn test_resolve_by_id() {
    let mut db = test_db();
    db.insert(create_test_job("abc1", Status::Running)).unwrap();

    let job = db.resolve("abc1").unwrap();
    assert_eq!(job.id, "abc1");

    let job = db.resolve("abc").unwrap();
    assert_eq!(job.id, "abc1");
}

#[test]
fn test_resolve_by_name() {
    let mut db = test_db();
    let job = create_test_job("abc1", Status::Running).with_name("my-job".to_string());
    db.insert(job).unwrap();

    let resolved = db.resolve("my-job").unwrap();
    assert_eq!(resolved.id, "abc1");
}

#[test]
fn test_resolve_not_found() {
    let db = test_db();
    let result = db.resolve("nonexistent");
    assert!(result.is_err());
}

#[test]
fn test_resolve_ambiguous() {
    let mut db = test_db();
    db.insert(create_test_job("a", Status::Running).with_name("same-name".to_string()))
        .unwrap();
    db.insert(create_test_job("b", Status::Failed).with_name("same-name".to_string()))
        .unwrap();

    let result = db.resolve("same-name");
    assert!(result.is_err());
}

#[test]
fn ambiguous_name_scenario() {
    let mut db = test_db();
    db.insert(job_at("k1a2", Status::Completed, 100).with_name("build".to_string())).unwrap();
    db.insert(job_at("z9y8", Status::Running, 200).with_name("build".to_string())).unwrap();

    assert_eq!(db.resolve("build").unwrap_err(), JobError::Ambiguous);
    let newest = db.resolve_with_options("build", &ResolveOptions { latest: true }).unwrap();
    assert_eq!(newest.id, "z9y8");
    assert_eq!(db.resolve("nothing").unwrap_err(), JobError::NotFound);
}

#[test]
fn exact_id_wins_over_prefix() {
    let mut db = test_db();
    db.insert(job_at("ab12", Status::Pending, 1)).unwrap();
    db.insert(job_at("ab", Status::Pending, 2)).unwrap();
    assert_eq!(db.get("ab").unwrap().id, "ab");
    assert_eq!(db.get("a").unwrap().id, "ab12");
}

#[test]
fn unique_prefix_resolves_like_full_id() {
    let mut db = test_db();
    db.insert(job_at("q7x1", Status::Pending, 1)).unwrap();
    db.insert(job_at("m3n4", Status::Pending, 2)).unwrap();
    let by_prefix = db.resolve("q7").unwrap();
    let by_id = db.get("q7x1").unwrap();
    assert_eq!(by_prefix.id, by_id.id);
    assert_eq!(by_prefix.command, by_id.command);
}

#[test]
fn delete_old_twice_removes_nothing_the_second_time() {
    let mut db = test_db();
    db.insert(job_at("old1", Status::Completed, 10)).unwrap();
    db.insert(job_at("old2", Status::Running, 20)).unwrap();
    db.insert(job_at("old3", Status::Failed, 30)).unwrap();
    db.insert(job_at("new1", Status::Completed, 500)).unwrap();

    assert_eq!(db.delete_old(100, None), 2);
    assert_eq!(db.delete_old(100, None), 0);
    assert_eq!(db.len(), 2);
    assert!(db.job_exists("old2"));
    assert!(db.job_exists("new1"));

    assert_eq!(db.delete_old(100, Some(Status::Running)), 0);
    assert_eq!(db.delete_old(1_000, Some(Status::Pending)), 0);
    assert_eq!(db.len(), 2);
    assert!(db.job_exists("old2"));
}

#[test]
fn delete_old_with_status_filter_takes_only_that_terminal_status() {
    let mut db = test_db();
    db.insert(job_at("f1", Status::Failed, 10)).unwrap();
    db.insert(job_at("c1", Status::Completed, 20)).unwrap();
    db.insert(job_at("p1", Status::Pending, 30)).unwrap();
    assert_eq!(db.delete_old(100, Some(Status::Failed)), 1);
    assert!(!db.job_exists("f1"));
    assert!(db.job_exists("c1"));
    assert!(db.job_exists("p1"));
}

#[test]
fn orphan_recovery_scenario() {
    let mut db = test_db();
    db.insert(job_at("run1", Status::Pending, 1)).unwrap();
    db.update_started_at("run1", 4242, 2);
    db.insert(job_at("pen1", Status::Pending, 3)).unwrap();
    db.insert(job_at("don1", Status::Completed, 4)).unwrap();

    db.recover_orphans_at(1_000);
    let r = db.get("run1").unwrap();
    let p = db.get("pen1").unwrap();
    let d = db.get("don1").unwrap();
    assert_eq!(r.status, Status::Interrupted);
    assert_eq!(r.finished_at, Some(1_000));
    assert_eq!(p.status, Status::Interrupted);
    assert_eq!(p.finished_at, Some(1_000));
    assert_eq!(d.status, Status::Completed);
    assert_eq!(d.finished_at, None);
    assert_eq!(db.count(Some(Status::Pending)) + db.count(Some(Status::Running)), 0);
}

#[test]
fn status_parse_and_names() {
    assert_eq!(Status::parse("RUNNING"), Ok(Status::Running));
    assert_eq!(Status::parse("Interrupted"), Ok(Status::Interrupted));
    assert_eq!(Status::parse("stopped"), Ok(Status::Stopped));
    assert_eq!(Status::parse("bogus"), Err(JobError::BadInput));
    assert_eq!(Status::parse(""), Err(JobError::BadInput));
    assert_eq!(Status::parse_stored("Failed"), Status::Failed);
    assert_eq!(Status::parse_stored("garbage"), Status::Interrupted);
    assert_eq!(Status::Completed.as_str(), "completed");
    assert_eq!(Status::Pending.as_str(), "pending");
    assert!(Status::Failed.is_terminal());
    assert!(!Status::Running.is_terminal());
}

#[test]
fn job_builders_and_short_id() {
    let job = Job::new_at("abcdefghij".to_string(), "ls".to_string(), "/w".to_string(), "/p".to_string(), 7)
        .with_name("n".to_string())
        .with_timeout(30)
        .with_context("{\"a\":1}".to_string())
        .with_idempotency_key("k".to_string());
    assert_eq!(job.name.as_deref(), Some("n"));
    assert_eq!(job.timeout_secs, Some(30));
    assert_eq!(job.context.as_deref(), Some("{\"a\":1}"));
    assert_eq!(job.idempotency_key.as_deref(), Some("k"));
    assert_eq!(job.short_id(), "abcdefgh");
    let copy = job.snapshot();
    assert_eq!(copy.id, job.id);
    assert_eq!(copy.created_at, 7);
    let short = Job::new_at("ab1".to_string(), "ls".to_string(), "/w".to_string(), "/p".to_string(), 7);
    assert_eq!(short.short_id(), "ab1");
}

#[test]
fn new_job_is_pending_and_stamped() {
    let job = Job::new("x1".to_string(), "true".to_string(), "/".to_string(), "/".to_string());
    assert_eq!(job.status, Status::Pending);
    assert!(job.created_at > 0);
    assert!(job.finished_at.is_none());
}

#[test]
fn stamps_never_run_backwards() {
    let mut db = test_db();
    db.insert(job_at("s1", Status::Pending, 1_000)).unwrap();
    db.update_started_at("s1", 5, 400);
    let j = db.get("s1").unwrap();
    assert_eq!(j.started_at, Some(1_000));
    db.update_finished_at("s1", Status::Completed, Some(0), 900);
    let j = db.get("s1").unwrap();
    assert_eq!(j.finished_at, Some(1_000));
    db.insert(job_at("s2", Status::Pending, 2_000)).unwrap();
    db.update_started_at("s2", 6, 3_000);
    db.recover_orphans_at(2_500);
    let j = db.get("s2").unwrap();
    assert_eq!(j.status, Status::Interrupted);
    assert_eq!(j.finished_at, Some(3_000));
}

#[test]
fn first_fresh_takes_first_free_draw() {
    let mut db = test_db();
    db.insert(create_test_job("0000", Status::Pending)).unwrap();
    let draws = vec![vec![0, 0, 0, 0], vec![10, 35, 1, 2], vec![3, 3, 3, 3]];
    assert_eq!(db.first_fresh(&draws).unwrap(), "az12");
    let taken = vec![vec![0, 0, 0, 0], vec![0, 0, 0, 0]];
    assert_eq!(db.first_fresh(&taken), Err(JobError::Exhausted));
    assert_eq!(db.first_fresh(&Vec::new()), Err(JobError::Exhausted));
}

#[test]
fn generate_id_on_empty_store_succeeds() {
    let db = test_db();
    let id = db.generate_id().unwrap();
    assert_eq!(id.len(), 4);
}
