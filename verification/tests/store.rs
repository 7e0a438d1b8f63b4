//! The store of a task log.

use snerd::file_store::{Compaction, FileStore};
use snerd::task::RetryableTask;
use snerd::time::Timestamp;

fn at(secs: i64) -> Timestamp {
    Timestamp { secs, nanos: 0 }
}

fn task(id: &str, task_type: &str, data: &str) -> RetryableTask {
    RetryableTask::new(
        id.to_string(),
        task_type.to_string(),
        data.to_string(),
        3,
        0,
        None,
        None,
        None,
        0,
        None,
        None,
        None,
        None,
        None,
        None,
        at(100),
    )
}

fn empty_store() -> FileStore {
    FileStore::new("tasks.log".to_string(), &vec![])
}

#[test]
fn test_file_store_lifecycle() {
    let mut store = empty_store();
    let mut log: Vec<Option<RetryableTask>> = vec![];
    let t = task("task-1", "email", "{\"to\": \"test@example.com\"}");

    store.save_task(&t, None);
    log.push(Some(t));
    let tasks = store.read_tasks();
    assert_eq!(tasks.len(), 1);
    assert_eq!(tasks[0].task_id, "task-1");

    let mut task_from_store = store.get_latest_task("task-1").unwrap();
    task_from_store.update_retry_config(Some("network error".to_string()), at(200));
    store.save_task(&task_from_store, None);
    log.push(Some(task_from_store));
    let updated_task = store.get_latest_task("task-1").unwrap();
    assert_eq!(updated_task.retry_count, 1);
    assert!(updated_task.last_job_error.is_some());

    let tombstone = store.delete_task("task-1", at(300)).unwrap();
    assert_eq!(tombstone.deleted_at, Some(at(300)));
    log.push(Some(tombstone));
    assert_eq!(store.read_tasks().len(), 0);
    assert!(store.delete_task("task-1", at(301)).is_none());

    assert!(store.begin_compaction());
    assert!(!store.begin_compaction());
    let plan = Compaction::plan(&log);
    assert_eq!(plan.lines().len(), 0);
    store.compact_log(plan);
    store.end_compaction();
    assert!(store.begin_compaction());
    assert_eq!(store.read_tasks().len(), 0);
}

#[test]
fn test_corrupted_file_recovery() {
    let log = vec![None];
    let mut store = FileStore::new("corrupted.log".to_string(), &log);
    store.save_task(&task("valid-task", "test", "{}"), None);
    let tasks = store.read_tasks();
    assert_eq!(tasks.len(), 1);
    assert_eq!(tasks[0].task_id, "valid-task");
    assert_eq!(store.file_path(), "corrupted.log");
}

#[test]
fn a_restart_rebuilds_the_store() {
    let mut first = task("a", "T", "1");
    let mut gone = task("b", "T", "2");
    gone.deleted_at = Some(at(1));
    let log = vec![
        Some(first.clone()),
        Some(task("b", "T", "2")),
        None,
        Some(gone),
        Some({
            first.task_data = "newer".to_string();
            first
        }),
    ];
    let store = FileStore::new("p".to_string(), &log);
    assert_eq!(store.read_tasks().len(), 1);
    assert_eq!(store.get_latest_task("a").unwrap().task_data, "newer");
    assert!(store.get_latest_task("b").is_none());
    // Three live lines, one tombstone: no compaction.
    assert!(!store.should_compact(None));
    assert!(store.can_append());
}

#[test]
fn what_is_gone_or_never_was_is_complete() {
    let mut store = empty_store();
    store.save_task(&task("a", "T", ""), None);
    assert!(!store.are_tasks_completed(&vec!["a".to_string()]));
    assert!(!store.are_tasks_completed(&vec!["x".to_string(), "a".to_string()]));
    assert!(store.are_tasks_completed(&vec!["x".to_string()]));
    assert!(store.are_tasks_completed(&vec![]));
    store.delete_task("a", at(1));
    assert!(store.are_tasks_completed(&vec!["a".to_string()]));
}

#[test]
fn cycles_are_found() {
    let mut store = empty_store();
    let mut b = task("b", "T", "");
    b.trigger_after_ids = Some(vec!["c".to_string()]);
    let mut c = task("c", "T", "");
    c.trigger_after_ids = Some(vec!["d".to_string(), "a".to_string()]);
    store.save_task(&b, None);
    store.save_task(&c, None);
    assert_eq!(
        store.detect_cycle("a", &vec!["b".to_string()]),
        Err("Cycle detected involving task a".to_string())
    );
    assert_eq!(
        store.detect_cycle("x", &vec!["x".to_string()]),
        Err("Cycle detected involving task x".to_string())
    );
    assert_eq!(store.detect_cycle("e", &vec!["b".to_string(), "c".to_string()]), Ok(()));
    assert_eq!(store.detect_cycle("a", &vec![]), Ok(()));
    // A cycle that does not lead to the task is walked once.
    let mut d = task("d", "T", "");
    d.trigger_after_ids = Some(vec!["c".to_string()]);
    store.save_task(&d, None);
    assert_eq!(store.detect_cycle("e", &vec!["b".to_string()]), Ok(()));
}

#[test]
fn when_a_log_is_compacted() {
    let mut store = empty_store();
    assert!(!store.should_compact(Some(20 * 1024 * 1024)));
    assert!(store.should_compact(Some(20 * 1024 * 1024 + 1)));
    for i in 0..4 {
        assert!(!store.save_task(&task(&format!("t{}", i), "T", ""), None));
    }
    store.delete_task("t0", at(1));
    store.delete_task("t1", at(1));
    // Half of the lines: not yet.
    assert!(!store.should_compact(None));
    let t2 = store.tombstone("t2", at(1)).unwrap();
    assert!(!store.save_task_inner(&t2, false, None));
    assert!(store.should_compact(None));
    assert!(store.save_task(&t2, None));
}

#[test]
fn more_than_ten_thousand_lines_ask_for_a_compaction() {
    let mut store = empty_store();
    let t = task("t", "T", "");
    for _ in 0..10_000 {
        assert!(!store.save_task(&t, None));
    }
    assert!(store.save_task(&t, None));
}

#[test]
fn compaction_keeps_the_last_line() {
    let first = task("a", "T", "first");
    let mut newer = task("a", "T", "newer");
    newer.updated_at = at(200);
    // A reschedule leaves the time of the last update as it was.
    let mut last = task("a", "T", "last");
    last.execute_at = at(5_000);
    let mut dead = task("b", "T", "dead");
    let alive = dead.clone();
    dead.deleted_at = Some(at(1));
    let log = vec![Some(first), Some(alive), Some(newer), None, Some(last), Some(dead)];
    let plan = Compaction::plan(&log);
    let lines = plan.lines();
    assert_eq!(lines.len(), 1);
    assert_eq!(lines[0].task_data, "last");
    assert_eq!(lines[0].execute_at, at(5_000));
    let mut store = FileStore::new("p".to_string(), &log);
    assert_eq!(store.get_latest_task("a").unwrap().task_data, "last");
    store.compact_log(plan);
    assert_eq!(store.get_latest_task("a").unwrap().task_data, "last");
    // A restart on the compacted log finds the same.
    let compacted: Vec<Option<RetryableTask>> = lines.into_iter().map(Some).collect();
    let again = FileStore::new("p".to_string(), &compacted);
    assert_eq!(again.get_latest_task("a").unwrap().task_data, "last");
    assert!(!again.should_compact(None));
}

#[test]
fn a_dead_letter_counts_the_last_failure() {
    let mut store = empty_store();
    let mut t = task("a", "T", "");
    t.retry_count = 2;
    store.save_task(&t, None);
    let letter = store.dead_letter("a", "bad".to_string(), at(9)).unwrap();
    assert_eq!((letter.retry_count, letter.max_retries), (3, 3));
    assert_eq!(letter.last_error_obj, Some("bad".to_string()));
    assert_eq!((letter.updated_at, letter.deleted_at), (at(9), Some(at(9))));
    assert!(store.dead_letter("b", "bad".to_string(), at(9)).is_none());
    t.retry_count = i32::MAX;
    store.save_task(&t, None);
    assert_eq!(store.dead_letter("a", "bad".to_string(), at(9)).unwrap().retry_count, i32::MAX);
}
