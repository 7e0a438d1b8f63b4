//! An engine with shards.

use snerd::execution::Execution;
use snerd::file_store::FileStore;
use snerd::pools::WorkerPools;
use snerd::sharded_queue::{ClaimOutcome, Heartbeat, ShardAction, SnerdShardedQueue};
use snerd::task::RetryableTask;
use snerd::time::Timestamp;

fn task(id: &str) -> RetryableTask {
    RetryableTask::new(
        id.to_string(),
        "T".to_string(),
        "d".to_string(),
        1,
        0,
        None,
        None,
        Some(true),
        0,
        None,
        None,
        None,
        None,
        None,
        None,
        Timestamp { secs: 5, nanos: 0 },
    )
}

fn store() -> FileStore {
    FileStore::new("tasks.log".to_string(), &vec![])
}

fn engine(shards: &[&str]) -> SnerdShardedQueue {
    let (mut e, pools) = SnerdShardedQueue::new("name", "dir");
    assert_eq!(pools.capacity("default"), Some(100));
    for shard in shards {
        assert!(e.instantiate_shard(shard, store(), &pools));
    }
    e
}

#[test]
fn an_engine_without_shards_takes_no_tasks() {
    let e = engine(&[]);
    assert_eq!(
        e.enqueue("s0", task("a")).unwrap_err(),
        "Engine is in standby mode: zero shards owned. Cannot enqueue."
    );
    assert_eq!(
        e.prepare(task("a")).unwrap_err(),
        "Engine is in standby mode: zero shards owned. Cannot enqueue."
    );
    assert_eq!(
        e.prepare_as(task(""), "fresh".to_string()).unwrap_err(),
        "Engine is in standby mode: zero shards owned. Cannot enqueue."
    );
}

#[test]
fn a_task_without_an_id_gets_one() {
    let e = engine(&["s0"]);
    assert_eq!(e.prepare(task("a")).unwrap().task_id, "a");
    let first = e.prepare(task("")).unwrap().task_id;
    let second = e.prepare(task("")).unwrap().task_id;
    assert_eq!(first.len(), 36);
    assert_ne!(first, second);
    assert_eq!(e.prepare_as(task(""), "fresh".to_string()).unwrap().task_id, "fresh");
    assert_eq!(e.prepare_as(task("a"), "fresh".to_string()).unwrap().task_id, "a");
}

#[test]
fn a_task_goes_to_its_shard() {
    let mut e = engine(&["s0", "s1"]);
    let line = e.enqueue("s0", task("a")).unwrap().unwrap();
    let mut queue = e.take_shard("s0").unwrap();
    queue.line_appended(&line, None);
    e.put_shard("s0", queue);
    // The payload pends on that shard and on no other.
    assert!(e.enqueue("s0", task("b")).unwrap().is_none());
    assert!(e.enqueue("s1", task("b")).unwrap().is_some());
    assert_eq!(e.enqueue("s2", task("c")).unwrap_err(), "Target shard not found");
}

#[test]
fn handlers_reach_every_shard() {
    let mut e = engine(&["s0"]);
    e.register_task_handler("T");
    e.register_max_retry_handler("T");
    let pools = WorkerPools::default_pools();
    assert!(e.instantiate_shard("s1", store(), &pools));
    assert!(!e.instantiate_shard("s1", store(), &pools));
    for shard in ["s0", "s1"] {
        let queue = e.take_shard(shard).unwrap();
        assert!(matches!(queue.plan_execution(&task("a")), Execution::Handler { .. }));
        assert_eq!(queue.name(), "name");
        e.put_shard(shard, queue);
    }
    assert!(e.take_shard("s2").is_none());
}

#[test]
fn lost_shards_are_let_go() {
    let mut e = engine(&["s0", "s1", "s2"]);
    let mut beat = Heartbeat::new();
    assert_eq!(beat.claimed("s0", Some(ClaimOutcome::Renewed), true), ShardAction::Keep);
    assert_eq!(beat.claimed("s1", None, false), ShardAction::Leave);
    assert_eq!(beat.claimed("s1", None, true), ShardAction::Leave);
    assert_eq!(beat.claimed("s2", Some(ClaimOutcome::Claimed), false), ShardAction::Revert);
    assert_eq!(beat.claimed("s3", Some(ClaimOutcome::TakenOver), true), ShardAction::Start);
    assert_eq!(beat.owned(), &vec!["s0".to_string(), "s3".to_string()]);
    assert_eq!(e.reconcile_shards(beat.owned()), vec!["s1".to_string(), "s2".to_string()]);
    assert_eq!(e.get_shards(), vec!["s0".to_string()]);
    assert!(e.reconcile_shards(beat.owned()).is_empty());
}

#[test]
fn a_shutdown_releases_everything() {
    let mut e = engine(&["s0", "s1"]);
    assert!(!e.is_stopped());
    assert_eq!(e.shutdown(), vec!["s0".to_string(), "s1".to_string()]);
    assert!(e.is_stopped());
    assert!(e.get_shards().is_empty());
    assert!(e.prepare(task("a")).is_err());
}
