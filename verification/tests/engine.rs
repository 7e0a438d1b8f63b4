//! Whole runs of the engine: tasks are enqueued, swept, dispatched, run and settled, with a
//! log that takes every line.

use snerd::dashboard::{stats_body, tasks_body};
use snerd::execution::{event_payload, handler_result, Execution, HandlerReply, Notice};
use snerd::file_store::{Compaction, FileStore};
use snerd::pools::WorkerPools;
use snerd::queue::{Dispatch, Settlement, SnerdQueue};
use snerd::rate_limiter::RateLimiter;
use snerd::sharded_queue::{ClaimOutcome, Heartbeat, ShardAction, SnerdShardedQueue};
use snerd::table::StringTable;
use snerd::task::RetryableTask;
use snerd::time::Timestamp;

const HOUR_MS: u64 = 3_600_000;

fn at(secs: i64) -> Timestamp {
    Timestamp { secs, nanos: 0 }
}

fn start() -> Timestamp {
    at(1_700_000_000)
}

fn task(id: &str, task_type: &str, data: &str, max_retries: i32, retry_ms: u64) -> RetryableTask {
    RetryableTask::new(
        id.to_string(),
        task_type.to_string(),
        data.to_string(),
        max_retries,
        retry_ms,
        None,
        None,
        None,
        0,
        None,
        None,
        None,
        None,
        None,
        None,
        start(),
    )
}

fn after(id: &str, data: &str, parents: &[&str]) -> RetryableTask {
    let mut t = task(id, "STEP_TASK", data, 3, HOUR_MS);
    t.trigger_after_ids = Some(parents.iter().map(|p| p.to_string()).collect());
    t
}

fn sizes(pools: &[(&str, usize)]) -> StringTable<usize> {
    let mut table: StringTable<usize> = StringTable::new();
    for (name, size) in pools {
        table.insert(name.to_string(), *size);
    }
    table
}

struct Engine {
    queue: SnerdQueue,
    pools: WorkerPools,
    /// The data of the tasks that ran, in order.
    ran: Vec<String>,
    /// What the handler for tasks that are given up was called with.
    given_up: Vec<String>,
}

impl Engine {
    fn new(name: &str, pools: &[(&str, usize)]) -> Engine {
        let store = FileStore::new("tasks.log".to_string(), &vec![]);
        let (queue, pools) = SnerdQueue::new_with_pools(name, store, RateLimiter::new(), &sizes(pools));
        Engine { queue, pools, ran: vec![], given_up: vec![] }
    }

    fn enqueue(&mut self, task: RetryableTask) -> bool {
        match self.queue.enqueue(task) {
            Some(line) => {
                self.queue.line_appended(&line, None);
                true
            }
            None => false,
        }
    }

    fn append(&mut self, line: Option<RetryableTask>) {
        if let Some(line) = line {
            self.queue.line_appended(&line, None);
        }
    }

    /// Runs one task to its end with this outcome.
    fn finish(&mut self, pool: &str, task: RetryableTask, ok: Result<(), String>, now: Timestamp) {
        let id = task.task_id.clone();
        match self.queue.plan_execution(&task) {
            Execution::Handler { data, .. } => {
                self.ran.push(data);
                match self.queue.settle(task, handler_result(HandlerReply::Returned(ok)), now, 0) {
                    Settlement::Rescheduled(line) | Settlement::Retried(line) => {
                        self.append(Some(line))
                    }
                    Settlement::Completed(tombstone) => self.append(tombstone),
                    Settlement::Exhausted { notice, tombstone } => {
                        if let Notice::Handler { payload } = notice {
                            self.given_up.push(payload);
                        }
                        self.append(tombstone);
                    }
                }
            }
            _ => {}
        }
        self.queue.end_execution(&mut self.pools, pool, &id);
    }

    /// One sweep, after which each dispatcher that was started works until nothing waits.
    fn sweep(&mut self, outcome: &dyn Fn(&str) -> Result<(), String>, now: Timestamp) {
        let started = self.queue.process_due_tasks_at(&mut self.pools, now);
        for pool in started {
            loop {
                match self.queue.dispatch_next(&mut self.pools, &pool, now) {
                    Dispatch::Idle => break,
                    Dispatch::Deferred(line) => self.append(Some(line)),
                    Dispatch::Skipped => panic!("no task is handed out twice"),
                    Dispatch::Execute(task) => {
                        let ok = outcome(&task.task_data);
                        self.finish(&pool, task, ok, now);
                    }
                }
            }
        }
    }
}

fn fine(_data: &str) -> Result<(), String> {
    Ok(())
}

#[test]
fn test_linear_job_chaining() {
    let mut engine = Engine::new("chain-linear-q", &[("default", 10)]);
    engine.queue.register_task_handler("STEP_TASK");
    let task_a = task("taskA", "STEP_TASK", "A", 3, HOUR_MS);
    let task_b = after("taskB", "B", &["taskA"]);
    let task_c = after("taskC", "C", &["taskB"]);
    engine.enqueue(task_c);
    engine.enqueue(task_a);
    engine.enqueue(task_b);
    for _ in 0..60 {
        engine.sweep(&fine, start());
        if engine.ran.len() == 3 {
            break;
        }
    }
    let results = engine.ran;
    assert_eq!(results.len(), 3, "Expected 3 tasks to run");
    assert_eq!(results[0], "A");
    assert_eq!(results[1], "B");
    assert_eq!(results[2], "C");
}

#[test]
fn test_fanin_job_chaining() {
    let mut engine = Engine::new("chain-fanin-q", &[("default", 10)]);
    engine.queue.register_task_handler("STEP_TASK");
    engine.enqueue(after("taskC", "C", &["taskA", "taskB"]));
    engine.enqueue(task("taskA", "STEP_TASK", "A", 3, HOUR_MS));
    engine.enqueue(task("taskB", "STEP_TASK", "B", 3, HOUR_MS));
    for _ in 0..60 {
        engine.sweep(&fine, start());
        if engine.ran.len() == 3 {
            break;
        }
    }
    let results = engine.ran;
    assert_eq!(results.len(), 3, "Expected 3 tasks to run");
    assert_eq!(results[2], "C", "C must run last");
}

#[test]
fn test_orphaned_job_chaining() {
    let mut engine = Engine::new("chain-orphan-q", &[("default", 10)]);
    engine.queue.register_task_handler("STEP_TASK");
    engine.enqueue(after("taskA", "A", &["nonexistent"]));
    engine.sweep(&fine, start());
    let results = engine.ran;
    assert_eq!(
        results.len(),
        1,
        "Orphaned task should execute because absent parent is treated as completed in v1"
    );
}

#[test]
fn test_queue_execution() {
    let mut engine = Engine::new("test-queue", &[]);
    engine.queue.register_task_handler("math-task");
    engine.enqueue(task("task-2", "math-task", "{\"val\": 1}", 3, 0));
    // Nothing runs before the first sweep.
    assert_eq!(engine.ran.len(), 0);
    engine.sweep(&fine, start());
    assert_eq!(engine.ran.len(), 1);
}

#[test]
fn test_queue_retry_and_max() {
    let mut engine = Engine::new("retry-queue", &[]);
    engine.queue.register_task_handler("fail-task");
    engine.queue.register_max_retry_handler("fail-task");
    engine.enqueue(task("task-3", "fail-task", "{}", 3, 0));
    let fails = |_data: &str| Err("intentional failure".to_string());
    engine.sweep(&fails, start());
    engine.sweep(&fails, start());
    engine.sweep(&fails, start());
    assert_eq!(engine.ran.len(), 3);
    assert_eq!(engine.given_up.len(), 1);
    assert_eq!(
        engine.given_up[0],
        "{\"data\":\"{}\",\"taskId\":\"task-3\",\"taskType\":\"fail-task\"}"
    );
    let tasks = engine.queue.read_tasks();
    assert_eq!(tasks.len(), 0);
    // A further sweep finds nothing.
    engine.sweep(&fails, start());
    assert_eq!(engine.ran.len(), 3);
}

#[test]
fn test_delayed_execution() {
    let mut engine = Engine::new("delayed-queue", &[]);
    engine.queue.register_task_handler("delayed-task");
    let mut t = task("task-future", "delayed-task", "{}", 3, HOUR_MS);
    t.retry_after_time = at(1_700_000_000 + 3600);
    engine.enqueue(t);
    engine.sweep(&fine, start());
    assert_eq!(engine.ran.len(), 0);
    engine.sweep(&fine, at(1_700_003_599));
    assert_eq!(engine.ran.len(), 0);
    engine.sweep(&fine, at(1_700_003_600));
    assert_eq!(engine.ran.len(), 1);
}

#[test]
fn test_cron_rescheduling() {
    let mut engine = Engine::new("test-queue-cron", &[]);
    engine.queue.register_task_handler("cron-task");
    let mut t = task("cron-1", "cron-task", "{}", 3, HOUR_MS);
    t.cron_expression = Some("* * * * * *".to_string());
    t.execute_at = start();
    t.retry_count = 2;
    t.last_job_error = Some("earlier".to_string());
    engine.enqueue(t);
    engine.sweep(&fine, start());
    assert_eq!(engine.ran.len(), 1, "Cron task should have executed once");
    let saved = engine.queue.get_latest_task("cron-1");
    let saved = saved.expect("Task should be rescheduled, not deleted");
    assert!(saved.deleted_at.is_none());
    assert_eq!(saved.execute_at, at(1_700_000_001));
    assert_eq!(saved.retry_count, 0);
    assert_eq!(saved.last_job_error, None);
    // It is not due again before its next tick.
    engine.sweep(&fine, start());
    assert_eq!(engine.ran.len(), 1);
    engine.sweep(&fine, at(1_700_000_001));
    assert_eq!(engine.ran.len(), 2);
}

#[test]
fn test_rate_limiting() {
    let mut engine = Engine::new("test-queue", &[]);
    engine.queue.register_task_handler("ai_gen");
    for i in 0..5 {
        let mut t = task(&format!("task-{}", i), "ai_gen", "{}", 3, HOUR_MS);
        t.rate_limit_group = Some("openai_api".to_string());
        t.max_per_minute = Some(2);
        engine.enqueue(t);
    }
    for i in 0..10 {
        engine.sweep(&fine, Timestamp { secs: 1_700_000_000, nanos: i * 100_000_000 });
    }
    let executed = engine.ran.len();
    assert_eq!(
        executed, 2,
        "Expected exactly 2 executions due to rate limit, but got {}",
        executed
    );
    let pending = engine.queue.read_tasks();
    assert_eq!(pending.len(), 3, "Expected 3 tasks still pending in the queue");
    for t in &pending {
        assert_eq!(t.retry_after_time, at(1_700_000_060));
    }
    // After a minute two more run.
    engine.sweep(&fine, at(1_700_000_060));
    assert_eq!(engine.ran.len(), 4);
}

#[test]
fn test_worker_pools_isolation() {
    let mut engine = Engine::new("test-pools-q", &[("default", 1), ("urgent", 1)]);
    engine.queue.register_task_handler("LONG_TASK");
    engine.enqueue(task("t-def-1", "LONG_TASK", "default", 1, 0));
    let started = engine.queue.process_due_tasks_at(&mut engine.pools, start());
    assert_eq!(started, vec!["default".to_string()]);
    let running = match engine.queue.dispatch_next(&mut engine.pools, "default", start()) {
        Dispatch::Execute(t) => t,
        other => panic!("default task did not start: {:?}", other),
    };
    assert_eq!(running.task_data, "default");
    // The one worker of the default pool is taken.
    assert!(!engine.pools.has_free_worker("default"));
    let mut urgent = task("t-urg-1", "LONG_TASK", "urgent", 1, 0);
    urgent.pool = Some("urgent".to_string());
    engine.enqueue(urgent);
    let started = engine.queue.process_due_tasks_at(&mut engine.pools, start());
    assert_eq!(started, vec!["urgent".to_string()]);
    assert!(engine.pools.has_free_worker("urgent"));
    match engine.queue.dispatch_next(&mut engine.pools, "urgent", start()) {
        Dispatch::Execute(t) => {
            assert_eq!(t.task_data, "urgent");
            engine.finish("urgent", t, Ok(()), start());
        }
        other => panic!("Urgent task was blocked by default pool! Isolation failed. {:?}", other),
    }
    assert_eq!(engine.ran, vec!["urgent".to_string()]);
    engine.finish("default", running, Ok(()), start());
    assert!(engine.pools.has_free_worker("default"));
}

#[test]
fn test_embedded_stress_50k() {
    run_scale_test(50_000, "stress");
}

#[test]
fn test_extreme_scale_100k() {
    run_scale_test(100_000, "extreme");
}

#[test]
fn test_extreme_scale_250k() {
    run_scale_test(250_000, "extreme");
}

fn run_scale_test(num_jobs: usize, label: &str) {
    let mut engine = Engine::new("extreme-queue", &[]);
    engine.queue.register_task_handler("extreme_job");
    for i in 0..num_jobs {
        let id = format!("{}-{}", label, i);
        engine.enqueue(task(&id, "extreme_job", &format!("{}", i), 3, 0));
    }
    engine.sweep(&fine, start());
    assert_eq!(engine.ran.len(), num_jobs);
    let mut ran = engine.ran;
    ran.sort();
    ran.dedup();
    assert_eq!(ran.len(), num_jobs, "no task runs twice");
    assert_eq!(engine.queue.read_tasks().len(), 0);
}

#[test]
fn test_sharded_queue_basic() {
    let (mut engine, mut pools) = SnerdShardedQueue::new("sharded-test", "data");
    let mut beat = Heartbeat::new();
    for shard in ["shard-0", "shard-1", "shard-2", "shard-3"] {
        assert_eq!(beat.claimed(shard, Some(ClaimOutcome::Claimed), true), ShardAction::Start);
        let store = FileStore::new(format!("data/{}/tasks.log", shard), &vec![]);
        assert!(engine.instantiate_shard(shard, store, &pools));
    }
    assert_eq!(engine.reconcile_shards(beat.owned()), Vec::<String>::new());
    engine.register_task_handler("my_task");
    let targets = [("task-1", "shard-1"), ("task-2", "shard-3")];
    for (id, shard) in targets {
        let t = engine.prepare(task(id, "my_task", "{}", 1, HOUR_MS)).unwrap();
        let line = engine.enqueue(shard, t).unwrap().unwrap();
        let mut queue = engine.take_shard(shard).unwrap();
        queue.line_appended(&line, None);
        engine.put_shard(shard, queue);
    }
    let mut started = vec![];
    for shard in engine.get_shards() {
        let mut queue = engine.take_shard(&shard).unwrap();
        started.extend(queue.process_due_tasks_at(&mut pools, start()));
        engine.put_shard(&shard, queue);
    }
    let mut processed = 0;
    for pool in started {
        while let (Some(shard), Dispatch::Execute(t)) =
            engine.dispatch_next(&mut pools, &pool, start())
        {
            let mut queue = engine.take_shard(&shard).unwrap();
            assert!(matches!(queue.plan_execution(&t), Execution::Handler { .. }));
            let id = t.task_id.clone();
            processed += 1;
            match queue.settle(t, Ok(()), start(), 0) {
                Settlement::Completed(Some(line)) => {
                    queue.line_appended(&line, None);
                }
                other => panic!("{:?}", other),
            }
            queue.end_execution(&mut pools, &pool, &id);
            assert_eq!(queue.read_tasks().len(), 0);
            engine.put_shard(&shard, queue);
        }
    }
    assert_eq!(processed, 2);
}

#[test]
fn more_urgent_tasks_run_first() {
    let mut engine = Engine::new("q", &[]);
    engine.queue.register_task_handler("T");
    let mut low = task("low", "T", "low", 1, 0);
    low.created_at = at(1);
    let mut old = task("old", "T", "old", 1, 0);
    old.created_at = at(1_000);
    let mut high = task("high", "T", "high", 1, 0);
    high.urgency = 99;
    high.created_at = at(1_600_000_000);
    low.urgency = -5;
    engine.enqueue(low);
    engine.enqueue(task("plain", "T", "plain", 1, 0));
    engine.enqueue(high);
    engine.enqueue(old);
    engine.sweep(&fine, start());
    assert_eq!(engine.ran, vec!["high", "old", "plain", "low"]);
}

#[test]
fn duplicate_payloads_are_dropped_until_the_first_is_through() {
    let mut engine = Engine::new("q", &[]);
    engine.queue.register_task_handler("T");
    let with_hash = |id: &str| {
        RetryableTask::new(
            id.to_string(),
            "T".to_string(),
            "same".to_string(),
            1,
            0,
            None,
            None,
            Some(true),
            0,
            None,
            None,
            None,
            None,
            None,
            None,
            start(),
        )
    };
    assert!(engine.enqueue(with_hash("a")));
    assert!(!engine.enqueue(with_hash("b")));
    assert_eq!(engine.queue.read_tasks().len(), 1);
    // A restart on the same log knows the payload.
    let lines: Vec<Option<RetryableTask>> = vec![Some(with_hash("a"))];
    let store = FileStore::new("tasks.log".to_string(), &lines);
    let (mut again, _) = SnerdQueue::new("q", store, RateLimiter::new());
    assert!(again.enqueue(with_hash("b")).is_none());
    // When the first is through the payload is free.
    engine.sweep(&fine, start());
    assert_eq!(engine.ran.len(), 1);
    assert!(engine.enqueue(with_hash("b")));
    // So it is when the task is deleted.
    assert!(!engine.enqueue(with_hash("c")));
    assert!(engine.queue.delete_task("b", start()).is_some());
    assert!(engine.enqueue(with_hash("c")));
    // A task whose line is not written does not pend, and can be enqueued again.
    assert!(engine.queue.delete_task("c", start()).is_some());
    assert!(engine.queue.enqueue(with_hash("d")).is_some());
    assert!(engine.enqueue(with_hash("d")));
    assert!(!engine.enqueue(with_hash("e")));
    // Where a log holds a payload twice it pends until both tasks are gone.
    let twice = vec![Some(with_hash("x")), Some(with_hash("y"))];
    let store = FileStore::new("p".to_string(), &twice);
    let (mut both, _) = SnerdQueue::new("q", store, RateLimiter::new());
    assert!(both.delete_task("x", start()).is_some());
    assert!(both.enqueue(with_hash("z")).is_none());
    assert!(both.delete_task("y", start()).is_some());
    assert!(both.delete_task("y", start()).is_none());
    assert!(both.enqueue(with_hash("z")).is_some());
}

#[test]
fn a_task_that_is_given_up_is_shown_as_a_dead_letter() {
    for max_retries in [1, 3] {
        let store = FileStore::new("p".to_string(), &vec![]);
        let (mut queue, _) = SnerdQueue::new("q", store, RateLimiter::new());
        let line = queue.enqueue(task("a", "T", "x", max_retries, 0)).unwrap();
        queue.line_appended(&line, None);
        let tombstone = loop {
            let t = queue.get_latest_task("a").unwrap();
            match queue.settle(t, Err("bad".to_string()), start(), 0) {
                Settlement::Retried(line) => {
                    queue.line_appended(&line, None);
                }
                Settlement::Exhausted { tombstone, .. } => break tombstone.unwrap(),
                other => panic!("{:?}", other),
            }
        };
        assert_eq!(tombstone.retry_count, max_retries);
        assert_eq!(tombstone.last_job_error, Some("bad".to_string()));
        assert_eq!(tombstone.deleted_at, Some(start()));
        let record = format!(
            "{{\"taskId\":\"a\",\"deletedAt\":\"t\",\"LastJobError\":\"bad\",\
             \"retryCount\":{},\"maxRetries\":{}}}",
            tombstone.retry_count, tombstone.max_retries
        );
        assert!(tasks_body(vec![record.clone()]).contains("\"status\":\"dead_letter\""));
        assert_eq!(stats_body(vec![record]), "{\"enqueued\":1,\"processed\":0,\"failed\":1}");
    }
}

#[test]
fn a_queue_is_compacted_without_a_change_of_its_tasks() {
    let mut engine = Engine::new("q", &[]);
    let mut log: Vec<Option<RetryableTask>> = vec![];
    for id in ["a", "b"] {
        let line = engine.queue.enqueue(task(id, "T", id, 1, 0)).unwrap();
        engine.queue.line_appended(&line, None);
        log.push(Some(line));
    }
    let mut later = task("a", "T", "a", 1, 0);
    later.execute_at = at(1_700_000_060);
    engine.queue.line_appended(&later, None);
    log.push(Some(later));
    log.push(engine.queue.delete_task("b", start()));
    assert!(engine.queue.begin_compaction());
    assert!(!engine.queue.begin_compaction());
    let plan = Compaction::plan(&log);
    assert_eq!(plan.lines().len(), 1);
    engine.queue.compact_log(plan);
    engine.queue.end_compaction();
    assert!(engine.queue.begin_compaction());
    assert_eq!(engine.queue.get_latest_task("a").unwrap().execute_at, at(1_700_000_060));
    assert_eq!(engine.queue.read_tasks().len(), 1);
    assert!(engine.queue.can_append());
    assert_eq!(engine.queue.file_path(), "tasks.log");
    assert_eq!(engine.queue.name(), "q");
}

fn shards(names: &[&str]) -> (SnerdShardedQueue, WorkerPools) {
    let (mut engine, pools) = SnerdShardedQueue::new("e", "d");
    engine.register_task_handler("T");
    for shard in names {
        let store = FileStore::new(shard.to_string(), &vec![]);
        assert!(engine.instantiate_shard(shard, store, &pools));
    }
    (engine, pools)
}

/// Enqueues a task in a shard and sweeps the shard.
fn line_up(
    engine: &mut SnerdShardedQueue,
    pools: &mut WorkerPools,
    shard: &str,
    t: RetryableTask,
) -> Vec<String> {
    let mut queue = engine.take_shard(shard).unwrap();
    let line = queue.enqueue(t).unwrap();
    queue.line_appended(&line, None);
    let started = queue.process_due_tasks_at(pools, start());
    engine.put_shard(shard, queue);
    started
}

#[test]
fn urgency_counts_across_shards() {
    let (mut engine, mut pools) = shards(&["a", "b", "c"]);
    assert_eq!((engine.name(), engine.dir()), ("e", "d"));
    let tasks = [("a", "a1", 5, 10), ("b", "b1", 9, 20), ("a", "a2", 9, 15), ("b", "b2", 1, 5)];
    for (shard, id, urgency, created) in tasks {
        let mut t = task(id, "T", id, 1, 0);
        t.urgency = urgency;
        t.created_at = at(created);
        line_up(&mut engine, &mut pools, shard, t);
    }
    assert_eq!(engine.next_shard("default"), Some("a".to_string()));
    assert_eq!(engine.next_shard("nowhere"), None);
    for (shard, id) in [("a", "a2"), ("b", "b1"), ("a", "a1"), ("b", "b2")] {
        match engine.dispatch_next(&mut pools, "default", start()) {
            (Some(s), Dispatch::Execute(t)) => {
                assert_eq!((s.as_str(), t.task_id.as_str()), (shard, id));
                // It is its own shard that has the task.
                let queue = engine.take_shard(&s).unwrap();
                assert!(queue.get_latest_task(id).is_some());
                engine.put_shard(&s, queue);
            }
            other => panic!("{:?}", other),
        }
    }
    // The workers are shared.
    assert_eq!(pools.running("default"), 4);
    assert!(matches!(engine.dispatch_next(&mut pools, "default", start()), (None, Dispatch::Idle)));
    assert_eq!(pools.dispatchers("default"), 1);
}

#[test]
fn shards_share_the_two_dispatchers_of_a_pool() {
    let (mut engine, mut pools) = shards(&["a", "b", "c"]);
    let default = vec!["default".to_string()];
    assert_eq!(line_up(&mut engine, &mut pools, "a", task("a", "T", "a", 1, 0)), default);
    assert_eq!(line_up(&mut engine, &mut pools, "b", task("b", "T", "b", 1, 0)), default);
    let none: Vec<String> = vec![];
    assert_eq!(line_up(&mut engine, &mut pools, "c", task("c", "T", "c", 1, 0)), none);
    assert_eq!(pools.dispatchers("default"), 2);
    // One dispatcher serves all shards.
    for _ in 0..3 {
        let step = engine.dispatch_next(&mut pools, "default", start());
        assert!(matches!(step, (Some(_), Dispatch::Execute(_))));
    }
}

#[test]
fn a_shard_that_is_lost_hands_nothing_out() {
    let (mut engine, mut pools) = shards(&["a", "b"]);
    line_up(&mut engine, &mut pools, "a", task("a", "T", "a", 1, 0));
    line_up(&mut engine, &mut pools, "b", task("b", "T", "b", 1, 0));
    assert_eq!(engine.reconcile_shards(&vec!["b".to_string()]), vec!["a".to_string()]);
    match engine.dispatch_next(&mut pools, "default", start()) {
        (Some(s), Dispatch::Execute(t)) => assert_eq!((s.as_str(), t.task_id.as_str()), ("b", "b")),
        other => panic!("{:?}", other),
    }
    assert!(matches!(engine.dispatch_next(&mut pools, "default", start()), (None, Dispatch::Idle)));
}

#[test]
fn each_shard_has_its_own_limits() {
    let (mut engine, mut pools) = shards(&["a", "b"]);
    for (shard, id) in [("a", "a1"), ("b", "b1"), ("a", "a2")] {
        let mut t = task(id, "T", id, 1, 0);
        t.rate_limit_group = Some("g".to_string());
        t.max_per_minute = Some(1);
        line_up(&mut engine, &mut pools, shard, t);
    }
    let mut ran = 0;
    let mut deferred = 0;
    loop {
        match engine.dispatch_next(&mut pools, "default", start()) {
            (Some(_), Dispatch::Execute(_)) => ran += 1,
            (Some(s), Dispatch::Deferred(line)) => {
                assert_eq!(s, "a");
                assert_eq!(line.retry_after_time, at(1_700_000_060));
                deferred += 1;
            }
            (None, Dispatch::Idle) => break,
            other => panic!("{:?}", other),
        }
    }
    assert_eq!((ran, deferred), (2, 1));
}

#[test]
fn a_dismissed_dispatcher_is_counted_out() {
    let mut engine = Engine::new("q", &[]);
    engine.enqueue(task("a", "T", "x", 1, 0));
    engine.queue.process_due_tasks_at(&mut engine.pools, start());
    assert_eq!(engine.pools.dispatchers("default"), 1);
    engine.pools.remove_dispatcher("default");
    assert_eq!(engine.pools.dispatchers("default"), 0);
    assert_eq!(engine.queue.waiting("default"), 1);
}

#[test]
fn an_enqueued_task_is_alive() {
    let store = FileStore::new("p".to_string(), &vec![]);
    let (mut queue, _) = SnerdQueue::new("q", store, RateLimiter::new());
    let mut t = task("a", "T", "x", 1, 0);
    t.deleted_at = Some(at(5));
    let line = queue.enqueue(t).unwrap();
    assert_eq!(line.deleted_at, None);
    assert_eq!(line.task_id, "a");
}

#[test]
fn unknown_pool_falls_back_to_default() {
    let mut engine = Engine::new("q", &[("urgent", 3)]);
    let mut t = task("a", "T", "x", 1, 0);
    t.pool = Some("nowhere".to_string());
    engine.enqueue(t);
    let started = engine.queue.process_due_tasks_at(&mut engine.pools, start());
    assert_eq!(started, vec!["default".to_string()]);
    assert_eq!(engine.queue.waiting("default"), 1);
    assert_eq!(engine.queue.waiting("urgent"), 0);
    assert_eq!(engine.pools.capacity("default"), Some(100));
    assert_eq!(engine.pools.capacity("urgent"), Some(3));
    assert_eq!(engine.pools.capacity("nowhere"), None);
}

#[test]
fn a_second_sweep_does_nothing_and_two_dispatchers_are_the_most() {
    let mut engine = Engine::new("q", &[]);
    for i in 0..3 {
        engine.enqueue(task(&format!("t{}", i), "T", "x", 1, 0));
        let started = engine.queue.process_due_tasks_at(&mut engine.pools, start());
        if i < 2 {
            assert_eq!(started, vec!["default".to_string()]);
        } else {
            assert!(started.is_empty());
        }
        let again = engine.queue.process_due_tasks_at(&mut engine.pools, start());
        assert!(again.is_empty());
        assert_eq!(engine.queue.waiting("default"), i + 1);
    }
    assert_eq!(engine.pools.dispatchers("default"), 2);
}

#[test]
fn pools_are_started_in_order() {
    let mut engine = Engine::new("q", &[("zeta", 1), ("alpha", 1), ("al", 1), ("\u{e9}", 1)]);
    for (i, pool) in ["zeta", "\u{e9}", "alpha", "al", "zeta", "none"].iter().enumerate() {
        let mut t = task(&format!("t{}", i), "T", "x", 1, 0);
        t.pool = Some(pool.to_string());
        engine.enqueue(t);
    }
    let started = engine.queue.process_due_tasks_at(&mut engine.pools, start());
    assert_eq!(started, vec!["al", "alpha", "default", "zeta", "\u{e9}"]);
    assert_eq!(engine.queue.waiting("zeta"), 2);
}

#[test]
fn the_sweep_by_the_clock_finds_what_is_due() {
    let mut engine = Engine::new("q", &[]);
    engine.enqueue(task("past", "T", "x", 1, 0));
    let mut far = task("far", "T", "x", 1, 0);
    far.execute_at = at(8_000_000_000_000);
    engine.enqueue(far);
    let started = engine.queue.process_due_tasks(&mut engine.pools);
    assert_eq!(started, vec!["default".to_string()]);
    assert_eq!(engine.queue.waiting("default"), 1);
    assert!(Timestamp::now().is_some());
}

#[test]
fn a_dispatcher_without_work_ends() {
    let mut engine = Engine::new("q", &[]);
    engine.enqueue(task("a", "T", "x", 1, 0));
    engine.queue.process_due_tasks_at(&mut engine.pools, start());
    engine.sweep(&fine, start());
    let d = engine.queue.dispatch_next(&mut engine.pools, "default", start());
    let t = match d {
        Dispatch::Execute(t) => t,
        other => panic!("{:?}", other),
    };
    assert_eq!(engine.pools.running("default"), 1);
    let d = engine.queue.dispatch_next(&mut engine.pools, "default", start());
    assert!(matches!(d, Dispatch::Idle));
    assert_eq!(engine.pools.dispatchers("default"), 0);
    engine.queue.end_execution(&mut engine.pools, "default", &t.task_id);
    assert_eq!(engine.pools.running("default"), 0);
}

#[test]
fn a_task_that_runs_already_is_skipped() {
    let mut engine = Engine::new("q", &[]);
    let t = task("a", "T", "x", 1, 0);
    let first = engine.queue.hand_out(&mut engine.pools, "default", t.clone(), true, start());
    assert!(matches!(first, Dispatch::Execute(_)));
    let second = engine.queue.hand_out(&mut engine.pools, "default", t.clone(), true, start());
    assert!(matches!(second, Dispatch::Skipped));
    match engine.queue.hand_out(&mut engine.pools, "default", t, false, start()) {
        Dispatch::Deferred(line) => assert_eq!(line.retry_after_time, at(1_700_000_060)),
        other => panic!("{:?}", other),
    }
}

#[test]
fn a_task_that_is_through_is_not_run_again() {
    let mut engine = Engine::new("q", &[]);
    engine.queue.register_task_handler("T");
    let t = task("a", "T", "x", 1, 0);
    assert!(matches!(engine.queue.plan_execution(&t), Execution::Handler { .. }));
    engine.queue.settle(t.clone(), Ok(()), start(), 1_000);
    assert!(matches!(engine.queue.plan_execution(&t), Execution::AlreadyCompleted));
    engine.queue.evict_completed(1_000 + 60_000_000_000);
    assert!(matches!(engine.queue.plan_execution(&t), Execution::AlreadyCompleted));
    engine.queue.evict_completed(1_000 + 60_000_000_001);
    assert!(matches!(engine.queue.plan_execution(&t), Execution::Handler { .. }));
}

#[test]
fn a_task_found_completed_is_held_back_for_a_time() {
    let mut engine = Engine::new("q", &[]);
    engine.queue.register_task_handler("T");
    engine.queue.settle(task("a", "T", "x", 1, 0), Ok(()), start(), 0);
    // The same id is enqueued again within the time for which it is remembered.
    engine.enqueue(task("a", "T", "x", 1, 0));
    engine.sweep(&fine, start());
    assert_eq!(engine.ran.len(), 0);
    assert_eq!(engine.pools.running("default"), 0);
    assert_eq!(engine.queue.read_tasks().len(), 1);
    // It is swept again, and held back again, until it is forgotten.
    engine.sweep(&fine, start());
    assert_eq!(engine.ran.len(), 0);
    engine.queue.evict_completed(60_000_000_000);
    engine.sweep(&fine, start());
    assert_eq!(engine.ran.len(), 0);
    engine.queue.evict_completed(60_000_000_001);
    engine.sweep(&fine, start());
    assert_eq!(engine.ran.len(), 1);
    assert_eq!(engine.queue.read_tasks().len(), 0);
}

#[test]
fn the_way_to_run_a_task() {
    let store = FileStore::new("p".to_string(), &vec![]);
    let (mut queue, _) = SnerdQueue::new("q", store, RateLimiter::new());
    let mut t = task("id \"1\"", "T", "x", 1, 0);
    assert!(matches!(queue.plan_execution(&t), Execution::NoHandler));
    t.max_execution_seconds = Some(7);
    queue.register_task_handler("T");
    match queue.plan_execution(&t) {
        Execution::Handler { data, timeout } => {
            assert_eq!(data, "x");
            assert_eq!(timeout, Some(7));
        }
        other => panic!("{:?}", other),
    }
    t.webhook_url = Some("http://localhost:9010/hook".to_string());
    match queue.plan_execution(&t) {
        Execution::Webhook { url, payload, timeout } => {
            assert_eq!(url, "http://localhost:9010/hook");
            assert_eq!(
                payload,
                "{\"data\":\"x\",\"taskId\":\"id \\\"1\\\"\",\"taskType\":\"T\"}"
            );
            assert_eq!(payload, event_payload(&t));
            assert_eq!(timeout, Some(7));
        }
        other => panic!("{:?}", other),
    }
}

#[test]
fn a_payload_escapes_what_json_asks_for() {
    let data = "\"\\\u{8}\t\n\u{c}\r\u{0}\u{b}\u{1f} /\u{7f}\u{e9}\u{2028}\u{1f600}";
    let escaped = "\\\"\\\\\\b\\t\\n\\f\\r\\u0000\\u000b\\u001f /\u{7f}\u{e9}\u{2028}\u{1f600}";
    assert_eq!(
        event_payload(&task("a", "T", data, 1, 0)),
        format!("{{\"data\":\"{}\",\"taskId\":\"a\",\"taskType\":\"T\"}}", escaped)
    );
    assert_eq!(
        event_payload(&task("", "", "", 1, 0)),
        "{\"data\":\"\",\"taskId\":\"\",\"taskType\":\"\"}"
    );
}

#[test]
fn a_failing_webhook_task_posts_its_end() {
    let store = FileStore::new("p".to_string(), &vec![]);
    let (mut queue, _) = SnerdQueue::new("q", store, RateLimiter::new());
    queue.register_max_retry_handler("T");
    let mut t = task("a", "T", "x", 1, 0);
    match queue.settle_failure(t.clone(), "bad".to_string(), start(), 0) {
        Settlement::Exhausted { notice: Notice::Handler { payload }, tombstone: None } => {
            assert_eq!(payload, event_payload(&t));
        }
        other => panic!("{:?}", other),
    }
    t.webhook_url = Some("u".to_string());
    match queue.settle_failure(t.clone(), "bad".to_string(), start(), 0) {
        Settlement::Exhausted { notice: Notice::Webhook { url, payload }, .. } => {
            assert_eq!(url, "u");
            assert_eq!(payload, event_payload(&t));
        }
        other => panic!("{:?}", other),
    }
    t.webhook_url = None;
    t.task_type = "other".to_string();
    match queue.settle_failure(t, "bad".to_string(), start(), 0) {
        Settlement::Exhausted { notice, .. } => assert!(matches!(notice, Notice::Nobody)),
        other => panic!("{:?}", other),
    }
}

#[test]
fn a_failed_task_waits_for_its_delay() {
    let store = FileStore::new("p".to_string(), &vec![]);
    let (mut queue, _) = SnerdQueue::new("q", store, RateLimiter::new());
    let t = task("a", "T", "x", 2, 1_500);
    match queue.settle(t, Err("bad".to_string()), start(), 0) {
        Settlement::Retried(line) => {
            assert_eq!(line.retry_count, 1);
            assert_eq!(
                line.retry_after_time,
                Timestamp { secs: 1_700_000_001, nanos: 500_000_000 }
            );
            assert_eq!(line.last_error_obj, Some("bad".to_string()));
            assert_eq!(line.last_job_error, Some("bad".to_string()));
            assert_eq!(line.updated_at, start());
            assert!(!line.is_due(at(1_700_000_001)));
            assert!(line.is_due(at(1_700_000_002)));
        }
        other => panic!("{:?}", other),
    }
}

#[test]
fn success_with_and_without_a_next_tick() {
    let store = FileStore::new("p".to_string(), &vec![]);
    let (mut queue, _) = SnerdQueue::new("q", store, RateLimiter::new());
    let line = queue.enqueue(task("a", "T", "x", 2, 0)).unwrap();
    queue.line_appended(&line, None);
    let t = task("a", "T", "x", 2, 0);
    match queue.settle_success(t.clone(), Some(at(9)), start(), 0) {
        Settlement::Rescheduled(line) => assert_eq!(line.execute_at, at(9)),
        other => panic!("{:?}", other),
    }
    match queue.settle_success(t, None, start(), 0) {
        Settlement::Completed(Some(tombstone)) => {
            assert_eq!(tombstone.deleted_at, Some(start()));
            assert_eq!(tombstone.task_id, "a");
        }
        other => panic!("{:?}", other),
    }
}
