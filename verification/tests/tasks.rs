//! Tasks, their times and their outcomes.

use snerd::execution::{handler_result, webhook_result, HandlerReply, WebhookReply};
use snerd::priority::{PriorityTask, TaskHeap};
use snerd::rate_limiter::RateLimiter;
use snerd::schedule::{interval_secs, next_run, resolve_run, CronAnswer};
use snerd::task::RetryableTask;
use snerd::text::{decimal_text, goes_before_text, same_text, signed_decimal_text};
use snerd::time::Timestamp;

fn at(secs: i64) -> Timestamp {
    Timestamp { secs, nanos: 0 }
}

fn new_task(
    task_type: &str,
    data: &str,
    dedupe: Option<bool>,
    execute_at: Option<&str>,
    cron: Option<&str>,
    now: Timestamp,
) -> RetryableTask {
    RetryableTask::new(
        "id".to_string(),
        task_type.to_string(),
        data.to_string(),
        3,
        3_600_000,
        Some("group".to_string()),
        Some(50),
        dedupe,
        7,
        execute_at.map(|s| s.to_string()),
        cron.map(|s| s.to_string()),
        Some("url".to_string()),
        Some(300),
        Some("urgent".to_string()),
        Some(vec!["parent".to_string()]),
        now,
    )
}

#[test]
fn a_new_task_holds_what_it_is_given() {
    let t = new_task("type", "data", None, None, None, at(50));
    assert_eq!(t.task_id, "id");
    assert_eq!(t.task_type, "type");
    assert_eq!(t.task_data, "data");
    assert_eq!((t.retry_count, t.max_retries, t.retry_after_ms), (0, 3, 3_600_000));
    assert_eq!((t.created_at, t.updated_at), (at(50), at(50)));
    assert_eq!((t.execute_at, t.retry_after_time), (at(50), at(50)));
    assert_eq!(t.deleted_at, None);
    assert_eq!(t.last_error_obj, None);
    assert_eq!(t.rate_limit_group, Some("group".to_string()));
    assert_eq!(t.max_per_minute, Some(50));
    assert_eq!(t.payload_hash, None);
    assert_eq!(t.urgency, 7);
    assert_eq!(t.webhook_url, Some("url".to_string()));
    assert_eq!(t.max_execution_seconds, Some(300));
    assert_eq!(t.pool, Some("urgent".to_string()));
    assert_eq!(t.trigger_after_ids, Some(vec!["parent".to_string()]));
    let copy = t.clone();
    assert_eq!(format!("{:?}", copy), format!("{:?}", t));
}

#[test]
fn the_first_run_of_a_task() {
    let now = at(1_700_000_000);
    let t = new_task("t", "d", None, Some("2023-11-15T00:00:00Z"), Some("30s"), now);
    assert_eq!(t.execute_at, at(1_700_006_400));
    let t = new_task("t", "d", None, Some("tomorrow"), Some("30s"), now);
    assert_eq!(t.execute_at, at(1_700_000_030));
    let t = new_task("t", "d", None, None, Some("nonsense"), now);
    assert_eq!(t.execute_at, now);
    let t = new_task("t", "d", None, Some("2023-11-14T22:13:20.25Z"), None, now);
    assert_eq!(t.execute_at, Timestamp { secs: 1_700_000_000, nanos: 250_000_000 });
}

#[test]
fn the_digest_depends_on_type_and_data() {
    let now = at(1);
    let a = new_task("type", "data", Some(true), None, None, now).payload_hash.unwrap();
    let b = new_task("type", "data", Some(true), None, None, at(99)).payload_hash.unwrap();
    let c = new_task("type", "other", Some(true), None, None, now).payload_hash.unwrap();
    let d = new_task("typed", "ata", Some(true), None, None, now).payload_hash.unwrap();
    assert_eq!(a, b);
    assert_ne!(a, c);
    assert_eq!(a, d);
    assert_ne!(a, "typedata");
    let expected = uuid::Uuid::new_v5(&uuid::Uuid::NAMESPACE_OID, b"typedata").to_string();
    assert_eq!(a, expected);
    assert_eq!(new_task("type", "data", Some(false), None, None, now).payload_hash, None);
}

#[test]
fn a_task_is_due_when_both_times_have_come() {
    let mut t = new_task("t", "d", None, None, None, at(100));
    assert!(t.is_due(at(100)));
    assert!(!t.is_due(at(99)));
    t.retry_after_time = at(200);
    assert!(!t.is_due(at(199)));
    assert!(t.is_due(at(200)));
    t.mark_deleted(at(300));
    assert_eq!(t.deleted_at, Some(at(300)));
    assert!(!t.is_due(at(400)));
}

#[test]
fn schedules_of_all_forms() {
    // 2023-11-14 22:13:20, a Tuesday.
    let now = at(1_700_000_000);
    assert_eq!(next_run("*/10 * * * * *", now), Some(at(1_700_000_010)));
    assert_eq!(next_run("0 * * * *", now), Some(at(1_700_002_800)));
    assert_eq!(next_run("0 0 0 1 1 * 2030", now), Some(at(1_893_456_000)));
    assert_eq!(next_run("0 0 0 1 1 * 2001", now), None);
    assert_eq!(next_run("30s", now), Some(at(1_700_000_030)));
    assert_eq!(next_run("10m", now), Some(at(1_700_000_600)));
    assert_eq!(next_run("2h", now), Some(at(1_700_007_200)));
    assert_eq!(next_run("1d", now), Some(at(1_700_086_400)));
    assert_eq!(next_run("", now), None);
    assert_eq!(next_run("every day", now), None);
    assert_eq!(next_run("0s", now), None);
    assert_eq!(interval_secs("90m"), Some(5_400));
    assert_eq!(interval_secs("m"), None);
    assert_eq!(interval_secs("-1m"), None);
    assert_eq!(interval_secs("99999999999999999999d"), None);
}

#[test]
fn a_schedule_follows_the_answers_on_it() {
    let now = at(1_000);
    let direct = |a: CronAnswer| resolve_run(a, "30s", CronAnswer::At(at(7)), now);
    assert_eq!(direct(CronAnswer::At(at(5_000))), Some(at(5_000)));
    assert_eq!(direct(CronAnswer::Never), None);
    assert_eq!(direct(CronAnswer::Invalid), Some(at(1_030)));
    let five = resolve_run(CronAnswer::Invalid, "0 * * * *", CronAnswer::At(at(2_000)), now);
    assert_eq!(five, Some(at(2_000)));
    let six = resolve_run(CronAnswer::Invalid, "0 0 * * * x", CronAnswer::At(at(2_000)), now);
    assert_eq!(six, None);
    let bad = resolve_run(CronAnswer::Invalid, "0 * * * *", CronAnswer::Invalid, now);
    assert_eq!(bad, None);
}

#[test]
fn outcomes_of_webhooks() {
    let status = |code: u16, text: &str| {
        webhook_result(WebhookReply::Status { code, text: text.to_string() }, None)
    };
    assert_eq!(status(200, "200 OK"), Ok(()));
    assert_eq!(status(299, "299"), Ok(()));
    assert_eq!(
        status(300, "300 Multiple Choices"),
        Err("Webhook returned non-2xx status: 300 Multiple Choices".to_string())
    );
    assert_eq!(status(199, "199"), Err("Webhook returned non-2xx status: 199".to_string()));
    assert_eq!(
        webhook_result(WebhookReply::TimedOut, Some(30)),
        Err("Webhook execution timed out after 30 seconds".to_string())
    );
    assert_eq!(
        webhook_result(WebhookReply::TimedOut, None),
        Err("Webhook execution timed out after 0 seconds".to_string())
    );
    assert_eq!(
        webhook_result(WebhookReply::Failed("refused".to_string()), None),
        Err("Webhook request failed: refused".to_string())
    );
    assert_eq!(
        webhook_result(WebhookReply::Panicked("boom".to_string()), None),
        Err("Webhook task panic: boom".to_string())
    );
}

#[test]
fn outcomes_of_handlers() {
    assert_eq!(handler_result(HandlerReply::Returned(Ok(()))), Ok(()));
    assert_eq!(
        handler_result(HandlerReply::Returned(Err("no".to_string()))),
        Err("no".to_string())
    );
    assert_eq!(
        handler_result(HandlerReply::Panicked("boom".to_string())),
        Err("Task panic: boom".to_string())
    );
    assert_eq!(
        handler_result(HandlerReply::TimedOut(2)),
        Err("Task execution timed out after 2 seconds".to_string())
    );
}

#[test]
fn the_limit_holds_in_a_rolling_window() {
    let mut limiter = RateLimiter::new();
    assert!(limiter.check_and_increment("g", 2, at(0)));
    assert!(limiter.check_and_increment("g", 2, at(30)));
    assert!(!limiter.check_and_increment("g", 2, at(59)));
    assert!(limiter.check_and_increment("other", 2, at(59)));
    // The first run has left the window, the second has not.
    assert!(limiter.check_and_increment("g", 2, at(60)));
    assert!(!limiter.check_and_increment("g", 2, at(89)));
    assert!(limiter.check_and_increment("g", 2, at(90)));
    assert!(!limiter.check_and_increment("none", 0, at(90)));
    assert!(!limiter.check_and_increment("none", -1, at(90)));
}

#[test]
fn tasks_leave_the_line_by_rank() {
    let mut heap = TaskHeap::new();
    assert!(heap.pop().is_none());
    for (urgency, created) in [(0, 5), (9, 8), (0, 3), (-2, 1), (9, 7), (0, 4)] {
        let mut t = new_task("t", "d", None, None, None, at(created));
        t.urgency = urgency;
        heap.push(PriorityTask(t));
    }
    assert_eq!(heap.len(), 6);
    let mut order = vec![];
    while let Some(PriorityTask(t)) = heap.pop() {
        order.push((t.urgency, t.created_at.secs));
    }
    assert_eq!(order, vec![(9, 7), (9, 8), (0, 3), (0, 4), (0, 5), (-2, 1)]);
}

#[test]
fn times_are_ordered_and_moved_on() {
    let t = Timestamp { secs: -1, nanos: 999_000_000 };
    assert_eq!(t.add_millis(1), at(0));
    assert_eq!(t.add_millis(2_500), Timestamp { secs: 2, nanos: 499_000_000 });
    assert_eq!(t.add_secs(60), Timestamp { secs: 59, nanos: 999_000_000 });
    assert!(t.lt(&at(0)) && t.le(&at(0)) && t.le(&t) && !t.lt(&t));
    assert!(at(0).is_on_calendar());
    assert!(!at(i64::MAX).is_on_calendar());
    assert!(!Timestamp { secs: 0, nanos: 1_000_000_000 }.is_on_calendar());
    assert_eq!(t.if_on_calendar(), Some(t));
    assert_eq!(at(8_210_266_876_739).if_on_calendar(), Some(at(8_210_266_876_739)));
    assert_eq!(at(8_210_266_876_740).if_on_calendar(), None);
    assert_eq!(at(-8_334_601_228_801).if_on_calendar(), None);
    assert!(at(0).has_room_for_millis(1_000));
    assert!(!at(0).has_room_for_millis(u64::MAX));
}

#[test]
fn numbers_as_text() {
    for n in [0, 9, 10, 4_096, u64::MAX] {
        assert_eq!(decimal_text(n), n.to_string());
    }
    for n in [0, -1, i64::MIN, i64::MAX] {
        assert_eq!(signed_decimal_text(n), n.to_string());
    }
}

#[test]
fn texts_are_ordered_as_strings_are() {
    let texts = ["", "a", "ab", "b", "\u{e9}", "\u{1f980}", "A", "a\u{0}"];
    for a in texts {
        for b in texts {
            assert_eq!(goes_before_text(a, b), a < b);
            assert_eq!(same_text(a, b), a == b);
        }
    }
}
