//! What the dashboard shows.

use snerd::dashboard::{
    dashboard_status, dashboard_status_at, has_job_error, is_deleted, note_record,
    read_deduped_tasks, read_deduped_tasks_multiple, stats_body, stats_body_multiple, stats_of,
    status_by_start, task_text, tasks_body, tasks_body_multiple, tasks_body_multiple_at, Stats,
    TaskRecord,
};
use snerd::json::{JsonKind, JsonValue};
use snerd::progress::{progress_body, ProgressMessage, ProgressRing, RING_CAP};
use snerd::table::StringTable;
use snerd::time::Timestamp;

fn at(secs: i64) -> Timestamp {
    Timestamp { secs, nanos: 0 }
}

fn text(s: &str) -> JsonValue {
    JsonValue { kind: JsonKind::Text(s.to_string()), raw: format!("\"{}\"", s) }
}

fn number(i: i64) -> JsonValue {
    JsonValue { kind: JsonKind::Int(i), raw: format!("{}", i) }
}

fn null() -> JsonValue {
    JsonValue { kind: JsonKind::Null, raw: "null".to_string() }
}

fn record(members: Vec<(&str, JsonValue)>) -> TaskRecord {
    TaskRecord { members: members.into_iter().map(|(k, v)| (k.to_string(), v)).collect() }
}

fn message(task_id: &str, data: &str) -> ProgressMessage {
    ProgressMessage { task_id: task_id.to_string(), data: data.to_string() }
}

fn lines(v: &[&str]) -> Vec<String> {
    v.iter().map(|s| s.to_string()).collect()
}

#[test]
fn every_status_has_its_record() {
    let now = at(100);
    let plain = record(vec![("taskId", text("a"))]);
    assert_eq!(status_by_start(&plain, None, now), "queued");
    assert_eq!(status_by_start(&plain, Some(at(101)), now), "queued");
    assert_eq!(status_by_start(&plain, Some(at(100)), now), "active");
    let failing = record(vec![("LastJobError", text("e"))]);
    assert_eq!(status_by_start(&failing, Some(at(1)), now), "failed");
    let old_spelling = record(vec![("lastJobError", null())]);
    assert!(has_job_error(&old_spelling));
    assert_eq!(status_by_start(&old_spelling, None, now), "failed");
    let done = record(vec![("deletedAt", text("t"))]);
    assert_eq!(status_by_start(&done, None, now), "completed");
    let alive = record(vec![("deletedAt", null())]);
    assert!(!is_deleted(&alive));
    assert_eq!(status_by_start(&alive, None, now), "queued");
    let buried = record(vec![
        ("deletedAt", text("t")),
        ("LastJobError", text("e")),
        ("retryCount", number(3)),
        ("maxRetries", number(3)),
    ]);
    assert_eq!(status_by_start(&buried, None, now), "dead_letter");
    let failed = record(vec![
        ("deletedAt", text("t")),
        ("LastJobError", text("e")),
        ("retryCount", number(2)),
        ("maxRetries", number(3)),
    ]);
    assert_eq!(status_by_start(&failed, None, now), "failed");
}

#[test]
fn the_start_is_read_off_the_record() {
    let r = record(vec![("executeAt", text("2023-11-14T23:13:20+01:00"))]);
    assert_eq!(dashboard_status_at(&r, at(1_700_000_000)), "active");
    assert_eq!(dashboard_status_at(&r, at(1_699_999_999)), "queued");
    assert_eq!(dashboard_status(&r), "active");
    let none = record(vec![("executeAt", text("soon"))]);
    assert_eq!(dashboard_status(&none), "queued");
    let numeric = record(vec![("executeAt", number(5))]);
    assert_eq!(dashboard_status(&numeric), "queued");
}

#[test]
fn the_last_line_of_a_task_counts() {
    let table = read_deduped_tasks(lines(&[
        "{\"taskId\":\"a\",\"taskType\":\"one\"}",
        "",
        "  \t ",
        "not json",
        "[1,2]",
        "{\"taskType\":\"no id\"}",
        "{\"taskId\":7}",
        "{\"taskId\":\"b\"}",
        "{\"taskId\":\"a\",\"taskType\":\"two\"}",
    ]));
    assert_eq!(table.len(), 2);
    assert_eq!(table.key_at(0), "a");
    assert_eq!(table.key_at(1), "b");
    let a = table.get("a").unwrap();
    assert!(task_text(a, "queued").contains("\"type\":\"two\""));
}

#[test]
fn records_are_taken_in_one_by_one() {
    let mut table: StringTable<TaskRecord> = StringTable::new();
    note_record(&mut table, None);
    note_record(&mut table, Some(record(vec![("taskType", text("x"))])));
    assert_eq!(table.len(), 0);
    note_record(&mut table, Some(record(vec![("taskId", text("a")), ("deletedAt", null())])));
    note_record(&mut table, Some(record(vec![("taskId", text("a")), ("deletedAt", text("t"))])));
    note_record(&mut table, Some(record(vec![("taskId", text("b"))])));
    assert_eq!(stats_of(&table), Stats { enqueued: 2, processed: 1, failed: 0 });
}

#[test]
fn the_counts_of_a_log() {
    let log = lines(&[
        "{\"taskId\":\"a\"}",
        "{\"taskId\":\"a\",\"deletedAt\":\"2023-11-14T22:13:20Z\"}",
        "{\"taskId\":\"b\",\"deletedAt\":\"2023-11-14T22:13:20Z\",\"LastJobError\":\"e\"}",
        "{\"taskId\":\"c\",\"deletedAt\":null}",
    ]);
    assert_eq!(stats_body(log.clone()), "{\"enqueued\":3,\"processed\":1,\"failed\":1}");
    let other = lines(&["{\"taskId\":\"d\"}", "{\"taskId\":\"c\",\"deletedAt\":\"x\"}"]);
    assert_eq!(
        stats_body_multiple(&vec![log, other]),
        "{\"enqueued\":4,\"processed\":2,\"failed\":1}"
    );
    assert_eq!(stats_body(vec![]), "{\"enqueued\":0,\"processed\":0,\"failed\":0}");
}

#[test]
fn the_tasks_of_a_log() {
    let log = lines(&[
        "{\"taskId\":\"a\\n\",\"taskType\":\"mail\",\"retryCount\":1,\"maxRetries\":-3,\
         \"retryAfterTime\":\"soon\",\"cronExpression\":\"30s\",\"webhookUrl\":null,\
         \"maxExecutionSeconds\":7,\"executeAt\":\"2023-11-14T22:13:20Z\"}",
        "{\"taskId\":\"b\",\"retryCount\":\"x\",\"maxRetries\":1.5}",
    ]);
    let expected = "[{\"cronExpression\":\"30s\",\"id\":\"a\\n\",\"maxExecutionSeconds\":7,\
                    \"maxRetries\":-3,\"progress\":0,\"retryAfterTime\":\"soon\",\
                    \"retryCount\":1,\"status\":\"active\",\"type\":\"mail\",\
                    \"webhookUrl\":null},\
                    {\"cronExpression\":null,\"id\":\"b\",\"maxExecutionSeconds\":null,\
                    \"maxRetries\":0,\"progress\":0,\"retryAfterTime\":\"\",\
                    \"retryCount\":0,\"status\":\"queued\",\"type\":null,\
                    \"webhookUrl\":null}]";
    assert_eq!(tasks_body_multiple_at(&vec![log.clone()], at(1_700_000_000)), expected);
    assert_eq!(tasks_body_multiple(&vec![log.clone()]), expected);
    assert_eq!(tasks_body(log.clone()), expected);
    assert_eq!(tasks_body(vec![]), "[]");
    assert_eq!(read_deduped_tasks_multiple(&vec![log, vec![]]).len(), 2);
}

#[test]
fn the_text_is_what_the_json_library_writes() {
    let line = "{\"taskId\":\"q\\\"u\\u0001\",\"taskType\":[1,{\"b\":2,\"a\":1.50}],\
                \"retryCount\":4}";
    let body = tasks_body(lines(&[line]));
    let value: serde_json::Value = serde_json::from_str(&body).unwrap();
    assert_eq!(serde_json::to_string(&value).unwrap(), body);
    assert_eq!(value[0]["id"], serde_json::Value::from("q\"u\u{1}"));
    assert_eq!(value[0]["type"][1]["a"].to_string(), "1.5");
}

#[test]
fn the_last_hundred_events_are_shown() {
    let mut ring = ProgressRing::new();
    assert_eq!(progress_body(&ring), "[]");
    ring.push("1.5".to_string(), message("a", "50% \"done\""));
    assert_eq!(
        progress_body(&ring),
        "[{\"data\":\"50% \\\"done\\\"\",\"task_id\":\"a\",\"ts\":1.5}]"
    );
    for i in 0..RING_CAP + 7 {
        ring.push(format!("{}", i), message("t", "d"));
    }
    let shown: serde_json::Value = serde_json::from_str(&progress_body(&ring)).unwrap();
    let events = shown.as_array().unwrap();
    assert_eq!(events.len(), 100);
    assert_eq!(events[0]["ts"].as_u64(), Some(407));
    assert_eq!(events[99]["ts"].as_u64(), Some(506));
}
