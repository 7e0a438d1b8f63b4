//! What the dashboard says of the tasks in a log.

use vstd::prelude::*;
use vstd::string::StringExecFns;

use crate::json::{find_member, parse_members, quote, write_array, write_object};
use crate::json::{JsonKind, JsonValue, KindView, ValueView};
use crate::table::StringTable;
use crate::text::{chars_of, decimal_text, find_space, signed_decimal_text};
use crate::time::{parse_rfc3339, Timestamp};

verus! {

/// A line of a log as the dashboard reads it: the members of a JSON object.
#[derive(Debug)]
pub struct TaskRecord {
    pub members: Vec<(String, JsonValue)>,
}

impl View for TaskRecord {
    type V = Seq<(Seq<char>, ValueView)>;

    open spec fn view(&self) -> Seq<(Seq<char>, ValueView)> {
        crate::json::members_of(self.members@)
    }
}

/// The text of a member, where there is one and it is a string.
pub open spec fn text_member(m: Seq<(Seq<char>, ValueView)>, key: Seq<char>) -> Option<Seq<char>> {
    match crate::json::member(m, key) {
        Some(v) => match v.kind {
            KindView::Text(s) => Some(s),
            _ => None,
        },
        None => None,
    }
}

/// The number of a member, and zero where there is none or it is no integer.
pub open spec fn int_member(m: Seq<(Seq<char>, ValueView)>, key: Seq<char>) -> i64 {
    match crate::json::member(m, key) {
        Some(v) => match v.kind {
            KindView::Int(i) => i,
            _ => 0,
        },
        None => 0,
    }
}

/// The JSON text of a member, and of `null` where there is none.
pub open spec fn raw_member(m: Seq<(Seq<char>, ValueView)>, key: Seq<char>) -> Seq<char> {
    match crate::json::member(m, key) {
        Some(v) => v.raw,
        None => "null"@,
    }
}

/// The record speaks of an error of the job, in the one spelling or the other.
pub open spec fn records_error(m: Seq<(Seq<char>, ValueView)>) -> bool {
    crate::json::member(m, "LastJobError"@) is Some || crate::json::member(m, "lastJobError"@) is Some
}

/// The record is a tombstone.
pub open spec fn records_deletion(m: Seq<(Seq<char>, ValueView)>) -> bool {
    crate::json::member(m, "deletedAt"@) matches Some(v) && v.kind !is Null
}

/// Reads the text of a member.
fn text_of(record: &TaskRecord, key: &str) -> (r: Option<String>)
    ensures
        crate::task::opt_text(r) == text_member(record@, key@),
{
    match find_member(&record.members, key) {
        Some(v) => match &v.kind {
            JsonKind::Text(s) => Some(s.clone()),
            _ => None,
        },
        None => None,
    }
}

/// Reads the number of a member.
fn int_of(record: &TaskRecord, key: &str) -> (r: i64)
    ensures
        r == int_member(record@, key@),
{
    match find_member(&record.members, key) {
        Some(v) => match &v.kind {
            JsonKind::Int(i) => *i,
            _ => 0,
        },
        None => 0,
    }
}

/// Reads the JSON text of a member.
fn raw_of(record: &TaskRecord, key: &str) -> (r: String)
    ensures
        r@ == raw_member(record@, key@),
{
    match find_member(&record.members, key) {
        Some(v) => v.raw.clone(),
        None => "null".to_string(),
    }
}

/// Whether a record speaks of an error of the job.
pub fn has_job_error(record: &TaskRecord) -> (r: bool)
    ensures
        r == records_error(record@),
{
    find_member(&record.members, "LastJobError").is_some() || find_member(
        &record.members,
        "lastJobError",
    ).is_some()
}

/// Whether a record is a tombstone.
pub fn is_deleted(record: &TaskRecord) -> (r: bool)
    ensures
        r == records_deletion(record@),
{
    match find_member(&record.members, "deletedAt") {
        Some(v) => match &v.kind {
            JsonKind::Null => false,
            _ => true,
        },
        None => false,
    }
}

/// The status of a task with this record at `now`, where `starts` is the time at which the
/// task is to start, as far as the record has one.
pub open spec fn status_of(
    m: Seq<(Seq<char>, ValueView)>,
    starts: Option<Timestamp>,
    now: Timestamp,
) -> Seq<char> {
    if records_deletion(m) {
        if !records_error(m) {
            "completed"@
        } else if int_member(m, "retryCount"@) >= int_member(m, "maxRetries"@) {
            "dead_letter"@
        } else {
            "failed"@
        }
    } else if records_error(m) {
        "failed"@
    } else if starts matches Some(t) && t.at_or_before(now) {
        "active"@
    } else {
        "queued"@
    }
}

/// The time at which a task is to start, as far as its record has one.
pub open spec fn start_of(m: Seq<(Seq<char>, ValueView)>) -> Option<Timestamp> {
    match text_member(m, "executeAt"@) {
        Some(s) => crate::time::rfc3339_time(s),
        None => None,
    }
}

/// The status of a task at `now`, where `starts` is the time at which it is to start.
pub fn status_by_start(record: &TaskRecord, starts: Option<Timestamp>, now: Timestamp) -> (r:
    &'static str)
    ensures
        r@ == status_of(record@, starts, now),
{
    let has_err: bool = has_job_error(record);
    if is_deleted(record) {
        if !has_err {
            return "completed";
        }
        if int_of(record, "retryCount") >= int_of(record, "maxRetries") {
            return "dead_letter";
        }
        return "failed";
    }
    if has_err {
        return "failed";
    }
    match starts {
        Some(t) => {
            if t.le(&now) {
                return "active";
            }
        },
        None => {},
    }
    "queued"
}

/// The status of a task at `now`.
pub fn dashboard_status_at(record: &TaskRecord, now: Timestamp) -> (r: &'static str)
    ensures
        r@ == status_of(record@, start_of(record@), now),
{
    let starts: Option<Timestamp> = match text_of(record, "executeAt") {
        Some(s) => parse_rfc3339(s.as_str()),
        None => None,
    };
    status_by_start(record, starts, now)
}

/// The status of a task by the system clock.
pub fn dashboard_status(record: &TaskRecord) -> (r: &'static str)
    ensures
        exists|now: Timestamp|
            now.was_read() && now.clock_reading() && r@ == #[trigger] status_of(
                record@,
                start_of(record@),
                now,
            ),
{
    let now = Timestamp::read_clock();
    dashboard_status_at(record, now)
}

/// The records by task, in the order in which the tasks came up first.
pub open spec fn record_rows(rows: Seq<(Seq<char>, TaskRecord)>) -> Seq<
    (Seq<char>, Seq<(Seq<char>, ValueView)>),
> {
    Seq::new(rows.len(), |i: int| (rows[i].0, rows[i].1@))
}

/// The records with one more line taken in, where it holds a task.
pub open spec fn with_record(
    rows: Seq<(Seq<char>, Seq<(Seq<char>, ValueView)>)>,
    line: Option<Seq<(Seq<char>, ValueView)>>,
) -> Seq<(Seq<char>, Seq<(Seq<char>, ValueView)>)> {
    match line {
        Some(m) => match text_member(m, "taskId"@) {
            Some(id) => crate::table::upsert(rows, id, m),
            None => rows,
        },
        None => rows,
    }
}

/// The latest record of each task.
pub open spec fn latest_records(lines: Seq<Option<Seq<(Seq<char>, ValueView)>>>) -> Seq<
    (Seq<char>, Seq<(Seq<char>, ValueView)>),
>
    decreases lines.len(),
{
    if lines.len() == 0 {
        Seq::empty()
    } else {
        with_record(latest_records(lines.drop_last()), lines.last())
    }
}

/// The last record of the task with this id.
pub open spec fn last_record(
    lines: Seq<Option<Seq<(Seq<char>, ValueView)>>>,
    id: Seq<char>,
) -> Option<Seq<(Seq<char>, ValueView)>>
    decreases lines.len(),
{
    if lines.len() == 0 {
        None
    } else {
        match lines.last() {
            Some(m) if text_member(m, "taskId"@) == Some(id) => Some(m),
            _ => last_record(lines.drop_last(), id),
        }
    }
}

/// The dashboard shows each task once, and by its last line.
pub proof fn law_dashboard_shows_the_last_line(
    lines: Seq<Option<Seq<(Seq<char>, ValueView)>>>,
    id: Seq<char>,
)
    ensures
        crate::table::keys_distinct(latest_records(lines)),
        match last_record(lines, id) {
            Some(m) => {
                &&& crate::table::contents_of(latest_records(lines)).contains_key(id)
                &&& crate::table::contents_of(latest_records(lines))[id] == m
            },
            None => !crate::table::contents_of(latest_records(lines)).contains_key(id),
        },
    decreases lines.len(),
{
    if lines.len() > 0 {
        let front = lines.drop_last();
        law_dashboard_shows_the_last_line(front, id);
        match lines.last() {
            Some(m) => match text_member(m, "taskId"@) {
                Some(k) => {
                    crate::table::lemma_upsert(latest_records(front), k, m);
                },
                None => {},
            },
            None => {},
        }
    }
}

/// A row that is written into a table of records is the row that the records get.
proof fn lemma_record_rows(rows: Seq<(Seq<char>, TaskRecord)>, k: Seq<char>, v: TaskRecord)
    requires
        crate::table::keys_distinct(rows),
    ensures
        record_rows(crate::table::upsert(rows, k, v)) == crate::table::upsert(
            record_rows(rows),
            k,
            v@,
        ),
{
    let views = record_rows(rows);
    if exists|i: int| 0 <= i < rows.len() && rows[i].0 == k {
        let i = choose|i: int| 0 <= i < rows.len() && rows[i].0 == k;
        assert(views[i].0 == k);
        let j = choose|j: int| 0 <= j < views.len() && views[j].0 == k;
        assert(rows[j].0 == k);
        assert(i == j) by {
            if i < j {
                assert(rows[i].0 != rows[j].0);
            } else if j < i {
                assert(rows[j].0 != rows[i].0);
            }
        }
        assert(record_rows(rows.update(i, (k, v))) =~= views.update(i, (k, v@)));
    } else {
        assert forall|j: int| 0 <= j < views.len() implies views[j].0 != k by {
            assert(rows[j].0 != k);
        }
        assert(record_rows(rows.push((k, v))) =~= views.push((k, v@)));
    }
}

/// What a line of a log says to the dashboard. A blank line says nothing.
pub open spec fn read_line(line: Seq<char>) -> Option<Seq<(Seq<char>, ValueView)>> {
    if crate::text::space_from(line, 0, false) == line.len() {
        None
    } else {
        crate::json::json_members(line)
    }
}

/// The optional record of a line.
pub open spec fn opt_record(o: Option<TaskRecord>) -> Option<Seq<(Seq<char>, ValueView)>> {
    match o {
        Some(r) => Some(r@),
        None => None,
    }
}

/// Reads a line of a log.
fn read_record(line: &str) -> (r: Option<TaskRecord>)
    ensures
        opt_record(r) == read_line(line@),
{
    let chars = chars_of(line);
    if find_space(&chars, 0, false) == chars.len() {
        return None;
    }
    match parse_members(line) {
        Some(members) => Some(TaskRecord { members }),
        None => None,
    }
}

/// Takes in what was read off one more line.
pub fn note_record(table: &mut StringTable<TaskRecord>, line: Option<TaskRecord>)
    requires
        old(table).well_formed(),
    ensures
        final(table).well_formed(),
        record_rows(final(table).rows()) == with_record(
            record_rows(old(table).rows()),
            opt_record(line),
        ),
{
    match line {
        Some(record) => match text_of(&record, "taskId") {
            Some(id) => {
                proof {
                    table.lemma_rows();
                    lemma_record_rows(table.rows(), id@, record);
                }
                table.insert(id, record);
            },
            None => {},
        },
        None => {},
    }
}

/// The lines of logs, one log after the other.
pub open spec fn lines_in(logs: Seq<Vec<String>>) -> Seq<Option<Seq<(Seq<char>, ValueView)>>>
    decreases logs.len(),
{
    if logs.len() == 0 {
        Seq::empty()
    } else {
        lines_in(logs.drop_last()) + lines_read(logs.last()@)
    }
}

/// What the lines of a log say.
pub open spec fn lines_read(lines: Seq<String>) -> Seq<Option<Seq<(Seq<char>, ValueView)>>> {
    Seq::new(lines.len(), |i: int| read_line(lines[i]@))
}

/// Reads the latest record of each task out of the lines of logs.
pub fn read_deduped_tasks_multiple(logs: &Vec<Vec<String>>) -> (r: StringTable<TaskRecord>)
    ensures
        r.well_formed(),
        record_rows(r.rows()) == latest_records(lines_in(logs@)),
{
    let mut table: StringTable<TaskRecord> = StringTable::new();
    assert(record_rows(table.rows()) =~= latest_records(lines_in(logs@.take(0))));
    let mut i: usize = 0;
    while i < logs.len()
        invariant
            i <= logs@.len(),
            table.well_formed(),
            record_rows(table.rows()) == latest_records(lines_in(logs@.take(i as int))),
        decreases logs@.len() - i,
    {
        let log: &Vec<String> = &logs[i];
        let ghost before = lines_in(logs@.take(i as int));
        let ghost lines = lines_read(log@);
        assert(before + lines.take(0) =~= before);
        let mut k: usize = 0;
        while k < log.len()
            invariant
                k <= log@.len(),
                lines == lines_read(log@),
                table.well_formed(),
                record_rows(table.rows()) == latest_records(before + lines.take(k as int)),
            decreases log@.len() - k,
        {
            let ghost all = before + lines.take(k + 1);
            proof {
                assert(all.drop_last() =~= before + lines.take(k as int));
                assert(all.last() == lines[k as int]);
            }
            let record = read_record(log[k].as_str());
            note_record(&mut table, record);
            k = k + 1;
        }
        proof {
            assert(lines.take(log@.len() as int) =~= lines);
            assert(logs@.take(i + 1).drop_last() =~= logs@.take(i as int));
            assert(logs@.take(i + 1).last() == *log);
        }
        i = i + 1;
    }
    assert(logs@.take(logs@.len() as int) =~= logs@);
    table
}

/// How many tasks of a log there are, and how many of them came through and failed for good.
#[derive(Clone, Copy, Debug, PartialEq, Eq, Structural)]
pub struct Stats {
    pub enqueued: usize,
    pub processed: usize,
    pub failed: usize,
}

/// How many of the tasks are gone, with an error or without.
pub open spec fn gone_count(
    rows: Seq<(Seq<char>, Seq<(Seq<char>, ValueView)>)>,
    with_error: bool,
) -> nat
    decreases rows.len(),
{
    if rows.len() == 0 {
        0
    } else {
        gone_count(rows.drop_last(), with_error) + if records_deletion(rows.last().1)
            && records_error(rows.last().1) == with_error {
            1nat
        } else {
            0nat
        }
    }
}

/// No more tasks are done with, one way or the other, than there are.
pub proof fn law_no_more_done_than_enqueued(
    rows: Seq<(Seq<char>, Seq<(Seq<char>, ValueView)>)>,
)
    ensures
        gone_count(rows, false) + gone_count(rows, true) <= rows.len(),
    decreases rows.len(),
{
    if rows.len() > 0 {
        law_no_more_done_than_enqueued(rows.drop_last());
    }
}

/// Counts the tasks.
pub fn stats_of(table: &StringTable<TaskRecord>) -> (r: Stats)
    requires
        table.well_formed(),
    ensures
        r.enqueued == table.rows().len(),
        r.processed == gone_count(record_rows(table.rows()), false),
        r.failed == gone_count(record_rows(table.rows()), true),
{
    let ghost rows = record_rows(table.rows());
    let n: usize = table.len();
    let mut processed: usize = 0;
    let mut failed: usize = 0;
    assert(rows.take(0) =~= Seq::<(Seq<char>, Seq<(Seq<char>, ValueView)>)>::empty());
    let mut i: usize = 0;
    while i < n
        invariant
            i <= n == rows.len(),
            rows == record_rows(table.rows()),
            processed <= i,
            failed <= i,
            processed == gone_count(rows.take(i as int), false),
            failed == gone_count(rows.take(i as int), true),
        decreases n - i,
    {
        proof {
            assert(rows.take(i + 1).drop_last() =~= rows.take(i as int));
            assert(rows.take(i + 1).last() == rows[i as int]);
        }
        let record: &TaskRecord = table.value_at(i);
        if is_deleted(record) {
            if has_job_error(record) {
                failed = failed + 1;
            } else {
                processed = processed + 1;
            }
        }
        i = i + 1;
    }
    assert(rows.take(n as int) =~= rows);
    Stats { enqueued: n, processed, failed }
}

/// The counts as a JSON object.
pub open spec fn stats_json(enqueued: nat, processed: nat, failed: nat) -> Seq<char> {
    "{\"enqueued\":"@ + crate::text::decimal(enqueued) + ",\"processed\":"@ + crate::text::decimal(
        processed,
    ) + ",\"failed\":"@ + crate::text::decimal(failed) + "}"@
}

/// Writes the counts as a JSON object.
pub fn stats_text(s: &Stats) -> (r: String)
    ensures
        r@ == stats_json(s.enqueued as nat, s.processed as nat, s.failed as nat),
{
    let mut out: String = "{\"enqueued\":".to_string();
    out.append(decimal_text(s.enqueued as u64).as_str());
    out.append(",\"processed\":");
    out.append(decimal_text(s.processed as u64).as_str());
    out.append(",\"failed\":");
    out.append(decimal_text(s.failed as u64).as_str());
    out.append("}");
    out
}

/// The counts over the lines of logs.
pub open spec fn stats_shown(lines: Seq<Option<Seq<(Seq<char>, ValueView)>>>) -> Seq<char> {
    let rows = latest_records(lines);
    stats_json(rows.len(), gone_count(rows, false), gone_count(rows, true))
}

/// The body of an answer with the counts over logs.
pub fn stats_body_multiple(logs: &Vec<Vec<String>>) -> (r: String)
    ensures
        r@ == stats_shown(lines_in(logs@)),
{
    let table = read_deduped_tasks_multiple(logs);
    assert(record_rows(table.rows()).len() == table.rows().len());
    stats_text(&stats_of(&table))
}

/// The members of the JSON object that shows a task with this status.
pub open spec fn shown_members(m: Seq<(Seq<char>, ValueView)>, status: Seq<char>) -> Seq<
    (Seq<char>, Seq<char>),
> {
    seq![
        ("cronExpression"@, raw_member(m, "cronExpression"@)),
        ("id"@, raw_member(m, "taskId"@)),
        ("maxExecutionSeconds"@, raw_member(m, "maxExecutionSeconds"@)),
        ("maxRetries"@, crate::text::signed_decimal(int_member(m, "maxRetries"@) as int)),
        ("progress"@, "0"@),
        (
            "retryAfterTime"@,
            crate::json::json_quoted(
                match text_member(m, "retryAfterTime"@) {
                    Some(s) => s,
                    None => ""@,
                },
            ),
        ),
        ("retryCount"@, crate::text::signed_decimal(int_member(m, "retryCount"@) as int)),
        ("status"@, crate::json::json_quoted(status)),
        ("type"@, raw_member(m, "taskType"@)),
        ("webhookUrl"@, raw_member(m, "webhookUrl"@)),
    ]
}

/// The JSON object that shows a task.
pub open spec fn task_shown(m: Seq<(Seq<char>, ValueView)>, status: Seq<char>) -> Seq<char> {
    crate::json::object_text(shown_members(m, status))
}

/// Writes the JSON object that shows a task.
pub fn task_text(record: &TaskRecord, status: &str) -> (r: String)
    ensures
        r@ == task_shown(record@, status@),
{
    let after: String = match text_of(record, "retryAfterTime") {
        Some(s) => s,
        None => "".to_string(),
    };
    let mut members: Vec<(&str, String)> = Vec::new();
    members.push(("cronExpression", raw_of(record, "cronExpression")));
    members.push(("id", raw_of(record, "taskId")));
    members.push(("maxExecutionSeconds", raw_of(record, "maxExecutionSeconds")));
    members.push(("maxRetries", signed_decimal_text(int_of(record, "maxRetries"))));
    members.push(("progress", "0".to_string()));
    members.push(("retryAfterTime", quote(after.as_str())));
    members.push(("retryCount", signed_decimal_text(int_of(record, "retryCount"))));
    members.push(("status", quote(status)));
    members.push(("type", raw_of(record, "taskType")));
    members.push(("webhookUrl", raw_of(record, "webhookUrl")));
    assert(crate::json::parts_of(members@) =~= shown_members(record@, status@));
    write_object(&members)
}

/// The tasks as a JSON array, each as it stands at `now`.
pub open spec fn tasks_json(
    rows: Seq<(Seq<char>, Seq<(Seq<char>, ValueView)>)>,
    now: Timestamp,
) -> Seq<char> {
    crate::json::array_text(
        Seq::new(
            rows.len(),
            |i: int| task_shown(rows[i].1, status_of(rows[i].1, start_of(rows[i].1), now)),
        ),
    )
}

/// Writes the tasks as a JSON array, each as it stands at `now`.
pub fn tasks_text(table: &StringTable<TaskRecord>, now: Timestamp) -> (r: String)
    requires
        table.well_formed(),
    ensures
        r@ == tasks_json(record_rows(table.rows()), now),
{
    let ghost rows = record_rows(table.rows());
    let n: usize = table.len();
    let mut items: Vec<String> = Vec::new();
    let mut i: usize = 0;
    while i < n
        invariant
            i <= n == rows.len(),
            rows == record_rows(table.rows()),
            items@.len() == i,
            forall|j: int|
                0 <= j < i ==> (#[trigger] items@[j])@ == task_shown(
                    rows[j].1,
                    status_of(rows[j].1, start_of(rows[j].1), now),
                ),
        decreases n - i,
    {
        let record: &TaskRecord = table.value_at(i);
        assert(rows[i as int].1 == record@);
        items.push(task_text(record, dashboard_status_at(record, now)));
        i = i + 1;
    }
    assert(crate::task::texts(items@) =~= Seq::new(
        rows.len(),
        |i: int| task_shown(rows[i].1, status_of(rows[i].1, start_of(rows[i].1), now)),
    ));
    write_array(&items)
}

/// The body of an answer with the tasks in logs, each as it stands at `now`.
pub fn tasks_body_multiple_at(logs: &Vec<Vec<String>>, now: Timestamp) -> (r: String)
    ensures
        r@ == tasks_json(latest_records(lines_in(logs@)), now),
{
    let table = read_deduped_tasks_multiple(logs);
    tasks_text(&table, now)
}

/// The body of an answer with the tasks in logs, by the system clock.
pub fn tasks_body_multiple(logs: &Vec<Vec<String>>) -> (r: String)
    ensures
        exists|now: Timestamp|
            now.was_read() && now.clock_reading() && r@ == #[trigger] tasks_json(
                latest_records(lines_in(logs@)),
                now,
            ),
{
    let now = Timestamp::read_clock();
    tasks_body_multiple_at(logs, now)
}

/// One log is a list of logs with nothing else in it.
proof fn lemma_one_log(log: Vec<String>)
    ensures
        lines_in(seq![log]) == lines_read(log@),
{
    reveal_with_fuel(lines_in, 2);
    assert(seq![log].drop_last() =~= Seq::<Vec<String>>::empty());
    assert(lines_in(seq![log]) =~= lines_read(log@));
}

/// Reads the latest record of each task out of the lines of a log.
pub fn read_deduped_tasks(log: Vec<String>) -> (r: StringTable<TaskRecord>)
    ensures
        r.well_formed(),
        record_rows(r.rows()) == latest_records(lines_read(log@)),
{
    let mut logs: Vec<Vec<String>> = Vec::new();
    logs.push(log);
    proof {
        lemma_one_log(log);
        assert(logs@ =~= seq![log]);
    }
    read_deduped_tasks_multiple(&logs)
}

/// The body of an answer with the counts over a log.
pub fn stats_body(log: Vec<String>) -> (r: String)
    ensures
        r@ == stats_shown(lines_read(log@)),
{
    let mut logs: Vec<Vec<String>> = Vec::new();
    logs.push(log);
    proof {
        lemma_one_log(log);
        assert(logs@ =~= seq![log]);
    }
    stats_body_multiple(&logs)
}

/// The body of an answer with the tasks in a log, by the system clock.
pub fn tasks_body(log: Vec<String>) -> (r: String)
    ensures
        exists|now: Timestamp|
            now.was_read() && now.clock_reading() && r@ == #[trigger] tasks_json(
                latest_records(lines_read(log@)),
                now,
            ),
{
    let mut logs: Vec<Vec<String>> = Vec::new();
    logs.push(log);
    proof {
        lemma_one_log(log);
        assert(logs@ =~= seq![log]);
    }
    tasks_body_multiple(&logs)
}

/// The status of a task agrees with the counts: one that counts as processed is shown as
/// completed and no other is, one that counts as failed is shown as failed or as a dead
/// letter, and a task that is still to run is shown as one of the others or as failed.
pub proof fn law_status_agrees_with_counts(
    m: Seq<(Seq<char>, ValueView)>,
    starts: Option<Timestamp>,
    now: Timestamp,
)
    ensures
        status_of(m, starts, now) == "completed"@ <==> records_deletion(m) && !records_error(m),
        status_of(m, starts, now) == "dead_letter"@ ==> records_deletion(m) && records_error(m),
        records_deletion(m) && records_error(m) ==> status_of(m, starts, now) == "dead_letter"@
            || status_of(m, starts, now) == "failed"@,
        status_of(m, starts, now) == "active"@ || status_of(m, starts, now) == "queued"@
            ==> !records_deletion(m) && !records_error(m),
        status_of(m, starts, now) == "active"@ ==> (starts matches Some(t) && t.at_or_before(now)),
{
    reveal_strlit("completed");
    reveal_strlit("dead_letter");
    reveal_strlit("failed");
    reveal_strlit("active");
    reveal_strlit("queued");
    assert("completed"@.len() == 9 && "dead_letter"@.len() == 11);
    assert("failed"@.len() == 6 && "active"@.len() == 6 && "queued"@.len() == 6);
    assert("failed"@[0] == 'f' && "active"@[0] == 'a' && "queued"@[0] == 'q');
}

/// The status of a task says where it stands: a tombstone without an error is completed; one with
/// an error is a dead letter where its attempts are used up and failed where they are not; a live
/// task with an error has failed; one without is active from its start on and queued before it,
/// and queued where its record has no start.
pub proof fn law_status_says_where_a_task_stands(
    m: Seq<(Seq<char>, ValueView)>,
    starts: Option<Timestamp>,
    now: Timestamp,
)
    requires
        now.nanos < 1_000_000_000,
        starts matches Some(t) ==> t.nanos < 1_000_000_000,
    ensures
        ({
            let gone = crate::json::member(m, "deletedAt"@) is Some && crate::json::member(
                m,
                "deletedAt"@,
            )->0.kind !is Null;
            let error = crate::json::member(m, "LastJobError"@) is Some || crate::json::member(
                m,
                "lastJobError"@,
            ) is Some;
            let tried = match crate::json::member(m, "retryCount"@) {
                Some(v) => if v.kind is Int {
                    v.kind->Int_0
                } else {
                    0
                },
                None => 0,
            };
            let most = match crate::json::member(m, "maxRetries"@) {
                Some(v) => if v.kind is Int {
                    v.kind->Int_0
                } else {
                    0
                },
                None => 0,
            };
            let begun = starts is Some && starts->0.secs * 1_000_000_000 + starts->0.nanos
                <= now.secs * 1_000_000_000 + now.nanos;
            &&& gone && !error ==> status_of(m, starts, now) == "completed"@
            &&& gone && error && tried >= most ==> status_of(m, starts, now) == "dead_letter"@
            &&& gone && error && tried < most ==> status_of(m, starts, now) == "failed"@
            &&& !gone && error ==> status_of(m, starts, now) == "failed"@
            &&& !gone && !error && begun ==> status_of(m, starts, now) == "active"@
            &&& !gone && !error && !begun ==> status_of(m, starts, now) == "queued"@
        }),
{
    if starts is Some {
        crate::time::law_times_are_ordered_as_numbers(starts->0, now);
    }
}

/// A member is read as what it is: its text where it is a string, its number where it is an
/// integer, and its JSON text as it stands, with `null` where there is none.
pub proof fn law_members_are_read_as_what_they_are(
    m: Seq<(Seq<char>, ValueView)>,
    key: Seq<char>,
)
    ensures
        crate::json::member(m, key) is None ==> text_member(m, key) is None && int_member(m, key)
            == 0 && raw_member(m, key) == "null"@,
        crate::json::member(m, key) matches Some(v) ==> {
            &&& raw_member(m, key) == v.raw
            &&& v.kind matches KindView::Text(s) ==> text_member(m, key) == Some(s)
            &&& v.kind !is Text ==> text_member(m, key) is None
            &&& v.kind matches KindView::Int(n) ==> int_member(m, key) == n
            &&& v.kind !is Int ==> int_member(m, key) == 0
        },
        start_of(m) == (match text_member(m, "executeAt"@) {
            Some(s) => crate::time::rfc3339_time(s),
            None => None,
        }),
{
}

/// The tasks that are gone are counted one by one: each tombstone counts once, as processed where
/// it has no error and as failed where it has one.
pub proof fn law_tombstones_are_counted(
    rows: Seq<(Seq<char>, Seq<(Seq<char>, ValueView)>)>,
    with_error: bool,
)
    ensures
        gone_count(rows, with_error) == rows.filter(
            |r: (Seq<char>, Seq<(Seq<char>, ValueView)>)|
                {
                    &&& crate::json::member(r.1, "deletedAt"@) is Some
                    &&& crate::json::member(r.1, "deletedAt"@)->0.kind !is Null
                    &&& with_error == (crate::json::member(r.1, "LastJobError"@) is Some
                        || crate::json::member(r.1, "lastJobError"@) is Some)
                },
        ).len(),
    decreases rows.len(),
{
    reveal(Seq::filter);
    if rows.len() > 0 {
        law_tombstones_are_counted(rows.drop_last(), with_error);
    }
}

/// The counts are shown over the latest records: how many tasks there are, how many came through
/// and how many failed for good.
pub proof fn law_counts_are_shown(lines: Seq<Option<Seq<(Seq<char>, ValueView)>>>)
    ensures
        stats_shown(lines) == "{\"enqueued\":"@ + crate::text::decimal(
            latest_records(lines).len(),
        ) + ",\"processed\":"@ + crate::text::decimal(gone_count(latest_records(lines), false))
            + ",\"failed\":"@ + crate::text::decimal(gone_count(latest_records(lines), true))
            + "}"@,
{
}

/// A task is shown with what its record says of it and with its status.
pub proof fn law_task_is_shown_with_its_status(
    m: Seq<(Seq<char>, ValueView)>,
    status: Seq<char>,
)
    ensures
        shown_members(m, status).len() == 10,
        shown_members(m, status)[0] == ("cronExpression"@, raw_member(m, "cronExpression"@)),
        shown_members(m, status)[1] == ("id"@, raw_member(m, "taskId"@)),
        shown_members(m, status)[2] == (
            "maxExecutionSeconds"@,
            raw_member(m, "maxExecutionSeconds"@),
        ),
        shown_members(m, status)[3] == (
            "maxRetries"@,
            crate::text::signed_decimal(int_member(m, "maxRetries"@) as int),
        ),
        shown_members(m, status)[4] == ("progress"@, "0"@),
        shown_members(m, status)[5].0 == "retryAfterTime"@,
        text_member(m, "retryAfterTime"@) is None ==> shown_members(m, status)[5].1
            == crate::json::json_quoted(""@),
        text_member(m, "retryAfterTime"@) matches Some(s) ==> shown_members(m, status)[5].1
            == crate::json::json_quoted(s),
        shown_members(m, status)[6] == (
            "retryCount"@,
            crate::text::signed_decimal(int_member(m, "retryCount"@) as int),
        ),
        shown_members(m, status)[7] == ("status"@, crate::json::json_quoted(status)),
        shown_members(m, status)[8] == ("type"@, raw_member(m, "taskType"@)),
        shown_members(m, status)[9] == ("webhookUrl"@, raw_member(m, "webhookUrl"@)),
        task_shown(m, status) == crate::json::object_text(shown_members(m, status)),
{
}

/// All tasks are shown, each once and with its own status, in the order of the records.
pub proof fn law_every_task_is_shown(
    rows: Seq<(Seq<char>, Seq<(Seq<char>, ValueView)>)>,
    now: Timestamp,
)
    ensures
        exists|items: Seq<Seq<char>>|
            {
                &&& items.len() == rows.len()
                &&& tasks_json(rows, now) == seq!['['] + #[trigger] crate::json::comma_list(items)
                    + seq![']']
                &&& forall|i: int|
                    0 <= i < rows.len() ==> #[trigger] items[i] == crate::json::object_text(
                        shown_members(
                            rows[i].1,
                            status_of(rows[i].1, start_of(rows[i].1), now),
                        ),
                    )
            },
{
    let items = Seq::new(
        rows.len(),
        |i: int| task_shown(rows[i].1, status_of(rows[i].1, start_of(rows[i].1), now)),
    );
    assert(tasks_json(rows, now) == seq!['['] + crate::json::comma_list(items) + seq![']']);
}

/// A line is taken in under the id that it names: in place of the line before it for the same
/// task, or after all others where the task is new. A line that names none changes nothing.
pub proof fn law_records_keep_their_order(
    rows: Seq<(Seq<char>, Seq<(Seq<char>, ValueView)>)>,
    line: Option<Seq<(Seq<char>, ValueView)>>,
    i: int,
)
    requires
        crate::table::keys_distinct(rows),
    ensures
        line is None ==> with_record(rows, line) == rows,
        line matches Some(m) ==> text_member(m, "taskId"@) is None ==> with_record(rows, line)
            == rows,
        line matches Some(m) ==> (text_member(m, "taskId"@) matches Some(id) ==> {
            &&& (forall|j: int| 0 <= j < rows.len() ==> (#[trigger] rows[j]).0 != id)
                ==> with_record(rows, line) == rows.push((id, m))
            &&& 0 <= i < rows.len() && rows[i].0 == id ==> with_record(rows, line)
                == rows.update(i, (id, m))
        }),
{
    if line is Some && text_member(line->0, "taskId"@) is Some {
        let id = text_member(line->0, "taskId"@)->0;
        if 0 <= i < rows.len() && rows[i].0 == id {
            let k = choose|k: int| 0 <= k < rows.len() && rows[k].0 == id;
            assert(rows[k].0 == id);
            if k < i {
                assert(rows[k].0 != rows[i].0);
            } else if i < k {
                assert(rows[i].0 != rows[k].0);
            }
        }
    }
}

/// The records of lines are those of the lines before with the last line taken in, and the lines
/// of logs are those of one log after the other, each as it reads; a blank line says nothing.
pub proof fn law_lines_are_taken_in_one_after_the_other(
    lines: Seq<Option<Seq<(Seq<char>, ValueView)>>>,
    line: Option<Seq<(Seq<char>, ValueView)>>,
    logs: Seq<Vec<String>>,
    log: Vec<String>,
    i: int,
    k: int,
)
    requires
        0 <= i < log@.len(),
    ensures
        latest_records(Seq::empty()).len() == 0,
        latest_records(lines.push(line)) == with_record(latest_records(lines), line),
        lines_in(logs.push(log)) == lines_in(logs) + lines_read(log@),
        lines_read(log@).len() == log@.len(),
        0 <= k < log@[i]@.len() && !crate::text::is_space(log@[i]@[k]) ==> lines_read(log@)[i]
            == crate::json::json_members(log@[i]@),
        (forall|j: int|
            0 <= j < log@[i]@.len() ==> crate::text::is_space(#[trigger] log@[i]@[j]))
            ==> lines_read(log@)[i] is None,
{
    assert(lines.push(line).drop_last() =~= lines);
    assert(logs.push(log).drop_last() =~= logs);
    crate::text::law_first_place_is_the_first(log@[i]@, 0, false, k);
}

/// What records are said to hold is what their members hold, row by row, and the counts are shown
/// as they are.
pub proof fn law_records_are_what_they_hold(
    rows: Seq<(Seq<char>, TaskRecord)>,
    i: int,
    r: TaskRecord,
    enqueued: nat,
    processed: nat,
    failed: nat,
)
    ensures
        record_rows(rows).len() == rows.len(),
        0 <= i < rows.len() ==> record_rows(rows)[i] == (rows[i].0, rows[i].1@),
        r@ == crate::json::members_of(r.members@),
        opt_record(None) is None,
        opt_record(Some(r)) == Some(r@),
        stats_json(enqueued, processed, failed) == "{\"enqueued\":"@ + crate::text::decimal(
            enqueued,
        ) + ",\"processed\":"@ + crate::text::decimal(processed) + ",\"failed\":"@
            + crate::text::decimal(failed) + "}"@,
{
}

} // verus!
