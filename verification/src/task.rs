//! Tasks.

use vstd::prelude::*;
use vstd::string::StringExecFns;

use crate::schedule::next_run;
use crate::time::{parse_rfc3339, Timestamp};

verus! {

/// A job with its payload, its schedule and its history.
#[derive(Debug)]
pub struct RetryableTask {
    pub task_id: String,
    pub task_type: String,
    pub task_data: String,
    pub retry_count: i32,
    /// How many times the task is attempted in all before it is buried.
    pub max_retries: i32,
    /// How long a failed task waits before its next attempt.
    pub retry_after_ms: u64,
    pub retry_after_time: Timestamp,
    pub execute_at: Timestamp,
    pub created_at: Timestamp,
    pub updated_at: Timestamp,
    /// When the task was deleted. A line of the log with this set is a tombstone.
    pub deleted_at: Option<Timestamp>,
    pub last_error_obj: Option<String>,
    pub last_job_error: Option<String>,
    pub rate_limit_group: Option<String>,
    pub max_per_minute: Option<i32>,
    /// The digest by which a pending task with the same payload is recognised.
    pub payload_hash: Option<String>,
    /// A number that orders tasks by urgency; ordinary tasks have zero.
    pub urgency: i64,
    pub cron_expression: Option<String>,
    pub webhook_url: Option<String>,
    pub max_execution_seconds: Option<u64>,
    pub pool: Option<String>,
    pub trigger_after_ids: Option<Vec<String>>,
}

/// What a task holds.
#[verifier::ext_equal]
pub struct TaskView {
    pub task_id: Seq<char>,
    pub task_type: Seq<char>,
    pub task_data: Seq<char>,
    pub retry_count: int,
    pub max_retries: int,
    pub retry_after_ms: nat,
    pub retry_after_time: Timestamp,
    pub execute_at: Timestamp,
    pub created_at: Timestamp,
    pub updated_at: Timestamp,
    pub deleted_at: Option<Timestamp>,
    pub last_error_obj: Option<Seq<char>>,
    pub last_job_error: Option<Seq<char>>,
    pub rate_limit_group: Option<Seq<char>>,
    pub max_per_minute: Option<i32>,
    pub payload_hash: Option<Seq<char>>,
    pub urgency: int,
    pub cron_expression: Option<Seq<char>>,
    pub webhook_url: Option<Seq<char>>,
    pub max_execution_seconds: Option<u64>,
    pub pool: Option<Seq<char>>,
    pub trigger_after_ids: Option<Seq<Seq<char>>>,
}

/// The text of an optional string.
pub open spec fn opt_text(o: Option<String>) -> Option<Seq<char>> {
    match o {
        Some(s) => Some(s@),
        None => None,
    }
}

/// The texts of strings.
pub open spec fn texts(v: Seq<String>) -> Seq<Seq<char>> {
    Seq::new(v.len(), |i: int| v[i]@)
}

/// The texts of an optional list of strings.
pub open spec fn opt_texts(o: Option<Vec<String>>) -> Option<Seq<Seq<char>>> {
    match o {
        Some(v) => Some(texts(v@)),
        None => None,
    }
}

/// Copies an optional string.
pub fn copy_text(o: &Option<String>) -> (r: Option<String>)
    ensures
        opt_text(r) == opt_text(*o),
{
    match o {
        Some(s) => Some(s.clone()),
        None => None,
    }
}

/// Copies a list of strings.
pub fn copy_texts(v: &Vec<String>) -> (r: Vec<String>)
    ensures
        texts(r@) == texts(v@),
{
    let mut out: Vec<String> = Vec::new();
    let mut i: usize = 0;
    while i < v.len()
        invariant
            i <= v@.len(),
            out@.len() == i,
            forall|j: int| 0 <= j < i ==> (#[trigger] out@[j])@ == v@[j]@,
        decreases v@.len() - i,
    {
        out.push(v[i].clone());
        i = i + 1;
    }
    assert(texts(out@) =~= texts(v@));
    out
}

impl View for RetryableTask {
    type V = TaskView;

    open spec fn view(&self) -> TaskView {
        TaskView {
            task_id: self.task_id@,
            task_type: self.task_type@,
            task_data: self.task_data@,
            retry_count: self.retry_count as int,
            max_retries: self.max_retries as int,
            retry_after_ms: self.retry_after_ms as nat,
            retry_after_time: self.retry_after_time,
            execute_at: self.execute_at,
            created_at: self.created_at,
            updated_at: self.updated_at,
            deleted_at: self.deleted_at,
            last_error_obj: opt_text(self.last_error_obj),
            last_job_error: opt_text(self.last_job_error),
            rate_limit_group: opt_text(self.rate_limit_group),
            max_per_minute: self.max_per_minute,
            payload_hash: opt_text(self.payload_hash),
            urgency: self.urgency as int,
            cron_expression: opt_text(self.cron_expression),
            webhook_url: opt_text(self.webhook_url),
            max_execution_seconds: self.max_execution_seconds,
            pool: opt_text(self.pool),
            trigger_after_ids: opt_texts(self.trigger_after_ids),
        }
    }
}

impl Clone for RetryableTask {
    fn clone(&self) -> (r: Self)
        ensures
            r@ == self@,
    {
        RetryableTask {
            task_id: self.task_id.clone(),
            task_type: self.task_type.clone(),
            task_data: self.task_data.clone(),
            retry_count: self.retry_count,
            max_retries: self.max_retries,
            retry_after_ms: self.retry_after_ms,
            retry_after_time: self.retry_after_time,
            execute_at: self.execute_at,
            created_at: self.created_at,
            updated_at: self.updated_at,
            deleted_at: self.deleted_at,
            last_error_obj: copy_text(&self.last_error_obj),
            last_job_error: copy_text(&self.last_job_error),
            rate_limit_group: copy_text(&self.rate_limit_group),
            max_per_minute: self.max_per_minute,
            payload_hash: copy_text(&self.payload_hash),
            urgency: self.urgency,
            cron_expression: copy_text(&self.cron_expression),
            webhook_url: copy_text(&self.webhook_url),
            max_execution_seconds: self.max_execution_seconds,
            pool: copy_text(&self.pool),
            trigger_after_ids: match &self.trigger_after_ids {
                Some(v) => Some(copy_texts(v)),
                None => None,
            },
        }
    }
}

/// The text of the name-based UUID (version 5) of a text.
pub uninterp spec fn sha1_uuid(s: Seq<char>) -> Seq<char>;

/// Calls `uuid::Uuid::new_v5` on the UTF-8 bytes of the text, in the namespace of object
/// identifiers, and writes the UUID out. Claimed: the result depends on the text alone.
#[verifier::external_body]
fn digest_text(s: &str) -> (r: String)
    ensures
        r@ == sha1_uuid(s@),
{
    uuid::Uuid::new_v5(&uuid::Uuid::NAMESPACE_OID, s.as_bytes()).to_string()
}

/// The digest of a payload.
pub open spec fn payload_digest(task_type: Seq<char>, task_data: Seq<char>) -> Seq<char> {
    sha1_uuid(task_type + task_data)
}

/// When a new task runs first: at the time asked for, where that is a time; else at the
/// first tick of its schedule, where it has one; else at once.
pub open spec fn first_run(
    execute_at: Option<Seq<char>>,
    cron_expression: Option<Seq<char>>,
    now: Timestamp,
) -> Timestamp {
    let asked = match execute_at {
        Some(s) => crate::time::rfc3339_time(s),
        None => None,
    };
    let tick = match cron_expression {
        Some(e) => crate::schedule::next_run_at(e, now),
        None => None,
    };
    match (asked, tick) {
        (Some(t), _) => t,
        (None, Some(t)) => t,
        (None, None) => now,
    }
}

impl TaskView {
    /// A live task that is ready to run at `now`, as far as its own times say.
    pub open spec fn due(self, now: Timestamp) -> bool {
        &&& self.execute_at.at_or_before(now)
        &&& self.retry_after_time.at_or_before(now)
        &&& self.deleted_at is None
    }

    /// The tombstone of the task.
    pub open spec fn deleted(self, now: Timestamp) -> TaskView {
        TaskView { deleted_at: Some(now), ..self }
    }

    /// The task after a failed attempt that is to be followed by another.
    pub open spec fn failed(self, error: Option<Seq<char>>, now: Timestamp) -> TaskView {
        TaskView {
            retry_count: self.retry_count + 1,
            retry_after_time: now.plus_millis(self.retry_after_ms),
            last_error_obj: error,
            last_job_error: error,
            updated_at: now,
            ..self
        }
    }

    /// The tombstone of the task where it is given up after this error: the last failure is
    /// counted and its error is on record.
    pub open spec fn given_up(self, error: Seq<char>, now: Timestamp) -> TaskView {
        TaskView {
            retry_count: if self.retry_count < i32::MAX {
                self.retry_count + 1
            } else {
                self.retry_count
            },
            last_error_obj: Some(error),
            last_job_error: Some(error),
            updated_at: now,
            deleted_at: Some(now),
            ..self
        }
    }

    /// The task set for its next tick after a success.
    pub open spec fn rescheduled(self, next: Timestamp) -> TaskView {
        TaskView {
            execute_at: next,
            retry_count: 0,
            last_error_obj: None,
            last_job_error: None,
            ..self
        }
    }

    /// The task put off for a minute.
    pub open spec fn throttled(self, now: Timestamp) -> TaskView {
        TaskView { retry_after_time: now.plus_secs(60), ..self }
    }

    /// The tasks that have to be gone before this one runs.
    pub open spec fn dependencies(self) -> Seq<Seq<char>> {
        match self.trigger_after_ids {
            Some(ids) => ids,
            None => Seq::empty(),
        }
    }

    /// A failed attempt is followed by another: the attempts, the first one counted, are not
    /// yet as many as they are to be.
    pub open spec fn attempts_left(self) -> bool {
        self.retry_count < self.max_retries - 1
    }
}

impl RetryableTask {
    /// A new task. With `auto_dedupe` it carries a digest of its type and its data.
    pub fn new(
        task_id: String,
        task_type: String,
        task_data: String,
        max_retries: i32,
        retry_after_ms: u64,
        rate_limit_group: Option<String>,
        max_per_minute: Option<i32>,
        auto_dedupe: Option<bool>,
        urgency: i64,
        execute_at: Option<String>,
        cron_expression: Option<String>,
        webhook_url: Option<String>,
        max_execution_seconds: Option<u64>,
        pool: Option<String>,
        trigger_after_ids: Option<Vec<String>>,
        now: Timestamp,
    ) -> (r: RetryableTask)
        requires
            now.on_calendar(),
        ensures
            r@ == (TaskView {
                task_id: task_id@,
                task_type: task_type@,
                task_data: task_data@,
                retry_count: 0,
                max_retries: max_retries as int,
                retry_after_ms: retry_after_ms as nat,
                retry_after_time: now,
                execute_at: first_run(opt_text(execute_at), opt_text(cron_expression), now),
                created_at: now,
                updated_at: now,
                deleted_at: None,
                last_error_obj: None,
                last_job_error: None,
                rate_limit_group: opt_text(rate_limit_group),
                max_per_minute: max_per_minute,
                payload_hash: if auto_dedupe == Some(true) {
                    Some(payload_digest(task_type@, task_data@))
                } else {
                    None
                },
                urgency: urgency as int,
                cron_expression: opt_text(cron_expression),
                webhook_url: opt_text(webhook_url),
                max_execution_seconds: max_execution_seconds,
                pool: opt_text(pool),
                trigger_after_ids: opt_texts(trigger_after_ids),
            }),
    {
        let asked: Option<Timestamp> = match &execute_at {
            Some(s) => parse_rfc3339(s.as_str()),
            None => None,
        };
        let first: Timestamp = match asked {
            Some(t) => t,
            None => {
                let tick: Option<Timestamp> = match &cron_expression {
                    Some(e) => next_run(e.as_str(), now),
                    None => None,
                };
                match tick {
                    Some(t) => t,
                    None => now,
                }
            },
        };
        let payload_hash: Option<String> = match auto_dedupe {
            Some(true) => {
                let mut payload: String = task_type.clone();
                payload.append(task_data.as_str());
                Some(digest_text(payload.as_str()))
            },
            _ => None,
        };
        RetryableTask {
            task_id,
            task_type,
            task_data,
            retry_count: 0,
            max_retries,
            retry_after_ms,
            retry_after_time: now,
            execute_at: first,
            created_at: now,
            updated_at: now,
            deleted_at: None,
            last_error_obj: None,
            last_job_error: None,
            rate_limit_group,
            max_per_minute,
            payload_hash,
            urgency,
            cron_expression,
            webhook_url,
            max_execution_seconds,
            pool,
            trigger_after_ids,
        }
    }

    /// Whether the task is live and its times have come.
    pub fn is_due(&self, now: Timestamp) -> (r: bool)
        ensures
            r == self@.due(now),
    {
        self.execute_at.le(&now) && self.retry_after_time.le(&now) && self.deleted_at.is_none()
    }

    /// Whether a failed attempt is followed by another.
    pub fn has_attempts_left(&self) -> (r: bool)
        requires
            self.max_retries > i32::MIN,
        ensures
            r == self@.attempts_left(),
    {
        self.retry_count < self.max_retries - 1
    }

    /// Turns the task into its tombstone.
    pub fn mark_deleted(&mut self, now: Timestamp)
        ensures
            final(self)@ == old(self)@.deleted(now),
    {
        self.deleted_at = Some(now);
    }

    /// Counts the last failed attempt and turns the task into its tombstone.
    pub fn mark_given_up(&mut self, error: String, now: Timestamp)
        ensures
            final(self)@ == old(self)@.given_up(error@, now),
    {
        if self.retry_count < i32::MAX {
            self.retry_count = self.retry_count + 1;
        }
        self.last_error_obj = Some(error.clone());
        self.last_job_error = Some(error);
        self.updated_at = now;
        self.deleted_at = Some(now);
    }

    /// Counts a failed attempt and sets the time of the next one.
    pub fn update_retry_config(&mut self, error: Option<String>, now: Timestamp)
        requires
            old(self).retry_count < i32::MAX,
            now.room_for_millis(old(self).retry_after_ms as nat),
        ensures
            final(self)@ == old(self)@.failed(opt_text(error), now),
    {
        self.retry_count = self.retry_count + 1;
        self.retry_after_time = now.add_millis(self.retry_after_ms);
        self.last_error_obj = copy_text(&error);
        self.last_job_error = error;
        self.updated_at = now;
    }
}

/// A task that failed is not due before its delay has passed.
pub proof fn law_failed_task_waits_for_its_delay(
    t: TaskView,
    error: Option<Seq<char>>,
    now: Timestamp,
    later: Timestamp,
)
    requires
        now.room_for_millis(t.retry_after_ms),
        t.failed(error, now).due(later),
    ensures
        crate::time::nanos_of(now) + t.retry_after_ms * 1_000_000 <= crate::time::nanos_of(later),
{
}

/// A failure leaves the schedule of a recurring task as it is, and a success after any number
/// of failures puts it back to its schedule with all its attempts before it.
pub proof fn law_recurring_task_recovers(
    t: TaskView,
    error: Option<Seq<char>>,
    now: Timestamp,
    tick: Timestamp,
)
    ensures
        t.failed(error, now).cron_expression == t.cron_expression,
        t.failed(error, now).execute_at == t.execute_at,
        t.failed(error, now).rescheduled(tick).cron_expression == t.cron_expression,
        t.failed(error, now).rescheduled(tick).retry_count == 0,
        t.failed(error, now).rescheduled(tick).last_job_error is None,
        t.failed(error, now).rescheduled(tick).execute_at == tick,
{
}

/// A task that was put off is not due before a minute has passed.
pub proof fn law_throttled_task_waits_a_minute(t: TaskView, now: Timestamp, later: Timestamp)
    requires
        now.on_calendar(),
        t.throttled(now).due(later),
    ensures
        crate::time::nanos_of(now) + 60_000_000_000 <= crate::time::nanos_of(later),
{
}

/// Tasks of the same type with the same data have the same digest. So have tasks whose type
/// and data come to the same text when written one after the other.
pub proof fn law_same_payload_same_digest(
    task_type: Seq<char>,
    task_data: Seq<char>,
    other_type: Seq<char>,
    other_data: Seq<char>,
)
    requires
        task_type + task_data == other_type + other_data,
    ensures
        payload_digest(task_type, task_data) == payload_digest(other_type, other_data),
{
}

/// What a task is said to hold is what its fields hold.
pub proof fn law_view_is_what_the_fields_hold(t: RetryableTask)
    ensures
        t@.task_id == t.task_id@,
        t@.task_type == t.task_type@,
        t@.task_data == t.task_data@,
        t@.retry_count == t.retry_count,
        t@.max_retries == t.max_retries,
        t@.retry_after_ms == t.retry_after_ms,
        t@.retry_after_time == t.retry_after_time,
        t@.execute_at == t.execute_at,
        t@.created_at == t.created_at,
        t@.updated_at == t.updated_at,
        t@.deleted_at == t.deleted_at,
        t@.last_error_obj is Some == t.last_error_obj is Some,
        t.last_error_obj matches Some(s) ==> t@.last_error_obj == Some(s@),
        t@.last_job_error is Some == t.last_job_error is Some,
        t.last_job_error matches Some(s) ==> t@.last_job_error == Some(s@),
        t@.rate_limit_group is Some == t.rate_limit_group is Some,
        t.rate_limit_group matches Some(s) ==> t@.rate_limit_group == Some(s@),
        t@.max_per_minute == t.max_per_minute,
        t@.payload_hash is Some == t.payload_hash is Some,
        t.payload_hash matches Some(s) ==> t@.payload_hash == Some(s@),
        t@.urgency == t.urgency,
        t@.cron_expression is Some == t.cron_expression is Some,
        t.cron_expression matches Some(s) ==> t@.cron_expression == Some(s@),
        t@.webhook_url is Some == t.webhook_url is Some,
        t.webhook_url matches Some(s) ==> t@.webhook_url == Some(s@),
        t@.max_execution_seconds == t.max_execution_seconds,
        t@.pool is Some == t.pool is Some,
        t.pool matches Some(s) ==> t@.pool == Some(s@),
        t@.trigger_after_ids is Some == t.trigger_after_ids is Some,
        t.trigger_after_ids matches Some(v) ==> {
            &&& t@.trigger_after_ids->0.len() == v@.len()
            &&& forall|i: int|
                0 <= i < v@.len() ==> #[trigger] t@.trigger_after_ids->0[i] == v@[i]@
        },
        t@.dependencies() == (match t.trigger_after_ids {
            Some(v) => t@.trigger_after_ids->0,
            None => Seq::<Seq<char>>::empty(),
        }),
{
}

/// Whatever happens to a task, it stays the same job: after a failure, after a success of a
/// recurring task, where it is put off, where it is deleted and where it is given up, it has the
/// id, the type, the data, the attempts, the delay, the limit, the payload, the urgency, the
/// schedule, the address, the timeout, the pool and the dependencies that it had.
pub proof fn law_task_stays_the_same_job(
    t: TaskView,
    error: Option<Seq<char>>,
    last_error: Seq<char>,
    tick: Timestamp,
    now: Timestamp,
    u: TaskView,
)
    requires
        u == t.failed(error, now) || u == t.rescheduled(tick) || u == t.throttled(now) || u
            == t.deleted(now) || u == t.given_up(last_error, now),
    ensures
        u.task_id == t.task_id,
        u.task_type == t.task_type,
        u.task_data == t.task_data,
        u.max_retries == t.max_retries,
        u.retry_after_ms == t.retry_after_ms,
        u.created_at == t.created_at,
        u.rate_limit_group == t.rate_limit_group,
        u.max_per_minute == t.max_per_minute,
        u.payload_hash == t.payload_hash,
        u.urgency == t.urgency,
        u.cron_expression == t.cron_expression,
        u.webhook_url == t.webhook_url,
        u.max_execution_seconds == t.max_execution_seconds,
        u.pool == t.pool,
        u.trigger_after_ids == t.trigger_after_ids,
{
}

/// A recurring task that came through is set for its tick with a clean record, and nothing else
/// about it changes, so that its next run is the same as the last: the same data for the same
/// handler, or the same post to the same address.
pub proof fn law_rescheduling_sets_the_tick_alone(
    t: TaskView,
    tick: Timestamp,
    has_handler: bool,
    e: crate::execution::Execution,
)
    ensures
        t.rescheduled(tick).execute_at == tick,
        t.rescheduled(tick).retry_count == 0,
        t.rescheduled(tick).last_error_obj is None,
        t.rescheduled(tick).last_job_error is None,
        t.rescheduled(tick).retry_after_time == t.retry_after_time,
        t.rescheduled(tick).updated_at == t.updated_at,
        t.rescheduled(tick).deleted_at == t.deleted_at,
        t.rescheduled(tick).task_id == t.task_id,
        t.rescheduled(tick).task_type == t.task_type,
        t.rescheduled(tick).task_data == t.task_data,
        t.rescheduled(tick).max_retries == t.max_retries,
        t.rescheduled(tick).retry_after_ms == t.retry_after_ms,
        t.rescheduled(tick).created_at == t.created_at,
        t.rescheduled(tick).rate_limit_group == t.rate_limit_group,
        t.rescheduled(tick).max_per_minute == t.max_per_minute,
        t.rescheduled(tick).payload_hash == t.payload_hash,
        t.rescheduled(tick).urgency == t.urgency,
        t.rescheduled(tick).cron_expression == t.cron_expression,
        t.rescheduled(tick).webhook_url == t.webhook_url,
        t.rescheduled(tick).max_execution_seconds == t.max_execution_seconds,
        t.rescheduled(tick).pool == t.pool,
        t.rescheduled(tick).trigger_after_ids == t.trigger_after_ids,
        crate::execution::way_to_run(t.rescheduled(tick), has_handler, e)
            <==> crate::execution::way_to_run(t, has_handler, e),
{
}

/// A failed attempt is counted, its error is on record in both places, and the next attempt comes
/// after the delay; the time asked for and the life of the task stay.
pub proof fn law_failure_is_counted_and_put_on_record(
    t: TaskView,
    error: Option<Seq<char>>,
    now: Timestamp,
)
    requires
        now.nanos < 1_000_000_000,
        now.secs + t.retry_after_ms / 1000 + 1 <= i64::MAX,
    ensures
        t.failed(error, now).retry_count == t.retry_count + 1,
        t.failed(error, now).last_error_obj == error,
        t.failed(error, now).last_job_error == error,
        t.failed(error, now).updated_at == now,
        t.failed(error, now).execute_at == t.execute_at,
        t.failed(error, now).deleted_at == t.deleted_at,
        t.failed(error, now).retry_after_time.secs * 1_000_000_000 + t.failed(
            error,
            now,
        ).retry_after_time.nanos == now.secs * 1_000_000_000 + now.nanos + t.retry_after_ms
            * 1_000_000,
{
    crate::time::law_times_move_on_by_as_much(now, 0, t.retry_after_ms);
}

/// A task that is given up has its last failure counted and on record and is a tombstone; one
/// that is deleted is a tombstone and nothing else about it changes; one that is put off may run
/// a minute later and nothing else about it changes.
pub proof fn law_tombstones_and_delays_change_no_more(
    t: TaskView,
    error: Seq<char>,
    now: Timestamp,
)
    requires
        now.secs + 60 <= i64::MAX,
    ensures
        t.retry_count < i32::MAX ==> t.given_up(error, now).retry_count == t.retry_count + 1,
        t.retry_count >= i32::MAX ==> t.given_up(error, now).retry_count == t.retry_count,
        t.given_up(error, now).last_error_obj == Some(error),
        t.given_up(error, now).last_job_error == Some(error),
        t.given_up(error, now).updated_at == now,
        t.given_up(error, now).deleted_at == Some(now),
        t.given_up(error, now).execute_at == t.execute_at,
        t.given_up(error, now).retry_after_time == t.retry_after_time,
        t.deleted(now).deleted_at == Some(now),
        t.deleted(now).retry_count == t.retry_count,
        t.deleted(now).last_error_obj == t.last_error_obj,
        t.deleted(now).last_job_error == t.last_job_error,
        t.deleted(now).updated_at == t.updated_at,
        t.deleted(now).execute_at == t.execute_at,
        t.deleted(now).retry_after_time == t.retry_after_time,
        t.throttled(now).retry_after_time.secs == now.secs + 60,
        t.throttled(now).retry_after_time.nanos == now.nanos,
        t.throttled(now).retry_count == t.retry_count,
        t.throttled(now).last_error_obj == t.last_error_obj,
        t.throttled(now).last_job_error == t.last_job_error,
        t.throttled(now).updated_at == t.updated_at,
        t.throttled(now).execute_at == t.execute_at,
        t.throttled(now).deleted_at == t.deleted_at,
{
}

/// A task is due where it is alive and neither of its times is still to come, in nanoseconds.
pub proof fn law_task_is_due_when_its_times_have_come(t: TaskView, now: Timestamp)
    requires
        now.nanos < 1_000_000_000,
        t.execute_at.nanos < 1_000_000_000,
        t.retry_after_time.nanos < 1_000_000_000,
    ensures
        t.due(now) <==> {
            &&& t.deleted_at is None
            &&& t.execute_at.secs * 1_000_000_000 + t.execute_at.nanos <= now.secs * 1_000_000_000
                + now.nanos
            &&& t.retry_after_time.secs * 1_000_000_000 + t.retry_after_time.nanos <= now.secs
                * 1_000_000_000 + now.nanos
        },
{
    crate::time::law_times_are_ordered_as_numbers(t.execute_at, now);
    crate::time::law_times_are_ordered_as_numbers(t.retry_after_time, now);
}

/// The attempts of a task, the first one counted, are as many as it says, and one in any case.
pub proof fn law_attempts_are_counted_from_the_first(t: TaskView)
    ensures
        t.attempts_left() <==> t.retry_count + 1 < t.max_retries,
{
}

/// A new task runs first at the time asked for, where that reads as a time, whatever its
/// schedule; else at the first tick of its schedule, where it has one; else at once.
pub proof fn law_new_task_runs_when_it_is_asked_for(
    asked: Seq<char>,
    expr: Seq<char>,
    now: Timestamp,
    t: Timestamp,
    cron: Option<Seq<char>>,
)
    ensures
        crate::time::rfc3339_time(asked) == Some(t) ==> first_run(Some(asked), cron, now) == t,
        crate::time::rfc3339_time(asked) is None ==> first_run(Some(asked), cron, now)
            == first_run(None, cron, now),
        crate::schedule::next_run_at(expr, now) == Some(t) ==> first_run(None, Some(expr), now)
            == t,
        crate::schedule::next_run_at(expr, now) is None ==> first_run(None, Some(expr), now)
            == now,
        first_run(None, None, now) == now,
{
}

/// The digest of a payload is that of its type with its data after it.
pub proof fn law_digest_is_of_type_and_data(task_type: Seq<char>, task_data: Seq<char>)
    ensures
        payload_digest(task_type, task_data) == sha1_uuid(task_type + task_data),
{
}

} // verus!
