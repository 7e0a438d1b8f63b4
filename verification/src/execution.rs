//! What running a task means, and what its outcome is.

use vstd::prelude::*;
use vstd::string::StringExecFns;

use crate::json::{quote, write_object};
use crate::task::{RetryableTask, TaskView};
use crate::text::decimal_text;

verus! {

/// What the header of a post says where a task is to be run.
pub const EXECUTE_EVENT: &'static str = "Execute";

/// What the header of a post says where a task is given up.
pub const GIVEN_UP_EVENT: &'static str = "MaxRetriesReached";

/// How a task is to be run.
#[derive(Debug)]
pub enum Execution {
    /// The task has been through lately. Nothing is run.
    AlreadyCompleted,
    /// The payload is to be posted to the address.
    Webhook { url: String, payload: String, timeout: Option<u64> },
    /// The handler of the task's type is to be called with the data.
    Handler { data: String, timeout: Option<u64> },
    /// There is neither an address nor a handler. Nothing is run.
    NoHandler,
}

/// What came of posting a task to its address.
#[derive(Debug)]
pub enum WebhookReply {
    /// An answer, with its status code and the text of its status.
    Status { code: u16, text: String },
    /// No answer in time.
    TimedOut,
    /// No answer, for the reason given.
    Failed(String),
    /// The task that posted broke down.
    Panicked(String),
}

/// What came of calling the handler of a task.
#[derive(Debug)]
pub enum HandlerReply {
    Returned(Result<(), String>),
    /// The handler broke down.
    Panicked(String),
    /// The handler did not return within this many seconds.
    TimedOut(u64),
}

/// Who is told that a task is given up.
#[derive(Debug)]
pub enum Notice {
    /// The payload is to be posted to the address.
    Webhook { url: String, payload: String },
    /// The handler for tasks of this type that are given up is to be called with the payload.
    Handler { payload: String },
    /// Nobody.
    Nobody,
}

/// The JSON object that speaks of a task to the outside.
pub open spec fn event_text(t: TaskView) -> Seq<char> {
    crate::json::object_text(
        seq![
            ("data"@, crate::json::json_quoted(t.task_data)),
            ("taskId"@, crate::json::json_quoted(t.task_id)),
            ("taskType"@, crate::json::json_quoted(t.task_type)),
        ],
    )
}

/// Writes the JSON object that speaks of a task to the outside.
pub fn event_payload(task: &RetryableTask) -> (r: String)
    ensures
        r@ == event_text(task@),
{
    let mut members: Vec<(&str, String)> = Vec::new();
    members.push(("data", quote(task.task_data.as_str())));
    members.push(("taskId", quote(task.task_id.as_str())));
    members.push(("taskType", quote(task.task_type.as_str())));
    proof {
        assert(crate::json::parts_of(members@) =~= seq![
            ("data"@, crate::json::json_quoted(task@.task_data)),
            ("taskId"@, crate::json::json_quoted(task@.task_id)),
            ("taskType"@, crate::json::json_quoted(task@.task_type)),
        ]);
    }
    write_object(&members)
}

/// How a task is to be run where it has not been through lately and its type has a handler
/// or has not.
pub open spec fn way_to_run(t: TaskView, has_handler: bool, e: Execution) -> bool {
    match t.webhook_url {
        Some(address) => {
            &&& e matches Execution::Webhook { url, payload, timeout }
            &&& url@ == address
            &&& payload@ == event_text(t)
            &&& timeout == t.max_execution_seconds
        },
        None => if has_handler {
            &&& e matches Execution::Handler { data, timeout }
            &&& data@ == t.task_data
            &&& timeout == t.max_execution_seconds
        } else {
            e is NoHandler
        },
    }
}

/// Works out how a task is to be run.
pub fn choose_way(task: &RetryableTask, has_handler: bool) -> (e: Execution)
    ensures
        way_to_run(task@, has_handler, e),
{
    match &task.webhook_url {
        Some(url) => Execution::Webhook {
            url: url.clone(),
            payload: event_payload(task),
            timeout: task.max_execution_seconds,
        },
        None => {
            if has_handler {
                Execution::Handler {
                    data: task.task_data.clone(),
                    timeout: task.max_execution_seconds,
                }
            } else {
                Execution::NoHandler
            }
        },
    }
}

/// Who is told that a task is given up, where its type has a handler for that or has not.
pub open spec fn notified(t: TaskView, has_handler: bool, n: Notice) -> bool {
    match t.webhook_url {
        Some(address) => {
            &&& n matches Notice::Webhook { url, payload }
            &&& url@ == address
            &&& payload@ == event_text(t)
        },
        None => if has_handler {
            n matches Notice::Handler { payload } && payload@ == event_text(t)
        } else {
            n is Nobody
        },
    }
}

/// Works out who is told that a task is given up.
pub fn notice_for(task: &RetryableTask, has_handler: bool) -> (n: Notice)
    ensures
        notified(task@, has_handler, n),
{
    match &task.webhook_url {
        Some(url) => Notice::Webhook { url: url.clone(), payload: event_payload(task) },
        None => {
            if has_handler {
                Notice::Handler { payload: event_payload(task) }
            } else {
                Notice::Nobody
            }
        },
    }
}

/// The error that an outcome stands for; `None` is a success.
pub open spec fn error_of(r: Result<(), String>) -> Option<Seq<char>> {
    match r {
        Ok(_) => None,
        Err(e) => Some(e@),
    }
}

/// The error that the reply of a webhook stands for. A status from 200 to 299 is a success.
pub open spec fn webhook_error(reply: WebhookReply, timeout: Option<u64>) -> Option<Seq<char>> {
    match reply {
        WebhookReply::Status { code, text } => if 200 <= code < 300 {
            None
        } else {
            Some("Webhook returned non-2xx status: "@ + text@)
        },
        WebhookReply::TimedOut => Some(
            "Webhook execution timed out after "@ + crate::text::decimal(
                match timeout {
                    Some(n) => n as nat,
                    None => 0,
                },
            ) + " seconds"@,
        ),
        WebhookReply::Failed(e) => Some("Webhook request failed: "@ + e@),
        WebhookReply::Panicked(e) => Some("Webhook task panic: "@ + e@),
    }
}

/// The error that the reply of a handler stands for.
pub open spec fn handler_error(reply: HandlerReply) -> Option<Seq<char>> {
    match reply {
        HandlerReply::Returned(r) => error_of(r),
        HandlerReply::Panicked(e) => Some("Task panic: "@ + e@),
        HandlerReply::TimedOut(n) => Some(
            "Task execution timed out after "@ + crate::text::decimal(n as nat) + " seconds"@,
        ),
    }
}

/// Puts two texts together.
fn joined(a: &str, b: &str) -> (r: String)
    ensures
        r@ == a@ + b@,
{
    let mut out: String = a.to_string();
    out.append(b);
    out
}

/// Puts a text, a number of seconds and the word for them together.
fn joined_seconds(a: &str, n: u64) -> (r: String)
    ensures
        r@ == a@ + crate::text::decimal(n as nat) + " seconds"@,
{
    let mut out: String = a.to_string();
    out.append(decimal_text(n).as_str());
    out.append(" seconds");
    out
}

/// The outcome of a task that was posted to its address with this timeout.
pub fn webhook_result(reply: WebhookReply, timeout: Option<u64>) -> (r: Result<(), String>)
    ensures
        error_of(r) == webhook_error(reply, timeout),
{
    match reply {
        WebhookReply::Status { code, text } => {
            if 200 <= code && code < 300 {
                Ok(())
            } else {
                Err(joined("Webhook returned non-2xx status: ", text.as_str()))
            }
        },
        WebhookReply::TimedOut => {
            let n: u64 = match timeout {
                Some(n) => n,
                None => 0,
            };
            Err(joined_seconds("Webhook execution timed out after ", n))
        },
        WebhookReply::Failed(e) => Err(joined("Webhook request failed: ", e.as_str())),
        WebhookReply::Panicked(e) => Err(joined("Webhook task panic: ", e.as_str())),
    }
}

/// The outcome of a task whose handler was called.
pub fn handler_result(reply: HandlerReply) -> (r: Result<(), String>)
    ensures
        error_of(r) == handler_error(reply),
{
    match reply {
        HandlerReply::Returned(r) => r,
        HandlerReply::Panicked(e) => Err(joined("Task panic: ", e.as_str())),
        HandlerReply::TimedOut(n) => Err(joined_seconds("Task execution timed out after ", n)),
    }
}

/// A task with an address is posted there whether its type has a handler or not: the plan is the
/// same for every set of handlers. Only a task without an address is run by a handler, or not at
/// all where there is none.
pub proof fn law_address_goes_before_handler(
    t: TaskView,
    has_handler: bool,
    e: Execution,
)
    requires
        way_to_run(t, has_handler, e),
    ensures
        t.webhook_url is Some <==> e is Webhook,
        way_to_run(t, !has_handler, e) <==> t.webhook_url is Some,
        e is NoHandler <==> t.webhook_url is None && !has_handler,
        e is Handler <==> t.webhook_url is None && has_handler,
        e !is AlreadyCompleted,
        e matches Execution::Webhook { url, payload, timeout } ==> {
            &&& Some(url@) == t.webhook_url
            &&& payload@ == "{\"data\":"@ + crate::json::json_quoted(t.task_data)
                + ",\"taskId\":"@ + crate::json::json_quoted(t.task_id) + ",\"taskType\":"@
                + crate::json::json_quoted(t.task_type) + "}"@
            &&& timeout == t.max_execution_seconds
        },
        e matches Execution::Handler { data, timeout } ==> data@ == t.task_data && timeout
            == t.max_execution_seconds,
{
    law_payload_speaks_of_the_task(t);
}

/// The notice that a task is given up goes to its address where it has one, else to the handler
/// for that, else to nobody, and speaks of the task as the post that runs it does.
pub proof fn law_notice_goes_where_the_task_went(t: TaskView, has_handler: bool, n: Notice)
    requires
        notified(t, has_handler, n),
    ensures
        n is Webhook <==> t.webhook_url is Some,
        n is Handler <==> t.webhook_url is None && has_handler,
        n is Nobody <==> t.webhook_url is None && !has_handler,
        n matches Notice::Webhook { url, payload } ==> {
            &&& Some(url@) == t.webhook_url
            &&& payload@ == "{\"data\":"@ + crate::json::json_quoted(t.task_data)
                + ",\"taskId\":"@ + crate::json::json_quoted(t.task_id) + ",\"taskType\":"@
                + crate::json::json_quoted(t.task_type) + "}"@
        },
        n matches Notice::Handler { payload } ==> payload@ == "{\"data\":"@
            + crate::json::json_quoted(t.task_data) + ",\"taskId\":"@ + crate::json::json_quoted(
            t.task_id,
        ) + ",\"taskType\":"@ + crate::json::json_quoted(t.task_type) + "}"@,
{
    law_payload_speaks_of_the_task(t);
}

/// The payload is a JSON object with the data, the id and the type of the task.
pub proof fn law_payload_speaks_of_the_task(t: TaskView)
    ensures
        event_text(t) == "{\"data\":"@ + crate::json::json_quoted(t.task_data)
            + ",\"taskId\":"@ + crate::json::json_quoted(t.task_id) + ",\"taskType\":"@
            + crate::json::json_quoted(t.task_type) + "}"@,
{
    reveal_strlit("data");
    reveal_strlit("taskId");
    reveal_strlit("taskType");
    reveal_strlit("{\"data\":");
    reveal_strlit(",\"taskId\":");
    reveal_strlit(",\"taskType\":");
    reveal_strlit("}");
    let members = seq![
        ("data"@, crate::json::json_quoted(t.task_data)),
        ("taskId"@, crate::json::json_quoted(t.task_id)),
        ("taskType"@, crate::json::json_quoted(t.task_type)),
    ];
    let parts = Seq::new(members.len(), |i: int| crate::json::pair_text(members[i]));
    reveal_with_fuel(crate::json::comma_list, 4);
    assert(parts.drop_last().drop_last() =~= seq![parts[0]]);
    assert(event_text(t) =~= "{\"data\":"@ + crate::json::json_quoted(t.task_data)
        + ",\"taskId\":"@ + crate::json::json_quoted(t.task_id) + ",\"taskType\":"@
        + crate::json::json_quoted(t.task_type) + "}"@);
}

/// A post came through exactly where it was answered with a status from 200 to 299; all else is
/// an error that says what happened. A handler came through exactly where it returned so, and its
/// own error is the error.
pub proof fn law_outcome_says_what_happened(
    reply: WebhookReply,
    timeout: Option<u64>,
    answer: HandlerReply,
)
    ensures
        webhook_error(reply, timeout) is None <==> (reply matches WebhookReply::Status {
            code,
            text,
        } && 200 <= code <= 299),
        reply matches WebhookReply::Status { code, text } ==> !(200 <= code <= 299)
            ==> webhook_error(reply, timeout) == Some(
            "Webhook returned non-2xx status: "@ + text@,
        ),
        reply matches WebhookReply::Failed(e) ==> webhook_error(reply, timeout) == Some(
            "Webhook request failed: "@ + e@,
        ),
        reply matches WebhookReply::Panicked(e) ==> webhook_error(reply, timeout) == Some(
            "Webhook task panic: "@ + e@,
        ),
        reply is TimedOut && timeout is Some ==> webhook_error(reply, timeout) == Some(
            "Webhook execution timed out after "@ + crate::text::decimal(timeout->0 as nat)
                + " seconds"@,
        ),
        reply is TimedOut && timeout is None ==> webhook_error(reply, timeout) == Some(
            "Webhook execution timed out after "@ + crate::text::decimal(0) + " seconds"@,
        ),
        handler_error(answer) is None <==> (answer matches HandlerReply::Returned(r) && r is Ok),
        answer matches HandlerReply::Returned(Err(e)) ==> handler_error(answer) == Some(e@),
        answer matches HandlerReply::Panicked(e) ==> handler_error(answer) == Some(
            "Task panic: "@ + e@,
        ),
        answer matches HandlerReply::TimedOut(n) ==> handler_error(answer) == Some(
            "Task execution timed out after "@ + crate::text::decimal(n as nat) + " seconds"@,
        ),
{
}

/// An outcome is a success or has its error.
pub proof fn law_outcome_is_success_or_error(r: Result<(), String>)
    ensures
        error_of(r) is None <==> r is Ok,
        r matches Err(e) ==> error_of(r) == Some(e@),
{
}

} // verus!
