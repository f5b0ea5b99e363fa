//! The messages that pass between the hypervisor, the worker and the tasks,
//! the texts they carry, and the line that reports each result.
use vstd::prelude::*;
use crate::table::KeyedTable;

verus! {

/// Identifier of a task.
pub type TaskId = usize;

/// Identifier of a request.
pub type RequestId = usize;

/// How long, in seconds, the listener waits for the next answer before it
/// stops listening.
pub const LISTENER_TIMEOUT: u64 = 5;

/// The answer to one request.
#[derive(Debug, Clone, PartialEq, Eq)]
pub enum TaskResult {
    QueryOk { req_id: RequestId, id: TaskId, value: String },
    QueryError { req_id: RequestId, id: TaskId, msg: String },
    UpdateOk { req_id: RequestId, id: TaskId, value: String },
    UpdateError { req_id: RequestId, id: TaskId, msg: String },
    NotFound { req_id: RequestId, id: TaskId, ctx: &'static str },
    Throttled { req_id: RequestId, id: TaskId },
}

/// A request as the worker hands it on to a task; `result_tx` is where the
/// answer goes.
#[derive(Debug)]
pub enum TaskControl<R> {
    Query { req_id: usize, query_id: String, result_tx: R },
    Update { req_id: usize, update_id: String, result_tx: R },
}

/// A request as the hypervisor sends it to the worker. `U` is the type of the
/// update functions a task is created with, `R` that of the reply channel.
pub enum Message<U, R> {
    CreateTask {
        req_id: RequestId,
        id: TaskId,
        query_map: KeyedTable<String>,
        update_map: KeyedTable<U>,
        result_tx: R,
    },
    QueryTask { req_id: RequestId, id: TaskId, query_id: String, result_tx: R },
    UpdateTask { req_id: RequestId, id: TaskId, update_id: String, result_tx: R },
}

/// The text of the error for a query id that a task does not know.
pub open spec fn query_error_text(query_id: Seq<char>) -> Seq<char> {
    "Query ID '"@ + query_id + "' not found"@
}

/// The text of the error for an update id that a task does not know.
pub open spec fn update_error_text(update_id: Seq<char>) -> Seq<char> {
    "Update ID '"@ + update_id + "' not found"@
}

/// The context of the answer to a query for a task that does not exist.
pub open spec fn query_not_found_text() -> Seq<char> {
    "Task not found for query"@
}

/// The context of the answer to an update for a task that does not exist.
pub open spec fn update_not_found_text() -> Seq<char> {
    "Task not found for update"@
}

/// Builds the text of the error for an unknown query id.
pub fn query_error_message(query_id: &String) -> (msg: String)
    ensures
        msg@ == query_error_text(query_id@),
{
    let mut msg = String::from_str("Query ID '");
    msg.append(query_id.as_str());
    msg.append("' not found");
    msg
}

/// Builds the text of the error for an unknown update id.
pub fn update_error_message(update_id: &String) -> (msg: String)
    ensures
        msg@ == update_error_text(update_id@),
{
    let mut msg = String::from_str("Update ID '");
    msg.append(update_id.as_str());
    msg.append("' not found");
    msg
}

/// The character of a decimal digit.
pub open spec fn digit_char(d: nat) -> char {
    (48 + d) as char
}

/// The decimal notation of `n`, without sign or leading zeros.
pub open spec fn decimal(n: nat) -> Seq<char>
    decreases n,
{
    if n < 10 {
        seq![digit_char(n)]
    } else {
        decimal(n / 10).push(digit_char(n % 10))
    }
}

/// The one-character text of the digit `d`.
fn digit_str(d: usize) -> (s: &'static str)
    requires
        d < 10,
    ensures
        s@ == seq![digit_char(d as nat)],
{
    if d == 0 {
        proof {
            reveal_strlit("0");
        }
        return "0";
    }
    if d == 1 {
        proof {
            reveal_strlit("1");
        }
        return "1";
    }
    if d == 2 {
        proof {
            reveal_strlit("2");
        }
        return "2";
    }
    if d == 3 {
        proof {
            reveal_strlit("3");
        }
        return "3";
    }
    if d == 4 {
        proof {
            reveal_strlit("4");
        }
        return "4";
    }
    if d == 5 {
        proof {
            reveal_strlit("5");
        }
        return "5";
    }
    if d == 6 {
        proof {
            reveal_strlit("6");
        }
        return "6";
    }
    if d == 7 {
        proof {
            reveal_strlit("7");
        }
        return "7";
    }
    if d == 8 {
        proof {
            reveal_strlit("8");
        }
        return "8";
    }
    proof {
        reveal_strlit("9");
    }
    "9"
}

/// Writes `n` in decimal: its digits, with no sign and no leading zeros.
fn decimal_string(n: usize) -> (s: String)
    ensures
        s@ == decimal(n as nat),
    decreases n,
{
    if n < 10 {
        String::from_str(digit_str(n))
    } else {
        let mut s = decimal_string(n / 10);
        s.append(digit_str(n % 10));
        s
    }
}

/// The line that reports a result.
pub open spec fn log_text(r: TaskResult) -> Seq<char> {
    match r {
        TaskResult::QueryOk { req_id, id, value } => "[req:"@ + decimal(req_id as nat)
            + "] Query result for task "@ + decimal(id as nat) + ": "@ + value@,
        TaskResult::QueryError { req_id, id, msg } => "[req:"@ + decimal(req_id as nat)
            + "] Query failed for task "@ + decimal(id as nat) + ": "@ + msg@,
        TaskResult::UpdateOk { req_id, id, .. } => "[req:"@ + decimal(req_id as nat)
            + "] Update OK for task "@ + decimal(id as nat),
        TaskResult::UpdateError { req_id, id, msg } => "[req:"@ + decimal(req_id as nat)
            + "] Update failed for task "@ + decimal(id as nat) + ": "@ + msg@,
        TaskResult::NotFound { req_id, id, ctx } => "[req:"@ + decimal(req_id as nat) + "] Task "@
            + decimal(id as nat) + " not found: "@ + ctx@,
        TaskResult::Throttled { req_id, id } => "[req:"@ + decimal(req_id as nat) + "] Task "@
            + decimal(id as nat) + " throttled"@,
    }
}

impl TaskResult {
    /// The line that reports this result.
    pub fn log_line(&self) -> (line: String)
        ensures
            line@ == log_text(*self),
    {
        let mut line = String::from_str("[req:");
        match self {
            TaskResult::QueryOk { req_id, id, value } => {
                line.append(decimal_string(*req_id).as_str());
                line.append("] Query result for task ");
                line.append(decimal_string(*id).as_str());
                line.append(": ");
                line.append(value.as_str());
            },
            TaskResult::QueryError { req_id, id, msg } => {
                line.append(decimal_string(*req_id).as_str());
                line.append("] Query failed for task ");
                line.append(decimal_string(*id).as_str());
                line.append(": ");
                line.append(msg.as_str());
            },
            TaskResult::UpdateOk { req_id, id, .. } => {
                line.append(decimal_string(*req_id).as_str());
                line.append("] Update OK for task ");
                line.append(decimal_string(*id).as_str());
            },
            TaskResult::UpdateError { req_id, id, msg } => {
                line.append(decimal_string(*req_id).as_str());
                line.append("] Update failed for task ");
                line.append(decimal_string(*id).as_str());
                line.append(": ");
                line.append(msg.as_str());
            },
            TaskResult::NotFound { req_id, id, ctx } => {
                line.append(decimal_string(*req_id).as_str());
                line.append("] Task ");
                line.append(decimal_string(*id).as_str());
                line.append(" not found: ");
                line.append(ctx);
            },
            TaskResult::Throttled { req_id, id } => {
                line.append(decimal_string(*req_id).as_str());
                line.append("] Task ");
                line.append(decimal_string(*id).as_str());
                line.append(" throttled");
            },
        }
        line
    }
}

} // verus!
