//! A task: the answers it gives to queries and the updates it runs.
use vstd::prelude::*;
use crate::message::{
    query_error_message, query_error_text, update_error_message, update_error_text, RequestId,
    TaskControl, TaskId, TaskResult,
};
use crate::table::KeyedTable;

verus! {

/// A hosted task: its identifier, the values it answers queries with, and the
/// update functions it runs, each under its own name.
pub struct Task<U> {
    pub id: TaskId,
    pub query_map: KeyedTable<String>,
    pub update_map: KeyedTable<U>,
}

/// `r` is what task `id`, holding `query_map`, answers to query `query_id`
/// made by request `req_id`.
pub open spec fn answers_query(
    r: TaskResult,
    id: TaskId,
    query_map: Map<Seq<char>, String>,
    req_id: RequestId,
    query_id: Seq<char>,
) -> bool {
    if query_map.contains_key(query_id) {
        r == (TaskResult::QueryOk { req_id, id, value: query_map[query_id] })
    } else {
        r matches TaskResult::QueryError { req_id: a, id: b, msg } && a == req_id && b == id
            && msg@ == query_error_text(query_id)
    }
}

/// `r` is what task `id`, holding the update functions `update_map`, answers
/// to update `update_id` made by request `req_id`: `UpdateOk` with a value
/// that the function under `update_id` returns, or the error for an unknown
/// name.
pub open spec fn answers_update<U: FnMut() -> String>(
    r: TaskResult,
    id: TaskId,
    update_map: Map<Seq<char>, U>,
    req_id: RequestId,
    update_id: Seq<char>,
) -> bool {
    if update_map.contains_key(update_id) {
        r matches TaskResult::UpdateOk { req_id: a, id: b, value } && a == req_id && b == id
            && call_ensures(update_map[update_id], (), value)
    } else {
        r matches TaskResult::UpdateError { req_id: a, id: b, msg } && a == req_id && b == id
            && msg@ == update_error_text(update_id)
    }
}

/// The update function that `msg` asks `update_map` to run accepts being run.
pub open spec fn update_callable<U: FnMut() -> String, R>(update_map: Map<Seq<char>, U>, msg: TaskControl<R>) -> bool {
    match msg {
        TaskControl::Update { update_id, .. } => update_map.contains_key(update_id@) ==> call_requires(
            update_map[update_id@],
            (),
        ),
        TaskControl::Query { .. } => true,
    }
}

impl<U: FnMut() -> String> Task<U> {
    /// Answers one request. A query reads the query table; an update runs the
    /// function stored under its name, when there is one. Gives back the reply
    /// channel of the request with the answer to send on it.
    pub fn handle<R>(&mut self, msg: TaskControl<R>) -> (reply: (R, TaskResult))
        requires
            update_callable(old(self).update_map@, msg),
        ensures
            final(self).id == old(self).id,
            final(self).query_map == old(self).query_map,
            final(self).update_map@ == old(self).update_map@,
            match msg {
                TaskControl::Query { req_id, query_id, result_tx } => {
                    &&& reply.0 == result_tx
                    &&& answers_query(reply.1, old(self).id, old(self).query_map@, req_id, query_id@)
                },
                TaskControl::Update { req_id, update_id, result_tx } => {
                    &&& reply.0 == result_tx
                    &&& answers_update(
                        reply.1,
                        old(self).id,
                        old(self).update_map@,
                        req_id,
                        update_id@,
                    )
                },
            },
    {
        match msg {
            TaskControl::Query { req_id, query_id, result_tx } => {
                match self.query_map.get(&query_id) {
                    Some(value) => {
                        (result_tx, TaskResult::QueryOk { req_id, id: self.id, value: value.clone() })
                    },
                    None => {
                        let msg = query_error_message(&query_id);
                        (result_tx, TaskResult::QueryError { req_id, id: self.id, msg })
                    },
                }
            },
            TaskControl::Update { req_id, update_id, result_tx } => {
                match self.update_map.call(&update_id) {
                    Some(value) => (result_tx, TaskResult::UpdateOk { req_id, id: self.id, value }),
                    None => {
                        let msg = update_error_message(&update_id);
                        (result_tx, TaskResult::UpdateError { req_id, id: self.id, msg })
                    },
                }
            },
        }
    }
}

} // verus!
