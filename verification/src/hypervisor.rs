//! The hypervisor's side: handing out request and task identifiers, and
//! building the message each request sends to the worker.
use vstd::prelude::*;
use crate::message::{Message, RequestId, TaskId};
use crate::table::KeyedTable;

verus! {

/// The counter after one identifier has been taken from it: one more, and
/// back to zero past the largest `usize` (the counter wraps around).
pub open spec fn advance(c: usize) -> usize {
    if c == usize::MAX {
        0
    } else {
        (c + 1) as usize
    }
}

/// The kinds of request the hypervisor sends.
pub enum RequestKind {
    Create,
    Query,
    Update,
}

/// The counters after one request of `kind`: every request takes a request
/// id, and only a create takes a task id.
pub open spec fn after_request(h: Hypervisor, kind: RequestKind) -> Hypervisor {
    Hypervisor {
        request_counter: advance(h.request_counter),
        task_id_counter: if kind is Create {
            advance(h.task_id_counter)
        } else {
            h.task_id_counter
        },
    }
}

/// The counters after the requests `kinds`, in order.
pub open spec fn after_requests(h: Hypervisor, kinds: Seq<RequestKind>) -> Hypervisor
    decreases kinds.len(),
{
    if kinds.len() == 0 {
        h
    } else {
        after_request(after_requests(h, kinds.drop_last()), kinds.last())
    }
}

/// The hypervisor's identifier counters: the next request id and the next
/// task id to hand out.
pub struct Hypervisor {
    pub request_counter: usize,
    pub task_id_counter: usize,
}

impl Hypervisor {
    /// A hypervisor that has handed out no identifiers yet.
    pub fn new() -> (h: Self)
        ensures
            h.request_counter == 0,
            h.task_id_counter == 0,
    {
        Hypervisor { request_counter: 0, task_id_counter: 0 }
    }

    /// Takes the next request id.
    pub fn next_req_id(&mut self) -> (r: RequestId)
        ensures
            r == old(self).request_counter,
            final(self).request_counter == advance(old(self).request_counter),
            final(self).task_id_counter == old(self).task_id_counter,
    {
        let r = self.request_counter;
        self.request_counter = if r == usize::MAX {
            0
        } else {
            r + 1
        };
        r
    }

    /// Takes the next task id.
    pub fn next_task_id(&mut self) -> (r: TaskId)
        ensures
            r == old(self).task_id_counter,
            final(self).task_id_counter == advance(old(self).task_id_counter),
            final(self).request_counter == old(self).request_counter,
    {
        let r = self.task_id_counter;
        self.task_id_counter = if r == usize::MAX {
            0
        } else {
            r + 1
        };
        r
    }

    /// Takes a request id and a task id, and builds the message that creates
    /// the task with these tables. Gives back the new task's id and the
    /// message to send.
    pub fn create_task<U, R>(
        &mut self,
        query_map: KeyedTable<String>,
        update_map: KeyedTable<U>,
        result_tx: R,
    ) -> (out: (TaskId, Message<U, R>))
        ensures
            out.0 == old(self).task_id_counter,
            out.1 == (Message::CreateTask {
                req_id: old(self).request_counter,
                id: old(self).task_id_counter,
                query_map,
                update_map,
                result_tx,
            }),
            *final(self) == after_request(*old(self), RequestKind::Create),
    {
        let req_id = self.next_req_id();
        let id = self.next_task_id();
        (id, Message::CreateTask { req_id, id, query_map, update_map, result_tx })
    }

    /// Takes a request id and builds the message that asks task `id` for the
    /// value it holds under `query_id`.
    pub fn query_task<U, R>(&mut self, id: TaskId, query_id: &str, result_tx: R) -> (msg: Message<
        U,
        R,
    >)
        ensures
            msg matches Message::QueryTask { req_id: a, id: b, query_id: q, result_tx: t } && a
                == old(self).request_counter && b == id && q@ == query_id@ && t == result_tx,
            *final(self) == after_request(*old(self), RequestKind::Query),
    {
        let req_id = self.next_req_id();
        Message::QueryTask { req_id, id, query_id: String::from_str(query_id), result_tx }
    }

    /// Takes a request id and builds the message that asks task `id` to run
    /// the update named `update_id`.
    pub fn update_task<U, R>(&mut self, id: TaskId, update_id: &str, result_tx: R) -> (msg: Message<
        U,
        R,
    >)
        ensures
            msg matches Message::UpdateTask { req_id: a, id: b, update_id: q, result_tx: t } && a
                == old(self).request_counter && b == id && q@ == update_id@ && t == result_tx,
            *final(self) == after_request(*old(self), RequestKind::Update),
    {
        let req_id = self.next_req_id();
        Message::UpdateTask { req_id, id, update_id: String::from_str(update_id), result_tx }
    }
}

} // verus!
