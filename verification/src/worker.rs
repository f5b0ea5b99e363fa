//! The worker: the table of live tasks, and where each request goes.
use vstd::prelude::*;
use crate::message::{
    query_not_found_text, update_not_found_text, Message, RequestId, TaskControl, TaskId,
    TaskResult,
};
use crate::table::{
    entries_map, has_key, keys_distinct, lemma_entry_in_map, lemma_map_len, lemma_push_fresh,
    lemma_remove_entry, lemma_replace_value, KeyedTable,
};
use crate::task::Task;

verus! {

/// The most tasks that may be live at once; a create beyond it is throttled.
pub const MAX_CONCURRENT_TASKS: usize = 4;

/// How long, in seconds, a task may go without a request before it is gone.
pub const TASK_TIMEOUT: u64 = 2;

/// `TASK_TIMEOUT` in milliseconds, the unit of the worker's clock.
pub const TASK_TIMEOUT_MS: u64 = 2000;

/// A task last active at `last_active` is gone by `now` (both in
/// milliseconds): it has been idle for `TASK_TIMEOUT` or longer.
pub open spec fn expired(last_active: u64, now: u64) -> bool {
    last_active <= now && now - last_active >= TASK_TIMEOUT_MS
}

/// A live task as the worker keeps it: the handle through which requests
/// reach it, and when it was last created or sent a request.
pub struct LiveTask<C> {
    pub handle: C,
    pub last_active: u64,
}

/// The tasks of `tasks` that are still live at `now`.
pub open spec fn live_at<C>(tasks: Map<TaskId, LiveTask<C>>, now: u64) -> Map<TaskId, LiveTask<C>> {
    Map::new(
        |id: TaskId| tasks.contains_key(id) && !expired(tasks[id].last_active, now),
        |id: TaskId| tasks[id],
    )
}

/// What the worker does with one message.
pub enum Route<'a, C, U, R> {
    /// Start task `id` with these tables (the message asked to create it and
    /// there is room).
    Start {
        req_id: RequestId,
        id: TaskId,
        query_map: KeyedTable<String>,
        update_map: KeyedTable<U>,
    },
    /// Hand the request on to the task behind this handle.
    Forward(&'a C, TaskControl<R>),
    /// Answer the request at once, on its own reply channel.
    Reply(R, TaskResult),
}

/// A worker holding `before` that receives `msg` at `now` does `route` and
/// then holds `after`. Tasks idle past the timeout are dropped first; a create
/// with `MAX_CONCURRENT_TASKS` other tasks live is throttled; a request
/// reaches a live task and renews it, and is refused otherwise.
pub open spec fn routes<'a, C, U, R>(
    before: Map<TaskId, LiveTask<C>>,
    now: u64,
    msg: Message<U, R>,
    route: Route<'a, C, U, R>,
    after: Map<TaskId, LiveTask<C>>,
) -> bool {
    let live = live_at(before, now);
    match msg {
        Message::CreateTask { req_id, id, query_map, update_map, result_tx } => {
            &&& after == live
            &&& if live.dom().len() >= MAX_CONCURRENT_TASKS && !live.contains_key(id) {
                route matches Route::Reply(tx, TaskResult::Throttled { req_id: a, id: b }) && tx
                    == result_tx && a == req_id && b == id
            } else {
                route matches Route::Start { req_id: a, id: b, query_map: q, update_map: u } && a
                    == req_id && b == id && q == query_map && u == update_map
            }
        },
        Message::QueryTask { req_id, id, query_id, result_tx } => if live.contains_key(id) {
            &&& route matches Route::Forward(h, ctl) && *h == live[id].handle && ctl
                == (TaskControl::Query { req_id, query_id, result_tx })
            &&& after == live.insert(id, LiveTask { handle: live[id].handle, last_active: now })
        } else {
            &&& route matches Route::Reply(tx, TaskResult::NotFound { req_id: a, id: b, ctx }) && tx
                == result_tx && a == req_id && b == id && ctx@ == query_not_found_text()
            &&& after == live
        },
        Message::UpdateTask { req_id, id, update_id, result_tx } => if live.contains_key(id) {
            &&& route matches Route::Forward(h, ctl) && *h == live[id].handle && ctl
                == (TaskControl::Update { req_id, update_id, result_tx })
            &&& after == live.insert(id, LiveTask { handle: live[id].handle, last_active: now })
        } else {
            &&& route matches Route::Reply(tx, TaskResult::NotFound { req_id: a, id: b, ctx }) && tx
                == result_tx && a == req_id && b == id && ctx@ == update_not_found_text()
            &&& after == live
        },
    }
}

/// The worker's table of live tasks, by task id.
pub struct Worker<C> {
    entries: Vec<(TaskId, LiveTask<C>)>,
}

impl<C> View for Worker<C> {
    type V = Map<TaskId, LiveTask<C>>;

    closed spec fn view(&self) -> Map<TaskId, LiveTask<C>> {
        entries_map(self.entries@)
    }
}

impl<C> Worker<C> {
    #[verifier::type_invariant]
    spec fn inv(self) -> bool {
        keys_distinct(self.entries@)
    }

    /// A worker with no tasks.
    pub fn new() -> (w: Self)
        ensures
            w@ == Map::<TaskId, LiveTask<C>>::empty(),
    {
        let w = Worker { entries: Vec::new() };
        assert(w@ =~= Map::<TaskId, LiveTask<C>>::empty());
        w
    }

    /// How many tasks the worker holds.
    pub fn len(&self) -> (n: usize)
        ensures
            n == self@.dom().len(),
    {
        proof {
            use_type_invariant(self);
            lemma_map_len(self.entries@);
        }
        self.entries.len()
    }

    /// The position of task `id`, if the worker holds it.
    fn find(&self, id: TaskId) -> (r: Option<usize>)
        ensures
            match r {
                Some(i) => i < self.entries@.len() && self.entries@[i as int].0 == id,
                None => !has_key(self.entries@, id),
            },
    {
        let mut i: usize = 0;
        while i < self.entries.len()
            invariant
                i <= self.entries@.len(),
                forall|j: int| 0 <= j < i ==> #[trigger] self.entries@[j].0 != id,
            decreases self.entries@.len() - i,
        {
            if self.entries[i].0 == id {
                return Some(i);
            }
            i = i + 1;
        }
        None
    }

    /// Drops every task that has been idle for `TASK_TIMEOUT` or longer at
    /// `now`; dropping its handle ends the task.
    pub fn expire(&mut self, now: u64)
        ensures
            final(self)@ == live_at(old(self)@, now),
    {
        proof {
            use_type_invariant(&*self);
        }
        let mut entries = Vec::new();
        std::mem::swap(&mut entries, &mut self.entries);
        let ghost orig = entries@;
        let mut i: usize = 0;
        while i < entries.len()
            invariant
                i <= entries@.len(),
                keys_distinct(entries@),
                forall|j: int| 0 <= j < i ==> !expired(#[trigger] entries@[j].1.last_active, now),
                live_at(entries_map(entries@), now) == live_at(entries_map(orig), now),
            decreases entries@.len() - i,
        {
            if entries[i].1.last_active <= now && now - entries[i].1.last_active >= TASK_TIMEOUT_MS {
                proof {
                    lemma_entry_in_map(entries@, i as int);
                    lemma_remove_entry(entries@, i as int);
                    let k = entries@[i as int].0;
                    assert(live_at(entries_map(entries@.remove(i as int)), now) =~= live_at(
                        entries_map(entries@),
                        now,
                    ));
                }
                entries.remove(i);
            } else {
                i = i + 1;
            }
        }
        proof {
            assert forall|id: TaskId| #[trigger] entries_map(entries@).contains_key(id) implies !expired(
                entries_map(entries@)[id].last_active,
                now,
            ) by {
                let j = choose|j: int| 0 <= j < entries@.len() && #[trigger] entries@[j].0@ == id;
                lemma_entry_in_map(entries@, j);
            }
            assert(live_at(entries_map(entries@), now) =~= entries_map(entries@));
        }
        self.entries = entries;
    }

    /// Registers task `id` under `handle`, active from `now` (replacing any
    /// earlier task with that id), and builds the task from its tables.
    pub fn start_task<U>(
        &mut self,
        id: TaskId,
        query_map: KeyedTable<String>,
        update_map: KeyedTable<U>,
        handle: C,
        now: u64,
    ) -> (task: Task<U>)
        ensures
            final(self)@ == old(self)@.insert(id, LiveTask { handle, last_active: now }),
            task == (Task { id, query_map, update_map }),
    {
        proof {
            use_type_invariant(&*self);
        }
        let entry = (id, LiveTask { handle, last_active: now });
        let pos = self.find(id);
        let mut entries = Vec::new();
        std::mem::swap(&mut entries, &mut self.entries);
        match pos {
            Some(i) => {
                proof {
                    lemma_replace_value(entries@, i as int, entry);
                }
                entries.remove(i);
                entries.insert(i, entry);
                assert(entries@ =~= old(self).entries@.update(i as int, entry));
            },
            None => {
                proof {
                    lemma_push_fresh(entries@, entry);
                }
                entries.push(entry);
            },
        }
        self.entries = entries;
        Task { id, query_map, update_map }
    }

    /// Marks the task at position `i` active at `now`.
    fn touch(&mut self, i: usize, now: u64)
        requires
            i < old(self).entries@.len(),
        ensures
            final(self).entries@.len() == old(self).entries@.len(),
            final(self).entries@[i as int].0 == old(self).entries@[i as int].0,
            final(self)@ == old(self)@.insert(
                old(self).entries@[i as int].0,
                LiveTask {
                    handle: old(self).entries@[i as int].1.handle,
                    last_active: now,
                },
            ),
    {
        proof {
            use_type_invariant(&*self);
        }
        let mut entries = Vec::new();
        std::mem::swap(&mut entries, &mut self.entries);
        let (id, live) = entries.remove(i);
        let entry = (id, LiveTask { handle: live.handle, last_active: now });
        proof {
            lemma_replace_value(old(self).entries@, i as int, entry);
        }
        entries.insert(i, entry);
        assert(entries@ =~= old(self).entries@.update(i as int, entry));
        self.entries = entries;
    }

    /// Decides what to do with `msg`, received at `now` (milliseconds): drop
    /// the tasks idle past the timeout, then start the task a create asks for
    /// or throttle it when the table is full, hand a request on to the live
    /// task it names, or answer that no such task is live.
    pub fn route<U, R>(&mut self, msg: Message<U, R>, now: u64) -> (route: Route<'_, C, U, R>)
        ensures
            routes(old(self)@, now, msg, route, final(self)@),
    {
        self.expire(now);
        match msg {
            Message::CreateTask { req_id, id, query_map, update_map, result_tx } => {
                let full = self.len() >= MAX_CONCURRENT_TASKS;
                let pos = self.find(id);
                if full && pos.is_none() {
                    Route::Reply(result_tx, TaskResult::Throttled { req_id, id })
                } else {
                    proof {
                        use_type_invariant(&*self);
                        if let Some(i) = pos {
                            lemma_entry_in_map(self.entries@, i as int);
                        }
                    }
                    Route::Start { req_id, id, query_map, update_map }
                }
            },
            Message::QueryTask { req_id, id, query_id, result_tx } => {
                match self.find(id) {
                    Some(i) => {
                        proof {
                            use_type_invariant(&*self);
                            lemma_entry_in_map(self.entries@, i as int);
                        }
                        self.touch(i, now);
                        proof {
                            use_type_invariant(&*self);
                            lemma_entry_in_map(self.entries@, i as int);
                        }
                        Route::Forward(
                            &self.entries[i].1.handle,
                            TaskControl::Query { req_id, query_id, result_tx },
                        )
                    },
                    None => Route::Reply(
                        result_tx,
                        TaskResult::NotFound { req_id, id, ctx: "Task not found for query" },
                    ),
                }
            },
            Message::UpdateTask { req_id, id, update_id, result_tx } => {
                match self.find(id) {
                    Some(i) => {
                        proof {
                            use_type_invariant(&*self);
                            lemma_entry_in_map(self.entries@, i as int);
                        }
                        self.touch(i, now);
                        proof {
                            use_type_invariant(&*self);
                            lemma_entry_in_map(self.entries@, i as int);
                        }
                        Route::Forward(
                            &self.entries[i].1.handle,
                            TaskControl::Update { req_id, update_id, result_tx },
                        )
                    },
                    None => Route::Reply(
                        result_tx,
                        TaskResult::NotFound { req_id, id, ctx: "Task not found for update" },
                    ),
                }
            },
        }
    }
}

} // verus!
