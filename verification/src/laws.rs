//! Properties that span several operations of the library.
use vstd::prelude::*;
use crate::hypervisor::{advance, after_requests, Hypervisor, RequestKind};
use crate::message::{
    query_not_found_text, update_not_found_text, Message, TaskControl, TaskId, TaskResult,
};
use crate::table::KeyedTable;
use crate::task::{answers_query, answers_update};
use crate::worker::{expired, live_at, routes, LiveTask, Route, MAX_CONCURRENT_TASKS, TASK_TIMEOUT};
use crate::script::{script_steps, ProcessStep};
use crate::message::{decimal, log_text};

verus! {

/// The counter after `n` identifiers have been taken from `c`.
pub open spec fn advance_n(c: usize, n: nat) -> usize
    decreases n,
{
    if n == 0 {
        c
    } else {
        advance(advance_n(c, (n - 1) as nat))
    }
}

proof fn lemma_advance_n_mod(c: usize, n: nat)
    ensures
        advance_n(c, n) as int == (c + n) % (usize::MAX as int + 1),
    decreases n,
{
    if n == 0 {
        vstd::arithmetic::div_mod::lemma_small_mod(c as nat, usize::MAX as nat + 1);
    } else {
        lemma_advance_n_mod(c, (n - 1) as nat);
        let m = usize::MAX as int + 1;
        let p = advance_n(c, (n - 1) as nat) as int;
        assert(p == (c + n - 1) % m);
        vstd::arithmetic::div_mod::lemma_add_mod_noop(c + n - 1, 1, m);
        vstd::arithmetic::div_mod::lemma_small_mod(1nat, m as nat);
        if p + 1 == m {
            vstd::arithmetic::div_mod::lemma_mod_self_0(m);
        } else {
            vstd::arithmetic::div_mod::lemma_small_mod((p + 1) as nat, m as nat);
        }
    }
}

/// Identifiers taken one after another from the same counter are all
/// different, for as many identifiers as a `usize` can tell apart: the `i`-th
/// and the `j`-th identifier taken from `c` differ when `i < j <= usize::MAX`.
pub proof fn law_identifiers_distinct(c: usize, i: nat, j: nat)
    requires
        i < j <= usize::MAX,
    ensures
        advance_n(c, i) != advance_n(c, j),
{
    lemma_advance_n_mod(c, i);
    lemma_advance_n_mod(c, j);
    let m = usize::MAX as int + 1;
    let a = c + i;
    let b = c + j;
    vstd::arithmetic::div_mod::lemma_fundamental_div_mod(a, m);
    vstd::arithmetic::div_mod::lemma_fundamental_div_mod(b, m);
    if a % m == b % m {
        let qa = a / m;
        let qb = b / m;
        assert(b - a == m * (qb - qa));
        assert(0 < b - a < m);
        assert(false) by (nonlinear_arith)
            requires
                b - a == m * (qb - qa),
                0 < b - a < m,
                m > 0,
        ;
    }
}

/// How many of `kinds` are creates.
pub open spec fn creates(kinds: Seq<RequestKind>) -> nat
    decreases kinds.len(),
{
    if kinds.len() == 0 {
        0
    } else {
        creates(kinds.drop_last()) + if kinds.last() is Create {
            1nat
        } else {
            0nat
        }
    }
}

proof fn lemma_creates_bound(kinds: Seq<RequestKind>)
    ensures
        creates(kinds) <= kinds.len(),
    decreases kinds.len(),
{
    if kinds.len() > 0 {
        lemma_creates_bound(kinds.drop_last());
    }
}

/// From a fresh hypervisor, requests are numbered in call order and task ids
/// in create order: after any `n` requests (`n <= usize::MAX`), of which `c`
/// are creates, the request counter is `n` and the task counter is `c`. So the
/// `k`-th request gets request id `k`, and a create that comes after `j`
/// earlier creates gets task id `j`: the ids are `0, 1, 2, ...`, each once.
pub proof fn law_fresh_counters_number_requests(kinds: Seq<RequestKind>)
    requires
        kinds.len() <= usize::MAX,
    ensures
        after_requests(Hypervisor { request_counter: 0, task_id_counter: 0 }, kinds) == (Hypervisor {
            request_counter: kinds.len() as usize,
            task_id_counter: creates(kinds) as usize,
        }),
    decreases kinds.len(),
{
    if kinds.len() > 0 {
        law_fresh_counters_number_requests(kinds.drop_last());
        lemma_creates_bound(kinds.drop_last());
    }
}

/// Once a task has been created, later creates get larger task ids, and
/// queries and updates take none: between any two moments of a fresh
/// hypervisor's history (within `usize::MAX` requests), the task counter grows
/// by exactly the number of creates in between.
pub proof fn law_task_ids_follow_creates(kinds: Seq<RequestKind>, k1: int, k2: int)
    requires
        kinds.len() <= usize::MAX,
        0 <= k1 <= k2 <= kinds.len(),
    ensures
        after_requests(Hypervisor { request_counter: 0, task_id_counter: 0 }, kinds.take(k2)).task_id_counter
            - after_requests(Hypervisor { request_counter: 0, task_id_counter: 0 }, kinds.take(k1)).task_id_counter
            == creates(kinds.take(k2)) - creates(kinds.take(k1)),
        creates(kinds.take(k1)) <= creates(kinds.take(k2)),
    decreases k2 - k1,
{
    law_fresh_counters_number_requests(kinds.take(k1));
    law_fresh_counters_number_requests(kinds.take(k2));
    lemma_creates_bound(kinds.take(k1));
    lemma_creates_bound(kinds.take(k2));
    if k1 < k2 {
        law_task_ids_follow_creates(kinds, k1, k2 - 1);
        assert(kinds.take(k2).drop_last() =~= kinds.take(k2 - 1));
    }
}

/// A query reads back what was written: once `value` has been stored under
/// `key` in a task's query table, a query for `key` answers `QueryOk` with
/// exactly that value.
pub proof fn law_query_reads_back_write(
    r: TaskResult,
    id: TaskId,
    query_map: Map<Seq<char>, String>,
    req_id: usize,
    key: Seq<char>,
    value: String,
)
    requires
        answers_query(r, id, query_map.insert(key, value), req_id, key),
    ensures
        r == (TaskResult::QueryOk { req_id, id, value }),
{
}

/// An update names a function the task holds exactly when its answer is
/// `UpdateOk`, and then the answer carries a value that function returns; any
/// other answer is the `UpdateError` of that request.
pub proof fn law_update_ok_iff_known<U: FnMut() -> String>(
    r: TaskResult,
    id: TaskId,
    update_map: Map<Seq<char>, U>,
    req_id: usize,
    update_id: Seq<char>,
)
    requires
        answers_update(r, id, update_map, req_id, update_id),
    ensures
        (r is UpdateOk) <==> update_map.contains_key(update_id),
        r is UpdateOk || r is UpdateError,
        r matches TaskResult::UpdateOk { value, .. } ==> call_ensures(update_map[update_id], (), value),
{
}

/// Once a task has been started under `handle` at `started`, a query or an
/// update for it that arrives before the task has been idle for the timeout
/// is handed on to `handle`, unchanged, and renews the task.
pub proof fn law_started_task_receives_requests<'a, C, U, R>(
    tasks: Map<TaskId, LiveTask<C>>,
    id: TaskId,
    handle: C,
    started: u64,
    now: u64,
    msg: Message<U, R>,
    route: Route<'a, C, U, R>,
    after: Map<TaskId, LiveTask<C>>,
)
    requires
        routes(tasks.insert(id, LiveTask { handle, last_active: started }), now, msg, route, after),
        !expired(started, now),
    ensures
        match msg {
            Message::QueryTask { req_id, id: target, query_id, result_tx } => target == id ==> (
            route matches Route::Forward(h, ctl) && *h == handle && ctl == (TaskControl::Query {
                req_id,
                query_id,
                result_tx,
            }) && after[id] == (LiveTask { handle, last_active: now })),
            Message::UpdateTask { req_id, id: target, update_id, result_tx } => target == id ==> (
            route matches Route::Forward(h, ctl) && *h == handle && ctl == (TaskControl::Update {
                req_id,
                update_id,
                result_tx,
            }) && after[id] == (LiveTask { handle, last_active: now })),
            Message::CreateTask { .. } => true,
        },
{
}

/// A query or an update for a task that is not live, because it was never
/// started or has been idle for the timeout, is answered at once, on the
/// request's own reply channel, with `NotFound` for that request and that
/// task; it reaches no task, and an idle task is gone afterwards.
pub proof fn law_unknown_task_refused<'a, C, U, R>(
    tasks: Map<TaskId, LiveTask<C>>,
    now: u64,
    msg: Message<U, R>,
    route: Route<'a, C, U, R>,
    after: Map<TaskId, LiveTask<C>>,
)
    requires
        routes(tasks, now, msg, route, after),
        !(msg is CreateTask),
        match msg {
            Message::QueryTask { id, .. } => !tasks.contains_key(id) || expired(tasks[id].last_active, now),
            Message::UpdateTask { id, .. } => !tasks.contains_key(id) || expired(tasks[id].last_active, now),
            Message::CreateTask { .. } => true,
        },
    ensures
        match msg {
            Message::QueryTask { req_id, id, result_tx, .. } => (route matches Route::Reply(
                tx,
                TaskResult::NotFound { req_id: a, id: b, ctx },
            ) && tx == result_tx && a == req_id && b == id && ctx@ == query_not_found_text()
                && !after.contains_key(id)),
            Message::UpdateTask { req_id, id, result_tx, .. } => (route matches Route::Reply(
                tx,
                TaskResult::NotFound { req_id: a, id: b, ctx },
            ) && tx == result_tx && a == req_id && b == id && ctx@ == update_not_found_text()
                && !after.contains_key(id)),
            Message::CreateTask { .. } => false,
        },
{
}

/// A create that arrives while `MAX_CONCURRENT_TASKS` other tasks are live is
/// answered `Throttled` for that request and that task id, on the request's
/// own reply channel, and starts nothing; any other create starts its task
/// with exactly the id and the tables the message carries.
pub proof fn law_create_throttled_or_started<'a, C, U, R>(
    tasks: Map<TaskId, LiveTask<C>>,
    now: u64,
    msg: Message<U, R>,
    route: Route<'a, C, U, R>,
    after: Map<TaskId, LiveTask<C>>,
)
    requires
        routes(tasks, now, msg, route, after),
        msg is CreateTask,
    ensures
        match msg {
            Message::CreateTask { req_id, id, query_map, update_map, result_tx } => {
                if live_at(tasks, now).dom().len() >= MAX_CONCURRENT_TASKS && !live_at(tasks, now).contains_key(id) {
                    route matches Route::Reply(tx, r) && tx == result_tx && r == (TaskResult::Throttled {
                        req_id,
                        id,
                    })
                } else {
                    route matches Route::Start { req_id: a, id: b, query_map: q, update_map: u } && a
                        == req_id && b == id && q == query_map && u == update_map
                }
            },
            _ => true,
        },
{
}

/// No more than `MAX_CONCURRENT_TASKS` tasks are ever live: if the worker
/// holds at most that many, it still does after it routes a create and, when
/// told to start it, starts it.
pub proof fn law_live_tasks_capped<'a, C, U, R>(
    tasks: Map<TaskId, LiveTask<C>>,
    now: u64,
    msg: Message<U, R>,
    route: Route<'a, C, U, R>,
    after: Map<TaskId, LiveTask<C>>,
    handle: C,
)
    requires
        tasks.dom().finite(),
        tasks.dom().len() <= MAX_CONCURRENT_TASKS,
        routes(tasks, now, msg, route, after),
    ensures
        after.dom().finite(),
        after.dom().len() <= MAX_CONCURRENT_TASKS,
        route matches Route::Start { id, .. } ==> after.insert(
            id,
            LiveTask { handle, last_active: now },
        ).dom().len() <= MAX_CONCURRENT_TASKS,
{
    let live = live_at(tasks, now);
    assert(live.dom().subset_of(tasks.dom()));
    vstd::set_lib::lemma_len_subset(live.dom(), tasks.dom());
    match msg {
        Message::QueryTask { id, .. } => {
            if live.contains_key(id) {
                assert(live.insert(id, LiveTask { handle: live[id].handle, last_active: now }).dom() =~= live.dom());
            }
        },
        Message::UpdateTask { id, .. } => {
            if live.contains_key(id) {
                assert(live.insert(id, LiveTask { handle: live[id].handle, last_active: now }).dom() =~= live.dom());
            }
        },
        Message::CreateTask { id, .. } => {
            if live.contains_key(id) {
                assert(live.insert(id, LiveTask { handle, last_active: now }).dom() =~= live.dom());
            }
        },
    }
}

/// Whatever a task handles in between (updates included), since `handle`
/// keeps its query table, two queries for the same key get the same answer:
/// the same value, or the same error.
pub proof fn law_query_answers_stable<U>(
    tasks: Seq<crate::task::Task<U>>,
    i: int,
    j: int,
    r1: TaskResult,
    r2: TaskResult,
    req1: usize,
    req2: usize,
    key: Seq<char>,
)
    requires
        0 <= i <= j < tasks.len(),
        forall|k: int| #![trigger tasks[k]] 0 <= k < tasks.len() - 1 ==> tasks[k + 1].query_map == tasks[k].query_map && tasks[k + 1].id == tasks[k].id,
        answers_query(r1, tasks[i].id, tasks[i].query_map@, req1, key),
        answers_query(r2, tasks[j].id, tasks[j].query_map@, req2, key),
    ensures
        r1 is QueryOk <==> r2 is QueryOk,
        r1 matches TaskResult::QueryOk { value: v1, .. } ==> r2 matches TaskResult::QueryOk { value: v2, .. } && v1 == v2,
        r1 matches TaskResult::QueryError { msg: m1, .. } ==> r2 matches TaskResult::QueryError { msg: m2, .. } && m1@ == m2@,
    decreases j - i,
{
    if i < j {
        let k = j - 1;
        assert(tasks[k + 1].query_map == tasks[k].query_map && tasks[k + 1].id == tasks[k].id);
        let r_mid = if tasks[k].query_map@.contains_key(key) {
            TaskResult::QueryOk { req_id: req2, id: tasks[k].id, value: tasks[k].query_map@[key] }
        } else {
            r2
        };
        law_query_answers_stable(tasks, i, k, r1, r_mid, req1, req2, key);
    }
}

/// Every task `after` holds, `before` held under the same handle.
pub open spec fn keeps_handles<C>(before: Map<TaskId, LiveTask<C>>, after: Map<TaskId, LiveTask<C>>) -> bool {
    forall|id: TaskId| #[trigger] after.contains_key(id) ==> before.contains_key(id) && after[id].handle
        == before[id].handle
}

/// Routing never brings in a task or swaps a handle: every task the worker
/// holds after a message it held before, under the same handle.
pub proof fn law_routing_keeps_handles<'a, C, U, R>(
    tasks: Map<TaskId, LiveTask<C>>,
    now: u64,
    msg: Message<U, R>,
    route: Route<'a, C, U, R>,
    after: Map<TaskId, LiveTask<C>>,
)
    requires
        routes(tasks, now, msg, route, after),
    ensures
        keeps_handles(tasks, after),
{
}

/// One step in the life of the worker's table: a `start_task` call, or a
/// call of `route` or `expire`.
pub enum WorkerStep<C> {
    Started(TaskId, C, u64),
    Routed,
}

/// `before` may become `after` through `step`: a start registers its handle,
/// and routing keeps handles (`law_routing_keeps_handles`, and `expire` only
/// drops tasks).
pub open spec fn step_allowed<C>(
    before: Map<TaskId, LiveTask<C>>,
    step: WorkerStep<C>,
    after: Map<TaskId, LiveTask<C>>,
) -> bool {
    match step {
        WorkerStep::Started(id, handle, now) => after == before.insert(
            id,
            LiveTask { handle, last_active: now },
        ),
        WorkerStep::Routed => keeps_handles(before, after),
    }
}

/// The handle of the last start of task `id` among `steps`, if any.
pub open spec fn last_started<C>(steps: Seq<WorkerStep<C>>, id: TaskId) -> Option<C>
    decreases steps.len(),
{
    if steps.len() == 0 {
        None
    } else {
        match steps.last() {
            WorkerStep::Started(i, handle, _) => if i == id {
                Some(handle)
            } else {
                last_started(steps.drop_last(), id)
            },
            WorkerStep::Routed => last_started(steps.drop_last(), id),
        }
    }
}

/// Over any history of a worker that starts empty, every task it holds sits
/// under the handle of the last start of that task: so a request that the
/// worker hands on reaches the task made by the last create of its id.
pub proof fn law_handles_come_from_last_start<C>(
    states: Seq<Map<TaskId, LiveTask<C>>>,
    steps: Seq<WorkerStep<C>>,
)
    requires
        states.len() == steps.len() + 1,
        states[0] == Map::<TaskId, LiveTask<C>>::empty(),
        forall|k: int| #![trigger steps[k]] 0 <= k < steps.len() ==> step_allowed(states[k], steps[k], states[k + 1]),
    ensures
        forall|id: TaskId| #[trigger] states.last().contains_key(id) ==> last_started(steps, id) == Some(
            states.last()[id].handle,
        ),
    decreases steps.len(),
{
    if steps.len() > 0 {
        let n = steps.len() as int;
        let ps = states.drop_last();
        let pt = steps.drop_last();
        assert forall|k: int| #![trigger pt[k]] 0 <= k < pt.len() implies step_allowed(ps[k], pt[k], ps[k + 1]) by {
            assert(pt[k] == steps[k]);
        }
        law_handles_come_from_last_start(ps, pt);
        assert(step_allowed(states[n - 1], steps[n - 1], states[n]));
        assert(ps.last() == states[n - 1]);
    }
}

/// A table gives back what was written into it: once `insert(key, value)`
/// has turned `before` into `after`, a lookup of `key` in `after` finds
/// `value`, and every other key reads as in `before`.
pub proof fn law_table_reads_back_write<V>(
    before: KeyedTable<V>,
    after: KeyedTable<V>,
    key: String,
    value: V,
    other: Seq<char>,
)
    requires
        after@ == before@.insert(key@, value),
        other != key@,
    ensures
        after@.contains_key(key@),
        after@[key@] == value,
        after@.contains_key(other) == before@.contains_key(other),
        before@.contains_key(other) ==> after@[other] == before@[other],
{
}

/// The tasks still live at `now` are exactly those whose last activity lies
/// less than `TASK_TIMEOUT` seconds, counted in milliseconds, before `now`;
/// they keep their handle and their time. A task active at any millisecond
/// `t` is live at every `now < t + TASK_TIMEOUT * 1000`.
pub proof fn law_live_in_milliseconds<C>(before: Map<TaskId, LiveTask<C>>, now: u64)
    ensures
        forall|k: TaskId| #[trigger] live_at(before, now).contains_key(k) <==> (before.contains_key(k)
            && before[k].last_active + TASK_TIMEOUT * 1000 > now),
        forall|k: TaskId| #[trigger] live_at(before, now).contains_key(k) ==> live_at(before, now)[k]
            == before[k],
{
}

/// A message renews at most the one task it is for: every other task is kept
/// exactly as it was, with its own last activity, when it is still within
/// `TASK_TIMEOUT` of `now`, and is gone otherwise; the task a query or an
/// update is for is kept, renewed to `now`, exactly when it is still within
/// the timeout. A create renews no task.
pub proof fn law_request_renews_only_its_task<'a, C, U, R>(
    before: Map<TaskId, LiveTask<C>>,
    now: u64,
    msg: Message<U, R>,
    route: Route<'a, C, U, R>,
    after: Map<TaskId, LiveTask<C>>,
)
    requires
        routes(before, now, msg, route, after),
    ensures
        forall|k: TaskId|
            !(msg matches Message::QueryTask { id, .. } && id == k) && !(msg matches Message::UpdateTask {
                id,
                ..
            } && id == k) ==> {
                &&& (#[trigger] after.contains_key(k) <==> before.contains_key(k)
                    && before[k].last_active + TASK_TIMEOUT * 1000 > now)
                &&& after.contains_key(k) ==> after[k] == before[k]
            },
        match msg {
            Message::QueryTask { id, .. } => {
                &&& (after.contains_key(id) <==> before.contains_key(id) && before[id].last_active
                    + TASK_TIMEOUT * 1000 > now)
                &&& after.contains_key(id) ==> after[id] == (LiveTask {
                    handle: before[id].handle,
                    last_active: now,
                })
                &&& (route is Forward <==> after.contains_key(id))
            },
            Message::UpdateTask { id, .. } => {
                &&& (after.contains_key(id) <==> before.contains_key(id) && before[id].last_active
                    + TASK_TIMEOUT * 1000 > now)
                &&& after.contains_key(id) ==> after[id] == (LiveTask {
                    handle: before[id].handle,
                    last_active: now,
                })
                &&& (route is Forward <==> after.contains_key(id))
            },
            Message::CreateTask { .. } => !(route is Forward),
        },
{
    law_live_in_milliseconds(before, now);
}

/// Every answer a task gives carries the request's id and the task's own id;
/// an error carries the whole name that was asked for, inside the fixed
/// words, and an update that succeeds carries what the function returned.
pub proof fn law_answers_name_request_and_task<U: FnMut() -> String>(
    rq: TaskResult,
    ru: TaskResult,
    id: TaskId,
    query_map: Map<Seq<char>, String>,
    update_map: Map<Seq<char>, U>,
    req_id: usize,
    key: Seq<char>,
)
    requires
        answers_query(rq, id, query_map, req_id, key),
        answers_update(ru, id, update_map, req_id, key),
    ensures
        rq matches TaskResult::QueryOk { req_id: a, id: b, value } ==> a == req_id && b == id
            && query_map.contains_key(key) && value == query_map[key],
        rq matches TaskResult::QueryError { req_id: a, id: b, msg } ==> a == req_id && b == id
            && !query_map.contains_key(key) && msg@ == "Query ID '"@ + key + "' not found"@,
        rq is QueryOk || rq is QueryError,
        ru matches TaskResult::UpdateOk { req_id: a, id: b, value } ==> a == req_id && b == id
            && update_map.contains_key(key) && call_ensures(update_map[key], (), value),
        ru matches TaskResult::UpdateError { req_id: a, id: b, msg } ==> a == req_id && b == id
            && !update_map.contains_key(key) && msg@ == "Update ID '"@ + key + "' not found"@,
        ru is UpdateOk || ru is UpdateError,
{
}

/// The part of a report line that does not depend on the carried text.
pub open spec fn line_split(line: Seq<char>, text: Seq<char>) -> int {
    line.len() - text.len()
}

/// A report line is a head that depends only on the kind of result, the
/// request id and the task id, followed by the whole carried text (a query's
/// value, an error's message, a not-found context), cut nowhere: two results
/// of the same kind and ids give lines with the same head. A successful
/// update's line does not show the value it carries.
pub proof fn law_report_line_ends_with_whole_text(
    req_id: usize,
    id: TaskId,
    t1: String,
    t2: String,
    c1: &'static str,
    c2: &'static str,
)
    ensures
        ({
            let l1 = log_text(TaskResult::QueryOk { req_id, id, value: t1 });
            let l2 = log_text(TaskResult::QueryOk { req_id, id, value: t2 });
            &&& l1.len() >= t1@.len()
            &&& l1.skip(line_split(l1, t1@)) == t1@
            &&& l1.take(line_split(l1, t1@)) == l2.take(line_split(l2, t2@))
        }),
        ({
            let l1 = log_text(TaskResult::QueryError { req_id, id, msg: t1 });
            let l2 = log_text(TaskResult::QueryError { req_id, id, msg: t2 });
            &&& l1.len() >= t1@.len()
            &&& l1.skip(line_split(l1, t1@)) == t1@
            &&& l1.take(line_split(l1, t1@)) == l2.take(line_split(l2, t2@))
        }),
        ({
            let l1 = log_text(TaskResult::UpdateError { req_id, id, msg: t1 });
            let l2 = log_text(TaskResult::UpdateError { req_id, id, msg: t2 });
            &&& l1.len() >= t1@.len()
            &&& l1.skip(line_split(l1, t1@)) == t1@
            &&& l1.take(line_split(l1, t1@)) == l2.take(line_split(l2, t2@))
        }),
        ({
            let l1 = log_text(TaskResult::NotFound { req_id, id, ctx: c1 });
            let l2 = log_text(TaskResult::NotFound { req_id, id, ctx: c2 });
            &&& l1.len() >= c1@.len()
            &&& l1.skip(line_split(l1, c1@)) == c1@
            &&& l1.take(line_split(l1, c1@)) == l2.take(line_split(l2, c2@))
        }),
        log_text(TaskResult::UpdateOk { req_id, id, value: t1 }) == log_text(
            TaskResult::UpdateOk { req_id, id, value: t2 },
        ),
{
    let h1 = "[req:"@ + decimal(req_id as nat) + "] Query result for task "@ + decimal(id as nat) + ": "@;
    assert((h1 + t1@).skip(h1.len() as int) =~= t1@);
    assert((h1 + t1@).take(h1.len() as int) =~= h1);
    assert((h1 + t2@).take(h1.len() as int) =~= h1);
    let h2 = "[req:"@ + decimal(req_id as nat) + "] Query failed for task "@ + decimal(id as nat) + ": "@;
    assert((h2 + t1@).skip(h2.len() as int) =~= t1@);
    assert((h2 + t1@).take(h2.len() as int) =~= h2);
    assert((h2 + t2@).take(h2.len() as int) =~= h2);
    let h3 = "[req:"@ + decimal(req_id as nat) + "] Update failed for task "@ + decimal(id as nat) + ": "@;
    assert((h3 + t1@).skip(h3.len() as int) =~= t1@);
    assert((h3 + t1@).take(h3.len() as int) =~= h3);
    assert((h3 + t2@).take(h3.len() as int) =~= h3);
    let h4 = "[req:"@ + decimal(req_id as nat) + "] Task "@ + decimal(id as nat) + " not found: "@;
    assert((h4 + c1@).skip(h4.len() as int) =~= c1@);
    assert((h4 + c1@).take(h4.len() as int) =~= h4);
    assert((h4 + c2@).take(h4.len() as int) =~= h4);
}

/// The decimal value of the digits `s` after the value `acc`, read from the
/// left.
pub open spec fn digits_value(acc: nat, s: Seq<char>) -> nat
    decreases s.len(),
{
    if s.len() == 0 {
        acc
    } else {
        digits_value(acc * 10 + (s[0] as nat - '0' as nat) as nat, s.drop_first())
    }
}

proof fn lemma_script_concat_a(s: Seq<char>, t: Seq<char>, pending: Option<nat>)
    ensures
        script_steps(s + seq!['a'] + t, pending) == script_steps(s, pending) + seq![ProcessStep::Arithmetic]
            + script_steps(t, None),
    decreases s.len(),
{
    let whole = s + seq!['a'] + t;
    if s.len() == 0 {
        assert(whole =~= seq!['a'] + t);
        assert(whole.drop_first() =~= t);
    } else {
        assert(whole[0] == s[0]);
        assert(whole.drop_first() =~= s.drop_first() + seq!['a'] + t);
        let before = match pending {
            Some(n) => n,
            None => 0,
        };
        let next = if '0' <= s[0] && s[0] <= '9' {
            Some(before * 10 + (s[0] as nat - '0' as nat) as nat)
        } else {
            None
        };
        lemma_script_concat_a(s.drop_first(), t, next);
        assert(script_steps(whole, pending) =~= script_steps(s, pending) + seq![ProcessStep::Arithmetic]
            + script_steps(t, None));
    }
}

/// A script is cut by each `a`: the steps of `s`, then `a`, then `t` are the
/// steps of `s`, one arithmetic step, and the steps of `t`, whatever `s` and
/// `t` hold.
pub proof fn law_script_splits_at_a(s: Seq<char>, t: Seq<char>)
    ensures
        script_steps(s + seq!['a'] + t, None) == script_steps(s, None) + seq![ProcessStep::Arithmetic]
            + script_steps(t, None),
{
    lemma_script_concat_a(s, t, None);
}

proof fn lemma_digits_script(s: Seq<char>, acc: nat)
    requires
        forall|j: int| 0 <= j < s.len() ==> '0' <= #[trigger] s[j] && s[j] <= '9',
    ensures
        script_steps(s, Some(acc)) == seq![
            ProcessStep::Sleep(
                if digits_value(acc, s) > u64::MAX {
                    u64::MAX
                } else {
                    digits_value(acc, s) as u64
                },
            ),
        ],
    decreases s.len(),
{
    if s.len() > 0 {
        assert(s[0] == s[0]);
        let t = s.drop_first();
        assert forall|j: int| 0 <= j < t.len() implies '0' <= #[trigger] t[j] && t[j] <= '9' by {
            assert(t[j] == s[j + 1]);
        }
        lemma_digits_script(t, acc * 10 + (s[0] as nat - '0' as nat) as nat);
    }
}

/// A script made only of digits is one sleep of their decimal value (the
/// largest `u64` when the value is larger).
pub proof fn law_digits_script_is_one_sleep(s: Seq<char>)
    requires
        s.len() > 0,
        forall|j: int| 0 <= j < s.len() ==> '0' <= #[trigger] s[j] && s[j] <= '9',
    ensures
        script_steps(s, None) == seq![
            ProcessStep::Sleep(
                if digits_value(0, s) > u64::MAX {
                    u64::MAX
                } else {
                    digits_value(0, s) as u64
                },
            ),
        ],
{
    assert(s[0] == s[0]);
    let t = s.drop_first();
    assert forall|j: int| 0 <= j < t.len() implies '0' <= #[trigger] t[j] && t[j] <= '9' by {
        assert(t[j] == s[j + 1]);
    }
    lemma_digits_script(t, (s[0] as nat - '0' as nat) as nat);
    assert(digits_value(0, s) == digits_value((s[0] as nat - '0' as nat) as nat, t));
}

proof fn lemma_digits_value_push(acc: nat, s: Seq<char>, c: char)
    ensures
        digits_value(acc, s.push(c)) == digits_value(acc, s) * 10 + (c as nat - '0' as nat) as nat,
    decreases s.len(),
{
    if s.len() == 0 {
        reveal_with_fuel(digits_value, 2);
        assert(s.push(c)[0] == c);
        assert(s.push(c).drop_first() =~= Seq::<char>::empty());
    } else {
        let a2 = acc * 10 + (s[0] as nat - '0' as nat) as nat;
        assert(s.push(c)[0] == s[0]);
        assert(s.push(c).drop_first() =~= s.drop_first().push(c));
        lemma_digits_value_push(a2, s.drop_first(), c);
        assert(digits_value(acc, s.push(c)) == digits_value(a2, s.drop_first().push(c)));
        assert(digits_value(acc, s) == digits_value(a2, s.drop_first()));
    }
}

/// The decimal notation of `n` is a non-empty run of digits whose value is
/// `n`, with no leading zero unless `n` is 0.
pub proof fn law_decimal_reads_back(n: nat)
    ensures
        decimal(n).len() > 0,
        forall|j: int| 0 <= j < decimal(n).len() ==> '0' <= #[trigger] decimal(n)[j] && decimal(n)[j] <= '9',
        digits_value(0, decimal(n)) == n,
        n > 0 ==> decimal(n)[0] != '0',
    decreases n,
{
    if n < 10 {
        let c = (48 + n) as char;
        assert(c as nat == 48 + n);
        assert(decimal(n) =~= seq![c]);
        assert(seq![c][0] == c);
        reveal_with_fuel(digits_value, 2);
        assert(seq![c].drop_first() =~= Seq::<char>::empty());
    } else {
        law_decimal_reads_back(n / 10);
        let c = (48 + n % 10) as char;
        assert(c as nat == 48 + n % 10);
        lemma_digits_value_push(0, decimal(n / 10), c);
        vstd::arithmetic::div_mod::lemma_fundamental_div_mod(n as int, 10);
        assert(decimal(n) == decimal(n / 10).push(c));
        assert forall|j: int| 0 <= j < decimal(n).len() implies '0' <= #[trigger] decimal(n)[j]
            && decimal(n)[j] <= '9' by {
            if j < decimal(n / 10).len() {
                assert(decimal(n)[j] == decimal(n / 10)[j]);
            }
        }
        assert(decimal(n)[0] == decimal(n / 10)[0]);
    }
}

} // verus!
