use server_worker_sim::hypervisor::Hypervisor;
use server_worker_sim::message::{Message, TaskResult};
use server_worker_sim::table::KeyedTable;
use server_worker_sim::task::Task;
use server_worker_sim::worker::{Route, Worker};
use server_worker_sim::{MAX_CONCURRENT_TASKS, TASK_TIMEOUT};
use std::cell::Cell;
use std::collections::HashMap;
use std::rc::Rc;

type Update = Box<dyn FnMut() -> String>;

/// Runs the hypervisor, the worker and the tasks in one thread, one message
/// at a time, on a clock in milliseconds that only `sleep` moves, and keeps
/// every answer.
struct ServerThread {
    hv: Hypervisor,
    worker: Worker<usize>,
    tasks: Vec<Task<Update>>,
    results: Vec<TaskResult>,
    now: u64,
}

fn table<V>(m: HashMap<String, V>) -> KeyedTable<V> {
    let mut t = KeyedTable::new();
    for (k, v) in m {
        t.insert(k, v);
    }
    t
}

fn req_of(r: &TaskResult) -> usize {
    match r {
        TaskResult::QueryOk { req_id, .. }
        | TaskResult::QueryError { req_id, .. }
        | TaskResult::UpdateOk { req_id, .. }
        | TaskResult::UpdateError { req_id, .. }
        | TaskResult::NotFound { req_id, .. }
        | TaskResult::Throttled { req_id, .. } => *req_id,
    }
}

impl ServerThread {
    fn new() -> Self {
        ServerThread {
            hv: Hypervisor::new(),
            worker: Worker::new(),
            tasks: Vec::new(),
            results: Vec::new(),
            now: 0,
        }
    }

    fn sleep(&mut self, secs: u64) {
        self.now += secs * 1000;
    }

    fn deliver(&mut self, msg: Message<Update, ()>) {
        let now = self.now;
        let route = self.worker.route(msg, now);
        match route {
            Route::Start { id, query_map, update_map, .. } => {
                let slot = self.tasks.len();
                let task = self.worker.start_task(id, query_map, update_map, slot, now);
                self.tasks.push(task);
            }
            Route::Forward(slot, ctl) => {
                let slot = *slot;
                let ((), r) = self.tasks[slot].handle(ctl);
                self.results.push(r);
            }
            Route::Reply((), r) => self.results.push(r),
        }
    }

    fn create_task(&mut self, query_map: HashMap<String, String>, update_map: HashMap<String, Update>) -> usize {
        let (id, msg) = self.hv.create_task(table(query_map), table(update_map), ());
        self.deliver(msg);
        id
    }

    fn query_task(&mut self, id: usize, query_id: &str) {
        let msg = self.hv.query_task(id, query_id, ());
        self.deliver(msg);
    }

    fn update_task(&mut self, id: usize, update_id: &str) {
        let msg = self.hv.update_task(id, update_id, ());
        self.deliver(msg);
    }

    fn join_listener(&self) {}

    fn expect(&self, req_id: usize, expected: &TaskResult) -> bool {
        self.results.iter().any(|r| req_of(r) == req_id && r == expected)
    }
}

#[test]
fn test_simple_success() {
    let mut s = ServerThread::new();

    let mut query_map = HashMap::new();
    query_map.insert("status".into(), "running".into());
    let task_id = s.create_task(query_map, HashMap::new());
    s.query_task(task_id, "status");
    s.join_listener();

    assert!(s.expect(1, &TaskResult::QueryOk {
        req_id: 1,
        id: task_id,
        value: "running".into()
    }));
}

#[test]
fn test_query_after_completion() {
    let mut s = ServerThread::new();
    let mut query_map = HashMap::new();
    query_map.insert("status".into(), "running".into());
    let task_id = s.create_task(query_map, HashMap::new());
    s.sleep(TASK_TIMEOUT + 1);
    s.query_task(task_id, "status");
    s.join_listener();

    assert!(s.expect(1, &TaskResult::NotFound {
        req_id: 1,
        id: task_id,
        ctx: "Task not found for query"
    }));
}

#[test]
fn test_query_missing_key_in_task() {
    let mut s = ServerThread::new();
    let task_id = s.create_task([("status".into(), "running".into())].into(), HashMap::new());
    s.query_task(task_id, "nonexistent_key");
    s.join_listener();

    assert!(s.expect(1, &TaskResult::QueryError {
        req_id: 1,
        id: task_id,
        msg: "Query ID 'nonexistent_key' not found".into()
    }));
}

#[test]
fn test_update_missing_id_in_task() {
    let mut s = ServerThread::new();
    let task_id = s.create_task([("info".into(), "test".into())].into(), HashMap::new());
    s.update_task(task_id, "bad_update_id");
    s.join_listener();

    assert!(s.expect(1, &TaskResult::UpdateError {
        req_id: 1,
        id: task_id,
        msg: "Update ID 'bad_update_id' not found".into()
    }));
}

#[test]
fn test_query_nonexistent_task() {
    let mut s = ServerThread::new();
    s.query_task(999, "any_key");
    s.join_listener();

    assert!(s.expect(0, &TaskResult::NotFound {
        req_id: 0,
        id: 999,
        ctx: "Task not found for query"
    }));
}

#[test]
fn test_update_nonexistent_task() {
    let mut s = ServerThread::new();
    s.update_task(888, "some_update");
    s.join_listener();

    assert!(s.expect(0, &TaskResult::NotFound {
        req_id: 0,
        id: 888,
        ctx: "Task not found for update"
    }));
}

#[test]
fn test_task_throttling_behavior() {
    let mut s = ServerThread::new();
    let mut throttled_ids = vec![];

    for i in 0..6 {
        let id = s.create_task(
            [("get_status".into(), "idle".into())].into(),
            [("mark_done".into(), Box::new(|| "Done".to_string()) as Box<dyn FnMut() -> String>)].into()
        );
        if i >= MAX_CONCURRENT_TASKS {
            throttled_ids.push((i , id));
        }
    }

    s.join_listener();
    for (req_id, id) in throttled_ids {
        assert!(s.expect(req_id, &TaskResult::Throttled { req_id, id }));
    }
}

#[test]
fn test_queried_task_w_throttled_tasks() {
    let mut s = ServerThread::new();
    let mut task_id = [0; 6];
    for i in 0..6 {
        task_id[i] = s.create_task(
            [("get_status".into(), "idle".into())].into(),
            [("mark_done".into(), Box::new(|| "done".to_string()) as Box<dyn FnMut() -> String>)].into()
        );
    }

    s.query_task(task_id[0], "get_status");     // req_id: 6
    s.update_task(task_id[1], "mark_done");     // req_id: 7
    s.query_task(task_id[2], "get_status");     // req_id: 8
    s.query_task(task_id[0], "invalid_query");  // req_id: 9

    s.join_listener();

    // 4 extra tasks were throttled: task_id[4] and task_id[5]
    assert!(s.expect(4, &TaskResult::Throttled {
        req_id: 4,
        id: task_id[4],
    }));
    assert!(s.expect(5, &TaskResult::Throttled {
        req_id: 5,
        id: task_id[5],
    }));

    assert!(s.expect(6, &TaskResult::QueryOk {
        req_id: 6,
        id: task_id[0],
        value: "idle".into()
    }));
    assert!(s.expect(7, &TaskResult::UpdateOk {
        req_id: 7,
        id: task_id[1],
        value: "done".into()
    }));
    assert!(s.expect(8, &TaskResult::QueryOk {
        req_id: 8,
        id: task_id[2],
        value: "idle".into()
    }));
    assert!(s.expect(9, &TaskResult::QueryError {
        req_id: 9,
        id: task_id[0],
        msg: "Query ID 'invalid_query' not found".into()
    }));
}

#[test]
fn test_multiple_queries_in_quick_succession() {
    let mut s = ServerThread::new();
    let task_id = s.create_task(
        [("status".into(), "busy".into())].into(),
        HashMap::new(),
    );

    for _ in 0..10 {
        s.query_task(task_id, "status");
    }

    s.join_listener();

    for i in 1..=10 {
        assert!(s.expect(i, &TaskResult::QueryOk {
            req_id: i,
            id: task_id,
            value: "busy".into()
        }));
    }
}

#[test]
fn test_throttling_recovery_after_timeout() {
    let mut s = ServerThread::new();
    let mut task_ids = vec![];

    for _ in 0..MAX_CONCURRENT_TASKS {
        let id = s.create_task([("info".into(), "live".into())].into(), HashMap::new());
        task_ids.push(id);
    }

    // these should be throttled
    let throttled_id_1 = s.create_task([("info".into(), "extra".into())].into(), HashMap::new()); // req_id: 4
    let throttled_id_2 = s.create_task([("info".into(), "extra".into())].into(), HashMap::new()); // req_id: 5

    s.sleep(TASK_TIMEOUT + 1);

    let retry_id = s.create_task([("info".into(), "retry".into())].into(), HashMap::new()); // req_id: 6
    s.query_task(retry_id, "info"); // req_id: 7

    s.join_listener();

    assert!(s.expect(4, &TaskResult::Throttled {
        req_id: 4,
        id: throttled_id_1
    }));
    assert!(s.expect(5, &TaskResult::Throttled {
        req_id: 5,
        id: throttled_id_2
    }));
    assert!(s.expect(7, &TaskResult::QueryOk {
        req_id: 7,
        id: retry_id,
        value: "retry".into()
    }));
}

#[test]
fn program_scenario_six_tasks() {
    let runs = Rc::new(Cell::new(0u32));
    let mut s = ServerThread::new();
    let mut task_id = [0; 6];
    for i in 0..6 {
        let r = runs.clone();
        let mut updates: HashMap<String, Update> = HashMap::new();
        updates.insert("mark_done".into(), Box::new(move || {
            r.set(r.get() + 1);
            "Marked done".to_string()
        }));
        task_id[i] = s.create_task([("get_status".into(), "idle".into())].into(), updates);
    }
    assert_eq!(task_id, [0, 1, 2, 3, 4, 5]);
    s.query_task(task_id[0], "get_status");
    s.update_task(task_id[0], "mark_done");
    s.query_task(task_id[0], "invalid_query");
    assert_eq!(s.results, vec![
        TaskResult::Throttled { req_id: 4, id: 4 },
        TaskResult::Throttled { req_id: 5, id: 5 },
        TaskResult::QueryOk { req_id: 6, id: 0, value: "idle".into() },
        TaskResult::UpdateOk { req_id: 7, id: 0, value: "Marked done".into() },
        TaskResult::QueryError { req_id: 8, id: 0, msg: "Query ID 'invalid_query' not found".into() },
    ]);
    assert_eq!(runs.get(), 1);
}

#[test]
fn update_runs_only_the_named_function() {
    let a = Rc::new(Cell::new(0u32));
    let b = Rc::new(Cell::new(0u32));
    let (a2, b2) = (a.clone(), b.clone());
    let mut updates: HashMap<String, Update> = HashMap::new();
    updates.insert("a".into(), Box::new(move || {
        a2.set(a2.get() + 1);
        format!("a{}", a2.get())
    }));
    updates.insert("b".into(), Box::new(move || {
        b2.set(b2.get() + 1);
        "b".to_string()
    }));
    let mut s = ServerThread::new();
    let id = s.create_task(HashMap::new(), updates);
    s.update_task(id, "a");
    s.update_task(id, "a");
    s.update_task(id, "c");
    assert_eq!((a.get(), b.get()), (2, 0));
    assert!(s.expect(1, &TaskResult::UpdateOk { req_id: 1, id, value: "a1".into() }));
    assert!(s.expect(2, &TaskResult::UpdateOk { req_id: 2, id, value: "a2".into() }));
    assert!(s.expect(3, &TaskResult::UpdateError { req_id: 3, id, msg: "Update ID 'c' not found".into() }));
}

#[test]
fn requests_keep_a_task_alive() {
    let mut s = ServerThread::new();
    let id = s.create_task([("k".into(), "v".into())].into(), HashMap::new());
    for _ in 0..3 {
        s.sleep(TASK_TIMEOUT - 1);
        s.query_task(id, "k");
    }
    assert_eq!(s.results.len(), 3);
    assert!(s.results.iter().all(|r| matches!(r, TaskResult::QueryOk { .. })));
    s.sleep(TASK_TIMEOUT);
    s.update_task(id, "k");
    assert_eq!(s.results[3], TaskResult::NotFound { req_id: 4, id, ctx: "Task not found for update" });
}

#[test]
fn queries_to_a_second_task_reach_that_task() {
    let mut s = ServerThread::new();
    let first = s.create_task([("k".into(), "one".into())].into(), HashMap::new());
    let second = s.create_task([("k".into(), "two".into())].into(), HashMap::new());
    assert_eq!((first, second), (0, 1));
    s.query_task(second, "k");
    s.query_task(first, "k");
    assert_eq!(s.results, vec![
        TaskResult::QueryOk { req_id: 2, id: 1, value: "two".into() },
        TaskResult::QueryOk { req_id: 3, id: 0, value: "one".into() },
    ]);
}
