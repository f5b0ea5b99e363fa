use server_worker_sim::hypervisor::Hypervisor;
use server_worker_sim::message::{query_error_message, update_error_message, Message, TaskControl, TaskResult};
use server_worker_sim::table::KeyedTable;
use server_worker_sim::task::Task;
use server_worker_sim::worker::{Route, Worker};
use server_worker_sim::{MAX_CONCURRENT_TASKS, TASK_TIMEOUT};

#[test]
fn table_reads_back_what_was_written() {
    let mut t: KeyedTable<String> = KeyedTable::new();
    assert_eq!(t.get(&"x".to_string()), None);
    assert_eq!(t.insert("x".into(), "1".into()), None);
    assert_eq!(t.insert("y".into(), "2".into()), None);
    assert_eq!(t.insert("x".into(), "3".into()), Some("1".to_string()));
    assert_eq!(t.get(&"x".to_string()), Some(&"3".to_string()));
    assert_eq!(t.get(&"y".to_string()), Some(&"2".to_string()));
    assert!(t.contains_key(&"y".to_string()));
    assert!(!t.contains_key(&"z".to_string()));
}

#[test]
fn table_call_runs_the_stored_function() {
    let mut hits = 0;
    {
        let mut t: KeyedTable<Box<dyn FnMut() -> String + '_>> = KeyedTable::new();
        t.insert("go".into(), Box::new(|| {
            hits += 1;
            format!("hit {}", hits)
        }));
        assert_eq!(t.call(&"go".to_string()), Some("hit 1".to_string()));
        assert_eq!(t.call(&"go".to_string()), Some("hit 2".to_string()));
        assert_eq!(t.call(&"stop".to_string()), None);
    }
    assert_eq!(hits, 2);
}

#[test]
fn identifiers_count_up_and_wrap() {
    let mut h = Hypervisor::new();
    assert_eq!(h.next_req_id(), 0);
    assert_eq!(h.next_req_id(), 1);
    assert_eq!(h.next_task_id(), 0);
    assert_eq!(h.request_counter, 2);
    assert_eq!(h.task_id_counter, 1);
    h.request_counter = usize::MAX;
    assert_eq!(h.next_req_id(), usize::MAX);
    assert_eq!(h.next_req_id(), 0);
    h.task_id_counter = usize::MAX;
    assert_eq!(h.next_task_id(), usize::MAX);
    assert_eq!(h.next_task_id(), 0);
}

#[test]
fn create_takes_one_request_id_and_one_task_id() {
    let mut h = Hypervisor::new();
    h.request_counter = 7;
    h.task_id_counter = 3;
    let (id, msg) = h.create_task::<fn(), u8>(KeyedTable::new(), KeyedTable::new(), 9);
    assert_eq!(id, 3);
    match msg {
        Message::CreateTask { req_id, id, result_tx, .. } => assert_eq!((req_id, id, result_tx), (7, 3, 9)),
        _ => panic!("not a create message"),
    }
    let q: Message<fn(), u8> = h.query_task(3, "k", 1);
    match q {
        Message::QueryTask { req_id, id, query_id, result_tx } => {
            assert_eq!((req_id, id, query_id.as_str(), result_tx), (8, 3, "k", 1))
        }
        _ => panic!("not a query message"),
    }
    let u: Message<fn(), u8> = h.update_task(3, "u", 2);
    match u {
        Message::UpdateTask { req_id, id, update_id, result_tx } => {
            assert_eq!((req_id, id, update_id.as_str(), result_tx), (9, 3, "u", 2))
        }
        _ => panic!("not an update message"),
    }
    assert_eq!((h.request_counter, h.task_id_counter), (10, 4));
}

#[test]
fn error_texts() {
    assert_eq!(query_error_message(&"abc".to_string()), "Query ID 'abc' not found");
    assert_eq!(update_error_message(&"".to_string()), "Update ID '' not found");
}

#[test]
fn log_lines() {
    let r = TaskResult::QueryOk { req_id: 12, id: 3, value: "idle".into() };
    assert_eq!(r.log_line(), "[req:12] Query result for task 3: idle");
    let r = TaskResult::QueryError { req_id: 0, id: 0, msg: "Query ID 'x' not found".into() };
    assert_eq!(r.log_line(), "[req:0] Query failed for task 0: Query ID 'x' not found");
    let r = TaskResult::UpdateOk { req_id: 7, id: 105, value: "done".into() };
    assert_eq!(r.log_line(), "[req:7] Update OK for task 105");
    let r = TaskResult::Throttled { req_id: 4, id: 40 };
    assert_eq!(r.log_line(), "[req:4] Task 40 throttled");
    let r = TaskResult::UpdateError { req_id: 8, id: 1, msg: "Update ID 'y' not found".into() };
    assert_eq!(r.log_line(), "[req:8] Update failed for task 1: Update ID 'y' not found");
    let r = TaskResult::NotFound { req_id: 18446744073709551615, id: 999, ctx: "Task not found for query" };
    assert_eq!(r.log_line(), "[req:18446744073709551615] Task 999 not found: Task not found for query");
}

#[test]
fn worker_routes_by_task_id() {
    let mut w: Worker<&str> = Worker::new();
    let m: Message<fn(), u8> = Message::QueryTask { req_id: 4, id: 2, query_id: "q".into(), result_tx: 5 };
    match w.route(m, 1000) {
        Route::Reply(tx, r) => {
            assert_eq!(tx, 5);
            assert_eq!(r, TaskResult::NotFound { req_id: 4, id: 2, ctx: "Task not found for query" });
        }
        _ => panic!("expected a reply"),
    }
    let _task: Task<fn() -> String> = w.start_task(2, KeyedTable::new(), KeyedTable::new(), "first", 0);
    let _task: Task<fn() -> String> = w.start_task(2, KeyedTable::new(), KeyedTable::new(), "second", 0);
    assert_eq!(w.len(), 1);
    let m: Message<fn(), u8> = Message::UpdateTask { req_id: 6, id: 2, update_id: "u".into(), result_tx: 5 };
    match w.route(m, 1000) {
        Route::Forward(h, TaskControl::Update { req_id, update_id, result_tx }) => {
            assert_eq!((*h, req_id, update_id.as_str(), result_tx), ("second", 6, "u", 5));
        }
        _ => panic!("expected a forward"),
    }
    let m: Message<fn(), u8> = Message::UpdateTask { req_id: 7, id: 3, update_id: "u".into(), result_tx: 5 };
    match w.route(m, 1000) {
        Route::Reply(_, r) => {
            assert_eq!(r, TaskResult::NotFound { req_id: 7, id: 3, ctx: "Task not found for update" })
        }
        _ => panic!("expected a reply"),
    }
}

#[test]
fn task_answers_queries_from_its_table() {
    let mut q = KeyedTable::new();
    q.insert("status".into(), "running".into());
    let mut task: Task<fn() -> String> = Task { id: 4, query_map: q, update_map: KeyedTable::new() };
    let (tx, r) = task.handle(TaskControl::Query { req_id: 2, query_id: "status".into(), result_tx: 'a' });
    assert_eq!(tx, 'a');
    assert_eq!(r, TaskResult::QueryOk { req_id: 2, id: 4, value: "running".into() });
    let (_, r) = task.handle(TaskControl::Query { req_id: 3, query_id: "other".into(), result_tx: 'b' });
    assert_eq!(r, TaskResult::QueryError { req_id: 3, id: 4, msg: "Query ID 'other' not found".into() });
}

#[test]
fn worker_throttles_and_expires() {
    let mut w: Worker<u32> = Worker::new();
    for id in 0..MAX_CONCURRENT_TASKS {
        let _t: Task<fn() -> String> = w.start_task(id, KeyedTable::new(), KeyedTable::new(), id as u32, 0);
    }
    let create = |req_id: usize, id: usize| -> Message<fn() -> String, u8> {
        Message::CreateTask { req_id, id, query_map: KeyedTable::new(), update_map: KeyedTable::new(), result_tx: 1 }
    };
    match w.route(create(10, 9), 1999) {
        Route::Reply(_, r) => assert_eq!(r, TaskResult::Throttled { req_id: 10, id: 9 }),
        _ => panic!("expected throttling"),
    }
    match w.route(create(11, 2), 1999) {
        Route::Start { req_id, id, .. } => assert_eq!((req_id, id), (11, 2)),
        _ => panic!("a live id is restarted"),
    }
    assert_eq!(w.len(), MAX_CONCURRENT_TASKS);
    w.expire(TASK_TIMEOUT * 1000);
    assert_eq!(w.len(), 0);
    match w.route(create(12, 9), TASK_TIMEOUT * 1000) {
        Route::Start { req_id, id, .. } => assert_eq!((req_id, id), (12, 9)),
        _ => panic!("expected a start"),
    }
}
