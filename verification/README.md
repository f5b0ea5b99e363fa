# server_worker_sim

A hypervisor hands tasks to a worker; the worker keeps one thread per task and
routes queries and updates to it; every answer goes to a listener that prints it.

- `src/` is the verified library: the decisions of each party.
  - `table.rs`: `KeyedTable`, a string-keyed table with no key twice.
  - `message.rs`: `TaskResult`, `TaskControl`, `Message`, the error texts and
    the line that reports each result.
  - `task.rs`: `Task::handle`, the answer a task gives to one request.
  - `worker.rs`: `Worker`, the table of live tasks (at most
    `MAX_CONCURRENT_TASKS`, each gone after `TASK_TIMEOUT` without a request)
    and `route`, what the worker does with one message at a given time.
  - `hypervisor.rs`: the identifier counters and the messages each request sends.
  - `script.rs`: `task_init`, which reads a task script such as `10a1a`.
  - `laws.rs`: properties that span several operations.
- `app/main.rs` runs it all on threads and channels and prints.
- `tests/` drives the same pipeline in one thread.
