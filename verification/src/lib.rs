//! A verified model of a small task-hosting simulation: a hypervisor hands out
//! request and task identifiers and builds messages, a worker keeps the table of
//! live tasks and routes requests to them, and each task answers queries and
//! runs updates from its own tables.
pub mod table;
pub mod message;
pub mod task;
pub mod worker;
pub mod hypervisor;
pub mod laws;
pub mod script;


pub use hypervisor::Hypervisor;
pub use message::{Message, TaskControl, TaskResult, LISTENER_TIMEOUT};
pub use script::{task_init, ProcessStep, ScriptTask};
pub use task::Task;
pub use worker::{MAX_CONCURRENT_TASKS, TASK_TIMEOUT};
