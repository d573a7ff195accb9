//! A minimal bounded-concurrency task runner: cancellable units of work and a
//! manager that executes a batch of them in waves with a configurable
//! concurrency ceiling, with best-effort cancellation by identity.

pub mod manager;
pub mod task;

pub use manager::ManagerView;
pub use manager::TaskError;
pub use manager::TaskManager;
pub use task::ITask;
pub use task::Task;
pub use task::TaskView;
