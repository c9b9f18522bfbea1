//! The decision logic of a task-maker worker and of the IOI batch task format.

pub mod batch;
pub mod execution;
pub mod identity;
pub mod job;
pub mod text;
pub mod worker;
pub mod worker_laws;
