//! Handlers for invocations of capabilities, one per object type.
pub mod cspace_handler;
pub mod memory_handler;
pub mod task_handler;
