//! Messages, tasks, state machines and events: plain data.

pub mod events;
pub mod message;
pub mod statemachine;
pub mod task;
