//! Application logic.

pub mod a2a_jwt;
pub mod agent;
pub mod agent_components;
pub mod alerts;
pub mod attachments;
pub mod bus;
pub mod clock;
pub mod commands;
pub mod config_reload;
pub mod config_watcher;
pub mod context_log;
pub mod context_size;
pub mod doctor;
pub mod scope;
pub mod serve;
pub mod tasklog;
pub mod usage;
