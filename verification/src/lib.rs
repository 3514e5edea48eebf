//! deskd library: the decision logic of the agent orchestration runtime.
//!
//! Every function here states in its contract what it returns, over plain
//! mathematical models: text is a sequence of characters, a store is a map.

pub mod text;
pub mod crypto;
pub mod domain;
pub mod ids;
pub mod json;
pub mod yaml;
pub mod text_map;
pub mod session;
pub mod session2graph;
pub mod adapters;
pub mod app;
pub mod infra;
pub mod ports;
pub mod web;
pub mod worker;
