//! Adapters between the bus and the outside.

pub mod telegram;
