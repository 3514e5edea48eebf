//! Interfaces to the outside.

pub mod executor;
