//! Infrastructure: paths, wire formats, diagnostics, agent files.

pub mod agent_file;
pub mod diag;
pub mod dto;
pub mod paths;
