//! Listing of Docker containers with their resource usage: the text
//! formatting, parsing and matching rules behind the `dof` tool.

pub mod text;
pub mod ansi;
pub mod format;
pub mod cgroup;
pub mod cli;
pub mod stats;
pub mod listing;
pub mod laws;
