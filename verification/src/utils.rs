//! Paths, cache-directory plans and report ordering.

pub mod cleanup;
pub mod io;
pub mod paths;
pub mod pipeline;
pub mod plan;
pub mod target_symlink;
