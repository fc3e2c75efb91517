//! The commands of the tool and what they decide.

pub mod commands;

pub use commands::{Cli, Commands};
