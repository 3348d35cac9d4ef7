//! The commands: their table, their options and their handlers.

pub mod exec;
pub mod handlers;
pub mod laws;
pub mod options;
pub mod registry;
