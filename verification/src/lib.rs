//! Verified core of a tool that keeps a folder of git repositories
//! fast-forwarded on a daily schedule.

pub mod text;
pub mod repos;
pub mod path_map;
pub mod config;
pub mod platform;
pub mod git;
pub mod pull;
pub mod sync;
pub mod reports;
pub mod scheduler;
pub mod editors;
pub mod state;
pub mod tray;
