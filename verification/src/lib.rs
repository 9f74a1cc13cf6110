//! Seer: the verified core of a system-monitoring tool.

pub mod config;
pub mod monitor;
pub mod num;
pub mod text;
pub mod ui;
