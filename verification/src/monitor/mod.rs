//! The monitoring logic: parsers of system reports and the analyses built on them.

pub mod affinity;
pub mod apm;
pub mod backup;
pub mod containers;
pub mod database;
pub mod dependencies;
pub mod export;
pub mod filesystem_monitor;
pub mod gpu;
pub mod hardware_sensors;
pub mod io_analysis;
pub mod iot;
pub mod history;
pub mod limits;
pub mod log_monitor;
pub mod memory_leak;
pub mod network;
pub mod performance;
pub mod process_tree;
pub mod processes;
pub mod properties;
pub mod security;
pub mod services;
pub mod sessions;
pub mod system;
pub mod thermal;
