//! Mirroring of embedded database files between a source tree and a backup
//! tree: path discovery, restore confirmation, configuration resolution and
//! the decisions of a copy pass and of the periodic scheduler.
pub mod config;
pub mod gate;
pub mod pass;
pub mod paths;
pub mod scheduler;
