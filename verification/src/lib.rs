//! Verified decision logic for setting up a persistent storage volume:
//! which `bcachefs` commands to run against which block devices, how the
//! pool state read from sysfs is summarised, and when a volume is already
//! mounted.

pub mod text;
pub mod command;
pub mod config;
pub mod device;
pub mod bcachefs;
pub mod pool;
pub mod volume;
pub mod setup;
