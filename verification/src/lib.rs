//! Accounting of block-device wear: per-device I/O counters read from sysfs,
//! accumulated across reboots and device swaps, kept per serial number.
pub mod block;
pub mod clock;
pub mod config;
pub mod daemon;
pub mod device;
pub mod device_stats;
pub mod log_prefix;
pub mod paths;
pub mod text;
