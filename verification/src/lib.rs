//! Strix: the verified core of a Windows process and performance monitor.

pub mod text;
pub mod timekeeping;
pub mod consent;
pub mod hwinfo;
pub mod blocklist;
pub mod sensors;
pub mod version_info;
pub mod monitor;
