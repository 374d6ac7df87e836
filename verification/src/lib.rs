//! Verified core of the webtop system monitor.
pub mod collector;
pub mod config;
pub mod json;
pub mod launchd;
pub mod logging;
pub mod paths;
pub mod server;
pub mod services;
pub mod storage;
pub mod sync;
pub mod system_info;
pub mod text;
