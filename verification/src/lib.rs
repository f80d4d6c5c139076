//! Multi-process achievement/statistics manager core.
//!
//! The verified library behind a tool that inspects and edits achievement
//! and statistic state for locally owned titles: the inter-process wire
//! protocol with its framing discipline, the supervisor and worker decision
//! logic, and the binary key/value schema decoder. Process spawning, pipe
//! I/O and the native-client bindings live outside the library and drive
//! these functions.

pub mod app_model;
pub mod arguments;
pub mod command_codec;
pub mod frame;
pub mod ipc_types;
pub mod key_value;
pub mod requests;
pub mod response_codec;
pub mod stat_definitions;
pub mod steam_keys;
pub mod supervisor;
pub mod textenc;
pub mod worker;
