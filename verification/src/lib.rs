//! The cluster agent's library: configuration, container log file events, the permission
//! check, and the decisions of the log metadata and log records services.
use vstd::prelude::*;

pub mod config;
pub mod file_watcher;
pub mod kubernetes;
pub mod log_file_name;
pub mod log_metadata;
pub mod log_records;
pub mod proto;
pub mod rgkl_integration;
pub mod text;

pub use config::Config;
pub use rgkl_integration::FollowFromType;

verus! {

} // verus!
