//! The state behind each view of the workspace.
pub mod apps;
pub mod devices;
pub mod files;
pub mod info;
pub mod junk;
pub mod monitor;
pub mod packages;
pub mod storage;
pub mod package_output;
