//! Yapraq: the logic of a terminal workspace for monitoring the system,
//! browsing files, cleaning junk and inspecting installed software.
pub mod text;
pub mod utils;
pub mod selection;
pub mod sorting;
pub mod paths;
pub mod features;
pub mod theme;
pub mod app;
