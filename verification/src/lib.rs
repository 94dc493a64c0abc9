pub mod text;
pub mod str_map;
pub mod hash;
pub mod models;
pub mod package_manager;
pub mod diff;
pub mod execution;
pub mod config;
pub mod report;
