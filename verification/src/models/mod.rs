pub mod config_file;
pub mod diff_result;
pub mod import_node;
pub mod installed_packages;
pub mod manager_validation;
pub mod ntix_config;
pub mod options;
pub mod package_entry;
pub mod package_manager;
pub mod package_spec;
pub mod state;
