pub mod command_builder;
pub mod manager_presence;
pub mod package_manager_detector;
pub mod table_parser;
pub mod winget_ops;
pub mod choco_ops;
pub mod scoop_ops;
