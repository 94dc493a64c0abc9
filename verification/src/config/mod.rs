pub mod config_loader;
