pub mod diff_engine;
