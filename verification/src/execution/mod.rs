pub mod execution_engine;
