pub mod cli_error;
pub mod command;
pub mod config;
pub mod config_resolver;
pub mod execution;
