//! Petit: job definitions, configuration and duration handling for a small
//! task scheduler, with their parsing and validation rules verified.

pub mod text;
pub mod json;
pub mod parsers;
pub mod base;
pub mod config;
pub mod cli_config;
pub mod tui;
