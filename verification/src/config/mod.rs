//! Job and global configuration: the YAML configuration types, their
//! validation, and their conversion into the core types.

pub mod yaml;

pub use yaml::{
    ConfigError, GlobalConfig, JobConfig, RetryConfig, ScheduleConfig, TaskConfig, YamlLoader,
};
