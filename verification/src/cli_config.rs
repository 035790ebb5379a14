//! Settings of the command line program: storage, API server and scheduler,
//! with their defaults, and where they are loaded from.
//!
//! Settings come from an explicit path given on the command line, else from
//! the default settings file if it exists, else from the defaults.

use vstd::prelude::*;
use std::path::PathBuf;

verus! {

/// `std::path::PathBuf`, the path of a settings or database file.
#[verifier::external_type_specification]
#[verifier::external_body]
pub struct ExPathBuf(PathBuf);

/// `Clone::clone` on `std::path::PathBuf`: the clone is the same path.
pub assume_specification[ <PathBuf as Clone>::clone ](p: &PathBuf) -> (r: PathBuf)
    ensures
        r == *p,
;

/// Storage configuration options.
#[derive(Debug, Clone)]
pub enum StorageConfig {
    /// In-memory storage (default).
    Memory,
    /// SQLite storage with a database file path.
    Sqlite { path: PathBuf },
}

impl Default for StorageConfig {
    fn default() -> (r: StorageConfig)
        ensures
            r is Memory,
    {
        StorageConfig::Memory
    }
}

/// API server configuration.
#[derive(Debug, Clone)]
pub struct ApiConfig {
    /// Enable the API server (default: true).
    pub enabled: bool,
    /// API server host (default: 127.0.0.1).
    pub host: String,
    /// API server port (default: 8565).
    pub port: u16,
}

fn default_api_enabled() -> (r: bool)
    ensures
        r,
{
    true
}

fn default_api_host() -> (r: String)
    ensures
        r@ == "127.0.0.1"@,
{
    String::from_str("127.0.0.1")
}

fn default_api_port() -> (r: u16)
    ensures
        r == 8565,
{
    8565
}

impl ApiConfig {
    /// The API server settings are the defaults: enabled, on 127.0.0.1,
    /// port 8565.
    pub open spec fn is_default(&self) -> bool {
        self.enabled && self.host@ == "127.0.0.1"@ && self.port == 8565
    }
}

impl Default for ApiConfig {
    fn default() -> (r: ApiConfig)
        ensures
            r.is_default(),
    {
        ApiConfig { enabled: default_api_enabled(), host: default_api_host(), port: default_api_port() }
    }
}

/// Scheduler configuration.
#[derive(Debug, Clone)]
pub struct SchedulerConfig {
    /// Maximum concurrent jobs (default: unlimited).
    pub max_jobs: Option<usize>,
    /// Maximum concurrent tasks per job (default: 4).
    pub max_tasks: usize,
    /// Scheduler tick interval in seconds (default: 1).
    pub tick_interval: u64,
}

fn default_max_tasks() -> (r: usize)
    ensures
        r == 4,
{
    4
}

fn default_tick_interval() -> (r: u64)
    ensures
        r == 1,
{
    1
}

impl SchedulerConfig {
    /// The scheduler settings are the defaults: no limit on jobs, four tasks
    /// per job, a tick every second.
    pub open spec fn is_default(&self) -> bool {
        self.max_jobs is None && self.max_tasks == 4 && self.tick_interval == 1
    }
}

impl Default for SchedulerConfig {
    fn default() -> (r: SchedulerConfig)
        ensures
            r.is_default(),
    {
        SchedulerConfig {
            max_jobs: None,
            max_tasks: default_max_tasks(),
            tick_interval: default_tick_interval(),
        }
    }
}

/// Top-level configuration structure.
#[derive(Debug, Clone)]
pub struct Config {
    /// Storage configuration.
    pub storage: StorageConfig,
    /// API server configuration.
    pub api: ApiConfig,
    /// Scheduler configuration.
    pub scheduler: SchedulerConfig,
}

impl Config {
    /// Every setting has its default value.
    pub open spec fn is_default(&self) -> bool {
        self.storage is Memory && self.api.is_default() && self.scheduler.is_default()
    }
}

impl Default for Config {
    fn default() -> (r: Config)
        ensures
            r.is_default(),
    {
        Config {
            storage: StorageConfig::default(),
            api: ApiConfig::default(),
            scheduler: SchedulerConfig::default(),
        }
    }
}

/// Where settings are taken from.
#[derive(Debug, Clone)]
pub enum ConfigSource {
    /// Read and parse the settings file at this path.
    File(PathBuf),
    /// Use the default settings.
    Defaults,
}

impl Config {
    /// Decide where settings are loaded from: the explicit path if one is
    /// given, else the default path if there is one and a file exists
    /// there, else the defaults.
    pub fn load(explicit_path: Option<PathBuf>, default_path: Option<PathBuf>, default_path_exists: bool) -> (r: ConfigSource)
        ensures
            match explicit_path {
                Some(p) => r == ConfigSource::File(p),
                None => match default_path {
                    Some(q) => if default_path_exists {
                        r == ConfigSource::File(q)
                    } else {
                        r is Defaults
                    },
                    None => r is Defaults,
                },
            },
    {
        if let Some(path) = explicit_path {
            return ConfigSource::File(path);
        }
        if let Some(path) = default_path {
            if default_path_exists {
                return ConfigSource::File(path);
            }
        }
        ConfigSource::Defaults
    }
}

} // verus!
