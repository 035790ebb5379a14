use petit::cli_config::{ApiConfig, Config, ConfigSource, SchedulerConfig, StorageConfig};
use std::path::PathBuf;

#[test]
fn test_default_config() {
    let config = Config::default();
    assert!(matches!(config.storage, StorageConfig::Memory));
    {
        assert!(config.api.enabled);
        assert_eq!(config.api.host, "127.0.0.1");
        assert_eq!(config.api.port, 8565);
    }
    assert_eq!(config.scheduler.max_tasks, 4);
    assert_eq!(config.scheduler.tick_interval, 1);
}

#[test]
fn section_defaults() {
    let api = ApiConfig::default();
    assert!(api.enabled && api.host == "127.0.0.1" && api.port == 8565);
    let scheduler = SchedulerConfig::default();
    assert_eq!(scheduler.max_jobs, None);
    assert_eq!(scheduler.max_tasks, 4);
    assert_eq!(scheduler.tick_interval, 1);
    assert!(matches!(StorageConfig::default(), StorageConfig::Memory));
}

#[test]
fn load_prefers_the_explicit_path() {
    let explicit = PathBuf::from("/etc/petit.toml");
    let default = PathBuf::from("/home/u/.config/petit/config.toml");
    match Config::load(Some(explicit.clone()), Some(default.clone()), true) {
        ConfigSource::File(p) => assert_eq!(p, explicit),
        ConfigSource::Defaults => panic!("expected the explicit path"),
    }
    match Config::load(Some(explicit.clone()), None, false) {
        ConfigSource::File(p) => assert_eq!(p, explicit),
        ConfigSource::Defaults => panic!("expected the explicit path"),
    }
}

#[test]
fn load_uses_the_default_path_only_when_it_exists() {
    let default = PathBuf::from("/home/u/.config/petit/config.toml");
    match Config::load(None, Some(default.clone()), true) {
        ConfigSource::File(p) => assert_eq!(p, default),
        ConfigSource::Defaults => panic!("expected the default path"),
    }
    assert!(matches!(Config::load(None, Some(default), false), ConfigSource::Defaults));
    assert!(matches!(Config::load(None, None, false), ConfigSource::Defaults));
}
