use gopal::config::Config;

#[test]
fn test_default_config() {
    let config = Config::default();
    assert_eq!(config.monitoring.player_discovery_interval, 5);
    assert_eq!(config.monitoring.session_timeout, 300);
    assert_eq!(config.logging.level, "info");
}

#[test]
fn default_config_in_full() {
    let config = Config::default();
    assert_eq!(config.database.path, "~/.local/share/gopal/music.db");
    assert_eq!(config.database.pool_size, None);
    assert_eq!(config.monitoring.cleanup_interval, 300);
    assert_eq!(config.monitoring.min_session_duration, 10);
    assert_eq!(config.logging.file, None);
    assert!(config.logging.timestamps);
}

#[test]
fn config_clone_keeps_every_field() {
    let mut config = Config::default();
    config.monitoring.player_discovery_interval = 10;
    config.logging.level = "debug".to_string();
    config.logging.file = Some("/tmp/gopal.log".to_string());
    let copy = config.clone();
    assert_eq!(copy.monitoring.player_discovery_interval, 10);
    assert_eq!(copy.logging.level, "debug");
    assert_eq!(copy.logging.file, Some("/tmp/gopal.log".to_string()));
    assert_eq!(copy.database.path, config.database.path);
}
