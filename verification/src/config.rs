//! Configuration of the daemon.

use vstd::prelude::*;
use vstd::string::*;
use crate::text::{clone_opt_text, opt_text};

verus! {

/// Where the store lives, unless the configuration says otherwise.
pub const DEFAULT_DATABASE_PATH: &'static str = "~/.local/share/gopal/music.db";

/// The log level, unless the configuration says otherwise.
pub const DEFAULT_LOG_LEVEL: &'static str = "info";

/// Configuration of the store.
#[derive(Debug)]
pub struct DatabaseConfig {
    /// Path of the database file.
    pub path: String,
    /// Size of the pool of connections.
    pub pool_size: Option<u32>,
}

/// Configuration of the monitoring.
#[derive(Debug, Clone, Copy, PartialEq, Eq, Structural)]
pub struct MonitoringConfig {
    /// Seconds between two searches for new players.
    pub player_discovery_interval: u64,
    /// Seconds without activity after which a session is stale.
    pub session_timeout: u64,
    /// Seconds between two cleanups.
    pub cleanup_interval: u64,
    /// Shortest session, in seconds, that is recorded.
    pub min_session_duration: u64,
}

/// Configuration of the log.
#[derive(Debug)]
pub struct LoggingConfig {
    /// Log level: error, warn, info, debug or trace.
    pub level: String,
    /// Log file; the log goes to standard error where there is none.
    pub file: Option<String>,
    /// Whether log lines carry the time.
    pub timestamps: bool,
}

/// Configuration of the daemon.
#[derive(Debug)]
pub struct Config {
    pub database: DatabaseConfig,
    pub monitoring: MonitoringConfig,
    pub logging: LoggingConfig,
}

/// Mathematical value of a [`Config`].
pub struct ConfigView {
    pub database_path: Seq<char>,
    pub pool_size: Option<u32>,
    pub monitoring: MonitoringConfig,
    pub log_level: Seq<char>,
    pub log_file: Option<Seq<char>>,
    pub timestamps: bool,
}

impl View for Config {
    type V = ConfigView;

    open spec fn view(&self) -> ConfigView {
        ConfigView {
            database_path: self.database.path@,
            pool_size: self.database.pool_size,
            monitoring: self.monitoring,
            log_level: self.logging.level@,
            log_file: opt_text(self.logging.file),
            timestamps: self.logging.timestamps,
        }
    }
}

/// The configuration that holds where nothing else is configured.
pub open spec fn default_config() -> ConfigView {
    ConfigView {
        database_path: DEFAULT_DATABASE_PATH@,
        pool_size: None,
        monitoring: MonitoringConfig {
            player_discovery_interval: 5,
            session_timeout: 300,
            cleanup_interval: 300,
            min_session_duration: 10,
        },
        log_level: DEFAULT_LOG_LEVEL@,
        log_file: None,
        timestamps: true,
    }
}

impl Default for Config {
    fn default() -> (r: Self)
        ensures
            r@ == default_config(),
    {
        Config {
            database: DatabaseConfig {
                path: String::from_str(DEFAULT_DATABASE_PATH),
                pool_size: None,
            },
            monitoring: MonitoringConfig {
                player_discovery_interval: 5,
                session_timeout: 300,
                cleanup_interval: 300,
                min_session_duration: 10,
            },
            logging: LoggingConfig {
                level: String::from_str(DEFAULT_LOG_LEVEL),
                file: None,
                timestamps: true,
            },
        }
    }
}

impl Clone for Config {
    fn clone(&self) -> (r: Self)
        ensures
            r@ == self@,
    {
        Config {
            database: DatabaseConfig {
                path: self.database.path.clone(),
                pool_size: self.database.pool_size,
            },
            monitoring: self.monitoring,
            logging: LoggingConfig {
                level: self.logging.level.clone(),
                file: clone_opt_text(&self.logging.file),
                timestamps: self.logging.timestamps,
            },
        }
    }
}

} // verus!
