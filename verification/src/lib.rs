//! Listening-session tracking for local media players.
//!
//! The crate turns successive observations of media players into accurately
//! time-accounted listening sessions and aggregates them over time windows.

use vstd::prelude::*;

pub mod accounting_laws;
pub mod change_detector;
pub mod cli;
pub mod config;
pub mod database;
pub mod database_laws;
pub mod monitor_laws;
pub mod mpris_monitor;
pub mod session_tracker;
pub mod stats;
pub mod text;
pub mod tracker_laws;

pub use database::{Database, DatabaseStats, ListeningStats, Player, Session, Track};
pub use mpris_monitor::MprisMonitor;
pub use session_tracker::{SessionEvent, SessionTracker};

verus! {

/// Version of the tracker.
pub const VERSION: &'static str = "0.1.0";

/// Default database path, relative to the home directory.
pub const DEFAULT_DB_PATH: &'static str = "~/.local/share/musicd/music.db";

/// Default configuration directory.
pub const DEFAULT_CONFIG_DIR: &'static str = "~/.config/musicd";

} // verus!
