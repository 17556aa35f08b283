use gopal::change_detector::{
    apply_transitions, detect_transitions, identity_changed, metadata_to_track, Metadata,
    PlaybackStatus, Transition,
};
use gopal::database::{Database, DatabaseError};
use gopal::mpris_monitor::{MonitorError, MprisMonitor, PlayerObservation};
use gopal::session_tracker::{SessionEvent, SessionTracker, TrackerError};

fn song(title: &str, artist: &str) -> Metadata {
    Metadata {
        track_id: None,
        title: Some(title.to_string()),
        artists: Some(vec![artist.to_string()]),
        album_name: Some("Album".to_string()),
        length: Some(180_000_000),
        art_url: Some("file:///cover.png".to_string()),
    }
}

fn seen(
    name: &str,
    status: Option<PlaybackStatus>,
    metadata: Option<Metadata>,
) -> PlayerObservation {
    PlayerObservation {
        bus_name: name.to_string(),
        identity: name.to_uppercase(),
        status,
        metadata,
    }
}

fn one(name: &str, status: PlaybackStatus, metadata: Option<Metadata>) -> Vec<PlayerObservation> {
    vec![seen(name, Some(status), metadata)]
}

fn kinds(steps: &Vec<Transition>) -> Vec<String> {
    steps
        .iter()
        .map(|step| match step {
            Transition::Started(track) => format!("started {}", track.title),
            Transition::Paused => "paused".to_string(),
            Transition::Resumed => "resumed".to_string(),
            Transition::Stopped => "stopped".to_string(),
        })
        .collect()
}

fn drain(monitor: &mut MprisMonitor) -> Vec<SessionEvent> {
    let mut events = Vec::new();
    while let Some(event) = monitor.next_event() {
        events.push(event);
    }
    events
}

#[test]
fn test_mpris_monitor_creation() {
    let db = Database::new();
    let monitor = MprisMonitor::new(db);
    assert!(monitor.player_states().is_empty());
    assert_eq!(monitor.session_tracker().get_active_session_count(), 0);
    assert!(monitor.database().sessions().is_empty());
}

#[test]
fn track_is_identified_by_its_content() {
    let mut metadata = song("Song", "Ann");
    metadata.artists = Some(vec!["Ann".to_string(), "Bob".to_string()]);
    metadata.track_id = Some("/org/player/track/7".to_string());
    let track = metadata_to_track(&metadata);
    assert_eq!(track.title, "Song");
    assert_eq!(track.artist, "Ann, Bob");
    assert_eq!(track.album, "Album");
    assert_eq!(track.id, "Song::Ann, Bob::Album");
    assert_eq!(track.length, Some(180_000_000));
    assert_eq!(track.art_url, Some("file:///cover.png".to_string()));
}

#[test]
fn track_without_metadata_is_unknown() {
    let metadata = Metadata {
        track_id: Some("x".to_string()),
        title: None,
        artists: None,
        album_name: None,
        length: None,
        art_url: None,
    };
    let track = metadata_to_track(&metadata);
    assert_eq!(track.title, "Unknown");
    assert_eq!(track.artist, "Unknown");
    assert_eq!(track.album, "Unknown");
    assert_eq!(track.id, "Unknown::Unknown::Unknown");
    assert_eq!(track.length, None);
    assert_eq!(track.art_url, None);
    let mut nobody = song("Song", "Ann");
    nobody.artists = Some(Vec::new());
    assert_eq!(metadata_to_track(&nobody).artist, "");
    assert_eq!(metadata_to_track(&nobody).id, "Song::::Album");
}

#[test]
fn identity_goes_by_title_and_artists_alone() {
    let mut a = song("Song", "Ann");
    let mut b = song("Song", "Ann");
    assert!(!identity_changed(&Some(a.clone()), &Some(b.clone())));
    // One id for two songs: the content decides.
    a.track_id = Some("id".to_string());
    b.track_id = Some("id".to_string());
    b.title = Some("Other".to_string());
    assert!(identity_changed(&Some(a.clone()), &Some(b.clone())));
    // Two ids for one song: the content decides as well.
    b.title = Some("Song".to_string());
    b.track_id = Some("other id".to_string());
    assert!(!identity_changed(&Some(a.clone()), &Some(b.clone())));
    b.track_id = None;
    assert!(!identity_changed(&Some(a.clone()), &Some(b.clone())));
    // The album is no part of the identity.
    b.album_name = Some("Other album".to_string());
    assert!(!identity_changed(&Some(a.clone()), &Some(b.clone())));
    b.artists = Some(vec!["Ann".to_string(), "Bob".to_string()]);
    assert!(identity_changed(&Some(a.clone()), &Some(b.clone())));
    b.artists = None;
    assert!(identity_changed(&Some(a.clone()), &Some(b.clone())));
    assert!(identity_changed(&None, &Some(a.clone())));
    assert!(identity_changed(&Some(a), &None));
    assert!(!identity_changed(&None, &None));
}

#[test]
fn new_id_for_the_same_song_changes_nothing() {
    let mut monitor = MprisMonitor::new(Database::new());
    let mut first = song("Song", "Ann");
    first.track_id = Some("/track/1".to_string());
    let mut second = song("Song", "Ann");
    second.track_id = Some("/track/2".to_string());
    monitor
        .handle_state_changes(
            1,
            PlaybackStatus::Stopped,
            PlaybackStatus::Playing,
            Some(first.clone()),
            Some(first.clone()),
            1000,
        )
        .unwrap();
    let _ = drain(&mut monitor);
    monitor
        .handle_state_changes(
            1,
            PlaybackStatus::Playing,
            PlaybackStatus::Playing,
            Some(first),
            Some(second),
            1100,
        )
        .unwrap();
    assert!(drain(&mut monitor).is_empty());
    let sessions = monitor.session_tracker().get_active_sessions();
    assert_eq!(sessions.len(), 1);
    assert_eq!(sessions[0].1.session_id, 1);
    assert_eq!(sessions[0].1.start_time, 1000);
}

#[test]
fn status_changes_are_detected() {
    let paused = PlaybackStatus::Paused;
    let playing = PlaybackStatus::Playing;
    let stopped = PlaybackStatus::Stopped;
    let m = Some(song("Song", "Ann"));
    assert_eq!(kinds(&detect_transitions(playing, paused, &m, &m, true)), vec!["paused"]);
    assert_eq!(kinds(&detect_transitions(paused, playing, &m, &m, true)), vec!["resumed"]);
    assert_eq!(kinds(&detect_transitions(paused, playing, &m, &m, false)), vec!["started Song"]);
    assert_eq!(kinds(&detect_transitions(playing, stopped, &m, &m, true)), vec!["stopped"]);
    assert_eq!(kinds(&detect_transitions(stopped, playing, &m, &m, false)), vec!["started Song"]);
    assert!(detect_transitions(playing, playing, &m, &m, true).is_empty());
    assert!(detect_transitions(paused, stopped, &m, &m, true).is_empty());
    assert!(detect_transitions(stopped, paused, &m, &m, false).is_empty());
    assert!(detect_transitions(stopped, stopped, &m, &m, false).is_empty());
}

#[test]
fn start_falls_back_to_the_old_metadata() {
    let paused = PlaybackStatus::Paused;
    let playing = PlaybackStatus::Playing;
    let stopped = PlaybackStatus::Stopped;
    let old = Some(song("Old", "Ann"));
    // The new observation has no metadata: the old ones name the track, and
    // their loss is a change of identity that starts nothing.
    let from_stopped = detect_transitions(stopped, playing, &old, &None, false);
    assert_eq!(kinds(&from_stopped), vec!["started Old"]);
    let from_paused = detect_transitions(paused, playing, &old, &None, false);
    assert_eq!(kinds(&from_paused), vec!["started Old"]);
    assert!(detect_transitions(stopped, playing, &None, &None, false).is_empty());
}

#[test]
fn change_of_track_stops_then_starts() {
    let paused = PlaybackStatus::Paused;
    let playing = PlaybackStatus::Playing;
    let stopped = PlaybackStatus::Stopped;
    let old = Some(song("Old", "Ann"));
    let new = Some(song("New", "Ann"));
    assert_eq!(
        kinds(&detect_transitions(playing, playing, &old, &new, true)),
        vec!["stopped", "started New"]
    );
    assert_eq!(
        kinds(&detect_transitions(playing, paused, &old, &new, true)),
        vec!["paused", "stopped"]
    );
    assert_eq!(
        kinds(&detect_transitions(stopped, playing, &old, &new, false)),
        vec!["started New", "started New"]
    );
    assert_eq!(
        kinds(&detect_transitions(paused, playing, &old, &new, true)),
        vec!["resumed", "started New"]
    );
    assert!(detect_transitions(paused, paused, &old, &new, true).is_empty());
    assert_eq!(kinds(&detect_transitions(playing, playing, &old, &None, true)), vec!["stopped"]);
}

#[test]
fn transitions_are_applied_in_order() {
    let mut tracker = SessionTracker::new();
    let old = Some(song("Old", "Ann"));
    let new = Some(song("New", "Ann"));
    let playing = PlaybackStatus::Playing;
    let start = detect_transitions(PlaybackStatus::Stopped, playing, &None, &old, false);
    apply_transitions(&mut tracker, 1, &start, 1000).unwrap();
    let change = detect_transitions(playing, playing, &old, &new, true);
    apply_transitions(&mut tracker, 1, &change, 1100).unwrap();
    let events = tracker.take_events();
    // Metadata appeared with the first observation, which starts the track
    // twice at one moment; the first of the two sessions is dropped without
    // a final event.
    assert_eq!(events.len(), 4);
    assert!(matches!(events[0], SessionEvent::SessionStarted { session_id: 1, .. }));
    assert!(matches!(
        events[1],
        SessionEvent::SessionStarted { session_id: 2, start_time: 1000, .. }
    ));
    assert!(matches!(
        events[2],
        SessionEvent::SessionFinalized { session_id: 2, end_time: 1100, .. }
    ));
    match &events[3] {
        SessionEvent::SessionStarted { session_id, track, start_time, .. } => {
            assert_eq!(*session_id, 3);
            assert_eq!(track.title, "New");
            assert_eq!(*start_time, 1100);
        }
        _ => panic!("expected the start of the new track"),
    }
    assert_eq!(tracker.get_active_session_count(), 1);
}

#[test]
fn refused_transition_ends_the_run() {
    let mut tracker = SessionTracker::new();
    let start = vec![Transition::Started(metadata_to_track(&song("A", "B")))];
    apply_transitions(&mut tracker, 1, &start, 0).unwrap();
    tracker.handle_pause_event(1, i64::MIN).unwrap();
    let _ = tracker.take_events();
    let steps = vec![
        Transition::Paused,
        Transition::Stopped,
        Transition::Started(metadata_to_track(&song("C", "D"))),
    ];
    let refused = apply_transitions(&mut tracker, 1, &steps, i64::MAX);
    assert_eq!(refused, Err(TrackerError::TimeOverflow));
    assert_eq!(tracker.get_active_session_count(), 1);
    assert!(tracker.take_events().is_empty());
}

#[test]
fn discovery_registers_players_and_starts_what_plays() {
    let mut monitor = MprisMonitor::new(Database::new());
    let observations = vec![
        seen("vlc", Some(PlaybackStatus::Playing), Some(song("Song", "Ann"))),
        seen("mpv", Some(PlaybackStatus::Paused), Some(song("Other", "Bob"))),
        seen("cmus", None, None),
        seen("mute", Some(PlaybackStatus::Playing), None),
    ];
    monitor.discover_players(&observations, 1000).unwrap();
    assert_eq!(monitor.player_states().len(), 4);
    assert_eq!(monitor.player_states()[0].bus_name, "vlc");
    assert_eq!(monitor.player_states()[0].player_id, 1);
    assert_eq!(monitor.player_states()[0].last_update, 1000);
    assert_eq!(monitor.player_states()[1].current_status, PlaybackStatus::Paused);
    assert_eq!(monitor.player_states()[2].current_status, PlaybackStatus::Stopped);
    assert_eq!(monitor.player_states()[3].player_id, 4);
    assert_eq!(monitor.database().players().len(), 4);
    assert_eq!(monitor.database().players()[1].name, "mpv");
    assert_eq!(monitor.database().players()[1].identity, "MPV");
    assert_eq!(monitor.session_tracker().get_active_session_count(), 1);
    assert!(monitor.session_tracker().has_active_session(1));
    // A second discovery passes over the players that are tracked.
    monitor.discover_players(&observations, 2000).unwrap();
    assert_eq!(monitor.player_states().len(), 4);
    assert_eq!(monitor.player_states()[0].last_update, 1000);
    assert_eq!(monitor.session_tracker().get_active_session_count(), 1);
    assert_eq!(drain(&mut monitor).len(), 1);
}

#[test]
fn poll_follows_a_player_through_its_changes() {
    let mut monitor = MprisMonitor::new(Database::new());
    let song_a = Some(song("A", "Ann"));
    let song_b = Some(song("B", "Ann"));
    monitor.discover_players(&one("vlc", PlaybackStatus::Stopped, None), 900).unwrap();
    monitor.poll_players(&one("vlc", PlaybackStatus::Playing, song_a.clone()), 1000).unwrap();
    monitor.poll_players(&one("vlc", PlaybackStatus::Paused, song_a.clone()), 1060).unwrap();
    monitor.poll_players(&one("vlc", PlaybackStatus::Playing, song_a.clone()), 1090).unwrap();
    monitor.poll_players(&one("vlc", PlaybackStatus::Playing, song_b.clone()), 1180).unwrap();
    assert_eq!(monitor.player_states()[0].last_update, 1180);
    assert_eq!(monitor.player_states()[0].current_status, PlaybackStatus::Playing);
    let events = drain(&mut monitor);
    // Session 1 is the start of the change of status, session 2 that of
    // the metadata that appeared at the same moment.
    assert_eq!(events.len(), 5);
    assert!(matches!(
        events[0],
        SessionEvent::SessionStarted { session_id: 1, start_time: 1000, .. }
    ));
    assert!(matches!(
        events[1],
        SessionEvent::SessionStarted { session_id: 2, start_time: 1000, .. }
    ));
    assert!(matches!(events[2], SessionEvent::SessionPaused { session_id: 2, pause_duration: 30 }));
    match &events[3] {
        SessionEvent::SessionFinalized { session_id, end_time, status } => {
            assert_eq!(*session_id, 2);
            assert_eq!(*end_time, 1180);
            assert_eq!(status, "completed");
        }
        _ => panic!("expected the final event"),
    }
    assert!(matches!(
        events[4],
        SessionEvent::SessionStarted { session_id: 3, start_time: 1180, .. }
    ));
}

#[test]
fn poll_stops_and_drops_a_player_that_is_gone() {
    let mut monitor = MprisMonitor::new(Database::new());
    let observations = vec![
        seen("vlc", Some(PlaybackStatus::Playing), Some(song("A", "Ann"))),
        seen("mpv", Some(PlaybackStatus::Playing), Some(song("B", "Bob"))),
    ];
    monitor.discover_players(&observations, 1000).unwrap();
    let _ = drain(&mut monitor);
    let left = vec![seen("mpv", Some(PlaybackStatus::Playing), Some(song("B", "Bob")))];
    monitor.poll_players(&left, 1100).unwrap();
    assert_eq!(monitor.player_states().len(), 1);
    assert_eq!(monitor.player_states()[0].bus_name, "mpv");
    assert_eq!(monitor.player_states()[0].player_id, 2);
    assert_eq!(monitor.player_states()[0].last_update, 1100);
    assert!(!monitor.session_tracker().has_active_session(1));
    assert!(monitor.session_tracker().has_active_session(2));
    let events = drain(&mut monitor);
    assert_eq!(events.len(), 1);
    match &events[0] {
        SessionEvent::SessionFinalized { session_id, end_time, status } => {
            assert_eq!(*session_id, 1);
            assert_eq!(*end_time, 1100);
            assert_eq!(status, "completed");
        }
        _ => panic!("expected the final event"),
    }
}

#[test]
fn poll_takes_the_last_observation_of_a_name() {
    let mut monitor = MprisMonitor::new(Database::new());
    monitor.discover_players(&one("vlc", PlaybackStatus::Stopped, None), 900).unwrap();
    let twice = vec![
        seen("vlc", Some(PlaybackStatus::Playing), Some(song("A", "Ann"))),
        seen("vlc", Some(PlaybackStatus::Paused), None),
    ];
    monitor.poll_players(&twice, 1000).unwrap();
    assert_eq!(monitor.player_states()[0].current_status, PlaybackStatus::Paused);
    assert_eq!(monitor.session_tracker().get_active_session_count(), 0);
}

#[test]
fn long_gap_while_playing_becomes_pause_time() {
    let mut monitor = MprisMonitor::new(Database::new());
    monitor
        .discover_players(&one("vlc", PlaybackStatus::Playing, Some(song("A", "Ann"))), 1000)
        .unwrap();
    let _ = drain(&mut monitor);
    // 300 seconds are no suspension yet.
    monitor.check_for_sleep_resume(1300).unwrap();
    assert_eq!(monitor.player_states()[0].last_update, 1000);
    assert!(drain(&mut monitor).is_empty());
    monitor.check_for_sleep_resume(1400).unwrap();
    assert_eq!(monitor.player_states()[0].last_update, 1400);
    assert_eq!(monitor.player_states()[0].current_status, PlaybackStatus::Playing);
    {
        let sessions = monitor.session_tracker().get_active_sessions();
        assert_eq!(sessions.len(), 1);
        assert_eq!(sessions[0].1.total_pause_time, 400);
        assert_eq!(sessions[0].1.session_id, 1);
        assert_eq!(sessions[0].1.start_time, 1000);
        assert!(!sessions[0].1.is_paused);
    }
    let events = drain(&mut monitor);
    assert_eq!(events.len(), 1);
    assert!(matches!(
        events[0],
        SessionEvent::SessionPaused { session_id: 1, pause_duration: 400 }
    ));
}

#[test]
fn long_gap_of_a_paused_player_is_only_noted() {
    let mut monitor = MprisMonitor::new(Database::new());
    monitor
        .discover_players(&one("vlc", PlaybackStatus::Paused, Some(song("A", "Ann"))), 1000)
        .unwrap();
    monitor.check_for_sleep_resume(2000).unwrap();
    assert_eq!(monitor.player_states()[0].last_update, 2000);
    assert!(drain(&mut monitor).is_empty());
}

#[test]
fn gap_that_does_not_fit_is_refused() {
    let mut monitor = MprisMonitor::new(Database::new());
    monitor
        .discover_players(&one("vlc", PlaybackStatus::Playing, Some(song("A", "Ann"))), i64::MIN)
        .unwrap();
    assert_eq!(monitor.check_for_sleep_resume(i64::MAX), Err(TrackerError::TimeOverflow));
    assert_eq!(monitor.player_states()[0].last_update, i64::MIN);
}

#[test]
fn monitor_times_out_idle_sessions_after_five_minutes() {
    let mut monitor = MprisMonitor::new(Database::new());
    monitor
        .discover_players(&one("vlc", PlaybackStatus::Playing, Some(song("A", "Ann"))), 1000)
        .unwrap();
    monitor.cleanup_stale_sessions(1300).unwrap();
    assert_eq!(monitor.session_tracker().get_active_session_count(), 1);
    monitor.cleanup_stale_sessions(1301).unwrap();
    assert_eq!(monitor.session_tracker().get_active_session_count(), 0);
    let events = drain(&mut monitor);
    match &events[1] {
        SessionEvent::SessionFinalized { status, end_time, .. } => {
            assert_eq!(status, "timeout");
            assert_eq!(*end_time, 1301);
        }
        _ => panic!("expected the final event"),
    }
}

#[test]
fn events_are_persisted_under_the_row_of_their_session() {
    // The store holds a session of an earlier run, so the ids of the rows
    // and those of the state machine differ.
    let mut db = Database::new();
    db.insert_or_update_player("gone", "Gone").unwrap();
    db.insert_or_update_track(&metadata_to_track(&song("Old", "Ann"))).unwrap();
    let earlier = db.start_session("Old::Ann::Album", 1, 10).unwrap();
    db.finalize_session(earlier, 20, "completed").unwrap();
    let mut monitor = MprisMonitor::new(db);
    monitor
        .discover_players(&one("vlc", PlaybackStatus::Playing, Some(song("A", "Ann"))), 1000)
        .unwrap();
    monitor.poll_players(&one("vlc", PlaybackStatus::Paused, Some(song("A", "Ann"))), 1060)
        .unwrap();
    monitor.poll_players(&one("vlc", PlaybackStatus::Playing, Some(song("A", "Ann"))), 1090)
        .unwrap();
    monitor.poll_players(&one("vlc", PlaybackStatus::Stopped, Some(song("A", "Ann"))), 1180)
        .unwrap();
    for event in drain(&mut monitor) {
        monitor.handle_session_event(event).unwrap();
    }
    let db = monitor.database();
    assert_eq!(db.tracks().len(), 2);
    assert_eq!(db.tracks()[1].id, "A::Ann::Album");
    assert_eq!(db.sessions().len(), 2);
    assert_eq!(db.sessions()[0].listened_time, Some(10));
    let row = &db.sessions()[1];
    assert_eq!(row.id, 2);
    assert_eq!(row.track_id, "A::Ann::Album");
    assert_eq!(row.player_id, 2);
    assert_eq!(row.start_time, 1000);
    assert_eq!(row.end_time, Some(1180));
    assert_eq!(row.paused_time, 30);
    assert_eq!(row.listened_time, Some(150));
    assert_eq!(row.status, "completed");
}

#[test]
fn events_of_unknown_sessions_are_dropped() {
    let mut monitor = MprisMonitor::new(Database::new());
    assert_eq!(
        monitor.handle_session_event(SessionEvent::SessionPaused { session_id: 5, pause_duration: 3 }),
        Err(MonitorError::UnknownSession)
    );
    assert_eq!(
        monitor.handle_session_event(SessionEvent::SessionFinalized {
            session_id: 5,
            end_time: 3,
            status: "completed".to_string()
        }),
        Err(MonitorError::UnknownSession)
    );
    assert!(monitor.database().sessions().is_empty());
}

#[test]
fn refusals_of_the_store_are_reported() {
    let mut monitor = MprisMonitor::new(Database::new());
    let track = metadata_to_track(&song("A", "Ann"));
    // The player of a session has to be registered.
    assert_eq!(
        monitor.handle_session_event(SessionEvent::SessionStarted {
            session_id: 1,
            track: track.clone(),
            player_id: 1,
            start_time: 0,
        }),
        Err(MonitorError::Storage(DatabaseError::UnknownPlayer))
    );
    assert!(monitor.database().sessions().is_empty());
    assert_eq!(monitor.database().tracks().len(), 1);
    monitor.discover_players(&one("vlc", PlaybackStatus::Stopped, None), 0).unwrap();
    monitor
        .handle_session_event(SessionEvent::SessionStarted {
            session_id: 1,
            track,
            player_id: 1,
            start_time: i64::MIN,
        })
        .unwrap();
    assert_eq!(
        monitor.handle_session_event(SessionEvent::SessionFinalized {
            session_id: 1,
            end_time: i64::MAX,
            status: "completed".to_string()
        }),
        Err(MonitorError::Storage(DatabaseError::Overflow))
    );
    assert_eq!(monitor.database().sessions()[0].status, "active");
    // The session keeps its row: a final event that fits is applied.
    monitor
        .handle_session_event(SessionEvent::SessionFinalized {
            session_id: 1,
            end_time: i64::MIN + 5,
            status: "completed".to_string(),
        })
        .unwrap();
    assert_eq!(monitor.database().sessions()[0].listened_time, Some(5));
    // After that the session is forgotten.
    assert_eq!(
        monitor.handle_session_event(SessionEvent::SessionPaused { session_id: 1, pause_duration: 1 }),
        Err(MonitorError::UnknownSession)
    );
}

#[test]
fn player_that_is_gone_while_paused_keeps_its_session() {
    let mut monitor = MprisMonitor::new(Database::new());
    monitor
        .discover_players(&one("vlc", PlaybackStatus::Playing, Some(song("A", "Ann"))), 1000)
        .unwrap();
    monitor.poll_players(&one("vlc", PlaybackStatus::Paused, Some(song("A", "Ann"))), 1050)
        .unwrap();
    // Only a player that was playing is stopped when it is gone.
    assert_eq!(monitor.poll_players(&Vec::new(), 1100), Ok(()));
    assert!(monitor.player_states().is_empty());
    assert_eq!(monitor.session_tracker().get_active_session_count(), 1);
}

#[test]
fn refusal_while_players_are_stopped_ends_the_poll() {
    let mut monitor = MprisMonitor::new(Database::new());
    let observations = vec![
        seen("vlc", Some(PlaybackStatus::Playing), Some(song("A", "Ann"))),
        seen("mpv", Some(PlaybackStatus::Playing), Some(song("B", "Bob"))),
    ];
    monitor.discover_players(&observations, 0).unwrap();
    // The session of the first player is paused behind the back of the
    // monitor, at a moment from which no interval to the present fits.
    monitor
        .handle_state_changes(
            1,
            PlaybackStatus::Playing,
            PlaybackStatus::Paused,
            Some(song("A", "Ann")),
            Some(song("A", "Ann")),
            i64::MIN,
        )
        .unwrap();
    assert_eq!(monitor.poll_players(&Vec::new(), i64::MAX), Err(TrackerError::TimeOverflow));
    // Nothing was dropped, and no session was closed.
    assert_eq!(monitor.player_states().len(), 2);
    assert_eq!(monitor.session_tracker().get_active_session_count(), 2);
}

#[test]
fn progress_of_open_sessions_reaches_the_store() {
    let mut monitor = MprisMonitor::new(Database::new());
    let observations = vec![
        seen("vlc", Some(PlaybackStatus::Playing), Some(song("A", "Ann"))),
        seen("mpv", Some(PlaybackStatus::Playing), Some(song("B", "Bob"))),
    ];
    monitor.discover_players(&observations, 1000).unwrap();
    // Without a row nothing happens.
    monitor.update_active_sessions(1010);
    assert!(monitor.database().sessions().is_empty());
    for event in drain(&mut monitor) {
        monitor.handle_session_event(event).unwrap();
    }
    monitor.update_active_sessions(1030);
    let rows = monitor.database().sessions();
    assert_eq!(rows.len(), 2);
    assert_eq!(rows[0].listened_time, Some(30));
    assert_eq!(rows[0].status, "active");
    assert_eq!(rows[1].listened_time, Some(30));
    let stats = monitor.database().get_listening_stats(None, None, 1100).unwrap();
    assert_eq!(stats.total_listening_time, 200);
}

#[test]
fn state_changes_are_handled_for_one_player() {
    let mut monitor = MprisMonitor::new(Database::new());
    monitor
        .handle_state_changes(
            4,
            PlaybackStatus::Stopped,
            PlaybackStatus::Playing,
            Some(song("A", "Ann")),
            Some(song("A", "Ann")),
            1000,
        )
        .unwrap();
    assert!(monitor.session_tracker().has_active_session(4));
    monitor
        .handle_state_changes(
            4,
            PlaybackStatus::Playing,
            PlaybackStatus::Stopped,
            Some(song("A", "Ann")),
            Some(song("A", "Ann")),
            1001,
        )
        .unwrap();
    assert!(!monitor.session_tracker().has_active_session(4));
    assert_eq!(drain(&mut monitor).len(), 2);
}

#[test]
fn refusal_of_the_store_ends_the_discovery() {
    let players =
        vec![gopal::Player { id: i64::MAX, name: "old".to_string(), identity: "OLD".to_string() }];
    let db = Database::from_rows(players, Vec::new(), Vec::new()).unwrap();
    let mut monitor = MprisMonitor::new(db);
    let observations = vec![
        seen("vlc", Some(PlaybackStatus::Playing), Some(song("A", "Ann"))),
        seen("mpv", Some(PlaybackStatus::Playing), Some(song("B", "Bob"))),
    ];
    assert_eq!(
        monitor.discover_players(&observations, 1000),
        Err(MonitorError::Storage(DatabaseError::IdsExhausted))
    );
    assert!(monitor.player_states().is_empty());
    assert_eq!(monitor.database().players().len(), 1);
    assert_eq!(monitor.session_tracker().get_active_session_count(), 0);
}

#[test]
fn refusal_of_the_state_machine_is_reported_by_the_discovery() {
    let mut monitor = MprisMonitor::new(Database::new());
    // Player 1 has a session before it is discovered, paused at the first
    // moment that 64 bits can hold.
    monitor
        .handle_state_changes(
            1,
            PlaybackStatus::Stopped,
            PlaybackStatus::Playing,
            None,
            Some(song("A", "Ann")),
            0,
        )
        .unwrap();
    monitor
        .handle_state_changes(
            1,
            PlaybackStatus::Playing,
            PlaybackStatus::Paused,
            Some(song("A", "Ann")),
            Some(song("A", "Ann")),
            i64::MIN,
        )
        .unwrap();
    let observations = vec![
        seen("vlc", Some(PlaybackStatus::Playing), Some(song("B", "Bob"))),
        seen("mpv", Some(PlaybackStatus::Playing), Some(song("C", "Cy"))),
    ];
    assert_eq!(
        monitor.discover_players(&observations, i64::MAX),
        Err(MonitorError::Tracker(TrackerError::TimeOverflow))
    );
    // The player is registered and tracked; the discovery ended with it.
    assert_eq!(monitor.player_states().len(), 1);
    assert_eq!(monitor.player_states()[0].bus_name, "vlc");
    assert_eq!(monitor.database().players().len(), 1);
}

#[test]
fn second_final_event_of_a_session_is_dropped() {
    let mut monitor = MprisMonitor::new(Database::new());
    monitor
        .discover_players(&one("vlc", PlaybackStatus::Playing, Some(song("A", "Ann"))), 1000)
        .unwrap();
    monitor.poll_players(&one("vlc", PlaybackStatus::Stopped, Some(song("A", "Ann"))), 1180).unwrap();
    for event in drain(&mut monitor) {
        monitor.handle_session_event(event).unwrap();
    }
    assert_eq!(monitor.database().sessions()[0].status, "completed");
    assert_eq!(
        monitor.handle_session_event(SessionEvent::SessionFinalized {
            session_id: 1,
            end_time: 5000,
            status: "timeout".to_string()
        }),
        Err(MonitorError::UnknownSession)
    );
    let row = &monitor.database().sessions()[0];
    assert_eq!(row.status, "completed");
    assert_eq!(row.end_time, Some(1180));
    assert_eq!(row.listened_time, Some(180));
}
