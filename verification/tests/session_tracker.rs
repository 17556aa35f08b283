use gopal::database::Track;
use gopal::session_tracker::{SessionEvent, SessionTracker, TrackerError};

fn create_test_track() -> Track {
    Track {
        id: "test_track_1".to_string(),
        title: "Test Song".to_string(),
        artist: "Test Artist".to_string(),
        album: "Test Album".to_string(),
        length: Some(180_000_000),
        art_url: None,
    }
}

#[test]
fn test_session_lifecycle() {
    let mut tracker = SessionTracker::new();

    let player_id = 1;
    let track = create_test_track();
    let start_time = 1000;

    // Start session
    tracker.handle_play_event(player_id, track.clone(), start_time).unwrap();
    assert_eq!(tracker.get_active_session_count(), 1);

    // Check session started event
    if let Some(SessionEvent::SessionStarted { session_id, .. }) = tracker.next_event() {
        assert_eq!(session_id, 1);
    } else {
        panic!("Expected SessionStarted event");
    }

    // Pause session
    tracker.handle_pause_event(player_id, start_time + 60).unwrap();

    // Resume session
    tracker.handle_resume_event(player_id, start_time + 90).unwrap();

    // Check pause event
    if let Some(SessionEvent::SessionPaused { pause_duration, .. }) = tracker.next_event() {
        assert_eq!(pause_duration, 30);
    } else {
        panic!("Expected SessionPaused event");
    }

    // Stop session
    tracker.handle_stop_event(player_id, start_time + 180).unwrap();
    assert_eq!(tracker.get_active_session_count(), 0);

    // Check session finalized event
    if let Some(SessionEvent::SessionFinalized { status, .. }) = tracker.next_event() {
        assert_eq!(status, "completed");
    } else {
        panic!("Expected SessionFinalized event");
    }
}

#[test]
fn test_multiple_players() {
    let mut tracker = SessionTracker::new();

    let track1 = create_test_track();
    let mut track2 = create_test_track();
    track2.id = "test_track_2".to_string();
    track2.title = "Test Song 2".to_string();

    tracker.handle_play_event(1, track1, 1000).unwrap();
    tracker.handle_play_event(2, track2, 1010).unwrap();

    assert_eq!(tracker.get_active_session_count(), 2);

    tracker.handle_stop_event(1, 1100).unwrap();
    assert_eq!(tracker.get_active_session_count(), 1);

    tracker.handle_stop_event(2, 1200).unwrap();
    assert_eq!(tracker.get_active_session_count(), 0);
}

#[test]
fn test_session_interruption() {
    let mut tracker = SessionTracker::new();

    let track1 = create_test_track();
    let mut track2 = create_test_track();
    track2.id = "test_track_2".to_string();

    let player_id = 1;

    tracker.handle_play_event(player_id, track1, 1000).unwrap();
    assert_eq!(tracker.get_active_session_count(), 1);

    tracker.handle_play_event(player_id, track2, 1100).unwrap();
    assert_eq!(tracker.get_active_session_count(), 1);

    let sessions = tracker.get_active_sessions();
    assert_eq!(sessions.len(), 1);
    assert_eq!(sessions[0].1.track.id, "test_track_2");
}

#[test]
fn test_cleanup_stale_sessions() {
    let mut tracker = SessionTracker::new();

    let track = create_test_track();
    let start_time = 1000;
    let current_time = 2000;
    let max_idle_time = 500;

    tracker.handle_play_event(1, track, start_time).unwrap();
    assert_eq!(tracker.get_active_session_count(), 1);

    tracker.cleanup_stale_sessions(current_time, max_idle_time).unwrap();
    assert_eq!(tracker.get_active_session_count(), 0);
}

#[test]
fn new_tracker_is_empty_and_default_is_new() {
    let mut tracker = SessionTracker::new();
    assert_eq!(tracker.get_active_session_count(), 0);
    assert!(!tracker.has_active_session(1));
    assert!(tracker.next_event().is_none());
    let mut other = SessionTracker::default();
    assert_eq!(other.get_active_session_count(), 0);
    other.handle_play_event(7, create_test_track(), 5).unwrap();
    match other.next_event() {
        Some(SessionEvent::SessionStarted { session_id, player_id, start_time, track }) => {
            assert_eq!(session_id, 1);
            assert_eq!(player_id, 7);
            assert_eq!(start_time, 5);
            assert_eq!(track.id, "test_track_1");
        }
        _ => panic!("expected the start of the session"),
    }
}

#[test]
fn pause_resume_stop_accounts_for_the_pause() {
    let mut tracker = SessionTracker::new();
    tracker.handle_play_event(1, create_test_track(), 1000).unwrap();
    tracker.handle_pause_event(1, 1060).unwrap();
    {
        let sessions = tracker.get_active_sessions();
        assert!(sessions[0].1.is_paused);
        assert_eq!(sessions[0].1.pause_start_time, Some(1060));
        assert_eq!(sessions[0].1.total_pause_time, 0);
    }
    tracker.handle_resume_event(1, 1090).unwrap();
    {
        let sessions = tracker.get_active_sessions();
        assert_eq!(sessions[0].0, 1);
        assert!(!sessions[0].1.is_paused);
        assert_eq!(sessions[0].1.pause_start_time, None);
        assert_eq!(sessions[0].1.total_pause_time, 30);
        assert_eq!(sessions[0].1.start_time, 1000);
        assert_eq!(sessions[0].1.session_id, 1);
    }
    tracker.handle_stop_event(1, 1180).unwrap();
    let events = tracker.take_events();
    assert_eq!(events.len(), 3);
    assert!(matches!(
        events[0],
        SessionEvent::SessionStarted { session_id: 1, player_id: 1, start_time: 1000, .. }
    ));
    assert!(matches!(events[1], SessionEvent::SessionPaused { session_id: 1, pause_duration: 30 }));
    match &events[2] {
        SessionEvent::SessionFinalized { session_id, end_time, status } => {
            assert_eq!(*session_id, 1);
            assert_eq!(*end_time, 1180);
            assert_eq!(status, "completed");
        }
        _ => panic!("expected the final event"),
    }
    assert!(tracker.take_events().is_empty());
}

#[test]
fn duplicate_pause_and_resume_are_ignored() {
    let mut tracker = SessionTracker::new();
    tracker.handle_play_event(1, create_test_track(), 1000).unwrap();
    tracker.handle_resume_event(1, 1010).unwrap();
    tracker.handle_pause_event(1, 1020).unwrap();
    tracker.handle_pause_event(1, 1030).unwrap();
    {
        let sessions = tracker.get_active_sessions();
        assert_eq!(sessions[0].1.pause_start_time, Some(1020));
        assert_eq!(sessions[0].1.total_pause_time, 0);
    }
    let events = tracker.take_events();
    assert_eq!(events.len(), 1);
}

#[test]
fn events_without_a_session_are_ignored() {
    let mut tracker = SessionTracker::new();
    tracker.handle_pause_event(3, 10).unwrap();
    tracker.handle_resume_event(3, 20).unwrap();
    tracker.handle_stop_event(3, 30).unwrap();
    tracker.handle_sleep_gap(3, 400).unwrap();
    tracker.cleanup_stale_sessions(1000, 300).unwrap();
    assert_eq!(tracker.get_active_session_count(), 0);
    assert!(tracker.take_events().is_empty());
}

#[test]
fn sleep_gap_folds_into_pause_time() {
    let mut tracker = SessionTracker::new();
    tracker.handle_play_event(1, create_test_track(), 1000).unwrap();
    tracker.handle_sleep_gap(1, 400).unwrap();
    {
        let sessions = tracker.get_active_sessions();
        assert_eq!(sessions.len(), 1);
        assert_eq!(sessions[0].1.total_pause_time, 400);
        assert_eq!(sessions[0].1.session_id, 1);
        assert_eq!(sessions[0].1.start_time, 1000);
        assert!(!sessions[0].1.is_paused);
        assert_eq!(sessions[0].1.pause_start_time, None);
        assert_eq!(sessions[0].1.track.id, "test_track_1");
    }
    let events = tracker.take_events();
    assert_eq!(events.len(), 2);
    assert!(matches!(
        events[1],
        SessionEvent::SessionPaused { session_id: 1, pause_duration: 400 }
    ));
    // 1000 seconds of wall clock, 400 of them asleep.
    tracker.handle_stop_event(1, 2000).unwrap();
    let events = tracker.take_events();
    assert_eq!(events.len(), 1);
    assert!(matches!(
        events[0],
        SessionEvent::SessionFinalized { session_id: 1, end_time: 2000, .. }
    ));
}

#[test]
fn sleep_gap_keeps_a_paused_session_paused() {
    let mut tracker = SessionTracker::new();
    tracker.handle_play_event(1, create_test_track(), 1000).unwrap();
    tracker.handle_pause_event(1, 1100).unwrap();
    tracker.handle_sleep_gap(1, 400).unwrap();
    let sessions = tracker.get_active_sessions();
    assert!(sessions[0].1.is_paused);
    assert_eq!(sessions[0].1.pause_start_time, Some(1100));
    assert_eq!(sessions[0].1.total_pause_time, 400);
}

#[test]
fn session_under_one_second_is_dropped() {
    let mut tracker = SessionTracker::new();
    tracker.handle_play_event(1, create_test_track(), 1000).unwrap();
    tracker.handle_stop_event(1, 1000).unwrap();
    assert_eq!(tracker.get_active_session_count(), 0);
    let events = tracker.take_events();
    assert_eq!(events.len(), 1);
    assert!(matches!(events[0], SessionEvent::SessionStarted { .. }));
}

#[test]
fn session_that_was_only_paused_is_dropped() {
    // 100 seconds of wall clock, all but the first half second paused:
    // the listened time is below one second.
    let mut tracker = SessionTracker::new();
    tracker.handle_play_event(1, create_test_track(), 1000).unwrap();
    tracker.handle_pause_event(1, 1000).unwrap();
    tracker.handle_stop_event(1, 1100).unwrap();
    let events = tracker.take_events();
    assert_eq!(events.len(), 2);
    assert!(matches!(
        events[1],
        SessionEvent::SessionPaused { session_id: 1, pause_duration: 100 }
    ));
}

#[test]
fn session_of_exactly_one_second_is_finalized() {
    let mut tracker = SessionTracker::new();
    tracker.handle_play_event(1, create_test_track(), 1000).unwrap();
    tracker.handle_stop_event(1, 1001).unwrap();
    let events = tracker.take_events();
    assert_eq!(events.len(), 2);
    assert!(matches!(events[1], SessionEvent::SessionFinalized { end_time: 1001, .. }));
}

#[test]
fn long_session_is_clamped_to_a_day() {
    let mut tracker = SessionTracker::new();
    tracker.handle_play_event(1, create_test_track(), 1000).unwrap();
    tracker.handle_stop_event(1, 1000 + 86_400 + 5000).unwrap();
    let events = tracker.take_events();
    match &events[1] {
        SessionEvent::SessionFinalized { end_time, status, .. } => {
            assert_eq!(*end_time, 1000 + 86_400);
            assert_eq!(status, "completed");
        }
        _ => panic!("expected the final event"),
    }
}

#[test]
fn session_of_exactly_a_day_is_not_clamped() {
    let mut tracker = SessionTracker::new();
    tracker.handle_play_event(1, create_test_track(), 1000).unwrap();
    tracker.handle_stop_event(1, 1000 + 86_400).unwrap();
    let events = tracker.take_events();
    assert!(matches!(events[1], SessionEvent::SessionFinalized { end_time: 87_400, .. }));
}

#[test]
fn clamped_session_with_a_day_of_pause_is_dropped() {
    // The pause total exceeds the clamped span, so nothing was listened to.
    let mut tracker = SessionTracker::new();
    tracker.handle_play_event(1, create_test_track(), 0).unwrap();
    tracker.handle_sleep_gap(1, 86_400).unwrap();
    tracker.handle_stop_event(1, 200_000).unwrap();
    let events = tracker.take_events();
    assert_eq!(events.len(), 2);
}

#[test]
fn interruption_is_finalized_before_the_new_start() {
    let mut tracker = SessionTracker::new();
    let mut second = create_test_track();
    second.id = "test_track_2".to_string();
    tracker.handle_play_event(1, create_test_track(), 1000).unwrap();
    tracker.handle_pause_event(1, 1050).unwrap();
    tracker.handle_play_event(1, second, 1100).unwrap();
    let events = tracker.take_events();
    assert_eq!(events.len(), 4);
    assert!(matches!(events[0], SessionEvent::SessionStarted { session_id: 1, .. }));
    assert!(matches!(events[1], SessionEvent::SessionPaused { session_id: 1, pause_duration: 50 }));
    match &events[2] {
        SessionEvent::SessionFinalized { session_id, end_time, status } => {
            assert_eq!(*session_id, 1);
            assert_eq!(*end_time, 1100);
            assert_eq!(status, "interrupted");
        }
        _ => panic!("expected the final event of the interrupted session"),
    }
    match &events[3] {
        SessionEvent::SessionStarted { session_id, track, player_id, start_time } => {
            assert_eq!(*session_id, 2);
            assert_eq!(track.id, "test_track_2");
            assert_eq!(*player_id, 1);
            assert_eq!(*start_time, 1100);
        }
        _ => panic!("expected the start of the new session"),
    }
}

fn session_of(tracker: &SessionTracker, player: i64) -> Option<i64> {
    let sessions = tracker.get_active_sessions();
    let found: Vec<i64> =
        sessions.iter().filter(|pair| pair.0 == player).map(|pair| pair.1.session_id).collect();
    assert!(found.len() <= 1);
    found.first().copied()
}

#[test]
fn session_ids_count_up_from_one() {
    let mut tracker = SessionTracker::new();
    tracker.handle_play_event(1, create_test_track(), 10).unwrap();
    tracker.handle_play_event(2, create_test_track(), 20).unwrap();
    tracker.handle_play_event(1, create_test_track(), 30).unwrap();
    assert_eq!(tracker.get_active_session_count(), 2);
    assert_eq!(session_of(&tracker, 1), Some(3));
    assert_eq!(session_of(&tracker, 2), Some(2));
    assert_eq!(session_of(&tracker, 3), None);
    for (player, session) in tracker.get_active_sessions() {
        assert_eq!(session.player_id, player);
    }
}

#[test]
fn play_adds_a_session_only_where_the_player_had_none() {
    let mut tracker = SessionTracker::new();
    tracker.handle_play_event(1, create_test_track(), 10).unwrap();
    tracker.handle_play_event(2, create_test_track(), 20).unwrap();
    tracker.handle_pause_event(2, 25).unwrap();
    assert_eq!(tracker.get_active_session_count(), 2);
    tracker.handle_play_event(1, create_test_track(), 30).unwrap();
    assert_eq!(tracker.get_active_session_count(), 2);
    tracker.handle_play_event(3, create_test_track(), 40).unwrap();
    assert_eq!(tracker.get_active_session_count(), 3);
    // The session of the second player is as it was.
    let sessions = tracker.get_active_sessions();
    let second: Vec<_> = sessions.iter().filter(|pair| pair.0 == 2).collect();
    assert_eq!(second.len(), 1);
    assert_eq!(second[0].1.session_id, 2);
    assert_eq!(second[0].1.start_time, 20);
    assert_eq!(second[0].1.pause_start_time, Some(25));
}

#[test]
fn sweep_of_several_stale_sessions_keeps_their_events_together() {
    let mut tracker = SessionTracker::new();
    let mut player: i64 = 1;
    while player <= 6 {
        tracker.handle_play_event(player, create_test_track(), 1000).unwrap();
        tracker.handle_pause_event(player, 1000 + player).unwrap();
        player += 1;
    }
    tracker.handle_play_event(7, create_test_track(), 1990).unwrap();
    let _ = tracker.take_events();
    tracker.cleanup_stale_sessions(2000, 300).unwrap();
    assert_eq!(tracker.get_active_session_count(), 1);
    assert!(tracker.has_active_session(7));
    // Each stale session was paused for all but its first seconds: a pause
    // notice, then the final event of the same session.
    let events = tracker.take_events();
    assert_eq!(events.len(), 12);
    let mut seen: Vec<i64> = Vec::new();
    let mut k: usize = 0;
    while k < events.len() {
        let id = match &events[k] {
            SessionEvent::SessionPaused { session_id, pause_duration } => {
                assert_eq!(*pause_duration, 2000 - (1000 + *session_id));
                *session_id
            }
            _ => panic!("expected a pause notice"),
        };
        match &events[k + 1] {
            SessionEvent::SessionFinalized { session_id, end_time, status } => {
                assert_eq!(*session_id, id);
                assert_eq!(*end_time, 2000);
                assert_eq!(status, "timeout");
            }
            _ => panic!("expected the final event"),
        }
        assert!(!seen.contains(&id));
        seen.push(id);
        k += 2;
    }
    seen.sort();
    assert_eq!(seen, vec![1, 2, 3, 4, 5, 6]);
}

#[test]
fn at_most_one_session_per_player() {
    let mut tracker = SessionTracker::new();
    for round in 0..5 {
        for player in 1..4 {
            tracker.handle_play_event(player, create_test_track(), 1000 + round * 10).unwrap();
            tracker.handle_pause_event(player, 1001 + round * 10).unwrap();
        }
    }
    assert_eq!(tracker.get_active_session_count(), 3);
    let sessions = tracker.get_active_sessions();
    for a in 0..sessions.len() {
        for b in 0..sessions.len() {
            if a != b {
                assert_ne!(sessions[a].0, sessions[b].0);
            }
        }
    }
}

#[test]
fn stale_sweep_keeps_fresh_sessions_and_times_out_the_rest() {
    let mut tracker = SessionTracker::new();
    tracker.handle_play_event(1, create_test_track(), 1000).unwrap();
    tracker.handle_play_event(2, create_test_track(), 1900).unwrap();
    tracker.handle_play_event(3, create_test_track(), 1000).unwrap();
    tracker.handle_pause_event(3, 1950).unwrap();
    let _ = tracker.take_events();
    tracker.cleanup_stale_sessions(2000, 300).unwrap();
    // Player 1 was last active at 1000, player 2 at 1900, player 3 at 1950.
    assert_eq!(tracker.get_active_session_count(), 2);
    assert!(!tracker.has_active_session(1));
    assert!(tracker.has_active_session(2));
    assert!(tracker.has_active_session(3));
    let events = tracker.take_events();
    assert_eq!(events.len(), 1);
    match &events[0] {
        SessionEvent::SessionFinalized { session_id, end_time, status } => {
            assert_eq!(*session_id, 1);
            assert_eq!(*end_time, 2000);
            assert_eq!(status, "timeout");
        }
        _ => panic!("expected the final event"),
    }
}

#[test]
fn stale_sweep_at_the_threshold_keeps_the_session() {
    let mut tracker = SessionTracker::new();
    tracker.handle_play_event(1, create_test_track(), 1000).unwrap();
    tracker.cleanup_stale_sessions(1300, 300).unwrap();
    assert_eq!(tracker.get_active_session_count(), 1);
    tracker.cleanup_stale_sessions(1301, 300).unwrap();
    assert_eq!(tracker.get_active_session_count(), 0);
}

#[test]
fn resume_that_overflows_is_refused() {
    let mut tracker = SessionTracker::new();
    tracker.handle_play_event(1, create_test_track(), 0).unwrap();
    tracker.handle_pause_event(1, i64::MIN).unwrap();
    let _ = tracker.take_events();
    assert_eq!(tracker.handle_resume_event(1, i64::MAX), Err(TrackerError::TimeOverflow));
    let sessions = tracker.get_active_sessions();
    assert!(sessions[0].1.is_paused);
    assert_eq!(sessions[0].1.pause_start_time, Some(i64::MIN));
    assert_eq!(sessions[0].1.total_pause_time, 0);
}

#[test]
fn stop_and_play_that_overflow_are_refused() {
    let mut tracker = SessionTracker::new();
    tracker.handle_play_event(1, create_test_track(), 0).unwrap();
    tracker.handle_pause_event(1, i64::MIN).unwrap();
    let _ = tracker.take_events();
    assert_eq!(tracker.handle_stop_event(1, i64::MAX), Err(TrackerError::TimeOverflow));
    assert_eq!(
        tracker.handle_play_event(1, create_test_track(), i64::MAX),
        Err(TrackerError::TimeOverflow)
    );
    assert_eq!(tracker.cleanup_stale_sessions(i64::MAX, 300), Err(TrackerError::TimeOverflow));
    assert_eq!(tracker.get_active_session_count(), 1);
    assert!(tracker.take_events().is_empty());
}

#[test]
fn sleep_gap_that_overflows_is_refused() {
    let mut tracker = SessionTracker::new();
    tracker.handle_play_event(1, create_test_track(), 0).unwrap();
    tracker.handle_sleep_gap(1, i64::MAX).unwrap();
    assert_eq!(tracker.handle_sleep_gap(1, 1), Err(TrackerError::TimeOverflow));
    let sessions = tracker.get_active_sessions();
    assert_eq!(sessions[0].1.total_pause_time, i64::MAX);
}

#[test]
fn negative_pause_is_accounted_as_it_is() {
    let mut tracker = SessionTracker::new();
    tracker.handle_play_event(1, create_test_track(), 1000).unwrap();
    tracker.handle_pause_event(1, 1100).unwrap();
    tracker.handle_resume_event(1, 1050).unwrap();
    let sessions = tracker.get_active_sessions();
    assert_eq!(sessions[0].1.total_pause_time, -50);
}
