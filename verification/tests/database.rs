use gopal::database::{Database, DatabaseError, Player, Session, Track};

fn sample_track(id: &str, title: &str, artist: &str) -> Track {
    Track {
        id: id.to_string(),
        title: title.to_string(),
        artist: artist.to_string(),
        album: "Album".to_string(),
        length: Some(200_000_000),
        art_url: None,
    }
}

fn sample_session(id: i64, track: &str, player: i64, start: i64, status: &str) -> Session {
    Session {
        id,
        track_id: track.to_string(),
        player_id: player,
        start_time: start,
        end_time: None,
        paused_time: 0,
        listened_time: None,
        status: status.to_string(),
    }
}

fn stocked_store() -> Database {
    let mut db = Database::new();
    db.insert_or_update_player("vlc", "VLC").unwrap();
    db.insert_or_update_player("mpv", "mpv").unwrap();
    db.insert_or_update_track(&sample_track("t1", "One", "X")).unwrap();
    db.insert_or_update_track(&sample_track("t2", "Two", "Y")).unwrap();
    db.insert_or_update_track(&sample_track("t3", "Three", "Y")).unwrap();
    db
}

#[test]
fn new_store_is_empty() {
    let db = Database::new();
    assert!(db.players().is_empty());
    assert!(db.tracks().is_empty());
    assert!(db.sessions().is_empty());
    let stats = db.get_database_stats().unwrap();
    assert_eq!(stats.total_sessions, 0);
    assert_eq!(stats.active_sessions, 0);
    assert_eq!(stats.total_tracks, 0);
    assert_eq!(stats.total_players, 0);
}

#[test]
fn players_are_upserted_by_name() {
    let mut db = Database::new();
    let vlc = db.insert_or_update_player("org.mpris.MediaPlayer2.vlc", "VLC").unwrap();
    let mpv = db.insert_or_update_player("org.mpris.MediaPlayer2.mpv", "mpv").unwrap();
    assert_eq!(vlc, 1);
    assert_eq!(mpv, 2);
    let again =
        db.insert_or_update_player("org.mpris.MediaPlayer2.vlc", "VLC media player").unwrap();
    assert_eq!(again, 1);
    assert_eq!(db.players().len(), 2);
    assert_eq!(db.players()[0].id, 1);
    assert_eq!(db.players()[0].name, "org.mpris.MediaPlayer2.vlc");
    assert_eq!(db.players()[0].identity, "VLC media player");
    assert_eq!(db.players()[1].identity, "mpv");
}

#[test]
fn player_ids_follow_the_largest_id() {
    let players = vec![
        Player { id: 7, name: "a".to_string(), identity: "A".to_string() },
        Player { id: 3, name: "b".to_string(), identity: "B".to_string() },
    ];
    let mut db = Database::from_rows(players, Vec::new(), Vec::new()).unwrap();
    assert_eq!(db.insert_or_update_player("c", "C"), Ok(8));
}

#[test]
fn player_ids_can_run_out() {
    let players = vec![Player { id: i64::MAX, name: "a".to_string(), identity: "A".to_string() }];
    let mut db = Database::from_rows(players, Vec::new(), Vec::new()).unwrap();
    assert_eq!(db.insert_or_update_player("b", "B"), Err(DatabaseError::IdsExhausted));
    assert_eq!(db.players().len(), 1);
    assert_eq!(db.insert_or_update_player("a", "again"), Ok(i64::MAX));
}

#[test]
fn tracks_are_upserted_by_id() {
    let mut db = Database::new();
    db.insert_or_update_track(&sample_track("t1", "One", "X")).unwrap();
    db.insert_or_update_track(&sample_track("t2", "Two", "Y")).unwrap();
    db.insert_or_update_track(&sample_track("t1", "One again", "X")).unwrap();
    assert_eq!(db.tracks().len(), 2);
    assert_eq!(db.tracks()[0].id, "t1");
    assert_eq!(db.tracks()[0].title, "One again");
    assert_eq!(db.tracks()[1].title, "Two");
}

#[test]
fn from_rows_refuses_shared_keys() {
    let twice = vec![
        Player { id: 1, name: "a".to_string(), identity: "A".to_string() },
        Player { id: 1, name: "b".to_string(), identity: "B".to_string() },
    ];
    assert!(Database::from_rows(twice, Vec::new(), Vec::new()).is_none());
    let same_name = vec![
        Player { id: 1, name: "a".to_string(), identity: "A".to_string() },
        Player { id: 2, name: "a".to_string(), identity: "B".to_string() },
    ];
    assert!(Database::from_rows(same_name, Vec::new(), Vec::new()).is_none());
    let same_track = vec![sample_track("t", "One", "X"), sample_track("t", "Two", "Y")];
    assert!(Database::from_rows(Vec::new(), same_track, Vec::new()).is_none());
    let same_session =
        vec![sample_session(4, "t", 1, 0, "active"), sample_session(4, "t", 2, 0, "completed")];
    assert!(Database::from_rows(Vec::new(), Vec::new(), same_session).is_none());
    let fine = vec![sample_session(4, "t", 1, 0, "active"), sample_session(5, "t", 1, 0, "active")];
    assert!(Database::from_rows(Vec::new(), Vec::new(), fine).is_some());
}

#[test]
fn session_is_opened_paused_and_finalized() {
    let mut db = stocked_store();
    let id = db.start_session("t1", 1, 1000).unwrap();
    assert_eq!(id, 1);
    {
        let row = &db.sessions()[0];
        assert_eq!(row.id, 1);
        assert_eq!(row.track_id, "t1");
        assert_eq!(row.player_id, 1);
        assert_eq!(row.start_time, 1000);
        assert_eq!(row.end_time, None);
        assert_eq!(row.paused_time, 0);
        assert_eq!(row.listened_time, None);
        assert_eq!(row.status, "active");
    }
    db.update_session_pause_time(id, 30).unwrap();
    db.finalize_session(id, 1180, "completed").unwrap();
    let row = &db.sessions()[0];
    assert_eq!(row.end_time, Some(1180));
    assert_eq!(row.paused_time, 30);
    assert_eq!(row.listened_time, Some(150));
    assert_eq!(row.status, "completed");
    assert_eq!(row.start_time, 1000);
}

#[test]
fn opening_a_session_interrupts_the_open_one() {
    let mut db = stocked_store();
    let first = db.start_session("t1", 1, 1000).unwrap();
    let other = db.start_session("t2", 2, 1010).unwrap();
    let second = db.start_session("t3", 1, 1100).unwrap();
    assert_eq!((first, other, second), (1, 2, 3));
    let rows = db.sessions();
    assert_eq!(rows[0].status, "interrupted");
    assert_eq!(rows[0].end_time, Some(1100));
    assert_eq!(rows[0].listened_time, Some(100));
    assert_eq!(rows[1].status, "active");
    assert_eq!(rows[2].status, "active");
    assert_eq!(rows[2].track_id, "t3");
}

#[test]
fn unknown_session_ids_change_nothing() {
    let mut db = stocked_store();
    db.start_session("t1", 1, 1000).unwrap();
    db.update_session_pause_time(99, 30).unwrap();
    db.finalize_session(99, 2000, "completed").unwrap();
    db.update_active_session_progress(99, 2000).unwrap();
    let row = &db.sessions()[0];
    assert_eq!(row.status, "active");
    assert_eq!(row.paused_time, 0);
    assert_eq!(row.listened_time, None);
}

#[test]
fn progress_updates_leave_status_and_start_alone() {
    let mut db = stocked_store();
    let id = db.start_session("t1", 1, 1000).unwrap();
    db.update_session_pause_time(id, 10).unwrap();
    let mut last: i64 = i64::MIN;
    let moments: [i64; 4] = [1030, 1030, 1060, 1500];
    for now in moments {
        db.update_active_session_progress(id, now).unwrap();
        let row = &db.sessions()[0];
        assert_eq!(row.status, "active");
        assert_eq!(row.start_time, 1000);
        assert_eq!(row.end_time, None);
        assert_eq!(row.paused_time, 10);
        assert_eq!(row.listened_time, Some(now - 1000 - 10));
        assert!(row.listened_time.unwrap() >= last);
        last = row.listened_time.unwrap();
    }
}

#[test]
fn progress_update_skips_a_session_that_is_closed() {
    let mut db = stocked_store();
    let id = db.start_session("t1", 1, 1000).unwrap();
    db.finalize_session(id, 1100, "completed").unwrap();
    db.update_active_session_progress(id, 5000).unwrap();
    let row = &db.sessions()[0];
    assert_eq!(row.listened_time, Some(100));
    assert_eq!(row.status, "completed");
}

#[test]
fn overflow_is_refused_and_changes_nothing() {
    let mut db = stocked_store();
    let id = db.start_session("t1", 1, i64::MIN).unwrap();
    assert_eq!(db.finalize_session(id, i64::MAX, "completed"), Err(DatabaseError::Overflow));
    assert_eq!(db.update_active_session_progress(id, i64::MAX), Err(DatabaseError::Overflow));
    assert_eq!(db.start_session("t2", 1, i64::MAX), Err(DatabaseError::Overflow));
    db.update_session_pause_time(id, i64::MAX).unwrap();
    assert_eq!(db.update_session_pause_time(id, 1), Err(DatabaseError::Overflow));
    assert_eq!(db.sessions().len(), 1);
    let row = &db.sessions()[0];
    assert_eq!(row.status, "active");
    assert_eq!(row.end_time, None);
    assert_eq!(row.listened_time, None);
    assert_eq!(row.paused_time, i64::MAX);
}

#[test]
fn session_ids_can_run_out() {
    let players = vec![Player { id: 2, name: "a".to_string(), identity: "A".to_string() }];
    let tracks = vec![sample_track("t", "One", "X")];
    let rows = vec![sample_session(i64::MAX, "t", 1, 0, "completed")];
    let mut db = Database::from_rows(players, tracks, rows).unwrap();
    assert_eq!(db.start_session("t", 2, 10), Err(DatabaseError::IdsExhausted));
    assert_eq!(db.sessions().len(), 1);
}

#[test]
fn active_session_of_a_player_is_the_latest() {
    let rows = vec![
        sample_session(1, "t1", 1, 1000, "active"),
        sample_session(2, "t2", 1, 3000, "active"),
        sample_session(3, "t3", 1, 3000, "active"),
        sample_session(4, "t4", 1, 9000, "completed"),
        sample_session(5, "t5", 2, 9500, "active"),
    ];
    let db = Database::from_rows(Vec::new(), Vec::new(), rows).unwrap();
    let found = db.get_active_session_for_player(1).unwrap();
    assert_eq!(found.id, 2);
    assert_eq!(found.track_id, "t2");
    assert_eq!(db.get_active_session_for_player(2).unwrap().id, 5);
    assert!(db.get_active_session_for_player(3).is_none());
}

#[test]
fn orphans_are_recovered_and_counted() {
    let mut paused = sample_session(3, "t3", 3, 0, "active");
    paused.paused_time = 400;
    let rows = vec![
        sample_session(1, "t1", 1, 0, "active"),
        sample_session(2, "t2", 2, 50_000, "active"),
        paused,
        sample_session(4, "t4", 4, 0, "completed"),
        sample_session(5, "t5", 5, 13_600, "active"),
    ];
    let mut db = Database::from_rows(Vec::new(), Vec::new(), rows).unwrap();
    let count = db.cleanup_orphaned_sessions(100_000, 86_400).unwrap();
    assert_eq!(count, 2);
    let rows = db.sessions();
    assert_eq!(rows[0].status, "orphaned");
    assert_eq!(rows[0].end_time, Some(86_400));
    assert_eq!(rows[0].listened_time, Some(86_400));
    assert_eq!(rows[1].status, "active");
    assert_eq!(rows[1].end_time, None);
    assert_eq!(rows[2].status, "orphaned");
    assert_eq!(rows[2].end_time, Some(86_400));
    assert_eq!(rows[2].listened_time, Some(86_000));
    assert_eq!(rows[3].status, "completed");
    assert_eq!(rows[3].end_time, None);
    // Began exactly the longest duration ago: not an orphan.
    assert_eq!(rows[4].status, "active");
    assert_eq!(db.cleanup_orphaned_sessions(100_000, 86_400), Ok(0));
}

#[test]
fn orphan_recovery_that_overflows_is_refused() {
    // The estimated end of the orphan lies before the first moment that
    // 64 bits can hold.
    let rows = vec![sample_session(1, "t1", 1, i64::MIN, "active")];
    let mut db = Database::from_rows(Vec::new(), Vec::new(), rows).unwrap();
    assert_eq!(db.cleanup_orphaned_sessions(0, -1), Err(DatabaseError::Overflow));
    assert_eq!(db.sessions()[0].status, "active");
    assert_eq!(db.sessions()[0].end_time, None);
}

#[test]
fn database_stats_count_rows() {
    let mut db = Database::new();
    db.insert_or_update_player("a", "A").unwrap();
    db.insert_or_update_player("b", "B").unwrap();
    db.insert_or_update_track(&sample_track("t1", "One", "X")).unwrap();
    db.insert_or_update_track(&sample_track("t2", "Two", "X")).unwrap();
    let first = db.start_session("t1", 1, 1000).unwrap();
    db.finalize_session(first, 1100, "completed").unwrap();
    db.start_session("t2", 1, 1200).unwrap();
    db.start_session("t2", 2, 1300).unwrap();
    let stats = db.get_database_stats().unwrap();
    assert_eq!(stats.total_sessions, 3);
    assert_eq!(stats.active_sessions, 2);
    assert_eq!(stats.total_tracks, 2);
    assert_eq!(stats.total_players, 2);
}

#[test]
fn session_of_an_unknown_track_or_player_is_refused() {
    let mut db = Database::new();
    assert_eq!(db.start_session("t1", 1, 1000), Err(DatabaseError::UnknownTrack));
    db.insert_or_update_track(&sample_track("t1", "One", "X")).unwrap();
    assert_eq!(db.start_session("t1", 1, 1000), Err(DatabaseError::UnknownPlayer));
    assert_eq!(db.insert_or_update_player("vlc", "VLC"), Ok(1));
    assert_eq!(db.start_session("t2", 1, 1000), Err(DatabaseError::UnknownTrack));
    assert_eq!(db.start_session("t1", 2, 1000), Err(DatabaseError::UnknownPlayer));
    assert!(db.sessions().is_empty());
    assert_eq!(db.start_session("t1", 1, 1000), Ok(1));
    // A refusal leaves the open session of the player as it is.
    assert_eq!(db.start_session("t9", 1, 2000), Err(DatabaseError::UnknownTrack));
    assert_eq!(db.sessions().len(), 1);
    assert_eq!(db.sessions()[0].status, "active");
    assert_eq!(db.sessions()[0].end_time, None);
}

#[test]
fn session_that_has_ended_is_not_finalized_again() {
    let mut db = stocked_store();
    let id = db.start_session("t1", 1, 1000).unwrap();
    db.update_session_pause_time(id, 30).unwrap();
    db.finalize_session(id, 1180, "completed").unwrap();
    assert_eq!(db.finalize_session(id, 5000, "timeout"), Ok(()));
    let row = &db.sessions()[0];
    assert_eq!(row.status, "completed");
    assert_eq!(row.end_time, Some(1180));
    assert_eq!(row.listened_time, Some(150));
    // Not even a time that does not fit is looked at.
    assert_eq!(db.finalize_session(id, i64::MIN, "orphaned"), Ok(()));
    assert_eq!(db.sessions()[0].status, "completed");
    assert_eq!(db.sessions()[0].listened_time, Some(150));
}

#[test]
fn session_that_has_ended_takes_no_more_pause() {
    let mut db = stocked_store();
    let id = db.start_session("t1", 1, 1000).unwrap();
    db.update_session_pause_time(id, 30).unwrap();
    db.finalize_session(id, 1180, "completed").unwrap();
    assert_eq!(db.update_session_pause_time(id, 40), Ok(()));
    assert_eq!(db.update_session_pause_time(id, i64::MAX), Ok(()));
    let row = &db.sessions()[0];
    assert_eq!(row.paused_time, 30);
    assert_eq!(row.listened_time, Some(150));
    assert_eq!(row.end_time.unwrap() - row.start_time - row.paused_time, 150);
}

#[test]
fn session_that_was_interrupted_stays_interrupted() {
    let mut db = stocked_store();
    let first = db.start_session("t1", 1, 1000).unwrap();
    db.start_session("t2", 1, 1100).unwrap();
    db.finalize_session(first, 1300, "completed").unwrap();
    db.update_active_session_progress(first, 1300).unwrap();
    assert_eq!(db.cleanup_orphaned_sessions(200_000, 86_400), Ok(1));
    let row = &db.sessions()[0];
    assert_eq!(row.status, "interrupted");
    assert_eq!(row.end_time, Some(1100));
    assert_eq!(row.listened_time, Some(100));
    assert_eq!(db.sessions()[1].status, "orphaned");
}

#[test]
fn opening_a_session_interrupts_every_open_session_of_the_player() {
    let players = vec![
        Player { id: 1, name: "vlc".to_string(), identity: "VLC".to_string() },
        Player { id: 2, name: "mpv".to_string(), identity: "mpv".to_string() },
    ];
    let tracks = vec![sample_track("t1", "One", "X")];
    let mut paused = sample_session(2, "t1", 1, 1500, "active");
    paused.paused_time = 100;
    let rows = vec![
        sample_session(1, "t1", 1, 1000, "active"),
        paused,
        sample_session(3, "t1", 2, 1600, "active"),
        sample_session(4, "t1", 1, 500, "completed"),
    ];
    let mut db = Database::from_rows(players, tracks, rows).unwrap();
    assert_eq!(db.start_session("t1", 1, 2000), Ok(5));
    let rows = db.sessions();
    assert_eq!(rows[0].status, "interrupted");
    assert_eq!(rows[0].end_time, Some(2000));
    assert_eq!(rows[0].listened_time, Some(1000));
    assert_eq!(rows[1].status, "interrupted");
    assert_eq!(rows[1].end_time, Some(2000));
    assert_eq!(rows[1].listened_time, Some(400));
    assert_eq!(rows[2].status, "active");
    assert_eq!(rows[3].status, "completed");
    assert_eq!(rows[3].end_time, None);
    assert_eq!(rows[4].status, "active");
    assert_eq!(rows[4].id, 5);
    assert_eq!(db.get_active_session_for_player(1).unwrap().id, 5);
}
