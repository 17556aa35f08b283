//! Laws of the monitor, stated over its model.

use vstd::prelude::*;
use crate::change_detector::PlaybackStatus;
use crate::database::{
    after_track_upsert, database_inv, fits_i64, fresh_id, has_session_id, is_active, is_largest,
    lemma_fresh_id, opened_row, session_ids, session_row, DatabaseView, SessionView, TrackView,
};
use crate::database_laws::lemma_track_upsert_is_idempotent;
use crate::mpris_monitor::{
    assignment_index, gap_of, has_slept, is_assigned, monitor_inv, persisted, sleep_checked,
    MonitorError, MonitorRun, MonitorView, PlayerStateView, SleepCheck, SLEEP_GAP_THRESHOLD,
};
use crate::session_tracker::{
    after_sleep_gap, has_session, tracker_inv, ActiveSessionView, SessionEventView, TrackerView,
};

verus! {

/// Where no player was out of sight for longer than the threshold, the
/// check for suspensions changes nothing.
pub proof fn lemma_short_gaps_change_nothing(
    t: TrackerView,
    players: Seq<PlayerStateView>,
    current_time: i64,
    n: int,
)
    requires
        0 <= n <= players.len(),
        forall|i: int| 0 <= i < n ==> !has_slept(#[trigger] players[i], current_time),
    ensures
        sleep_checked(t, players, current_time, n) == (SleepCheck {
            tracker: t,
            players,
            refusal: None,
        }),
    decreases n,
{
    if n > 0 {
        lemma_short_gaps_change_nothing(t, players, current_time, n - 1);
    }
}

/// The check for suspensions, for one player. A gap is handed to the state
/// machine, once and whole, if and only if it is longer than the threshold
/// and the player was playing: then the pause total of its session grows
/// by the gap and nothing else of the session changes. A gap longer than
/// the threshold ends with the check, whatever the player was doing; a
/// gap up to the threshold changes nothing at all.
pub proof fn lemma_sleep_check_of_one_player(t: TrackerView, p: PlayerStateView, current_time: i64)
    requires
        tracker_inv(t),
        sleep_checked(t, seq![p], current_time, 1).refusal is None,
    ensures
        ({
            let checked = sleep_checked(t, seq![p], current_time, 1);
            let folded = gap_of(p, current_time) > SLEEP_GAP_THRESHOLD && p.current_status
                == PlaybackStatus::Playing;
            &&& checked.players.len() == 1
            &&& checked.players[0].bus_name == p.bus_name
            &&& checked.players[0].player_id == p.player_id
            &&& checked.players[0].current_status == p.current_status
            &&& checked.players[0].current_metadata == p.current_metadata
            &&& checked.players[0].last_update == if gap_of(p, current_time)
                > SLEEP_GAP_THRESHOLD {
                current_time
            } else {
                p.last_update
            }
            &&& folded ==> fits_i64(gap_of(p, current_time)) && checked.tracker == after_sleep_gap(
                t,
                p.player_id,
                gap_of(p, current_time) as i64,
            )
            &&& !folded ==> checked.tracker == t
            &&& folded && has_session(t.sessions, p.player_id) ==> {
                let before = t.sessions[p.player_id];
                let after = checked.tracker.sessions[p.player_id];
                &&& after == (ActiveSessionView {
                    total_pause_time: (before.total_pause_time + (current_time
                        - p.last_update)) as i64,
                    ..before
                })
                &&& after.total_pause_time == before.total_pause_time + (current_time
                    - p.last_update)
                &&& checked.tracker.outbox == t.outbox.push(
                    SessionEventView::SessionPaused {
                        session_id: before.session_id,
                        pause_duration: (current_time - p.last_update) as i64,
                    },
                )
            }
        }),
{
    let players = seq![p];
    assert(players[0] == p);
    assert(sleep_checked(t, players, current_time, 0) == (SleepCheck {
        tracker: t,
        players,
        refusal: None,
    }));
}

/// A session changes from open to closed exactly once: after its final
/// event was applied to the store, no row is known for it any more, and a
/// pause notice or a second final event of the same session is dropped
/// without touching the store.
pub proof fn lemma_final_event_closes_the_session(
    m: MonitorView,
    session_id: i64,
    end_time: i64,
    status: Seq<char>,
    later_pause: i64,
    later_end: i64,
    later_status: Seq<char>,
)
    requires
        monitor_inv(m),
        persisted(
            m,
            SessionEventView::SessionFinalized { session_id, end_time, status },
        ).refusal is None,
    ensures
        ({
            let closed = persisted(
                m,
                SessionEventView::SessionFinalized { session_id, end_time, status },
            ).state;
            &&& !is_assigned(closed.assignments, session_id)
            &&& persisted(
                closed,
                SessionEventView::SessionPaused { session_id, pause_duration: later_pause },
            ) == (MonitorRun { state: closed, refusal: Some(MonitorError::UnknownSession) })
            &&& persisted(
                closed,
                SessionEventView::SessionFinalized {
                    session_id,
                    end_time: later_end,
                    status: later_status,
                },
            ) == (MonitorRun { state: closed, refusal: Some(MonitorError::UnknownSession) })
        }),
{
    let closed = persisted(
        m,
        SessionEventView::SessionFinalized { session_id, end_time, status },
    ).state;
    let i = assignment_index(m.assignments, session_id);
    assert forall|k: int| 0 <= k < closed.assignments.len() implies (
    #[trigger] closed.assignments[k]).session_id != session_id by {
        if k < i {
            assert(closed.assignments[k] == m.assignments[k]);
        } else {
            assert(closed.assignments[k] == m.assignments[k + 1]);
        }
    }
}

/// The monitor after the first `n` of a list of pause notices of one
/// session were applied to the store, and whether none of them was
/// refused.
pub open spec fn after_pause_notices(
    m: MonitorView,
    session_id: i64,
    pauses: Seq<i64>,
    n: int,
) -> MonitorRun
    decreases n,
{
    if n <= 0 {
        MonitorRun { state: m, refusal: None }
    } else {
        let before = after_pause_notices(m, session_id, pauses, n - 1);
        if before.refusal is Some {
            before
        } else {
            persisted(
                before.state,
                SessionEventView::SessionPaused { session_id, pause_duration: pauses[n - 1] },
            )
        }
    }
}

/// Sum of the first `n` of a list of pause durations.
pub open spec fn pause_sum(pauses: Seq<i64>, n: int) -> int
    decreases n,
{
    if n <= 0 {
        0
    } else {
        pause_sum(pauses, n - 1) + pauses[n - 1]
    }
}

/// Whether the monitor holds the row `opened` for `session_id`, still open
/// and with `paused` as its pause time.
pub open spec fn holds_row(
    m: MonitorView,
    session_id: i64,
    opened: SessionView,
    paused: int,
) -> bool {
    &&& monitor_inv(m)
    &&& is_assigned(m.assignments, session_id)
    &&& m.assignments[assignment_index(m.assignments, session_id)].row_id == opened.id
    &&& is_active(opened)
    &&& has_session_id(m.db.sessions, opened.id)
    &&& m.db.sessions[session_row(m.db.sessions, opened.id)] == (SessionView {
        paused_time: paused as i64,
        ..opened
    })
    &&& fits_i64(paused)
}

/// With ids as keys, a row is found where it stands.
proof fn lemma_row_found(d: DatabaseView, i: int)
    requires
        database_inv(d),
        0 <= i < d.sessions.len(),
    ensures
        has_session_id(d.sessions, d.sessions[i].id),
        session_row(d.sessions, d.sessions[i].id) == i,
{
}

/// With every session assigned once, an assignment is found where it
/// stands.
proof fn lemma_assignment_found(m: MonitorView, i: int)
    requires
        monitor_inv(m),
        0 <= i < m.assignments.len(),
    ensures
        is_assigned(m.assignments, m.assignments[i].session_id),
        assignment_index(m.assignments, m.assignments[i].session_id) == i,
{
}

/// Pause notices that the store accepts add up in the row of their
/// session.
proof fn lemma_pause_notices_add_up(
    m: MonitorView,
    session_id: i64,
    opened: SessionView,
    paused: int,
    pauses: Seq<i64>,
    n: int,
)
    requires
        holds_row(m, session_id, opened, paused),
        0 <= n <= pauses.len(),
        after_pause_notices(m, session_id, pauses, n).refusal is None,
    ensures
        holds_row(
            after_pause_notices(m, session_id, pauses, n).state,
            session_id,
            opened,
            paused + pause_sum(pauses, n),
        ),
    decreases n,
{
    if n > 0 {
        let before = after_pause_notices(m, session_id, pauses, n - 1).state;
        lemma_pause_notices_add_up(m, session_id, opened, paused, pauses, n - 1);
        let after = after_pause_notices(m, session_id, pauses, n).state;
        let i = session_row(before.db.sessions, opened.id);
        assert(after.db.sessions[i].id == opened.id);
        assert forall|a: int, b: int|
            0 <= a < after.db.sessions.len() && 0 <= b < after.db.sessions.len() && a
                != b implies (#[trigger] after.db.sessions[a]).id != (
        #[trigger] after.db.sessions[b]).id by {
            assert(after.db.sessions[a].id == before.db.sessions[a].id);
            assert(after.db.sessions[b].id == before.db.sessions[b].id);
        }
        lemma_row_found(after.db, i);
    }
}

/// The store computes the listened time of a session from its events: the
/// start opens a row, the pause notices add up in it, and the final event
/// sets the listened time to its end less the start less the sum of the
/// pause notices, provided that the store refuses none of the events.
pub proof fn lemma_store_computes_listened_time(
    m: MonitorView,
    session_id: i64,
    track: TrackView,
    player_id: i64,
    start_time: i64,
    pauses: Seq<i64>,
    end_time: i64,
    status: Seq<char>,
)
    requires
        monitor_inv(m),
        persisted(
            m,
            SessionEventView::SessionStarted { session_id, track, player_id, start_time },
        ).refusal is None,
        after_pause_notices(
            persisted(
                m,
                SessionEventView::SessionStarted { session_id, track, player_id, start_time },
            ).state,
            session_id,
            pauses,
            pauses.len() as int,
        ).refusal is None,
        persisted(
            after_pause_notices(
                persisted(
                    m,
                    SessionEventView::SessionStarted { session_id, track, player_id, start_time },
                ).state,
                session_id,
                pauses,
                pauses.len() as int,
            ).state,
            SessionEventView::SessionFinalized { session_id, end_time, status },
        ).refusal is None,
    ensures
        ({
            let started = persisted(
                m,
                SessionEventView::SessionStarted { session_id, track, player_id, start_time },
            ).state;
            let paused = after_pause_notices(
                started,
                session_id,
                pauses,
                pauses.len() as int,
            ).state;
            let closed = persisted(
                paused,
                SessionEventView::SessionFinalized { session_id, end_time, status },
            ).state;
            let row = started.assignments[assignment_index(started.assignments, session_id)].row_id;
            let stored = closed.db.sessions[session_row(closed.db.sessions, row)];
            &&& has_session_id(closed.db.sessions, row)
            &&& stored.track_id == track.id
            &&& stored.player_id == player_id
            &&& stored.start_time == start_time
            &&& stored.end_time == Some(end_time)
            &&& stored.paused_time == pause_sum(pauses, pauses.len() as int)
            &&& stored.listened_time is Some
            &&& stored.listened_time->0 == end_time - start_time - pause_sum(
                pauses,
                pauses.len() as int,
            )
            &&& stored.status == status
            &&& !is_assigned(closed.assignments, session_id)
        }),
{
    let start = SessionEventView::SessionStarted { session_id, track, player_id, start_time };
    let started = persisted(m, start).state;
    let stored_track = after_track_upsert(m.db, track);
    lemma_track_upsert_is_idempotent(m.db, track);
    let row = fresh_id(session_ids(stored_track.sessions)) as i64;
    let last = started.db.sessions.len() - 1;
    assert(started.db.sessions[last].id == row);
    // The ids of the rows are keys after the start.
    let ids = session_ids(stored_track.sessions);
    if ids.len() > 0 {
        lemma_fresh_id_is_new(ids);
    }
    assert forall|a: int, b: int|
        0 <= a < started.db.sessions.len() && 0 <= b < started.db.sessions.len() && a
            != b implies (#[trigger] started.db.sessions[a]).id != (
    #[trigger] started.db.sessions[b]).id by {
        if a < last {
            assert(started.db.sessions[a].id == stored_track.sessions[a].id);
            assert(ids[a] == stored_track.sessions[a].id);
        }
        if b < last {
            assert(started.db.sessions[b].id == stored_track.sessions[b].id);
            assert(ids[b] == stored_track.sessions[b].id);
        }
    }
    lemma_row_found(started.db, last);
    // The session is assigned once after the start.
    if is_assigned(m.assignments, session_id) {
        let i = assignment_index(m.assignments, session_id);
        assert(started.assignments[i].session_id == session_id);
        assert forall|a: int, b: int|
            0 <= a < started.assignments.len() && 0 <= b < started.assignments.len() && a
                != b implies (#[trigger] started.assignments[a]).session_id != (
        #[trigger] started.assignments[b]).session_id by {
            assert(started.assignments[a].session_id == m.assignments[a].session_id);
            assert(started.assignments[b].session_id == m.assignments[b].session_id);
        }
        lemma_assignment_found(started, i);
    } else {
        let i = started.assignments.len() - 1;
        assert(started.assignments[i].session_id == session_id);
        assert forall|a: int, b: int|
            0 <= a < started.assignments.len() && 0 <= b < started.assignments.len() && a
                != b implies (#[trigger] started.assignments[a]).session_id != (
        #[trigger] started.assignments[b]).session_id by {
            if a < i {
                assert(started.assignments[a] == m.assignments[a]);
            }
            if b < i {
                assert(started.assignments[b] == m.assignments[b]);
            }
        }
        lemma_assignment_found(started, i);
    }
    let opened = opened_row(row, track.id, player_id, start_time);
    assert(started.db.sessions[last] == opened);
    assert(holds_row(started, session_id, opened, 0));
    lemma_pause_notices_add_up(started, session_id, opened, 0, pauses, pauses.len() as int);
    let paused = after_pause_notices(started, session_id, pauses, pauses.len() as int).state;
    let closed = persisted(
        paused,
        SessionEventView::SessionFinalized { session_id, end_time, status },
    ).state;
    let i = session_row(paused.db.sessions, row);
    assert(closed.db.sessions[i].id == row);
    assert forall|a: int, b: int|
        0 <= a < closed.db.sessions.len() && 0 <= b < closed.db.sessions.len() && a != b implies (
    #[trigger] closed.db.sessions[a]).id != (#[trigger] closed.db.sessions[b]).id by {
        assert(closed.db.sessions[a].id == paused.db.sessions[a].id);
        assert(closed.db.sessions[b].id == paused.db.sessions[b].id);
    }
    lemma_row_found(closed.db, i);
    lemma_final_event_closes_the_session(paused, session_id, end_time, status, 0, 0, status);
}

/// The id that the next row gets is not in use.
pub proof fn lemma_fresh_id_is_new(ids: Seq<i64>)
    requires
        ids.len() > 0,
    ensures
        forall|i: int| 0 <= i < ids.len() ==> #[trigger] ids[i] < fresh_id(ids),
    decreases ids.len(),
{
    lemma_largest_exists(ids);
    let m = choose|m: int| is_largest(ids, m);
    lemma_fresh_id(ids, m);
}

/// A table that is not empty has a largest id.
pub proof fn lemma_largest_exists(ids: Seq<i64>)
    requires
        ids.len() > 0,
    ensures
        exists|m: int| is_largest(ids, m),
    decreases ids.len(),
{
    if ids.len() == 1 {
        assert(is_largest(ids, ids[0] as int));
    } else {
        let front = ids.drop_last();
        lemma_largest_exists(front);
        let m = choose|m: int| is_largest(front, m);
        let last = ids.last() as int;
        if last > m {
            assert(ids[ids.len() - 1] == last);
            assert forall|i: int| 0 <= i < ids.len() implies #[trigger] ids[i] <= last by {
                if i < front.len() {
                    assert(front[i] == ids[i]);
                }
            }
            assert(is_largest(ids, last));
        } else {
            let w = choose|i: int| 0 <= i < front.len() && #[trigger] front[i] == m;
            assert(ids[w] == m);
            assert forall|i: int| 0 <= i < ids.len() implies #[trigger] ids[i] <= m by {
                if i < front.len() {
                    assert(front[i] == ids[i]);
                }
            }
            assert(is_largest(ids, m));
        }
    }
}

} // verus!
