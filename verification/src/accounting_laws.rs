//! The pause accounting of the state machine, seen from its events.
//!
//! The store never sees a session of the state machine, only its events: a
//! start, pause notices and a final event. It computes the listened time
//! of a session as the end of the final event less the start less the sum
//! of the pause notices. The laws of this module show that this is the
//! listened time that the state machine accounted, and at least one
//! second.

use vstd::prelude::*;
use crate::database::{TrackView, STATUS_COMPLETED, STATUS_INTERRUPTED, STATUS_TIMEOUT};
use crate::session_tracker::{
    after_finalize, after_play, after_resume, after_sleep_gap, after_sweep, clamped_end,
    closing_notice, final_notice, finalize_defined, finalize_events, has_session,
    interruption_events, is_sweep_order, listened_time, pause_state_consistent, play_defined,
    resume_defined, sleep_gap_defined, start_notice, stop_defined, sweep_defined,
    sweep_events, total_pause_at, tracker_inv, trailing_pause, ActiveSessionView,
    SessionEventView, TrackerView,
};
use crate::tracker_laws::{
    after_command, after_commands, command_defined, initial_state,
    lemma_every_reachable_state_is_valid, Command,
};

verus! {

/// The session that an event belongs to.
pub open spec fn event_session(e: SessionEventView) -> i64 {
    match e {
        SessionEventView::SessionStarted { session_id, .. } => session_id,
        SessionEventView::SessionPaused { session_id, .. } => session_id,
        SessionEventView::SessionFinalized { session_id, .. } => session_id,
    }
}

/// The pause time that an event reports of a session: the duration of a
/// pause notice of that session, and nothing else.
pub open spec fn pause_of(e: SessionEventView, session_id: i64) -> int {
    match e {
        SessionEventView::SessionPaused { session_id: id, pause_duration } => if id == session_id {
            pause_duration as int
        } else {
            0
        },
        _ => 0,
    }
}

/// Sum of the pause notices of a session among `events`.
pub open spec fn noticed_pause(events: Seq<SessionEventView>, session_id: i64) -> int
    decreases events.len(),
{
    if events.len() == 0 {
        0
    } else {
        noticed_pause(events.drop_last(), session_id) + pause_of(events.last(), session_id)
    }
}

/// Whether the events emitted so far account for the sessions in progress:
/// the pause notices of each session sum up to its pause total, and no
/// event belongs to a session that is yet to start.
pub open spec fn accounted(t: TrackerView) -> bool {
    &&& forall|k: int|
        0 <= k < t.outbox.len() ==> event_session(#[trigger] t.outbox[k]) < t.next_session_id
    &&& forall|player: i64| #[trigger]
        t.sessions.contains_key(player) ==> noticed_pause(
            t.outbox,
            t.sessions[player].session_id,
        ) == t.sessions[player].total_pause_time
}

/// Whether a command leaves the events that were emitted in place.
pub open spec fn keeps_events(c: Command) -> bool {
    !(c is TakeEvent) && !(c is TakeEvents)
}

/// The pause notices of two lists of events add up.
pub proof fn lemma_noticed_pause_adds(
    first: Seq<SessionEventView>,
    second: Seq<SessionEventView>,
    session_id: i64,
)
    ensures
        noticed_pause(first + second, session_id) == noticed_pause(first, session_id)
            + noticed_pause(second, session_id),
    decreases second.len(),
{
    if second.len() == 0 {
        assert(first + second =~= first);
    } else {
        lemma_noticed_pause_adds(first, second.drop_last(), session_id);
        assert((first + second).drop_last() =~= first + second.drop_last());
        assert((first + second).last() == second.last());
    }
}

/// Events of other sessions report no pause of a session.
pub proof fn lemma_no_notice_of_other_sessions(events: Seq<SessionEventView>, session_id: i64)
    requires
        forall|k: int| 0 <= k < events.len() ==> event_session(#[trigger] events[k]) != session_id,
    ensures
        noticed_pause(events, session_id) == 0,
    decreases events.len(),
{
    if events.len() > 0 {
        assert(event_session(events[events.len() - 1]) != session_id);
        assert forall|k: int| 0 <= k < events.drop_last().len() implies event_session(
            #[trigger] events.drop_last()[k],
        ) != session_id by {
            assert(events.drop_last()[k] == events[k]);
        }
        lemma_no_notice_of_other_sessions(events.drop_last(), session_id);
    }
}

/// A single event reports what it reports.
pub proof fn lemma_noticed_pause_of_one(e: SessionEventView, session_id: i64)
    ensures
        noticed_pause(seq![e], session_id) == pause_of(e, session_id),
        noticed_pause(Seq::empty(), session_id) == 0,
{
    assert(seq![e].drop_last() =~= Seq::empty());
    assert(seq![e].last() == e);
    assert(noticed_pause(seq![e].drop_last(), session_id) == 0);
}

/// The events that finalizing a session emits belong to that session, and
/// their pause notices sum up to the pause interval that is closed.
pub proof fn lemma_finalize_events_of(s: ActiveSessionView, end_time: i64, status: Seq<char>)
    requires
        fits_pause(s, end_time),
    ensures
        forall|k: int|
            0 <= k < finalize_events(s, end_time, status).len() ==> event_session(
                #[trigger] finalize_events(s, end_time, status)[k],
            ) == s.session_id,
        noticed_pause(finalize_events(s, end_time, status), s.session_id) == trailing_pause(
            s,
            end_time,
        ),
        noticed_pause(closing_notice(s, end_time), s.session_id) == trailing_pause(s, end_time),
{
    let closing = closing_notice(s, end_time);
    let last = final_notice(s, end_time, status);
    lemma_noticed_pause_adds(closing, last, s.session_id);
    if closing.len() > 0 {
        lemma_noticed_pause_of_one(closing[0], s.session_id);
        assert(closing =~= seq![closing[0]]);
    }
    if last.len() > 0 {
        lemma_noticed_pause_of_one(last[0], s.session_id);
        assert(last =~= seq![last[0]]);
    }
}

/// Whether the pause interval that is open at `end_time` fits in 64 bits
/// and is counted only while pause flag and pause start are in step.
pub open spec fn fits_pause(s: ActiveSessionView, end_time: i64) -> bool {
    &&& i64::MIN <= trailing_pause(s, end_time) <= i64::MAX
    &&& s.is_paused <==> s.pause_start_time is Some
}

/// Events of one session added to the events so far leave the account of
/// every other session as it is.
proof fn lemma_events_of_one_session(
    before: Seq<SessionEventView>,
    added: Seq<SessionEventView>,
    owner: i64,
    other: i64,
)
    requires
        owner != other,
        forall|k: int| 0 <= k < added.len() ==> event_session(#[trigger] added[k]) == owner,
    ensures
        noticed_pause(before + added, other) == noticed_pause(before, other),
{
    lemma_noticed_pause_adds(before, added, other);
    lemma_no_notice_of_other_sessions(added, other);
}

/// The events so far with further events behind them stay below a bound
/// where both do.
proof fn lemma_events_below(
    before: Seq<SessionEventView>,
    added: Seq<SessionEventView>,
    bound: int,
)
    requires
        forall|k: int| 0 <= k < before.len() ==> event_session(#[trigger] before[k]) < bound,
        forall|k: int| 0 <= k < added.len() ==> event_session(#[trigger] added[k]) < bound,
    ensures
        forall|k: int|
            0 <= k < (before + added).len() ==> event_session(#[trigger] (before + added)[k])
                < bound,
{
    assert forall|k: int| 0 <= k < (before + added).len() implies event_session(
        #[trigger] (before + added)[k],
    ) < bound by {
        if k < before.len() {
            assert((before + added)[k] == before[k]);
        } else {
            assert((before + added)[k] == added[k - before.len()]);
        }
    }
}

/// An accepted play transition keeps the account.
proof fn lemma_play_keeps_account(t: TrackerView, player: i64, track: TrackView, timestamp: i64)
    requires
        tracker_inv(t),
        accounted(t),
        play_defined(t, player, timestamp),
    ensures
        accounted(after_play(t, player, track, timestamp)),
{
    let after = after_play(t, player, track, timestamp);
    let next = t.next_session_id;
    let started = start_notice(next, track, player, timestamp);
    let closed = interruption_events(t, player, timestamp);
    let added = closed.push(started);
    assert(added =~= closed + seq![started]);
    if has_session(t.sessions, player) {
        lemma_finalize_events_of(t.sessions[player], timestamp, STATUS_INTERRUPTED@);
    }
    assert forall|k: int| 0 <= k < added.len() implies event_session(#[trigger] added[k]) < next
        + 1 by {
        if k < closed.len() {
            assert(added[k] == closed[k]);
        }
    }
    lemma_events_below(t.outbox, added, next + 1);
    assert forall|q: i64| #[trigger] after.sessions.contains_key(q) implies noticed_pause(
        after.outbox,
        after.sessions[q].session_id,
    ) == after.sessions[q].total_pause_time by {
        let id = after.sessions[q].session_id;
        lemma_noticed_pause_adds(t.outbox, added, id);
        lemma_noticed_pause_adds(closed, seq![started], id);
        lemma_noticed_pause_of_one(started, id);
        if q == player {
            lemma_no_notice_of_other_sessions(t.outbox, next);
            lemma_no_notice_of_other_sessions(closed, next);
        } else {
            assert(t.sessions.contains_key(q));
            if has_session(t.sessions, player) {
                assert(t.sessions[q].session_id != t.sessions[player].session_id);
            }
            lemma_no_notice_of_other_sessions(closed, id);
        }
    }
}

/// An accepted resume transition keeps the account.
proof fn lemma_resume_keeps_account(t: TrackerView, player: i64, timestamp: i64)
    requires
        tracker_inv(t),
        accounted(t),
        resume_defined(t, player, timestamp),
    ensures
        accounted(after_resume(t, player, timestamp)),
{
    let after = after_resume(t, player, timestamp);
    if has_session(t.sessions, player) && t.sessions[player].is_paused
        && t.sessions[player].pause_start_time is Some {
        let s = t.sessions[player];
        let added = closing_notice(s, timestamp);
        lemma_finalize_events_of(s, timestamp, STATUS_INTERRUPTED@);
        assert forall|k: int| 0 <= k < added.len() implies event_session(#[trigger] added[k])
            == s.session_id by {}
        lemma_events_below(t.outbox, added, t.next_session_id as int);
        assert forall|q: i64| #[trigger] after.sessions.contains_key(q) implies noticed_pause(
            after.outbox,
            after.sessions[q].session_id,
        ) == after.sessions[q].total_pause_time by {
            assert(t.sessions.contains_key(q));
            if q == player {
                lemma_noticed_pause_adds(t.outbox, added, s.session_id);
            } else {
                lemma_events_of_one_session(
                    t.outbox,
                    added,
                    s.session_id,
                    t.sessions[q].session_id,
                );
            }
        }
    }
}

/// Finalizing the session of a player keeps the account.
proof fn lemma_finalize_keeps_account(
    t: TrackerView,
    player: i64,
    end_time: i64,
    status: Seq<char>,
)
    requires
        tracker_inv(t),
        accounted(t),
        stop_defined(t, player, end_time),
    ensures
        accounted(after_finalize(t, player, end_time, status)),
{
    let after = after_finalize(t, player, end_time, status);
    if has_session(t.sessions, player) {
        let s = t.sessions[player];
        let added = finalize_events(s, end_time, status);
        lemma_finalize_events_of(s, end_time, status);
        lemma_events_below(t.outbox, added, t.next_session_id as int);
        assert forall|q: i64| #[trigger] after.sessions.contains_key(q) implies noticed_pause(
            after.outbox,
            after.sessions[q].session_id,
        ) == after.sessions[q].total_pause_time by {
            assert(t.sessions.contains_key(q) && q != player);
            lemma_events_of_one_session(t.outbox, added, s.session_id, t.sessions[q].session_id);
        }
    }
}

/// An accepted sleep gap keeps the account.
proof fn lemma_sleep_gap_keeps_account(t: TrackerView, player: i64, gap: i64)
    requires
        tracker_inv(t),
        accounted(t),
        sleep_gap_defined(t, player, gap),
    ensures
        accounted(after_sleep_gap(t, player, gap)),
{
    let after = after_sleep_gap(t, player, gap);
    if has_session(t.sessions, player) {
        let s = t.sessions[player];
        let notice = SessionEventView::SessionPaused {
            session_id: s.session_id,
            pause_duration: gap,
        };
        assert(after.outbox =~= t.outbox + seq![notice]);
        lemma_events_below(t.outbox, seq![notice], t.next_session_id as int);
        assert forall|q: i64| #[trigger] after.sessions.contains_key(q) implies noticed_pause(
            after.outbox,
            after.sessions[q].session_id,
        ) == after.sessions[q].total_pause_time by {
            assert(t.sessions.contains_key(q));
            let id = after.sessions[q].session_id;
            lemma_noticed_pause_adds(t.outbox, seq![notice], id);
            lemma_noticed_pause_of_one(notice, id);
        }
    }
}

/// The events of a sweep belong to the sessions that it comes by.
proof fn lemma_sweep_events_of(
    sessions: Map<i64, ActiveSessionView>,
    order: Seq<i64>,
    current_time: i64,
    bound: i64,
    other: i64,
)
    requires
        forall|k: int|
            0 <= k < order.len() ==> {
                let s = sessions[#[trigger] order[k]];
                &&& pause_state_consistent(s)
                &&& finalize_defined(s, current_time)
                &&& s.session_id < bound
                &&& s.session_id != other
            },
    ensures
        forall|k: int|
            0 <= k < sweep_events(sessions, order, current_time).len() ==> event_session(
                #[trigger] sweep_events(sessions, order, current_time)[k],
            ) < bound,
        noticed_pause(sweep_events(sessions, order, current_time), other) == 0,
    decreases order.len(),
{
    if order.len() > 0 {
        let front = order.drop_last();
        let last = sessions[order.last()];
        assert forall|k: int| 0 <= k < front.len() implies {
            let s = sessions[#[trigger] front[k]];
            &&& pause_state_consistent(s)
            &&& finalize_defined(s, current_time)
            &&& s.session_id < bound
            &&& s.session_id != other
        } by {
            assert(front[k] == order[k]);
        }
        lemma_sweep_events_of(sessions, front, current_time, bound, other);
        assert(order[order.len() - 1] == order.last());
        let before = sweep_events(sessions, front, current_time);
        let added = finalize_events(last, current_time, STATUS_TIMEOUT@);
        lemma_finalize_events_of(last, current_time, STATUS_TIMEOUT@);
        lemma_events_of_one_session(before, added, last.session_id, other);
        lemma_events_below(before, added, bound as int);
    }
}

/// An accepted sweep keeps the account, in whatever order it comes by the
/// stale sessions.
proof fn lemma_sweep_keeps_account(
    t: TrackerView,
    order: Seq<i64>,
    current_time: i64,
    max_idle_time: i64,
)
    requires
        tracker_inv(t),
        accounted(t),
        sweep_defined(t, current_time, max_idle_time),
        is_sweep_order(t, order, current_time, max_idle_time),
    ensures
        accounted(after_sweep(t, order, current_time)),
{
    let after = after_sweep(t, order, current_time);
    let added = sweep_events(t.sessions, order, current_time);
    assert forall|k: int| 0 <= k < order.len() implies t.sessions.contains_key(
        #[trigger] order[k],
    ) && finalize_defined(t.sessions[order[k]], current_time) by {
        assert(order.contains(order[k]));
    }
    lemma_sweep_events_of(t.sessions, order, current_time, t.next_session_id, 0);
    lemma_events_below(t.outbox, added, t.next_session_id as int);
    assert forall|q: i64| #[trigger] after.sessions.contains_key(q) implies noticed_pause(
        after.outbox,
        after.sessions[q].session_id,
    ) == after.sessions[q].total_pause_time by {
        assert(t.sessions.contains_key(q) && !order.to_set().contains(q));
        assert(!order.contains(q));
        assert forall|k: int|
            0 <= k < order.len() implies t.sessions[#[trigger] order[k]].session_id
            != t.sessions[q].session_id by {
            assert(order.contains(order[k]));
        }
        lemma_sweep_events_of(
            t.sessions,
            order,
            current_time,
            t.next_session_id,
            t.sessions[q].session_id,
        );
        lemma_noticed_pause_adds(t.outbox, added, t.sessions[q].session_id);
    }
}

/// A command that leaves the events in place keeps the account.
pub proof fn lemma_command_keeps_account(t: TrackerView, c: Command)
    requires
        tracker_inv(t),
        accounted(t),
        keeps_events(c),
    ensures
        accounted(after_command(t, c)),
{
    if command_defined(t, c) {
        match c {
            Command::Play { player, track, timestamp } => {
                lemma_play_keeps_account(t, player, track, timestamp);
            },
            Command::Pause { player, timestamp } => {
                let after = after_command(t, c);
                assert forall|q: i64| #[trigger]
                    after.sessions.contains_key(q) implies noticed_pause(
                    after.outbox,
                    after.sessions[q].session_id,
                ) == after.sessions[q].total_pause_time by {
                    assert(t.sessions.contains_key(q));
                }
            },
            Command::Resume { player, timestamp } => {
                lemma_resume_keeps_account(t, player, timestamp);
            },
            Command::Stop { player, timestamp } => {
                lemma_finalize_keeps_account(t, player, timestamp, STATUS_COMPLETED@);
            },
            Command::SleepGap { player, gap } => {
                lemma_sleep_gap_keeps_account(t, player, gap);
            },
            Command::Sweep { current_time, max_idle_time, order } => {
                lemma_sweep_keeps_account(t, order, current_time, max_idle_time);
            },
            Command::TakeEvent => {},
            Command::TakeEvents => {},
        }
    }
}

/// As long as no event is taken away, the events emitted account for the
/// sessions in progress, whatever the state machine is asked to do.
pub proof fn lemma_events_account_for_sessions(commands: Seq<Command>)
    requires
        forall|k: int| 0 <= k < commands.len() ==> keeps_events(#[trigger] commands[k]),
    ensures
        accounted(after_commands(initial_state(), commands)),
    decreases commands.len(),
{
    if commands.len() > 0 {
        let front = commands.drop_last();
        assert forall|k: int| 0 <= k < front.len() implies keeps_events(#[trigger] front[k]) by {
            assert(front[k] == commands[k]);
        }
        lemma_events_account_for_sessions(front);
        lemma_every_reachable_state_is_valid(front);
        assert(keeps_events(commands[commands.len() - 1]));
        lemma_command_keeps_account(after_commands(initial_state(), front), commands.last());
    }
}

/// The listened time that the store computes for a session is the one that
/// the state machine accounted. When a session is finalized, the pause
/// notices emitted for it sum up to all its pause time. A final event is
/// emitted if and only if the clamped end less the start less all pause
/// time is at least one second; it is then the last event, the only final
/// event that finalizing emits, and its end less the start of the session
/// less the sum of the pause notices is that listened time.
pub proof fn lemma_final_event_matches_the_account(
    t: TrackerView,
    player: i64,
    end_time: i64,
    status: Seq<char>,
)
    requires
        tracker_inv(t),
        accounted(t),
        has_session(t.sessions, player),
        stop_defined(t, player, end_time),
    ensures
        ({
            let s = t.sessions[player];
            let after = after_finalize(t, player, end_time, status);
            let emitted = finalize_events(s, end_time, status);
            let paused = noticed_pause(after.outbox, s.session_id);
            &&& after.outbox == t.outbox + emitted
            &&& paused == total_pause_at(s, end_time)
            &&& listened_time(s, end_time) == clamped_end(s, end_time) - s.start_time - paused
            &&& listened_time(s, end_time) >= 1 <==> exists|k: int|
                0 <= k < emitted.len() && #[trigger] emitted[k] is SessionFinalized
            &&& forall|k: int|
                0 <= k < emitted.len() && #[trigger] emitted[k] is SessionFinalized ==> k
                    == emitted.len() - 1 && emitted[k] == (SessionEventView::SessionFinalized {
                    session_id: s.session_id,
                    end_time: clamped_end(s, end_time) as i64,
                    status,
                })
            &&& listened_time(s, end_time) < 1 ==> emitted == closing_notice(s, end_time)
        }),
{
    let s = t.sessions[player];
    let added = finalize_events(s, end_time, status);
    lemma_finalize_events_of(s, end_time, status);
    lemma_noticed_pause_adds(t.outbox, added, s.session_id);
    if listened_time(s, end_time) < 1 {
        assert(added =~= closing_notice(s, end_time));
    } else {
        assert(added[added.len() - 1] is SessionFinalized);
    }
}

} // verus!
