//! Laws of the session state machine, stated over its model.

use vstd::prelude::*;
use crate::database::{fits_i64, TrackView, STATUS_COMPLETED, STATUS_INTERRUPTED};
use crate::session_tracker::{
    after_finalize, after_pause, after_play, after_resume, after_sleep_gap, after_stop,
    after_sweep, clamped_end, closing_notice, finalize_events, has_session, has_stale_session,
    interruption_events, is_sweep_order, listened_time, one_session_per_player, opened_session,
    play_defined, resume_defined, sleep_gap_defined, start_notice, stop_defined,
    sweep_defined, total_pause_at, tracker_inv, ActiveSessionView, SessionEventView,
    TrackerView, MAX_SESSION_DURATION,
};

verus! {

/// A state machine that satisfies its invariant holds at most one session
/// per player: the registry maps each player to one session, and two
/// sessions of one player are one entry of the registry.
pub proof fn lemma_at_most_one_session_per_player(t: TrackerView, p: i64, q: i64)
    requires
        tracker_inv(t),
        has_session(t.sessions, p),
        has_session(t.sessions, q),
        t.sessions[p].player_id == t.sessions[q].player_id,
    ensures
        p == q,
        t.sessions[p].player_id == p,
{
}

/// The state in which the state machine starts.
pub open spec fn initial_state() -> TrackerView {
    TrackerView { sessions: Map::empty(), outbox: Seq::empty(), next_session_id: 1 }
}

/// The state machine starts in a state that satisfies the invariant.
pub proof fn lemma_initial_state_is_valid()
    ensures
        tracker_inv(initial_state()),
{
}

/// An accepted play transition keeps the invariant. Afterwards the player
/// has exactly the session that was opened; the number of sessions has
/// grown by one where the player had none, and is the same where it had
/// one; every other player has the session that it had, or none as
/// before.
pub proof fn lemma_play_keeps_invariant(
    t: TrackerView,
    player: i64,
    track: TrackView,
    timestamp: i64,
)
    requires
        tracker_inv(t),
        play_defined(t, player, timestamp),
    ensures
        ({
            let after = after_play(t, player, track, timestamp);
            &&& tracker_inv(after)
            &&& has_session(after.sessions, player)
            &&& after.sessions[player] == opened_session(
                t.next_session_id,
                track,
                player,
                timestamp,
            )
            &&& after.sessions.dom().len() == t.sessions.dom().len() + if has_session(
                t.sessions,
                player,
            ) {
                0int
            } else {
                1int
            }
            &&& forall|other: i64|
                other != player ==> (#[trigger] has_session(after.sessions, other)
                    == has_session(t.sessions, other))
            &&& forall|other: i64|
                other != player && #[trigger] has_session(t.sessions, other)
                    ==> after.sessions[other] == t.sessions[other]
        }),
{
    let after = after_play(t, player, track, timestamp);
    assert(after.sessions.dom() =~= t.sessions.dom().insert(player));
}

/// A pause transition keeps the invariant.
pub proof fn lemma_pause_keeps_invariant(t: TrackerView, player: i64, timestamp: i64)
    requires
        tracker_inv(t),
    ensures
        tracker_inv(after_pause(t, player, timestamp)),
        after_pause(t, player, timestamp).sessions.dom() == t.sessions.dom(),
{
    assert(after_pause(t, player, timestamp).sessions.dom() =~= t.sessions.dom());
}

/// An accepted resume transition keeps the invariant.
pub proof fn lemma_resume_keeps_invariant(t: TrackerView, player: i64, timestamp: i64)
    requires
        tracker_inv(t),
        resume_defined(t, player, timestamp),
    ensures
        tracker_inv(after_resume(t, player, timestamp)),
        after_resume(t, player, timestamp).sessions.dom() == t.sessions.dom(),
{
    assert(after_resume(t, player, timestamp).sessions.dom() =~= t.sessions.dom());
}

/// Finalizing the session of a player keeps the invariant and leaves the
/// player without a session; every other player keeps what it had.
pub proof fn lemma_finalize_keeps_invariant(
    t: TrackerView,
    player: i64,
    end_time: i64,
    status: Seq<char>,
)
    requires
        tracker_inv(t),
    ensures
        tracker_inv(after_finalize(t, player, end_time, status)),
        !has_session(after_finalize(t, player, end_time, status).sessions, player),
        after_finalize(t, player, end_time, status).sessions == t.sessions.remove(player),
{
    assert(after_finalize(t, player, end_time, status).sessions =~= t.sessions.remove(player));
}

/// An accepted sleep gap keeps the invariant.
pub proof fn lemma_sleep_gap_keeps_invariant(t: TrackerView, player: i64, gap: i64)
    requires
        tracker_inv(t),
        sleep_gap_defined(t, player, gap),
    ensures
        tracker_inv(after_sleep_gap(t, player, gap)),
        after_sleep_gap(t, player, gap).sessions.dom() == t.sessions.dom(),
{
    assert(after_sleep_gap(t, player, gap).sessions.dom() =~= t.sessions.dom());
}

/// A sweep keeps the invariant, in whatever order it comes by the stale
/// sessions: afterwards no session is stale, and every session that was
/// not stale is as it was.
pub proof fn lemma_sweep_keeps_invariant(
    t: TrackerView,
    order: Seq<i64>,
    current_time: i64,
    max_idle_time: i64,
)
    requires
        tracker_inv(t),
        is_sweep_order(t, order, current_time, max_idle_time),
    ensures
        tracker_inv(after_sweep(t, order, current_time)),
        forall|player: i64|
            !#[trigger] has_stale_session(
                after_sweep(t, order, current_time),
                player,
                current_time,
                max_idle_time,
            ),
        forall|player: i64|
            #[trigger] has_session(t.sessions, player) && !has_stale_session(
                t,
                player,
                current_time,
                max_idle_time,
            ) ==> has_session(after_sweep(t, order, current_time).sessions, player)
                && after_sweep(t, order, current_time).sessions[player] == t.sessions[player],
{
    let after = after_sweep(t, order, current_time);
    assert forall|player: i64| #[trigger] after.sessions.contains_key(player) implies
        t.sessions.contains_key(player) && after.sessions[player] == t.sessions[player]
        && !order.contains(player) by {
        assert(!order.to_set().contains(player));
    }
    assert(after.sessions.dom().subset_of(t.sessions.dom()));
    vstd::set_lib::lemma_len_subset(after.sessions.dom(), t.sessions.dom());
    assert forall|player: i64|
        #[trigger] has_session(t.sessions, player) && !has_stale_session(
            t,
            player,
            current_time,
            max_idle_time,
        ) implies has_session(after.sessions, player) && after.sessions[player]
        == t.sessions[player] by {
        assert(!order.contains(player));
        assert(!order.to_set().contains(player));
    }
}

/// A sleep gap folds entirely into the pause total of the session: the
/// total grows by the gap, and identity, start and pause state of the
/// session, as well as all other sessions, stay as they were. The gap is
/// reported as one pause notice.
pub proof fn lemma_sleep_gap_folds_into_pause(t: TrackerView, player: i64, gap: i64)
    requires
        tracker_inv(t),
        has_session(t.sessions, player),
        sleep_gap_defined(t, player, gap),
    ensures
        ({
            let before = t.sessions[player];
            let after = after_sleep_gap(t, player, gap);
            &&& after.sessions.dom() == t.sessions.dom()
            &&& after.sessions[player].total_pause_time == before.total_pause_time + gap
            &&& after.sessions[player].session_id == before.session_id
            &&& after.sessions[player].track == before.track
            &&& after.sessions[player].player_id == before.player_id
            &&& after.sessions[player].start_time == before.start_time
            &&& after.sessions[player].pause_start_time == before.pause_start_time
            &&& after.sessions[player].is_paused == before.is_paused
            &&& forall|other: i64|
                other != player && #[trigger] has_session(t.sessions, other)
                    ==> after.sessions[other] == t.sessions[other]
            &&& after.outbox == t.outbox.push(
                SessionEventView::SessionPaused {
                    session_id: before.session_id,
                    pause_duration: gap,
                },
            )
            &&& after.next_session_id == t.next_session_id
        }),
{
    assert(after_sleep_gap(t, player, gap).sessions.dom() =~= t.sessions.dom());
}

/// Finalizing a session of which less than one second was listened to
/// emits no final event: at most the notice of the pause that it closes.
pub proof fn lemma_short_session_is_dropped(s: ActiveSessionView, end_time: i64, status: Seq<char>)
    requires
        listened_time(s, end_time) < 1,
    ensures
        finalize_events(s, end_time, status) == closing_notice(s, end_time),
        forall|k: int|
            0 <= k < finalize_events(s, end_time, status).len() ==> !(#[trigger] finalize_events(
                s,
                end_time,
                status,
            )[k] is SessionFinalized),
{
    assert(finalize_events(s, end_time, status) =~= closing_notice(s, end_time));
}

/// Finalizing a session of which at least one second was listened to emits
/// its final event last, with the clamped end and the given status.
pub proof fn lemma_final_event(s: ActiveSessionView, end_time: i64, status: Seq<char>)
    requires
        listened_time(s, end_time) >= 1,
    ensures
        finalize_events(s, end_time, status).len() >= 1,
        finalize_events(s, end_time, status).last() == (SessionEventView::SessionFinalized {
            session_id: s.session_id,
            end_time: clamped_end(s, end_time) as i64,
            status,
        }),
{
}

/// A session whose raw duration exceeds the longest span ends, for all
/// accounting, at its start plus that span: the listened time is the span
/// less all pause time, and a final event carries the clamped end.
pub proof fn lemma_long_session_is_clamped(s: ActiveSessionView, end_time: i64, status: Seq<char>)
    requires
        end_time - s.start_time > MAX_SESSION_DURATION,
    ensures
        clamped_end(s, end_time) == s.start_time + MAX_SESSION_DURATION,
        fits_i64(clamped_end(s, end_time)),
        listened_time(s, end_time) == MAX_SESSION_DURATION - total_pause_at(s, end_time),
        forall|k: int|
            0 <= k < finalize_events(s, end_time, status).len() ==> (#[trigger] finalize_events(
                s,
                end_time,
                status,
            )[k] matches SessionEventView::SessionFinalized { end_time: e, .. } ==> e
                == s.start_time + MAX_SESSION_DURATION),
{
}

/// The end that a final event carries is never later than the end given,
/// and never more than the longest span after the start.
pub proof fn lemma_clamped_end_bounds(s: ActiveSessionView, end_time: i64)
    ensures
        clamped_end(s, end_time) <= end_time,
        clamped_end(s, end_time) - s.start_time <= MAX_SESSION_DURATION,
        fits_i64(clamped_end(s, end_time)),
{
}

/// An accepted play transition emits exactly one start, and emits it last:
/// the start of the new session at the time of the play. What stands
/// between the events so far and that start are the events of the
/// interruption. They belong to the session that the player had, which is
/// another than the new one; where that session is finalized, its final
/// event, with status interrupted and the clamped end, stands directly
/// before the start. Where the player had no session, the start is all
/// that is emitted.
pub proof fn lemma_interruption_precedes_start(
    t: TrackerView,
    player: i64,
    track: TrackView,
    timestamp: i64,
)
    requires
        tracker_inv(t),
        play_defined(t, player, timestamp),
    ensures
        ({
            let emitted = interruption_events(t, player, timestamp);
            let after = after_play(t, player, track, timestamp);
            &&& after.outbox.len() == t.outbox.len() + emitted.len() + 1
            &&& after.outbox.subrange(0, t.outbox.len() as int) == t.outbox
            &&& after.outbox.subrange(t.outbox.len() as int, after.outbox.len() - 1) == emitted
            &&& after.outbox.last() == start_notice(t.next_session_id, track, player, timestamp)
            &&& forall|k: int|
                t.outbox.len() <= k < after.outbox.len() - 1 ==> !(#[trigger] after.outbox[k]
                    is SessionStarted)
            &&& !has_session(t.sessions, player) ==> emitted.len() == 0
            &&& has_session(t.sessions, player) ==> {
                let interrupted = t.sessions[player];
                &&& interrupted.session_id != t.next_session_id
                &&& emitted == finalize_events(interrupted, timestamp, STATUS_INTERRUPTED@)
                &&& forall|k: int|
                    0 <= k < emitted.len() ==> match #[trigger] emitted[k] {
                        SessionEventView::SessionStarted { .. } => false,
                        SessionEventView::SessionPaused { session_id, .. } => session_id
                            == interrupted.session_id,
                        SessionEventView::SessionFinalized { session_id, end_time, status } => {
                            &&& session_id == interrupted.session_id
                            &&& status == STATUS_INTERRUPTED@
                            &&& end_time == clamped_end(interrupted, timestamp)
                            &&& end_time == if timestamp - interrupted.start_time
                                > MAX_SESSION_DURATION {
                                interrupted.start_time + MAX_SESSION_DURATION
                            } else {
                                timestamp as int
                            }
                        },
                    }
                &&& listened_time(interrupted, timestamp) >= 1 ==> after.outbox[after.outbox.len()
                    - 2] == (SessionEventView::SessionFinalized {
                    session_id: interrupted.session_id,
                    end_time: clamped_end(interrupted, timestamp) as i64,
                    status: STATUS_INTERRUPTED@,
                })
            }
        }),
{
    let emitted = interruption_events(t, player, timestamp);
    let after = after_play(t, player, track, timestamp);
    assert(after.outbox.subrange(0, t.outbox.len() as int) =~= t.outbox);
    assert(after.outbox.subrange(t.outbox.len() as int, after.outbox.len() - 1) =~= emitted);
}

/// A final event is emitted only for a session of which at least one
/// second was listened to, and it carries the clamped end: the listened
/// time that the store computes from it is never negative.
pub proof fn lemma_final_event_means_listened_time(
    s: ActiveSessionView,
    end_time: i64,
    status: Seq<char>,
    k: int,
)
    requires
        0 <= k < finalize_events(s, end_time, status).len(),
        finalize_events(s, end_time, status)[k] is SessionFinalized,
    ensures
        listened_time(s, end_time) >= 1,
        finalize_events(s, end_time, status)[k] == (SessionEventView::SessionFinalized {
            session_id: s.session_id,
            end_time: clamped_end(s, end_time) as i64,
            status,
        }),
        clamped_end(s, end_time) - s.start_time - total_pause_at(s, end_time) >= 1,
{
}

/// What finalizing a session emits. A final event is emitted if and only
/// if the clamped end less the start less all pause time, the open pause
/// included, is at least one second. There is at most one, it is the last
/// event, and it carries the id of the session, the status given and the
/// clamped end: the end given, or the start plus the longest span where
/// the end lies further than that from the start.
pub proof fn lemma_final_event_of_finalize(s: ActiveSessionView, end_time: i64, status: Seq<char>)
    ensures
        ({
            let end = clamped_end(s, end_time);
            let paused = total_pause_at(s, end_time);
            let emitted = finalize_events(s, end_time, status);
            &&& end == if end_time - s.start_time > MAX_SESSION_DURATION {
                s.start_time + MAX_SESSION_DURATION
            } else {
                end_time as int
            }
            &&& end <= end_time
            &&& end - s.start_time <= MAX_SESSION_DURATION
            &&& end < end_time <==> end_time - s.start_time > MAX_SESSION_DURATION
            &&& paused == s.total_pause_time + if s.is_paused && s.pause_start_time is Some {
                end_time - s.pause_start_time->0
            } else {
                0
            }
            &&& end - s.start_time - paused >= 1 <==> exists|k: int|
                0 <= k < emitted.len() && #[trigger] emitted[k] is SessionFinalized
            &&& forall|k: int|
                0 <= k < emitted.len() && #[trigger] emitted[k] is SessionFinalized ==> k
                    == emitted.len() - 1 && emitted[k] == (SessionEventView::SessionFinalized {
                    session_id: s.session_id,
                    end_time: end as i64,
                    status,
                })
        }),
{
    let emitted = finalize_events(s, end_time, status);
    if listened_time(s, end_time) >= 1 {
        assert(emitted[emitted.len() - 1] is SessionFinalized);
    }
}

/// Finalizing the session of a player queues the events of that session
/// behind the events so far, and nothing else.
pub proof fn lemma_finalize_emits(t: TrackerView, player: i64, end_time: i64, status: Seq<char>)
    requires
        has_session(t.sessions, player),
    ensures
        after_finalize(t, player, end_time, status).outbox == t.outbox + finalize_events(
            t.sessions[player],
            end_time,
            status,
        ),
        after_finalize(t, player, end_time, status).next_session_id == t.next_session_id,
{
}

/// What can be asked of the state machine. A sweep names the order in
/// which the registry happens to hand out the stale sessions.
pub enum Command {
    Play { player: i64, track: TrackView, timestamp: i64 },
    Pause { player: i64, timestamp: i64 },
    Resume { player: i64, timestamp: i64 },
    Stop { player: i64, timestamp: i64 },
    SleepGap { player: i64, gap: i64 },
    Sweep { current_time: i64, max_idle_time: i64, order: Seq<i64> },
    TakeEvent,
    TakeEvents,
}

/// Whether the state machine accepts a command.
pub open spec fn command_defined(t: TrackerView, c: Command) -> bool {
    match c {
        Command::Play { player, track, timestamp } => play_defined(t, player, timestamp),
        Command::Pause { player, timestamp } => true,
        Command::Resume { player, timestamp } => resume_defined(t, player, timestamp),
        Command::Stop { player, timestamp } => stop_defined(t, player, timestamp),
        Command::SleepGap { player, gap } => sleep_gap_defined(t, player, gap),
        Command::Sweep { current_time, max_idle_time, order } => sweep_defined(
            t,
            current_time,
            max_idle_time,
        ) && is_sweep_order(t, order, current_time, max_idle_time),
        Command::TakeEvent => true,
        Command::TakeEvents => true,
    }
}

/// State of the state machine after a command: a command that is refused
/// changes nothing.
pub open spec fn after_command(t: TrackerView, c: Command) -> TrackerView {
    if !command_defined(t, c) {
        t
    } else {
        match c {
            Command::Play { player, track, timestamp } => after_play(t, player, track, timestamp),
            Command::Pause { player, timestamp } => after_pause(t, player, timestamp),
            Command::Resume { player, timestamp } => after_resume(t, player, timestamp),
            Command::Stop { player, timestamp } => after_stop(t, player, timestamp),
            Command::SleepGap { player, gap } => after_sleep_gap(t, player, gap),
            Command::Sweep { current_time, max_idle_time, order } => after_sweep(
                t,
                order,
                current_time,
            ),
            Command::TakeEvent => if t.outbox.len() > 0 {
                TrackerView { outbox: t.outbox.skip(1), ..t }
            } else {
                t
            },
            Command::TakeEvents => TrackerView { outbox: Seq::empty(), ..t },
        }
    }
}

/// State of the state machine after a list of commands.
pub open spec fn after_commands(t: TrackerView, commands: Seq<Command>) -> TrackerView
    decreases commands.len(),
{
    if commands.len() == 0 {
        t
    } else {
        after_command(after_commands(t, commands.drop_last()), commands.last())
    }
}

/// A command keeps the invariant, whether it is accepted or refused.
pub proof fn lemma_command_keeps_invariant(t: TrackerView, c: Command)
    requires
        tracker_inv(t),
    ensures
        tracker_inv(after_command(t, c)),
{
    if command_defined(t, c) {
        match c {
            Command::Play { player, track, timestamp } => {
                lemma_play_keeps_invariant(t, player, track, timestamp);
            },
            Command::Pause { player, timestamp } => {
                lemma_pause_keeps_invariant(t, player, timestamp);
            },
            Command::Resume { player, timestamp } => {
                lemma_resume_keeps_invariant(t, player, timestamp);
            },
            Command::Stop { player, timestamp } => {
                lemma_finalize_keeps_invariant(t, player, timestamp, STATUS_COMPLETED@);
            },
            Command::SleepGap { player, gap } => {
                lemma_sleep_gap_keeps_invariant(t, player, gap);
            },
            Command::Sweep { current_time, max_idle_time, order } => {
                lemma_sweep_keeps_invariant(t, order, current_time, max_idle_time);
            },
            Command::TakeEvent => {},
            Command::TakeEvents => {},
        }
    }
}

/// Every state that the state machine can reach holds at most one session
/// per player: whatever commands it is given from its start, in whatever
/// order, accepted or refused, its invariant holds afterwards, and the
/// session that the registry holds for a player is a session of that
/// player and of no other.
pub proof fn lemma_every_reachable_state_is_valid(commands: Seq<Command>)
    ensures
        tracker_inv(after_commands(initial_state(), commands)),
        one_session_per_player(after_commands(initial_state(), commands).sessions),
    decreases commands.len(),
{
    if commands.len() > 0 {
        lemma_every_reachable_state_is_valid(commands.drop_last());
        lemma_command_keeps_invariant(
            after_commands(initial_state(), commands.drop_last()),
            commands.last(),
        );
    }
}

} // verus!
