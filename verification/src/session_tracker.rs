//! The per-player session state machine.
//!
//! A [`SessionTracker`] owns at most one [`ActiveSession`] per player: its
//! registry is a map from players to sessions. It consumes playback
//! transitions, keeps the pause accounting, and queues the
//! [`SessionEvent`]s that describe what happened, in the order in which they
//! were produced.

use std::collections::HashMap;
use vstd::prelude::*;
use vstd::std_specs::hash::spec_keys_iter;
use vstd::std_specs::iter::IteratorSpec;
use vstd::string::*;
use crate::database::{
    fits_i64, Track, TrackView, STATUS_COMPLETED, STATUS_INTERRUPTED, STATUS_TIMEOUT,
};

verus! {

broadcast use vstd::std_specs::hash::group_hash_axioms;

/// Longest span, in seconds, that a single session is allowed to cover.
pub const MAX_SESSION_DURATION: i64 = 86_400;

/// What the state machine reports to the persister.
#[derive(Debug)]
pub enum SessionEvent {
    SessionStarted { session_id: i64, track: Track, player_id: i64, start_time: i64 },
    SessionPaused { session_id: i64, pause_duration: i64 },
    SessionFinalized { session_id: i64, end_time: i64, status: String },
}

/// Mathematical value of a [`SessionEvent`].
pub enum SessionEventView {
    SessionStarted { session_id: i64, track: TrackView, player_id: i64, start_time: i64 },
    SessionPaused { session_id: i64, pause_duration: i64 },
    SessionFinalized { session_id: i64, end_time: i64, status: Seq<char> },
}

impl View for SessionEvent {
    type V = SessionEventView;

    open spec fn view(&self) -> SessionEventView {
        match *self {
            SessionEvent::SessionStarted { session_id, track, player_id, start_time } => {
                SessionEventView::SessionStarted {
                    session_id,
                    track: track@,
                    player_id,
                    start_time,
                }
            },
            SessionEvent::SessionPaused { session_id, pause_duration } => {
                SessionEventView::SessionPaused { session_id, pause_duration }
            },
            SessionEvent::SessionFinalized { session_id, end_time, status } => {
                SessionEventView::SessionFinalized { session_id, end_time, status: status@ }
            },
        }
    }
}

impl Clone for SessionEvent {
    fn clone(&self) -> (r: Self)
        ensures
            r@ == self@,
    {
        match self {
            SessionEvent::SessionStarted { session_id, track, player_id, start_time } => {
                SessionEvent::SessionStarted {
                    session_id: *session_id,
                    track: track.clone(),
                    player_id: *player_id,
                    start_time: *start_time,
                }
            },
            SessionEvent::SessionPaused { session_id, pause_duration } => {
                SessionEvent::SessionPaused {
                    session_id: *session_id,
                    pause_duration: *pause_duration,
                }
            },
            SessionEvent::SessionFinalized { session_id, end_time, status } => {
                SessionEvent::SessionFinalized {
                    session_id: *session_id,
                    end_time: *end_time,
                    status: status.clone(),
                }
            },
        }
    }
}

/// A session in progress.
#[derive(Debug)]
pub struct ActiveSession {
    pub session_id: i64,
    pub track: Track,
    pub player_id: i64,
    pub start_time: i64,
    pub pause_start_time: Option<i64>,
    pub total_pause_time: i64,
    pub is_paused: bool,
}

/// Mathematical value of an [`ActiveSession`].
pub struct ActiveSessionView {
    pub session_id: i64,
    pub track: TrackView,
    pub player_id: i64,
    pub start_time: i64,
    pub pause_start_time: Option<i64>,
    pub total_pause_time: i64,
    pub is_paused: bool,
}

impl View for ActiveSession {
    type V = ActiveSessionView;

    open spec fn view(&self) -> ActiveSessionView {
        ActiveSessionView {
            session_id: self.session_id,
            track: self.track@,
            player_id: self.player_id,
            start_time: self.start_time,
            pause_start_time: self.pause_start_time,
            total_pause_time: self.total_pause_time,
            is_paused: self.is_paused,
        }
    }
}

impl Clone for ActiveSession {
    fn clone(&self) -> (r: Self)
        ensures
            r@ == self@,
    {
        ActiveSession {
            session_id: self.session_id,
            track: self.track.clone(),
            player_id: self.player_id,
            start_time: self.start_time,
            pause_start_time: self.pause_start_time,
            total_pause_time: self.total_pause_time,
            is_paused: self.is_paused,
        }
    }
}

/// Why the state machine refused a transition.
#[derive(Debug, Clone, Copy, PartialEq, Eq, Structural)]
pub enum TrackerError {
    /// A pause interval or a pause total does not fit in 64 bits.
    TimeOverflow,
    /// The counter of session ids has reached its last value.
    SessionIdsExhausted,
}


/// Mathematical value of a [`SessionTracker`]: the session of each player
/// that has one, the events that wait to be taken, and the next session
/// id.
pub struct TrackerView {
    pub sessions: Map<i64, ActiveSessionView>,
    pub outbox: Seq<SessionEventView>,
    pub next_session_id: i64,
}

// ---------------------------------------------------------------------------
// The model: what each transition does to a `TrackerView`.
// ---------------------------------------------------------------------------

/// Whether `player` has a session.
pub open spec fn has_session(sessions: Map<i64, ActiveSessionView>, player: i64) -> bool {
    sessions.contains_key(player)
}

/// The registry holds at most one session per player: it is a map from
/// players, and the session that it holds for a player is a session of
/// that player.
pub open spec fn one_session_per_player(sessions: Map<i64, ActiveSessionView>) -> bool {
    forall|player: i64| #[trigger]
        sessions.contains_key(player) ==> sessions[player].player_id == player
}

/// No two sessions share an id.
pub open spec fn session_ids_distinct(sessions: Map<i64, ActiveSessionView>) -> bool {
    forall|p: i64, q: i64|
        #[trigger] sessions.contains_key(p) && #[trigger] sessions.contains_key(q) && p != q
            ==> sessions[p].session_id != sessions[q].session_id
}

/// The pause flag of a session and its pause start say the same.
pub open spec fn pause_state_consistent(s: ActiveSessionView) -> bool {
    s.is_paused <==> s.pause_start_time is Some
}

/// The invariant of the state machine: finitely many sessions, at most one
/// per player, pause flag and pause start in step, and ids that are
/// distinct, begin at 1 and lie below the counter.
pub open spec fn tracker_inv(t: TrackerView) -> bool {
    &&& t.sessions.dom().finite()
    &&& one_session_per_player(t.sessions)
    &&& session_ids_distinct(t.sessions)
    &&& 1 <= t.next_session_id
    &&& forall|player: i64| #[trigger]
        t.sessions.contains_key(player) ==> {
            &&& pause_state_consistent(t.sessions[player])
            &&& 1 <= t.sessions[player].session_id < t.next_session_id
        }
}

/// The session that a play transition opens.
pub open spec fn opened_session(
    session_id: i64,
    track: TrackView,
    player: i64,
    timestamp: i64,
) -> ActiveSessionView {
    ActiveSessionView {
        session_id,
        track,
        player_id: player,
        start_time: timestamp,
        pause_start_time: None,
        total_pause_time: 0,
        is_paused: false,
    }
}

/// Length of the pause interval that is still open at `end_time`; zero for a
/// session that is not paused.
pub open spec fn trailing_pause(s: ActiveSessionView, end_time: i64) -> int {
    match s.pause_start_time {
        Some(p) => if s.is_paused {
            end_time - p
        } else {
            0
        },
        None => 0,
    }
}

/// All pause time of the session up to `end_time`.
pub open spec fn total_pause_at(s: ActiveSessionView, end_time: i64) -> int {
    s.total_pause_time + trailing_pause(s, end_time)
}

/// The end of the session, no later than the longest span allows.
pub open spec fn clamped_end(s: ActiveSessionView, end_time: i64) -> int {
    if end_time - s.start_time > MAX_SESSION_DURATION {
        s.start_time + MAX_SESSION_DURATION
    } else {
        end_time as int
    }
}

/// Effective listened time of a session that ends at `end_time`.
pub open spec fn listened_time(s: ActiveSessionView, end_time: i64) -> int {
    clamped_end(s, end_time) - s.start_time - total_pause_at(s, end_time)
}

/// Whether the session can be finalized at `end_time`: the pause interval
/// that is closed on the way must fit in 64 bits.
pub open spec fn finalize_defined(s: ActiveSessionView, end_time: i64) -> bool {
    fits_i64(trailing_pause(s, end_time))
}

/// The notice of the pause interval that finalizing closes, if one is open.
pub open spec fn closing_notice(s: ActiveSessionView, end_time: i64) -> Seq<SessionEventView> {
    if s.is_paused && s.pause_start_time is Some {
        seq![
            SessionEventView::SessionPaused {
                session_id: s.session_id,
                pause_duration: trailing_pause(s, end_time) as i64,
            },
        ]
    } else {
        Seq::empty()
    }
}

/// The final event of a session, absent where less than a second was
/// listened to.
pub open spec fn final_notice(s: ActiveSessionView, end_time: i64, status: Seq<char>) -> Seq<
    SessionEventView,
> {
    if listened_time(s, end_time) >= 1 {
        seq![
            SessionEventView::SessionFinalized {
                session_id: s.session_id,
                end_time: clamped_end(s, end_time) as i64,
                status,
            },
        ]
    } else {
        Seq::empty()
    }
}

/// The events that finalizing a session emits, in order.
pub open spec fn finalize_events(s: ActiveSessionView, end_time: i64, status: Seq<char>) -> Seq<
    SessionEventView,
> {
    closing_notice(s, end_time) + final_notice(s, end_time, status)
}


/// Whether a play transition is accepted.
pub open spec fn play_defined(t: TrackerView, player: i64, timestamp: i64) -> bool {
    &&& has_session(t.sessions, player) ==> finalize_defined(t.sessions[player], timestamp)
    &&& t.next_session_id < i64::MAX
}

/// The event that reports the start of a session.
pub open spec fn start_notice(
    session_id: i64,
    track: TrackView,
    player: i64,
    timestamp: i64,
) -> SessionEventView {
    SessionEventView::SessionStarted {
        session_id,
        track,
        player_id: player,
        start_time: timestamp,
    }
}

/// The events of the interruption that a play transition brings: those of
/// finalizing the session of the player as interrupted, if it has one.
pub open spec fn interruption_events(t: TrackerView, player: i64, timestamp: i64) -> Seq<
    SessionEventView,
> {
    if has_session(t.sessions, player) {
        finalize_events(t.sessions[player], timestamp, STATUS_INTERRUPTED@)
    } else {
        Seq::empty()
    }
}

/// State after an accepted play transition: a session of the player that is
/// still open is finalized as interrupted, then the new one takes its
/// place.
pub open spec fn after_play(
    t: TrackerView,
    player: i64,
    track: TrackView,
    timestamp: i64,
) -> TrackerView {
    TrackerView {
        sessions: t.sessions.insert(
            player,
            opened_session(t.next_session_id, track, player, timestamp),
        ),
        outbox: t.outbox + interruption_events(t, player, timestamp).push(
            start_notice(t.next_session_id, track, player, timestamp),
        ),
        next_session_id: (t.next_session_id + 1) as i64,
    }
}

/// State after a pause transition.
pub open spec fn after_pause(t: TrackerView, player: i64, timestamp: i64) -> TrackerView {
    if has_session(t.sessions, player) && !t.sessions[player].is_paused {
        TrackerView {
            sessions: t.sessions.insert(
                player,
                ActiveSessionView {
                    pause_start_time: Some(timestamp),
                    is_paused: true,
                    ..t.sessions[player]
                },
            ),
            ..t
        }
    } else {
        t
    }
}

/// Whether a resume transition is accepted.
pub open spec fn resume_defined(t: TrackerView, player: i64, timestamp: i64) -> bool {
    has_session(t.sessions, player) ==> {
        let s = t.sessions[player];
        &&& fits_i64(trailing_pause(s, timestamp))
        &&& fits_i64(total_pause_at(s, timestamp))
    }
}

/// State after an accepted resume transition.
pub open spec fn after_resume(t: TrackerView, player: i64, timestamp: i64) -> TrackerView {
    if has_session(t.sessions, player) && t.sessions[player].is_paused
        && t.sessions[player].pause_start_time is Some {
        let s = t.sessions[player];
        TrackerView {
            sessions: t.sessions.insert(
                player,
                ActiveSessionView {
                    pause_start_time: None,
                    is_paused: false,
                    total_pause_time: total_pause_at(s, timestamp) as i64,
                    ..s
                },
            ),
            outbox: t.outbox + closing_notice(s, timestamp),
            ..t
        }
    } else {
        t
    }
}

/// Whether a stop transition is accepted.
pub open spec fn stop_defined(t: TrackerView, player: i64, timestamp: i64) -> bool {
    has_session(t.sessions, player) ==> finalize_defined(t.sessions[player], timestamp)
}

/// State after finalizing the session of `player`, if it has one.
pub open spec fn after_finalize(
    t: TrackerView,
    player: i64,
    end_time: i64,
    status: Seq<char>,
) -> TrackerView {
    if has_session(t.sessions, player) {
        TrackerView {
            sessions: t.sessions.remove(player),
            outbox: t.outbox + finalize_events(t.sessions[player], end_time, status),
            ..t
        }
    } else {
        t
    }
}

/// State after an accepted stop transition.
pub open spec fn after_stop(t: TrackerView, player: i64, timestamp: i64) -> TrackerView {
    after_finalize(t, player, timestamp, STATUS_COMPLETED@)
}

/// Whether a sleep gap is accepted.
pub open spec fn sleep_gap_defined(t: TrackerView, player: i64, gap: i64) -> bool {
    has_session(t.sessions, player) ==> fits_i64(t.sessions[player].total_pause_time + gap)
}

/// State after an accepted sleep gap: the whole gap counts as pause.
pub open spec fn after_sleep_gap(t: TrackerView, player: i64, gap: i64) -> TrackerView {
    if has_session(t.sessions, player) {
        let s = t.sessions[player];
        TrackerView {
            sessions: t.sessions.insert(
                player,
                ActiveSessionView { total_pause_time: (s.total_pause_time + gap) as i64, ..s },
            ),
            outbox: t.outbox.push(
                SessionEventView::SessionPaused { session_id: s.session_id, pause_duration: gap },
            ),
            ..t
        }
    } else {
        t
    }
}

/// The time at which a session was last active: the start of its open
/// pause, else its own start.
pub open spec fn last_activity(s: ActiveSessionView) -> i64 {
    match s.pause_start_time {
        Some(p) => p,
        None => s.start_time,
    }
}

/// Whether a session has been idle for more than `max_idle_time`.
pub open spec fn is_stale(s: ActiveSessionView, current_time: i64, max_idle_time: i64) -> bool {
    current_time - last_activity(s) > max_idle_time
}

/// Whether `player` has a session that has been idle for more than
/// `max_idle_time`.
pub open spec fn has_stale_session(
    t: TrackerView,
    player: i64,
    current_time: i64,
    max_idle_time: i64,
) -> bool {
    t.sessions.contains_key(player) && is_stale(t.sessions[player], current_time, max_idle_time)
}

/// Whether the stale-session sweep is accepted: every stale session can be
/// finalized.
pub open spec fn sweep_defined(t: TrackerView, current_time: i64, max_idle_time: i64) -> bool {
    forall|player: i64| #[trigger]
        has_stale_session(t, player, current_time, max_idle_time) ==> finalize_defined(
            t.sessions[player],
            current_time,
        )
}

/// Whether `order` is an order in which a sweep can come by the stale
/// sessions: it lists the players that have one, each once. The registry
/// is a hash map, and in which order it is walked is not determined.
pub open spec fn is_sweep_order(
    t: TrackerView,
    order: Seq<i64>,
    current_time: i64,
    max_idle_time: i64,
) -> bool {
    &&& order.no_duplicates()
    &&& forall|player: i64| #[trigger]
        order.contains(player) <==> has_stale_session(t, player, current_time, max_idle_time)
}

/// The events of a sweep that comes by the stale sessions in `order`:
/// those of finalizing each as timed out, one session after the other.
pub open spec fn sweep_events(
    sessions: Map<i64, ActiveSessionView>,
    order: Seq<i64>,
    current_time: i64,
) -> Seq<SessionEventView>
    decreases order.len(),
{
    if order.len() == 0 {
        Seq::empty()
    } else {
        sweep_events(sessions, order.drop_last(), current_time) + finalize_events(
            sessions[order.last()],
            current_time,
            STATUS_TIMEOUT@,
        )
    }
}

/// State after an accepted sweep that came by the stale sessions in
/// `order`: they are gone, each finalized as timed out.
pub open spec fn after_sweep(t: TrackerView, order: Seq<i64>, current_time: i64) -> TrackerView {
    TrackerView {
        sessions: t.sessions.remove_keys(order.to_set()),
        outbox: t.outbox + sweep_events(t.sessions, order, current_time),
        ..t
    }
}

// ---------------------------------------------------------------------------
// The state machine.
// ---------------------------------------------------------------------------

/// Values of the sessions of a registry.
pub open spec fn sessions_view(m: Map<i64, ActiveSession>) -> Map<i64, ActiveSessionView> {
    Map::new(|player: i64| m.contains_key(player), |player: i64| m[player]@)
}

/// Values of a sequence of events, in order.
pub open spec fn events_view(v: Seq<SessionEvent>) -> Seq<SessionEventView> {
    v.map_values(|e: SessionEvent| e@)
}

/// The session state machine: one optional session per player, and the
/// events that have been emitted and not yet taken.
pub struct SessionTracker {
    active_sessions: HashMap<i64, ActiveSession>,
    outbox: Vec<SessionEvent>,
    next_session_id: i64,
}

impl View for SessionTracker {
    type V = TrackerView;

    closed spec fn view(&self) -> TrackerView {
        TrackerView {
            sessions: sessions_view(self.active_sessions@),
            outbox: events_view(self.outbox@),
            next_session_id: self.next_session_id,
        }
    }
}

/// Whether `listing` lists the players that have a session, each once.
pub open spec fn is_player_listing(
    sessions: Map<i64, ActiveSessionView>,
    listing: Seq<i64>,
) -> bool {
    &&& listing.no_duplicates()
    &&& listing.len() == sessions.dom().len()
    &&& forall|player: i64| #[trigger] listing.contains(player) <==> sessions.contains_key(player)
}

/// The players of a registry, in the order in which the map hands them
/// out.
fn players_of(m: &HashMap<i64, ActiveSession>) -> (r: Vec<i64>)
    ensures
        is_player_listing(sessions_view(m@), r@),
{
    let mut out: Vec<i64> = Vec::new();
    for player in walk: m.keys()
        invariant
            out@.len() == walk.index(),
            forall|j: int| 0 <= j < out@.len() ==> out@[j] == *walk.seq()[j],
    {
        out.push(*player);
    }
    proof {
        let walked = spec_keys_iter(m).remaining();
        assert(out@ =~= walked.unref());
        assert(sessions_view(m@).dom() =~= m@.dom());
        assert forall|player: i64| #[trigger] out@.contains(player) <==> sessions_view(
            m@,
        ).contains_key(player) by {
            assert(out@.to_set().contains(player) <==> out@.contains(player));
        }
    }
    out
}

/// Finalizes `session` at `end_time` and queues what that emits.
fn finalize_into(
    session: &ActiveSession,
    end_time: i64,
    status: &str,
    outbox: &mut Vec<SessionEvent>,
)
    requires
        finalize_defined(session@, end_time),
    ensures
        events_view(final(outbox)@) == events_view(old(outbox)@) + finalize_events(
            session@,
            end_time,
            status@,
        ),
{
    let ghost before = events_view(outbox@);
    let start: i128 = session.start_time as i128;
    let end: i128 = end_time as i128;
    let mut total_pause: i128 = session.total_pause_time as i128;
    if session.is_paused {
        match session.pause_start_time {
            Some(pause_start) => {
                let closing: i128 = end - pause_start as i128;
                total_pause = total_pause + closing;
                outbox.push(
                    SessionEvent::SessionPaused {
                        session_id: session.session_id,
                        pause_duration: closing as i64,
                    },
                );
            },
            None => {},
        }
    }
    assert(events_view(outbox@) =~= before + closing_notice(session@, end_time));
    assert(total_pause == total_pause_at(session@, end_time));
    let capped_end: i64 = if end - start > MAX_SESSION_DURATION as i128 {
        (start + MAX_SESSION_DURATION as i128) as i64
    } else {
        end_time
    };
    let listened: i128 = capped_end as i128 - start - total_pause;
    if listened >= 1 {
        outbox.push(
            SessionEvent::SessionFinalized {
                session_id: session.session_id,
                end_time: capped_end,
                status: String::from_str(status),
            },
        );
    }
    assert(events_view(outbox@) =~= before + finalize_events(session@, end_time, status@));
}

/// Whether `session` can be finalized at `end_time`.
fn can_finalize(session: &ActiveSession, end_time: i64) -> (r: bool)
    ensures
        r == finalize_defined(session@, end_time),
{
    if session.is_paused {
        match session.pause_start_time {
            Some(pause_start) => {
                let closing: i128 = end_time as i128 - pause_start as i128;
                i64::MIN as i128 <= closing && closing <= i64::MAX as i128
            },
            None => true,
        }
    } else {
        true
    }
}

/// Whether `session` has been idle for more than `max_idle_time` seconds.
fn session_is_stale(session: &ActiveSession, current_time: i64, max_idle_time: i64) -> (r: bool)
    ensures
        r == is_stale(session@, current_time, max_idle_time),
{
    let last: i64 = match session.pause_start_time {
        Some(pause_start) => pause_start,
        None => session.start_time,
    };
    current_time as i128 - last as i128 > max_idle_time as i128
}

impl SessionTracker {
    /// The invariant: at most one session per player, consistent pause
    /// state, and distinct session ids below the counter.
    pub open spec fn wf(&self) -> bool {
        tracker_inv(self@)
    }

    /// A state machine without sessions; the first session gets id 1.
    pub fn new() -> (r: Self)
        ensures
            r.wf(),
            r@ == (TrackerView {
                sessions: Map::empty(),
                outbox: Seq::empty(),
                next_session_id: 1,
            }),
    {
        let r = SessionTracker {
            active_sessions: HashMap::new(),
            outbox: Vec::new(),
            next_session_id: 1,
        };
        assert(r@.sessions =~= Map::empty());
        assert(r@.outbox =~= Seq::empty());
        r
    }

    /// Number of sessions in progress.
    pub fn get_active_session_count(&self) -> (r: usize)
        ensures
            r == self@.sessions.dom().len(),
    {
        assert(self@.sessions.dom() =~= self.active_sessions@.dom());
        self.active_sessions.len()
    }

    /// Whether `player_id` has a session in progress.
    pub fn has_active_session(&self, player_id: i64) -> (r: bool)
        ensures
            r == has_session(self@.sessions, player_id),
    {
        self.active_sessions.contains_key(&player_id)
    }

    /// The sessions in progress, each with its player: one pair for every
    /// player that has a session, in the order in which the map hands them
    /// out.
    pub fn get_active_sessions(&self) -> (r: Vec<(i64, &ActiveSession)>)
        ensures
            r@.len() == self@.sessions.dom().len(),
            forall|i: int|
                0 <= i < r@.len() ==> self@.sessions.contains_key((#[trigger] r@[i]).0) && r@[i].1@
                    == self@.sessions[r@[i].0],
            forall|i: int, j: int|
                0 <= i < r@.len() && 0 <= j < r@.len() && i != j ==> (#[trigger] r@[i]).0 != (
                #[trigger] r@[j]).0,
            forall|player: i64| #[trigger]
                self@.sessions.contains_key(player) ==> exists|i: int|
                    0 <= i < r@.len() && (#[trigger] r@[i]).0 == player,
    {
        let players = players_of(&self.active_sessions);
        let mut out: Vec<(i64, &ActiveSession)> = Vec::new();
        let mut i: usize = 0;
        while i < players.len()
            invariant
                is_player_listing(self@.sessions, players@),
                i <= players.len(),
                out@.len() == i,
                forall|j: int| 0 <= j < i ==> (#[trigger] out@[j]).0 == players@[j],
                forall|j: int|
                    0 <= j < i ==> self@.sessions.contains_key((#[trigger] out@[j]).0) && out@[j].1@
                        == self@.sessions[out@[j].0],
            decreases players.len() - i,
        {
            let player = players[i];
            assert(players@.contains(player));
            match self.active_sessions.get(&player) {
                Some(session) => {
                    out.push((player, session));
                },
                None => {},
            }
            i += 1;
        }
        proof {
            assert forall|player: i64| #[trigger]
                self@.sessions.contains_key(player) implies exists|i: int|
                0 <= i < out@.len() && (#[trigger] out@[i]).0 == player by {
                assert(players@.contains(player));
                let i = choose|i: int| 0 <= i < players@.len() && players@[i] == player;
                assert(out@[i].0 == player);
            }
        }
        out
    }

    /// A player starts a track at `timestamp`.
    ///
    /// A session of the player that is still open is finalized as
    /// interrupted first; its events precede the start of the new session.
    /// Refused, with the state unchanged, where the pause interval that the
    /// interruption closes does not fit in 64 bits, or where no session id
    /// is left.
    pub fn handle_play_event(&mut self, player_id: i64, track: Track, timestamp: i64) -> (r: Result<
        (),
        TrackerError,
    >)
        requires
            old(self).wf(),
        ensures
            final(self).wf(),
            r is Ok <==> play_defined(old(self)@, player_id, timestamp),
            r is Ok ==> final(self)@ == after_play(old(self)@, player_id, track@, timestamp),
            r is Err ==> final(self)@ == old(self)@,
            r == Err::<(), TrackerError>(TrackerError::TimeOverflow) <==> !stop_defined(
                old(self)@,
                player_id,
                timestamp,
            ),
    {
        match self.active_sessions.get(&player_id) {
            Some(session) => {
                if !can_finalize(session, timestamp) {
                    return Err(TrackerError::TimeOverflow);
                }
            },
            None => {},
        }
        if self.next_session_id == i64::MAX {
            return Err(TrackerError::SessionIdsExhausted);
        }
        match self.active_sessions.remove(&player_id) {
            Some(interrupted) => {
                finalize_into(&interrupted, timestamp, STATUS_INTERRUPTED, &mut self.outbox);
            },
            None => {},
        }
        let ghost mid = self@;
        let session_id = self.next_session_id;
        self.next_session_id = session_id + 1;
        let session = ActiveSession {
            session_id,
            track: track.clone(),
            player_id,
            start_time: timestamp,
            pause_start_time: None,
            total_pause_time: 0,
            is_paused: false,
        };
        self.active_sessions.insert(player_id, session);
        self.outbox.push(
            SessionEvent::SessionStarted { session_id, track, player_id, start_time: timestamp },
        );
        proof {
            let expected = after_play(old(self)@, player_id, track@, timestamp);
            assert(mid.outbox == old(self)@.outbox + interruption_events(
                old(self)@,
                player_id,
                timestamp,
            ));
            assert(self@.sessions =~= expected.sessions);
            assert(self@.outbox =~= mid.outbox.push(
                start_notice(session_id, track@, player_id, timestamp),
            ));
            assert(self@.outbox =~= expected.outbox);
        }
        Ok(())
    }

    /// A player pauses at `timestamp`. Without a session, or with one that
    /// is paused already, nothing changes.
    pub fn handle_pause_event(&mut self, player_id: i64, timestamp: i64) -> (r: Result<
        (),
        TrackerError,
    >)
        requires
            old(self).wf(),
        ensures
            final(self).wf(),
            r is Ok,
            final(self)@ == after_pause(old(self)@, player_id, timestamp),
    {
        match self.active_sessions.remove(&player_id) {
            Some(mut session) => {
                if !session.is_paused {
                    session.pause_start_time = Some(timestamp);
                    session.is_paused = true;
                }
                self.active_sessions.insert(player_id, session);
            },
            None => {},
        }
        assert(self@.sessions =~= after_pause(old(self)@, player_id, timestamp).sessions);
        Ok(())
    }

    /// A player resumes at `timestamp`: the open pause interval is closed
    /// into the pause total and reported. Without a session, or with one
    /// that is not paused, nothing changes. Refused, with the state
    /// unchanged, where the interval or the new total does not fit in 64
    /// bits.
    pub fn handle_resume_event(&mut self, player_id: i64, timestamp: i64) -> (r: Result<
        (),
        TrackerError,
    >)
        requires
            old(self).wf(),
        ensures
            final(self).wf(),
            r is Ok <==> resume_defined(old(self)@, player_id, timestamp),
            r is Ok ==> final(self)@ == after_resume(old(self)@, player_id, timestamp),
            r is Err ==> final(self)@ == old(self)@ && r == Err::<(), TrackerError>(
                TrackerError::TimeOverflow,
            ),
    {
        let closed = match self.active_sessions.get(&player_id) {
            Some(session) => match session.pause_start_time {
                Some(pause_start) => {
                    let pause_duration: i128 = timestamp as i128 - pause_start as i128;
                    let total: i128 = session.total_pause_time as i128 + pause_duration;
                    if pause_duration < i64::MIN as i128 || pause_duration > i64::MAX as i128
                        || total < i64::MIN as i128 || total > i64::MAX as i128 {
                        return Err(TrackerError::TimeOverflow);
                    }
                    Some((pause_duration as i64, total as i64))
                },
                None => None,
            },
            None => None,
        };
        match closed {
            Some((pause_duration, total)) => {
                match self.active_sessions.remove(&player_id) {
                    Some(mut session) => {
                        session.total_pause_time = total;
                        session.pause_start_time = None;
                        session.is_paused = false;
                        self.outbox.push(
                            SessionEvent::SessionPaused {
                                session_id: session.session_id,
                                pause_duration,
                            },
                        );
                        self.active_sessions.insert(player_id, session);
                    },
                    None => {},
                }
            },
            None => {},
        }
        proof {
            let expected = after_resume(old(self)@, player_id, timestamp);
            assert(self@.sessions =~= expected.sessions);
            assert(self@.outbox =~= expected.outbox);
        }
        Ok(())
    }

    /// A player stops at `timestamp`: its session, if it has one, is
    /// finalized as completed. Refused, with the state unchanged, where the
    /// pause interval that this closes does not fit in 64 bits.
    pub fn handle_stop_event(&mut self, player_id: i64, timestamp: i64) -> (r: Result<
        (),
        TrackerError,
    >)
        requires
            old(self).wf(),
        ensures
            final(self).wf(),
            r is Ok <==> stop_defined(old(self)@, player_id, timestamp),
            r is Ok ==> final(self)@ == after_stop(old(self)@, player_id, timestamp),
            r is Err ==> final(self)@ == old(self)@ && r == Err::<(), TrackerError>(
                TrackerError::TimeOverflow,
            ),
    {
        self.finalize_session(player_id, timestamp, STATUS_COMPLETED)
    }

    /// The player was not observed for `gap_duration` seconds while it was
    /// playing: the whole gap is added to the pause total and reported.
    /// Pause state and identity of the session stay as they are. Refused,
    /// with the state unchanged, where the new total does not fit in 64
    /// bits.
    pub fn handle_sleep_gap(&mut self, player_id: i64, gap_duration: i64) -> (r: Result<
        (),
        TrackerError,
    >)
        requires
            old(self).wf(),
        ensures
            final(self).wf(),
            r is Ok <==> sleep_gap_defined(old(self)@, player_id, gap_duration),
            r is Ok ==> final(self)@ == after_sleep_gap(old(self)@, player_id, gap_duration),
            r is Err ==> final(self)@ == old(self)@ && r == Err::<(), TrackerError>(
                TrackerError::TimeOverflow,
            ),
    {
        let total = match self.active_sessions.get(&player_id) {
            Some(session) => match session.total_pause_time.checked_add(gap_duration) {
                Some(total) => Some(total),
                None => {
                    return Err(TrackerError::TimeOverflow);
                },
            },
            None => None,
        };
        match total {
            Some(total) => {
                match self.active_sessions.remove(&player_id) {
                    Some(mut session) => {
                        session.total_pause_time = total;
                        self.outbox.push(
                            SessionEvent::SessionPaused {
                                session_id: session.session_id,
                                pause_duration: gap_duration,
                            },
                        );
                        self.active_sessions.insert(player_id, session);
                    },
                    None => {},
                }
            },
            None => {},
        }
        proof {
            let expected = after_sleep_gap(old(self)@, player_id, gap_duration);
            assert(self@.sessions =~= expected.sessions);
            assert(self@.outbox =~= expected.outbox);
        }
        Ok(())
    }

    /// Finalizes the session of `player_id`, if it has one, with `status`.
    fn finalize_session(&mut self, player_id: i64, end_time: i64, status: &str) -> (r: Result<
        (),
        TrackerError,
    >)
        requires
            old(self).wf(),
        ensures
            final(self).wf(),
            r is Ok <==> stop_defined(old(self)@, player_id, end_time),
            r is Ok ==> final(self)@ == after_finalize(old(self)@, player_id, end_time, status@),
            r is Err ==> final(self)@ == old(self)@ && r == Err::<(), TrackerError>(
                TrackerError::TimeOverflow,
            ),
    {
        match self.active_sessions.get(&player_id) {
            Some(session) => {
                if !can_finalize(session, end_time) {
                    return Err(TrackerError::TimeOverflow);
                }
            },
            None => {},
        }
        match self.active_sessions.remove(&player_id) {
            Some(session) => {
                finalize_into(&session, end_time, status, &mut self.outbox);
            },
            None => {},
        }
        assert(self@.sessions =~= after_finalize(
            old(self)@,
            player_id,
            end_time,
            status@,
        ).sessions);
        Ok(())
    }

    /// Finalizes as timed out every session whose last activity lies more
    /// than `max_idle_time` seconds before `current_time`. The sweep comes
    /// by the stale sessions in the order in which the map hands them out;
    /// the events of one session stay together. Refused, with the state
    /// unchanged, where one of these sessions cannot be finalized.
    pub fn cleanup_stale_sessions(&mut self, current_time: i64, max_idle_time: i64) -> (r: Result<
        (),
        TrackerError,
    >)
        requires
            old(self).wf(),
        ensures
            final(self).wf(),
            r is Ok <==> sweep_defined(old(self)@, current_time, max_idle_time),
            r is Ok ==> exists|order: Seq<i64>|
                #[trigger] is_sweep_order(old(self)@, order, current_time, max_idle_time)
                    && final(self)@ == after_sweep(old(self)@, order, current_time),
            r is Err ==> final(self)@ == old(self)@ && r == Err::<(), TrackerError>(
                TrackerError::TimeOverflow,
            ),
    {
        let players = players_of(&self.active_sessions);
        let mut stale: Vec<i64> = Vec::new();
        let mut i: usize = 0;
        while i < players.len()
            invariant
                *self == *old(self),
                self.wf(),
                is_player_listing(self@.sessions, players@),
                i <= players.len(),
                stale@.no_duplicates(),
                forall|player: i64| #[trigger]
                    stale@.contains(player) <==> (exists|j: int|
                        0 <= j < i && players@[j] == player) && has_stale_session(
                        self@,
                        player,
                        current_time,
                        max_idle_time,
                    ),
                forall|player: i64| #[trigger]
                    stale@.contains(player) ==> finalize_defined(
                        self@.sessions[player],
                        current_time,
                    ),
            decreases players.len() - i,
        {
            let player = players[i];
            let ghost before = stale@;
            assert(players@.contains(player));
            let mut is_old = false;
            match self.active_sessions.get(&player) {
                Some(session) => {
                    if session_is_stale(session, current_time, max_idle_time) {
                        if !can_finalize(session, current_time) {
                            assert(has_stale_session(
                                self@,
                                player,
                                current_time,
                                max_idle_time,
                            ));
                            return Err(TrackerError::TimeOverflow);
                        }
                        is_old = true;
                    }
                },
                None => {},
            }
            if is_old {
                stale.push(player);
            }
            proof {
                assert(!before.contains(player)) by {
                    if before.contains(player) {
                        let j = choose|j: int| 0 <= j < i && players@[j] == player;
                        assert(players@[j] == players@[i as int]);
                    }
                }
                if is_old {
                    assert(stale@ =~= before.push(player));
                    assert forall|q: i64| #[trigger] stale@.contains(q) <==> (before.contains(q)
                        || q == player) by {
                        if before.contains(q) {
                            let k = choose|k: int| 0 <= k < before.len() && before[k] == q;
                            assert(stale@[k] == q);
                        }
                        if q == player {
                            assert(stale@[before.len() as int] == q);
                        }
                    }
                }
                assert forall|q: i64| #[trigger]
                    stale@.contains(q) <==> (exists|j: int| 0 <= j < i + 1 && players@[j] == q)
                        && has_stale_session(self@, q, current_time, max_idle_time) by {
                    if q == player {
                        assert(players@[i as int] == q);
                    } else {
                        if exists|j: int| 0 <= j < i + 1 && players@[j] == q {
                            let j = choose|j: int| 0 <= j < i + 1 && players@[j] == q;
                            assert(j < i);
                        }
                    }
                }
            }
            i += 1;
        }
        let ghost order = stale@;
        proof {
            assert forall|player: i64| #[trigger]
                order.contains(player) <==> has_stale_session(
                    self@,
                    player,
                    current_time,
                    max_idle_time,
                ) by {
                if has_stale_session(self@, player, current_time, max_idle_time) {
                    assert(players@.contains(player));
                }
            }
            assert(is_sweep_order(old(self)@, order, current_time, max_idle_time));
            assert forall|player: i64| #[trigger]
                has_stale_session(
                    old(self)@,
                    player,
                    current_time,
                    max_idle_time,
                ) implies finalize_defined(old(self)@.sessions[player], current_time) by {
                assert(order.contains(player));
            }
            assert(order.take(0) =~= Seq::empty());
            assert(order.take(0).to_set() =~= Set::empty());
            assert(self@.sessions =~= old(self)@.sessions.remove_keys(order.take(0).to_set()));
        }
        let mut k: usize = 0;
        while k < stale.len()
            invariant
                self.wf(),
                order == stale@,
                order.no_duplicates(),
                is_sweep_order(old(self)@, order, current_time, max_idle_time),
                sweep_defined(old(self)@, current_time, max_idle_time),
                k <= stale.len(),
                self@.sessions == old(self)@.sessions.remove_keys(order.take(k as int).to_set()),
                self@.outbox == old(self)@.outbox + sweep_events(
                    old(self)@.sessions,
                    order.take(k as int),
                    current_time,
                ),
                self@.next_session_id == old(self)@.next_session_id,
            decreases stale.len() - k,
        {
            let player = stale[k];
            let ghost before = self@;
            proof {
                assert(order.contains(player));
                assert(has_stale_session(old(self)@, player, current_time, max_idle_time));
                assert(!order.take(k as int).to_set().contains(player)) by {
                    if order.take(k as int).contains(player) {
                        let j = choose|j: int|
                            0 <= j < order.take(k as int).len() && order.take(k as int)[j]
                                == player;
                        assert(order[j] == order[k as int]);
                    }
                }
                assert(before.sessions.contains_key(player));
                assert(before.sessions[player] == old(self)@.sessions[player]);
                assert(order.take(k + 1).drop_last() =~= order.take(k as int));
                assert(order.take(k + 1).last() == player);
                assert(order.take(k + 1).to_set() =~= order.take(k as int).to_set().insert(player));
            }
            match self.active_sessions.remove(&player) {
                Some(session) => {
                    finalize_into(&session, current_time, STATUS_TIMEOUT, &mut self.outbox);
                },
                None => {},
            }
            proof {
                assert(self@.sessions =~= before.sessions.remove(player));
                assert(self@.next_session_id == before.next_session_id);
                assert(tracker_inv(self@));
                assert(self@.sessions =~= old(self)@.sessions.remove_keys(
                    order.take(k + 1).to_set(),
                ));
            }
            k += 1;
        }
        proof {
            assert(order.take(k as int) =~= order);
        }
        Ok(())
    }

    /// Takes the oldest event that has not been taken yet.
    pub fn next_event(&mut self) -> (r: Option<SessionEvent>)
        ensures
            final(self)@.sessions == old(self)@.sessions,
            final(self)@.next_session_id == old(self)@.next_session_id,
            old(self)@.outbox.len() == 0 ==> r is None && final(self)@.outbox == old(self)@.outbox,
            old(self)@.outbox.len() > 0 ==> (r matches Some(e) && e@ == old(self)@.outbox[0]
                && final(self)@.outbox == old(self)@.outbox.skip(1)),
    {
        if self.outbox.len() == 0 {
            None
        } else {
            let e = self.outbox.remove(0);
            assert(self@.outbox =~= old(self)@.outbox.skip(1));
            Some(e)
        }
    }

    /// Takes all events that have not been taken yet, oldest first.
    pub fn take_events(&mut self) -> (r: Vec<SessionEvent>)
        ensures
            final(self)@.sessions == old(self)@.sessions,
            final(self)@.next_session_id == old(self)@.next_session_id,
            final(self)@.outbox == Seq::<SessionEventView>::empty(),
            events_view(r@) == old(self)@.outbox,
    {
        let mut out: Vec<SessionEvent> = Vec::new();
        core::mem::swap(&mut self.outbox, &mut out);
        assert(self@.outbox =~= Seq::<SessionEventView>::empty());
        out
    }
}

impl Default for SessionTracker {
    fn default() -> (r: Self)
        ensures
            r.wf(),
            r@ == (TrackerView {
                sessions: Map::empty(),
                outbox: Seq::empty(),
                next_session_id: 1,
            }),
    {
        SessionTracker::new()
    }
}

} // verus!
