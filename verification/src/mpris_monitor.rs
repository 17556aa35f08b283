//! The monitor: it keeps the last observation of each player, hands what
//! it sees to the session state machine, and applies the events of the
//! state machine to the store.

use vstd::prelude::*;
use crate::change_detector::{
    apply_transitions, clone_opt_metadata, detect_transitions, detected, metadata_to_track,
    opt_metadata, run, run_result, step_refusal, track_of, Metadata, MetadataView, Outcome,
    PlaybackStatus, TransitionView,
};
use crate::database::{
    add_pause_defined, after_add_pause, after_finalize_session, after_player_upsert,
    after_progress, after_start_session, after_track_upsert, database_inv,
    finalize_session_defined, fits_i64, fresh_id, player_upsert_defined, player_upsert_id,
    progress_defined, session_ids, start_session_refusal, Database, DatabaseError,
    DatabaseView,
};
use crate::session_tracker::{
    after_play, after_sleep_gap, after_stop, after_sweep, has_session, is_player_listing,
    is_sweep_order, sleep_gap_defined, sweep_defined, tracker_inv, SessionEvent,
    SessionEventView, SessionTracker, TrackerError, TrackerView,
};

verus! {

/// Longest time, in seconds, between two observations of a player that is
/// not taken for a suspension of the system.
pub const SLEEP_GAP_THRESHOLD: i64 = 300;

/// Time, in seconds, after which a session without activity is closed.
pub const IDLE_TIMEOUT: i64 = 300;

/// What is known of a player from its last observation.
#[derive(Debug)]
pub struct PlayerState {
    pub bus_name: String,
    pub player_id: i64,
    pub current_metadata: Option<Metadata>,
    pub current_status: PlaybackStatus,
    pub last_update: i64,
}

/// Mathematical value of a [`PlayerState`].
pub struct PlayerStateView {
    pub bus_name: Seq<char>,
    pub player_id: i64,
    pub current_metadata: Option<MetadataView>,
    pub current_status: PlaybackStatus,
    pub last_update: i64,
}

impl View for PlayerState {
    type V = PlayerStateView;

    open spec fn view(&self) -> PlayerStateView {
        PlayerStateView {
            bus_name: self.bus_name@,
            player_id: self.player_id,
            current_metadata: opt_metadata(self.current_metadata),
            current_status: self.current_status,
            last_update: self.last_update,
        }
    }
}

/// What the observation source reports of one player: its name, its
/// identity, and its status and metadata as far as they could be read.
#[derive(Debug)]
pub struct PlayerObservation {
    pub bus_name: String,
    pub identity: String,
    pub status: Option<PlaybackStatus>,
    pub metadata: Option<Metadata>,
}

/// Mathematical value of a [`PlayerObservation`].
pub struct PlayerObservationView {
    pub bus_name: Seq<char>,
    pub identity: Seq<char>,
    pub status: Option<PlaybackStatus>,
    pub metadata: Option<MetadataView>,
}

impl View for PlayerObservation {
    type V = PlayerObservationView;

    open spec fn view(&self) -> PlayerObservationView {
        PlayerObservationView {
            bus_name: self.bus_name@,
            identity: self.identity@,
            status: self.status,
            metadata: opt_metadata(self.metadata),
        }
    }
}

/// The row of the store that holds a session of the state machine.
#[derive(Debug, Clone, Copy, PartialEq, Eq, Structural)]
pub struct SessionAssignment {
    pub session_id: i64,
    pub row_id: i64,
}

/// Why the monitor could not finish an operation.
#[derive(Debug, Clone, Copy, PartialEq, Eq, Structural)]
pub enum MonitorError {
    /// The state machine refused a transition.
    Tracker(TrackerError),
    /// The store refused an operation.
    Storage(DatabaseError),
    /// An event names a session of which no row is known.
    UnknownSession,
}

/// Mathematical value of a [`MprisMonitor`].
pub struct MonitorView {
    pub db: DatabaseView,
    pub tracker: TrackerView,
    pub players: Seq<PlayerStateView>,
    pub assignments: Seq<SessionAssignment>,
}

/// Values of a list of player states.
pub open spec fn states_view(v: Seq<PlayerState>) -> Seq<PlayerStateView> {
    v.map_values(|p: PlayerState| p@)
}

/// Values of a list of observations.
pub open spec fn observations_view(v: Seq<PlayerObservation>) -> Seq<PlayerObservationView> {
    v.map_values(|o: PlayerObservation| o@)
}

/// Whether a player of that name is tracked.
pub open spec fn is_tracked(players: Seq<PlayerStateView>, name: Seq<char>) -> bool {
    exists|i: int| 0 <= i < players.len() && (#[trigger] players[i]).bus_name == name
}

/// Whether a row is known for a session of the state machine.
pub open spec fn is_assigned(assignments: Seq<SessionAssignment>, session_id: i64) -> bool {
    exists|i: int|
        0 <= i < assignments.len() && (#[trigger] assignments[i]).session_id == session_id
}

/// Position of the assignment of a session; meaningful where `is_assigned`.
pub open spec fn assignment_index(assignments: Seq<SessionAssignment>, session_id: i64) -> int {
    choose|i: int|
        0 <= i < assignments.len() && (#[trigger] assignments[i]).session_id == session_id
}

/// The invariant of the monitor: store and state machine satisfy theirs,
/// no name is tracked twice and no session is assigned twice.
pub open spec fn monitor_inv(m: MonitorView) -> bool {
    &&& database_inv(m.db)
    &&& tracker_inv(m.tracker)
    &&& forall|i: int, j: int|
        0 <= i < m.players.len() && 0 <= j < m.players.len() && i != j ==> (
        #[trigger] m.players[i]).bus_name != (#[trigger] m.players[j]).bus_name
    &&& forall|i: int, j: int|
        0 <= i < m.assignments.len() && 0 <= j < m.assignments.len() && i != j ==> (
        #[trigger] m.assignments[i]).session_id != (#[trigger] m.assignments[j]).session_id
}

/// Where an operation of the monitor ends: the state reached, and the
/// refusal that ended it early, if one did.
pub struct MonitorRun {
    pub state: MonitorView,
    pub refusal: Option<MonitorError>,
}

/// The result that stands for the end of an operation.
pub open spec fn monitor_result(refusal: Option<MonitorError>) -> Result<(), MonitorError> {
    match refusal {
        Some(e) => Err(e),
        None => Ok(()),
    }
}

/// What a change between two observations of a player does to the state
/// machine: the transitions detected are handed to it in order.
pub open spec fn state_change(
    t: TrackerView,
    player: i64,
    old_status: PlaybackStatus,
    new_status: PlaybackStatus,
    old_meta: Option<MetadataView>,
    new_meta: Option<MetadataView>,
    current_time: i64,
) -> Outcome {
    run(
        t,
        player,
        detected(old_status, new_status, old_meta, new_meta, has_session(t.sessions, player)),
        current_time,
    )
}

/// What an event of the state machine does to the store and to the
/// assignments. A start stores the track, opens a session and notes its
/// row; a pause notice adds to the pause time of the row of its session; a
/// final event finalizes that row and forgets the assignment. The store
/// leaves a row that has ended as it is, whatever the event.
pub open spec fn persisted(m: MonitorView, e: SessionEventView) -> MonitorRun {
    match e {
        SessionEventView::SessionStarted { session_id, track, player_id, start_time } => {
            let stored = after_track_upsert(m.db, track);
            match start_session_refusal(stored, track.id, player_id, start_time) {
                Some(refusal) => MonitorRun {
                    state: MonitorView { db: stored, ..m },
                    refusal: Some(MonitorError::Storage(refusal)),
                },
                None => {
                    let assignment = SessionAssignment {
                        session_id,
                        row_id: fresh_id(session_ids(stored.sessions)) as i64,
                    };
                    MonitorRun {
                        state: MonitorView {
                            db: after_start_session(stored, track.id, player_id, start_time),
                            assignments: if is_assigned(m.assignments, session_id) {
                                m.assignments.update(
                                    assignment_index(m.assignments, session_id),
                                    assignment,
                                )
                            } else {
                                m.assignments.push(assignment)
                            },
                            ..m
                        },
                        refusal: None,
                    }
                },
            }
        },
        SessionEventView::SessionPaused { session_id, pause_duration } => {
            if !is_assigned(m.assignments, session_id) {
                MonitorRun { state: m, refusal: Some(MonitorError::UnknownSession) }
            } else {
                let row = m.assignments[assignment_index(m.assignments, session_id)].row_id;
                if add_pause_defined(m.db, row, pause_duration) {
                    MonitorRun {
                        state: MonitorView { db: after_add_pause(m.db, row, pause_duration), ..m },
                        refusal: None,
                    }
                } else {
                    MonitorRun {
                        state: m,
                        refusal: Some(MonitorError::Storage(DatabaseError::Overflow)),
                    }
                }
            }
        },
        SessionEventView::SessionFinalized { session_id, end_time, status } => {
            if !is_assigned(m.assignments, session_id) {
                MonitorRun { state: m, refusal: Some(MonitorError::UnknownSession) }
            } else {
                let i = assignment_index(m.assignments, session_id);
                let row = m.assignments[i].row_id;
                if finalize_session_defined(m.db, row, end_time) {
                    MonitorRun {
                        state: MonitorView {
                            db: after_finalize_session(m.db, row, end_time, status),
                            assignments: m.assignments.remove(i),
                            ..m
                        },
                        refusal: None,
                    }
                } else {
                    MonitorRun {
                        state: m,
                        refusal: Some(MonitorError::Storage(DatabaseError::Overflow)),
                    }
                }
            }
        },
    }
}

/// The status of an observation; a status that could not be read counts
/// as stopped.
pub open spec fn observed_status(o: PlayerObservationView) -> PlaybackStatus {
    match o.status {
        Some(status) => status,
        None => PlaybackStatus::Stopped,
    }
}

/// What is known of a player that was just discovered.
pub open spec fn discovered_state(
    o: PlayerObservationView,
    player_id: i64,
    current_time: i64,
) -> PlayerStateView {
    PlayerStateView {
        bus_name: o.bus_name,
        player_id,
        current_metadata: o.metadata,
        current_status: observed_status(o),
        last_update: current_time,
    }
}

/// What the discovery of one player does. A player that is tracked
/// already is passed over. Any other is registered in the store and
/// tracked from now on; where it is playing and tells its track, a session
/// is started at once.
pub open spec fn discovered(
    m: MonitorView,
    o: PlayerObservationView,
    current_time: i64,
) -> MonitorRun {
    if is_tracked(m.players, o.bus_name) {
        MonitorRun { state: m, refusal: None }
    } else if !player_upsert_defined(m.db, o.bus_name) {
        MonitorRun { state: m, refusal: Some(MonitorError::Storage(DatabaseError::IdsExhausted)) }
    } else {
        let id = player_upsert_id(m.db, o.bus_name) as i64;
        let registered = MonitorView {
            db: after_player_upsert(m.db, o.bus_name, o.identity),
            players: m.players.push(discovered_state(o, id, current_time)),
            ..m
        };
        match o.metadata {
            Some(metadata) => if observed_status(o) == PlaybackStatus::Playing {
                match step_refusal(
                    m.tracker,
                    id,
                    TransitionView::Started(track_of(metadata)),
                    current_time,
                ) {
                    Some(e) => MonitorRun {
                        state: registered,
                        refusal: Some(MonitorError::Tracker(e)),
                    },
                    None => MonitorRun {
                        state: MonitorView {
                            tracker: after_play(m.tracker, id, track_of(metadata), current_time),
                            ..registered
                        },
                        refusal: None,
                    },
                }
            } else {
                MonitorRun { state: registered, refusal: None }
            },
            None => MonitorRun { state: registered, refusal: None },
        }
    }
}

/// The discovery of the first `n` players observed, one after the other,
/// up to the first refusal.
pub open spec fn discovery(
    m: MonitorView,
    observations: Seq<PlayerObservationView>,
    current_time: i64,
    n: int,
) -> MonitorRun
    decreases n,
{
    if n <= 0 {
        MonitorRun { state: m, refusal: None }
    } else {
        let before = discovery(m, observations, current_time, n - 1);
        if before.refusal is Some {
            before
        } else {
            discovered(before.state, observations[n - 1], current_time)
        }
    }
}

/// Time since the last observation of a player.
pub open spec fn gap_of(p: PlayerStateView, current_time: i64) -> int {
    current_time - p.last_update
}

/// Whether the time since the last observation of a player is long enough
/// to be taken for a suspension of the system.
pub open spec fn has_slept(p: PlayerStateView, current_time: i64) -> bool {
    gap_of(p, current_time) > SLEEP_GAP_THRESHOLD
}

/// Whether the gap of a player that was playing cannot be folded into the
/// pause time of its session.
pub open spec fn gap_refused(t: TrackerView, p: PlayerStateView, current_time: i64) -> bool {
    &&& has_slept(p, current_time)
    &&& p.current_status == PlaybackStatus::Playing
    &&& !(fits_i64(gap_of(p, current_time)) && sleep_gap_defined(
        t,
        p.player_id,
        gap_of(p, current_time) as i64,
    ))
}

/// Where the check for suspensions stands: state machine, players, and the
/// refusal that ended it early, if one did.
pub struct SleepCheck {
    pub tracker: TrackerView,
    pub players: Seq<PlayerStateView>,
    pub refusal: Option<TrackerError>,
}

/// The check for suspensions over the first `n` players. The whole gap of
/// a player that was playing and was not observed for longer than the
/// threshold is folded into the pause time of its session; the gap of any
/// player ends with the check.
pub open spec fn sleep_checked(
    t: TrackerView,
    players: Seq<PlayerStateView>,
    current_time: i64,
    n: int,
) -> SleepCheck
    decreases n,
{
    if n <= 0 {
        SleepCheck { tracker: t, players, refusal: None }
    } else {
        let before = sleep_checked(t, players, current_time, n - 1);
        let p = players[n - 1];
        if before.refusal is Some || !has_slept(p, current_time) {
            before
        } else if gap_refused(before.tracker, p, current_time) {
            SleepCheck { refusal: Some(TrackerError::TimeOverflow), ..before }
        } else {
            SleepCheck {
                tracker: if p.current_status == PlaybackStatus::Playing {
                    after_sleep_gap(before.tracker, p.player_id, gap_of(p, current_time) as i64)
                } else {
                    before.tracker
                },
                players: before.players.update(
                    n - 1,
                    PlayerStateView { last_update: current_time, ..p },
                ),
                refusal: None,
            }
        }
    }
}

/// The store after the progress of the first `n` sessions of the state
/// machine was brought to `current_time`. A session without a row, and an
/// update that the store refuses, is passed over.
pub open spec fn progress_all(
    d: DatabaseView,
    session_ids: Seq<i64>,
    assignments: Seq<SessionAssignment>,
    current_time: i64,
    n: int,
) -> DatabaseView
    decreases n,
{
    if n <= 0 {
        d
    } else {
        let before = progress_all(d, session_ids, assignments, current_time, n - 1);
        let id = session_ids[n - 1];
        if is_assigned(assignments, id) {
            let row = assignments[assignment_index(assignments, id)].row_id;
            if progress_defined(before, row, current_time) {
                after_progress(before, row, current_time)
            } else {
                before
            }
        } else {
            before
        }
    }
}

/// The ids of the sessions of the players of `listing`, in that order.
pub open spec fn session_ids_of(t: TrackerView, listing: Seq<i64>) -> Seq<i64> {
    Seq::new(listing.len(), |i: int| t.sessions[listing[i]].session_id)
}

/// A discovery that was ended by a refusal stays as it is.
pub proof fn lemma_discovery_ends(
    m: MonitorView,
    observations: Seq<PlayerObservationView>,
    current_time: i64,
    n: int,
    total: int,
)
    requires
        0 <= n <= total,
        discovery(m, observations, current_time, n).refusal is Some,
    ensures
        discovery(m, observations, current_time, total) == discovery(
            m,
            observations,
            current_time,
            n,
        ),
    decreases total - n,
{
    if n < total {
        lemma_discovery_ends(m, observations, current_time, n, total - 1);
    }
}

/// A check for suspensions that was ended by a refusal stays as it is.
pub proof fn lemma_sleep_check_ends(
    t: TrackerView,
    players: Seq<PlayerStateView>,
    current_time: i64,
    n: int,
    total: int,
)
    requires
        0 <= n <= total,
        sleep_checked(t, players, current_time, n).refusal is Some,
    ensures
        sleep_checked(t, players, current_time, total) == sleep_checked(
            t,
            players,
            current_time,
            n,
        ),
    decreases total - n,
{
    if n < total {
        lemma_sleep_check_ends(t, players, current_time, n, total - 1);
    }
}

/// Whether a player of that name is among the observations.
pub open spec fn is_observed(observations: Seq<PlayerObservationView>, name: Seq<char>) -> bool {
    exists|i: int| 0 <= i < observations.len() && (#[trigger] observations[i]).bus_name == name
}

/// Whether observation `i` is the last of the player of that name.
pub open spec fn is_last_observation(
    observations: Seq<PlayerObservationView>,
    name: Seq<char>,
    i: int,
) -> bool {
    &&& 0 <= i < observations.len()
    &&& observations[i].bus_name == name
    &&& forall|j: int| i < j < observations.len() ==> (#[trigger] observations[j]).bus_name != name
}

/// The observation that counts for the player of that name: the last one;
/// meaningful where `is_observed`.
pub open spec fn observation_of(observations: Seq<PlayerObservationView>, name: Seq<char>) -> int {
    choose|i: int| is_last_observation(observations, name, i)
}

/// The state machine after the first `n` tracked players were looked for:
/// the session of a player that is gone, and was playing, is stopped. The
/// first refusal ends the run.
pub open spec fn departures(
    t: TrackerView,
    players: Seq<PlayerStateView>,
    observations: Seq<PlayerObservationView>,
    current_time: i64,
    n: int,
) -> Outcome
    decreases n,
{
    if n <= 0 {
        Outcome { state: t, refusal: None }
    } else {
        let before = departures(t, players, observations, current_time, n - 1);
        let p = players[n - 1];
        if before.refusal is Some || is_observed(observations, p.bus_name) || p.current_status
            != PlaybackStatus::Playing {
            before
        } else {
            match step_refusal(before.state, p.player_id, TransitionView::Stopped, current_time) {
                Some(e) => Outcome { refusal: Some(e), ..before },
                None => Outcome {
                    state: after_stop(before.state, p.player_id, current_time),
                    refusal: None,
                },
            }
        }
    }
}

/// The state machine after the new observations of the first `n` tracked
/// players were compared with the old ones. The transitions of a player
/// are handed over up to the first that is refused; the next player is
/// taken up all the same.
pub open spec fn updates(
    t: TrackerView,
    players: Seq<PlayerStateView>,
    observations: Seq<PlayerObservationView>,
    current_time: i64,
    n: int,
) -> TrackerView
    decreases n,
{
    if n <= 0 {
        t
    } else {
        let before = updates(t, players, observations, current_time, n - 1);
        let p = players[n - 1];
        if is_observed(observations, p.bus_name) {
            let o = observations[observation_of(observations, p.bus_name)];
            state_change(
                before,
                p.player_id,
                p.current_status,
                observed_status(o),
                p.current_metadata,
                o.metadata,
                current_time,
            ).state
        } else {
            before
        }
    }
}

/// What is known of a player after it was observed again.
pub open spec fn refreshed(
    p: PlayerStateView,
    o: PlayerObservationView,
    current_time: i64,
) -> PlayerStateView {
    PlayerStateView {
        current_metadata: o.metadata,
        current_status: observed_status(o),
        last_update: current_time,
        ..p
    }
}

/// The tracked players after a poll: those that were observed again, each
/// with what its observation tells; those that are gone are dropped.
pub open spec fn polled_players(
    players: Seq<PlayerStateView>,
    observations: Seq<PlayerObservationView>,
    current_time: i64,
) -> Seq<PlayerStateView>
    decreases players.len(),
{
    if players.len() == 0 {
        Seq::empty()
    } else {
        let before = polled_players(players.drop_last(), observations, current_time);
        let p = players.last();
        if is_observed(observations, p.bus_name) {
            before.push(
                refreshed(p, observations[observation_of(observations, p.bus_name)], current_time),
            )
        } else {
            before
        }
    }
}

/// The monitor after a poll, and the refusal that ended the poll early, if
/// one did. A refusal while the players that are gone are stopped ends
/// the poll before any observation is compared.
pub open spec fn polled(
    m: MonitorView,
    observations: Seq<PlayerObservationView>,
    current_time: i64,
) -> (MonitorView, Option<TrackerError>) {
    let gone = departures(m.tracker, m.players, observations, current_time, m.players.len() as int);
    if gone.refusal is Some {
        (MonitorView { tracker: gone.state, ..m }, gone.refusal)
    } else {
        (
            MonitorView {
                tracker: updates(
                    gone.state,
                    m.players,
                    observations,
                    current_time,
                    m.players.len() as int,
                ),
                players: polled_players(m.players, observations, current_time),
                ..m
            },
            None,
        )
    }
}

/// A run over the players that are gone that was ended by a refusal stays
/// as it is.
pub proof fn lemma_departures_end(
    t: TrackerView,
    players: Seq<PlayerStateView>,
    observations: Seq<PlayerObservationView>,
    current_time: i64,
    n: int,
    total: int,
)
    requires
        0 <= n <= total,
        departures(t, players, observations, current_time, n).refusal is Some,
    ensures
        departures(t, players, observations, current_time, total) == departures(
            t,
            players,
            observations,
            current_time,
            n,
        ),
    decreases total - n,
{
    if n < total {
        lemma_departures_end(t, players, observations, current_time, n, total - 1);
    }
}

/// The observation that counts for a player, if it was observed.
fn find_observation(observations: &Vec<PlayerObservation>, name: &String) -> (r: Option<usize>)
    ensures
        r is Some <==> is_observed(observations_view(observations@), name@),
        r matches Some(i) ==> (i < observations@.len() && i == observation_of(
            observations_view(observations@),
            name@,
        )),
{
    let ghost seen = observations_view(observations@);
    let mut i: usize = observations.len();
    while i > 0
        invariant
            seen == observations_view(observations@),
            i <= observations.len(),
            forall|j: int| i <= j < seen.len() ==> (#[trigger] seen[j]).bus_name != name@,
        decreases i,
    {
        i -= 1;
        if observations[i].bus_name == *name {
            proof {
                assert(seen[i as int].bus_name == name@);
                assert(is_last_observation(seen, name@, i as int));
                let c = observation_of(seen, name@);
                assert(is_last_observation(seen, name@, c));
                if c < i {
                    assert(seen[i as int].bus_name != name@);
                }
                if i < c {
                    assert(seen[c].bus_name != name@);
                }
            }
            return Some(i);
        }
    }
    None
}

/// The monitor.
pub struct MprisMonitor {
    db: Database,
    session_tracker: SessionTracker,
    player_states: Vec<PlayerState>,
    assignments: Vec<SessionAssignment>,
}

impl View for MprisMonitor {
    type V = MonitorView;

    closed spec fn view(&self) -> MonitorView {
        MonitorView {
            db: self.db@,
            tracker: self.session_tracker@,
            players: states_view(self.player_states@),
            assignments: self.assignments@,
        }
    }
}

impl MprisMonitor {
    /// The invariant of the monitor.
    pub open spec fn wf(&self) -> bool {
        monitor_inv(self@)
    }

    /// A monitor over `db` that tracks no player yet.
    pub fn new(db: Database) -> (r: Self)
        requires
            db.wf(),
        ensures
            r.wf(),
            r@ == (MonitorView {
                db: db@,
                tracker: TrackerView {
                    sessions: Map::empty(),
                    outbox: Seq::empty(),
                    next_session_id: 1,
                },
                players: Seq::empty(),
                assignments: Seq::empty(),
            }),
    {
        let r = MprisMonitor {
            db,
            session_tracker: SessionTracker::new(),
            player_states: Vec::new(),
            assignments: Vec::new(),
        };
        assert(r@.players =~= Seq::empty());
        assert(r@.assignments =~= Seq::empty());
        r
    }

    /// The store.
    pub fn database(&self) -> (r: &Database)
        ensures
            r@ == self@.db,
    {
        &self.db
    }

    /// The session state machine.
    pub fn session_tracker(&self) -> (r: &SessionTracker)
        ensures
            r@ == self@.tracker,
    {
        &self.session_tracker
    }

    /// The players that are tracked.
    pub fn player_states(&self) -> (r: &Vec<PlayerState>)
        ensures
            states_view(r@) == self@.players,
    {
        &self.player_states
    }

    /// Takes the oldest event of the state machine that has not been taken
    /// yet.
    pub fn next_event(&mut self) -> (r: Option<SessionEvent>)
        ensures
            final(self)@.db == old(self)@.db,
            final(self)@.players == old(self)@.players,
            final(self)@.assignments == old(self)@.assignments,
            final(self)@.tracker.sessions == old(self)@.tracker.sessions,
            final(self)@.tracker.next_session_id == old(self)@.tracker.next_session_id,
            old(self)@.tracker.outbox.len() == 0 ==> r is None && final(self)@.tracker.outbox
                == old(self)@.tracker.outbox,
            old(self)@.tracker.outbox.len() > 0 ==> (r matches Some(e) && e@ == old(
                self,
            )@.tracker.outbox[0] && final(self)@.tracker.outbox == old(self)@.tracker.outbox.skip(
                1,
            )),
    {
        self.session_tracker.next_event()
    }

    /// A player was observed with a new status and new metadata: the
    /// transitions that lie between the old observation and the new one are
    /// handed to the state machine in order, up to the first that it
    /// refuses.
    pub fn handle_state_changes(
        &mut self,
        player_id: i64,
        old_status: PlaybackStatus,
        new_status: PlaybackStatus,
        old_metadata: Option<Metadata>,
        new_metadata: Option<Metadata>,
        current_time: i64,
    ) -> (r: Result<(), TrackerError>)
        requires
            old(self).wf(),
        ensures
            final(self).wf(),
            final(self)@ == (MonitorView {
                tracker: state_change(
                    old(self)@.tracker,
                    player_id,
                    old_status,
                    new_status,
                    opt_metadata(old_metadata),
                    opt_metadata(new_metadata),
                    current_time,
                ).state,
                ..old(self)@
            }),
            r == run_result(
                state_change(
                    old(self)@.tracker,
                    player_id,
                    old_status,
                    new_status,
                    opt_metadata(old_metadata),
                    opt_metadata(new_metadata),
                    current_time,
                ).refusal,
            ),
    {
        let has = self.session_tracker.has_active_session(player_id);
        let steps = detect_transitions(old_status, new_status, &old_metadata, &new_metadata, has);
        apply_transitions(&mut self.session_tracker, player_id, &steps, current_time)
    }

    fn find_assignment(&self, session_id: i64) -> (r: Option<usize>)
        requires
            self.wf(),
        ensures
            r is Some <==> is_assigned(self@.assignments, session_id),
            r matches Some(i) ==> (i == assignment_index(self@.assignments, session_id) && i
                < self.assignments.len()),
    {
        let mut i: usize = 0;
        while i < self.assignments.len()
            invariant
                self.wf(),
                i <= self.assignments.len(),
                forall|j: int|
                    0 <= j < i ==> (#[trigger] self@.assignments[j]).session_id != session_id,
            decreases self.assignments.len() - i,
        {
            if self.assignments[i].session_id == session_id {
                assert(self@.assignments[i as int].session_id == session_id);
                return Some(i);
            }
            i += 1;
        }
        None
    }

    /// Applies an event of the state machine to the store. A start stores
    /// the track, opens a session and notes which row holds it; a pause
    /// notice and a final event act on the row of their session. An event
    /// of a session without a row, and one that the store refuses, is
    /// dropped.
    pub fn handle_session_event(&mut self, event: SessionEvent) -> (r: Result<(), MonitorError>)
        requires
            old(self).wf(),
        ensures
            final(self).wf(),
            final(self)@ == persisted(old(self)@, event@).state,
            r == monitor_result(persisted(old(self)@, event@).refusal),
    {
        match event {
            SessionEvent::SessionStarted { session_id, track, player_id, start_time } => {
                let _ = self.db.insert_or_update_track(&track);
                match self.db.start_session(track.id.as_str(), player_id, start_time) {
                    Ok(row_id) => {
                        let assignment = SessionAssignment { session_id, row_id };
                        match self.find_assignment(session_id) {
                            Some(i) => {
                                self.assignments.set(i, assignment);
                            },
                            None => {
                                self.assignments.push(assignment);
                            },
                        }
                        Ok(())
                    },
                    Err(e) => Err(MonitorError::Storage(e)),
                }
            },
            SessionEvent::SessionPaused { session_id, pause_duration } => {
                match self.find_assignment(session_id) {
                    Some(i) => {
                        let row_id = self.assignments[i].row_id;
                        match self.db.update_session_pause_time(row_id, pause_duration) {
                            Ok(()) => Ok(()),
                            Err(e) => Err(MonitorError::Storage(e)),
                        }
                    },
                    None => Err(MonitorError::UnknownSession),
                }
            },
            SessionEvent::SessionFinalized { session_id, end_time, status } => {
                match self.find_assignment(session_id) {
                    Some(i) => {
                        let row_id = self.assignments[i].row_id;
                        match self.db.finalize_session(row_id, end_time, status.as_str()) {
                            Ok(()) => {
                                let _ = self.assignments.remove(i);
                                Ok(())
                            },
                            Err(e) => Err(MonitorError::Storage(e)),
                        }
                    },
                    None => Err(MonitorError::UnknownSession),
                }
            },
        }
    }

    fn find_player(&self, name: &String) -> (r: Option<usize>)
        ensures
            r is Some <==> is_tracked(self@.players, name@),
            r matches Some(i) ==> (i < self.player_states.len() && self@.players[i as int].bus_name
                == name@),
    {
        let mut i: usize = 0;
        while i < self.player_states.len()
            invariant
                i <= self.player_states.len(),
                forall|j: int| 0 <= j < i ==> (#[trigger] self@.players[j]).bus_name != name@,
            decreases self.player_states.len() - i,
        {
            if self.player_states[i].bus_name == *name {
                assert(self@.players[i as int].bus_name == name@);
                return Some(i);
            }
            i += 1;
        }
        None
    }

    /// Takes up the players among `observations` that are not tracked yet,
    /// in order. Each is registered in the store under its name and
    /// tracked from now on, with `current_time` as the time of its last
    /// observation; a status that could not be read counts as stopped.
    /// Where the player is playing and tells its track, a session is
    /// started at once. The first refusal of the store or of the state
    /// machine ends the discovery.
    pub fn discover_players(
        &mut self,
        observations: &Vec<PlayerObservation>,
        current_time: i64,
    ) -> (r: Result<(), MonitorError>)
        requires
            old(self).wf(),
        ensures
            final(self).wf(),
            final(self)@ == discovery(
                old(self)@,
                observations_view(observations@),
                current_time,
                observations@.len() as int,
            ).state,
            r == monitor_result(
                discovery(
                    old(self)@,
                    observations_view(observations@),
                    current_time,
                    observations@.len() as int,
                ).refusal,
            ),
    {
        let ghost seen = observations_view(observations@);
        let mut k: usize = 0;
        while k < observations.len()
            invariant
                self.wf(),
                seen == observations_view(observations@),
                k <= observations.len(),
                discovery(old(self)@, seen, current_time, k as int) == (MonitorRun {
                    state: self@,
                    refusal: None,
                }),
            decreases observations.len() - k,
        {
            let observation = &observations[k];
            let ghost before = self@;
            proof {
                assert(seen[k as int] == observation@);
            }
            if self.find_player(&observation.bus_name).is_none() {
                let player_id = match self.db.insert_or_update_player(
                    observation.bus_name.as_str(),
                    observation.identity.as_str(),
                ) {
                    Ok(id) => id,
                    Err(e) => {
                        proof {
                            lemma_discovery_ends(
                                old(self)@,
                                seen,
                                current_time,
                                k + 1,
                                observations@.len() as int,
                            );
                        }
                        return Err(MonitorError::Storage(e));
                    },
                };
                let status = match observation.status {
                    Some(status) => status,
                    None => PlaybackStatus::Stopped,
                };
                self.player_states.push(
                    PlayerState {
                        bus_name: observation.bus_name.clone(),
                        player_id,
                        current_metadata: clone_opt_metadata(&observation.metadata),
                        current_status: status,
                        last_update: current_time,
                    },
                );
                proof {
                    assert(self@.players =~= before.players.push(
                        discovered_state(observation@, player_id, current_time),
                    ));
                }
                if status == PlaybackStatus::Playing {
                    match &observation.metadata {
                        Some(metadata) => {
                            let track = metadata_to_track(metadata);
                            match self.session_tracker.handle_play_event(
                                player_id,
                                track,
                                current_time,
                            ) {
                                Ok(()) => {},
                                Err(e) => {
                                    proof {
                                        lemma_discovery_ends(
                                            old(self)@,
                                            seen,
                                            current_time,
                                            k + 1,
                                            observations@.len() as int,
                                        );
                                    }
                                    return Err(MonitorError::Tracker(e));
                                },
                            }
                        },
                        None => {},
                    }
                }
            }
            k += 1;
        }
        Ok(())
    }

    /// Looks for players that were not observed for more than
    /// `SLEEP_GAP_THRESHOLD` seconds. The whole gap of such a player, where
    /// it was playing, is handed to the state machine as a sleep gap; then
    /// `current_time` becomes the time of its last observation. A gap that
    /// the state machine refuses, or that does not fit in 64 bits, ends
    /// the check.
    pub fn check_for_sleep_resume(&mut self, current_time: i64) -> (r: Result<(), TrackerError>)
        requires
            old(self).wf(),
        ensures
            final(self).wf(),
            final(self)@ == (MonitorView {
                tracker: sleep_checked(
                    old(self)@.tracker,
                    old(self)@.players,
                    current_time,
                    old(self)@.players.len() as int,
                ).tracker,
                players: sleep_checked(
                    old(self)@.tracker,
                    old(self)@.players,
                    current_time,
                    old(self)@.players.len() as int,
                ).players,
                ..old(self)@
            }),
            r == run_result(
                sleep_checked(
                    old(self)@.tracker,
                    old(self)@.players,
                    current_time,
                    old(self)@.players.len() as int,
                ).refusal,
            ),
    {
        let ghost tracker = self@.tracker;
        let ghost players = self@.players;
        let mut i: usize = 0;
        while i < self.player_states.len()
            invariant
                self.wf(),
                tracker == old(self)@.tracker,
                players == old(self)@.players,
                self@.db == old(self)@.db,
                self@.assignments == old(self)@.assignments,
                self@.players.len() == players.len(),
                i <= self.player_states.len(),
                forall|j: int| i <= j < players.len() ==> #[trigger] self@.players[j] == players[j],
                forall|j: int|
                    0 <= j < players.len() ==> (#[trigger] self@.players[j]).bus_name
                        == players[j].bus_name,
                sleep_checked(tracker, players, current_time, i as int) == (SleepCheck {
                    tracker: self@.tracker,
                    players: self@.players,
                    refusal: None,
                }),
            decreases self.player_states.len() - i,
        {
            let ghost before = self@;
            proof {
                assert(self@.players[i as int] == players[i as int]);
                assert(self@.players[i as int] == self.player_states@[i as int]@);
            }
            let gap: i128 = current_time as i128 - self.player_states[i].last_update as i128;
            assert(gap == gap_of(players[i as int], current_time));
            if gap > SLEEP_GAP_THRESHOLD as i128 {
                if self.player_states[i].current_status == PlaybackStatus::Playing {
                    if gap > i64::MAX as i128 {
                        proof {
                            lemma_sleep_check_ends(
                                tracker,
                                players,
                                current_time,
                                i + 1,
                                players.len() as int,
                            );
                        }
                        return Err(TrackerError::TimeOverflow);
                    }
                    match self.session_tracker.handle_sleep_gap(
                        self.player_states[i].player_id,
                        gap as i64,
                    ) {
                        Ok(()) => {},
                        Err(e) => {
                            proof {
                                lemma_sleep_check_ends(
                                    tracker,
                                    players,
                                    current_time,
                                    i + 1,
                                    players.len() as int,
                                );
                            }
                            return Err(e);
                        },
                    }
                }
                let mut state = self.player_states.remove(i);
                state.last_update = current_time;
                self.player_states.insert(i, state);
                proof {
                    assert(self@.players =~= before.players.update(
                        i as int,
                        PlayerStateView { last_update: current_time, ..players[i as int] },
                    ));
                    assert forall|a: int, b: int|
                        0 <= a < self@.players.len() && 0 <= b < self@.players.len() && a
                            != b implies (#[trigger] self@.players[a]).bus_name != (
                    #[trigger] self@.players[b]).bus_name by {
                        assert(self@.players[a].bus_name == before.players[a].bus_name);
                        assert(self@.players[b].bus_name == before.players[b].bus_name);
                    }
                }
            }
            i += 1;
        }
        Ok(())
    }

    /// Finalizes as timed out every session of the state machine without
    /// activity for more than `IDLE_TIMEOUT` seconds.
    pub fn cleanup_stale_sessions(&mut self, current_time: i64) -> (r: Result<(), TrackerError>)
        requires
            old(self).wf(),
        ensures
            final(self).wf(),
            r is Ok <==> sweep_defined(old(self)@.tracker, current_time, IDLE_TIMEOUT),
            r is Ok ==> exists|order: Seq<i64>|
                #[trigger] is_sweep_order(old(self)@.tracker, order, current_time, IDLE_TIMEOUT)
                    && final(self)@ == (MonitorView {
                    tracker: after_sweep(old(self)@.tracker, order, current_time),
                    ..old(self)@
                }),
            r is Err ==> final(self)@ == old(self)@ && r == Err::<(), TrackerError>(
                TrackerError::TimeOverflow,
            ),
    {
        let r = self.session_tracker.cleanup_stale_sessions(current_time, IDLE_TIMEOUT);
        proof {
            assert(self@.db == old(self)@.db);
            assert(self@.players == old(self)@.players);
            assert(self@.assignments == old(self)@.assignments);
            assert(tracker_inv(self@.tracker));
        }
        r
    }

    /// Brings the listened time of the row of every session in progress to
    /// `current_time`, so that statistics see it. The sessions are taken in
    /// the order in which the state machine hands them out. A session
    /// without a row, and an update that the store refuses, is passed over.
    pub fn update_active_sessions(&mut self, current_time: i64)
        requires
            old(self).wf(),
        ensures
            final(self).wf(),
            exists|listing: Seq<i64>|
                #[trigger] is_player_listing(old(self)@.tracker.sessions, listing) && final(self)@
                    == (MonitorView {
                    db: progress_all(
                        old(self)@.db,
                        session_ids_of(old(self)@.tracker, listing),
                        old(self)@.assignments,
                        current_time,
                        listing.len() as int,
                    ),
                    ..old(self)@
                }),
    {
        let mut ids: Vec<i64> = Vec::new();
        let ghost mut listing: Seq<i64> = Seq::empty();
        {
            let sessions = self.session_tracker.get_active_sessions();
            let mut k: usize = 0;
            while k < sessions.len()
                invariant
                    k <= sessions.len(),
                    ids@.len() == k,
                    listing.len() == k,
                    forall|i: int| 0 <= i < k ==> #[trigger] listing[i] == sessions@[i].0,
                    forall|i: int| 0 <= i < k ==> #[trigger] ids@[i] == sessions@[i].1@.session_id,
                decreases sessions.len() - k,
            {
                ids.push(sessions[k].1.session_id);
                proof {
                    listing = listing.push(sessions@[k as int].0);
                }
                k += 1;
            }
            proof {
                let registry = self@.tracker.sessions;
                assert forall|player: i64| #[trigger]
                    listing.contains(player) <==> registry.contains_key(player) by {
                    if registry.contains_key(player) {
                        let i = choose|i: int|
                            0 <= i < sessions@.len() && (#[trigger] sessions@[i]).0 == player;
                        assert(listing[i] == player);
                    }
                    if listing.contains(player) {
                        let i = choose|i: int| 0 <= i < listing.len() && listing[i] == player;
                        assert(registry.contains_key(sessions@[i].0));
                    }
                }
                assert forall|i: int, j: int|
                    0 <= i < listing.len() && 0 <= j < listing.len() && i != j implies listing[i]
                    != listing[j] by {
                    assert(sessions@[i].0 != sessions@[j].0);
                }
                assert(is_player_listing(registry, listing));
                assert(ids@ =~= session_ids_of(self@.tracker, listing));
            }
        }
        let mut i: usize = 0;
        while i < ids.len()
            invariant
                self.wf(),
                ids@ == session_ids_of(old(self)@.tracker, listing),
                ids@.len() == listing.len(),
                self@.tracker == old(self)@.tracker,
                self@.players == old(self)@.players,
                self@.assignments == old(self)@.assignments,
                i <= ids.len(),
                self@.db == progress_all(
                    old(self)@.db,
                    ids@,
                    old(self)@.assignments,
                    current_time,
                    i as int,
                ),
            decreases ids.len() - i,
        {
            match self.find_assignment(ids[i]) {
                Some(a) => {
                    let row_id = self.assignments[a].row_id;
                    let _ = self.db.update_active_session_progress(row_id, current_time);
                },
                None => {},
            }
            i += 1;
        }
    }

    /// Compares the tracked players with `observations`, the players that
    /// the observation source reports now.
    ///
    /// First the session of every tracked player that is reported no more,
    /// and was playing, is stopped; a refusal there ends the poll. Then,
    /// for every player that is reported, the transitions between its last
    /// observation and the new one are handed to the state machine, up to
    /// the first that is refused, and the new observation becomes what is
    /// known of it, with `current_time` as its time. At last the players
    /// that are gone are dropped.
    pub fn poll_players(&mut self, observations: &Vec<PlayerObservation>, current_time: i64) -> (r:
        Result<(), TrackerError>)
        requires
            old(self).wf(),
        ensures
            final(self).wf(),
            final(self)@ == polled(old(self)@, observations_view(observations@), current_time).0,
            r == run_result(polled(old(self)@, observations_view(observations@), current_time).1),
    {
        let ghost seen = observations_view(observations@);
        let ghost players = self@.players;
        let ghost tracker = self@.tracker;
        let mut i: usize = 0;
        while i < self.player_states.len()
            invariant
                self.wf(),
                seen == observations_view(observations@),
                players == old(self)@.players,
                tracker == old(self)@.tracker,
                self@.players == players,
                self@.db == old(self)@.db,
                self@.assignments == old(self)@.assignments,
                i <= self.player_states.len(),
                departures(tracker, players, seen, current_time, i as int) == (Outcome {
                    state: self@.tracker,
                    refusal: None,
                }),
            decreases self.player_states.len() - i,
        {
            proof {
                assert(self@.players[i as int] == self.player_states@[i as int]@);
            }
            let state = &self.player_states[i];
            if state.current_status == PlaybackStatus::Playing && find_observation(
                observations,
                &state.bus_name,
            ).is_none() {
                match self.session_tracker.handle_stop_event(state.player_id, current_time) {
                    Ok(()) => {},
                    Err(e) => {
                        proof {
                            lemma_departures_end(
                                tracker,
                                players,
                                seen,
                                current_time,
                                i + 1,
                                players.len() as int,
                            );
                        }
                        return Err(e);
                    },
                }
            }
            i += 1;
        }
        let ghost stopped = self@.tracker;
        let mut i: usize = 0;
        while i < self.player_states.len()
            invariant
                self.wf(),
                seen == observations_view(observations@),
                players == old(self)@.players,
                self@.players == players,
                self@.db == old(self)@.db,
                self@.assignments == old(self)@.assignments,
                i <= self.player_states.len(),
                self@.tracker == updates(stopped, players, seen, current_time, i as int),
            decreases self.player_states.len() - i,
        {
            proof {
                assert(self@.players[i as int] == self.player_states@[i as int]@);
            }
            let state = &self.player_states[i];
            match find_observation(observations, &state.bus_name) {
                Some(k) => {
                    let observation = &observations[k];
                    proof {
                        assert(seen[k as int] == observation@);
                    }
                    let new_status = match observation.status {
                        Some(status) => status,
                        None => PlaybackStatus::Stopped,
                    };
                    let has = self.session_tracker.has_active_session(state.player_id);
                    let steps = detect_transitions(
                        state.current_status,
                        new_status,
                        &state.current_metadata,
                        &observation.metadata,
                        has,
                    );
                    let _ = apply_transitions(
                        &mut self.session_tracker,
                        state.player_id,
                        &steps,
                        current_time,
                    );
                },
                None => {},
            }
            i += 1;
        }
        let mut kept: Vec<PlayerState> = Vec::new();
        let ghost mut origin: Seq<int> = Seq::empty();
        let mut i: usize = 0;
        proof {
            assert(players.take(0) =~= Seq::empty());
        }
        while i < self.player_states.len()
            invariant
                self.wf(),
                seen == observations_view(observations@),
                self@.players == players,
                i <= self.player_states.len(),
                states_view(kept@) == polled_players(players.take(i as int), seen, current_time),
                origin.len() == kept@.len(),
                forall|k: int|
                    0 <= k < origin.len() ==> 0 <= #[trigger] origin[k] < i && kept@[k]@.bus_name
                        == players[origin[k]].bus_name,
                forall|a: int, b: int|
                    0 <= a < b < origin.len() ==> #[trigger] origin[a] < #[trigger] origin[b],
            decreases self.player_states.len() - i,
        {
            proof {
                assert(self@.players[i as int] == self.player_states@[i as int]@);
                assert(players.take(i + 1).drop_last() =~= players.take(i as int));
                assert(players.take(i + 1).last() == players[i as int]);
            }
            let state = &self.player_states[i];
            match find_observation(observations, &state.bus_name) {
                Some(k) => {
                    let observation = &observations[k];
                    proof {
                        assert(seen[k as int] == observation@);
                    }
                    let status = match observation.status {
                        Some(status) => status,
                        None => PlaybackStatus::Stopped,
                    };
                    let ghost before = kept@;
                    kept.push(
                        PlayerState {
                            bus_name: state.bus_name.clone(),
                            player_id: state.player_id,
                            current_metadata: clone_opt_metadata(&observation.metadata),
                            current_status: status,
                            last_update: current_time,
                        },
                    );
                    proof {
                        origin = origin.push(i as int);
                        assert(states_view(kept@) =~= states_view(before).push(
                            refreshed(players[i as int], seen[k as int], current_time),
                        ));
                    }
                },
                None => {},
            }
            i += 1;
        }
        proof {
            assert(players.take(i as int) =~= players);
            let after = states_view(kept@);
            assert forall|a: int, b: int|
                0 <= a < after.len() && 0 <= b < after.len() && a != b implies (
            #[trigger] after[a]).bus_name != (#[trigger] after[b]).bus_name by {
                assert(after[a] == kept@[a]@ && after[b] == kept@[b]@);
                if a < b {
                    assert(origin[a] < origin[b]);
                } else {
                    assert(origin[b] < origin[a]);
                }
                assert(players[origin[a]].bus_name != players[origin[b]].bus_name);
            }
        }
        self.player_states = kept;
        Ok(())
    }
}

} // verus!
