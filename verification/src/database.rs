//! Durable records: players, tracks, sessions and the statistics derived
//! from them.

use vstd::prelude::*;
use vstd::string::*;
use crate::stats::{is_listening_stats, listening_stats, stats_defined, Query};
use crate::text::{clone_opt_text, opt_text};

verus! {

/// Status of a session that is still open.
pub const STATUS_ACTIVE: &'static str = "active";

/// Status of a session that ended with a stop.
pub const STATUS_COMPLETED: &'static str = "completed";

/// Status of a session that was cut short by the start of another.
pub const STATUS_INTERRUPTED: &'static str = "interrupted";

/// Status of a session that an earlier process left open.
pub const STATUS_ORPHANED: &'static str = "orphaned";

/// Status of a session that was closed for want of activity.
pub const STATUS_TIMEOUT: &'static str = "timeout";

/// A media player, known by its stable name.
#[derive(Debug)]
pub struct Player {
    pub id: i64,
    pub name: String,
    pub identity: String,
}

/// Mathematical value of a [`Player`].
pub struct PlayerView {
    pub id: i64,
    pub name: Seq<char>,
    pub identity: Seq<char>,
}

impl View for Player {
    type V = PlayerView;

    open spec fn view(&self) -> PlayerView {
        PlayerView { id: self.id, name: self.name@, identity: self.identity@ }
    }
}

impl Clone for Player {
    fn clone(&self) -> (r: Self)
        ensures
            r@ == self@,
    {
        Player { id: self.id, name: self.name.clone(), identity: self.identity.clone() }
    }
}

/// A piece of music, identified by its content.
#[derive(Debug)]
pub struct Track {
    pub id: String,
    pub title: String,
    pub artist: String,
    pub album: String,
    /// Length in microseconds.
    pub length: Option<i64>,
    pub art_url: Option<String>,
}

/// Mathematical value of a [`Track`].
pub struct TrackView {
    pub id: Seq<char>,
    pub title: Seq<char>,
    pub artist: Seq<char>,
    pub album: Seq<char>,
    pub length: Option<i64>,
    pub art_url: Option<Seq<char>>,
}

impl View for Track {
    type V = TrackView;

    open spec fn view(&self) -> TrackView {
        TrackView {
            id: self.id@,
            title: self.title@,
            artist: self.artist@,
            album: self.album@,
            length: self.length,
            art_url: opt_text(self.art_url),
        }
    }
}

impl Clone for Track {
    fn clone(&self) -> (r: Self)
        ensures
            r@ == self@,
    {
        Track {
            id: self.id.clone(),
            title: self.title.clone(),
            artist: self.artist.clone(),
            album: self.album.clone(),
            length: self.length,
            art_url: clone_opt_text(&self.art_url),
        }
    }
}

/// A listening session as stored.
#[derive(Debug)]
pub struct Session {
    pub id: i64,
    pub track_id: String,
    pub player_id: i64,
    pub start_time: i64,
    pub end_time: Option<i64>,
    pub paused_time: i64,
    pub listened_time: Option<i64>,
    pub status: String,
}

/// Mathematical value of a [`Session`].
pub struct SessionView {
    pub id: i64,
    pub track_id: Seq<char>,
    pub player_id: i64,
    pub start_time: i64,
    pub end_time: Option<i64>,
    pub paused_time: i64,
    pub listened_time: Option<i64>,
    pub status: Seq<char>,
}

impl View for Session {
    type V = SessionView;

    open spec fn view(&self) -> SessionView {
        SessionView {
            id: self.id,
            track_id: self.track_id@,
            player_id: self.player_id,
            start_time: self.start_time,
            end_time: self.end_time,
            paused_time: self.paused_time,
            listened_time: self.listened_time,
            status: self.status@,
        }
    }
}

impl Clone for Session {
    fn clone(&self) -> (r: Self)
        ensures
            r@ == self@,
    {
        Session {
            id: self.id,
            track_id: self.track_id.clone(),
            player_id: self.player_id,
            start_time: self.start_time,
            end_time: self.end_time,
            paused_time: self.paused_time,
            listened_time: self.listened_time,
            status: self.status.clone(),
        }
    }
}

/// Listening time and play count of one track.
#[derive(Debug)]
pub struct TrackStats {
    pub track: Track,
    pub total_listened_time: i64,
    pub play_count: i64,
}

/// Mathematical value of a [`TrackStats`].
pub struct TrackStatsView {
    pub track: TrackView,
    pub total_listened_time: i64,
    pub play_count: i64,
}

impl View for TrackStats {
    type V = TrackStatsView;

    open spec fn view(&self) -> TrackStatsView {
        TrackStatsView {
            track: self.track@,
            total_listened_time: self.total_listened_time,
            play_count: self.play_count,
        }
    }
}

impl Clone for TrackStats {
    fn clone(&self) -> (r: Self)
        ensures
            r@ == self@,
    {
        TrackStats {
            track: self.track.clone(),
            total_listened_time: self.total_listened_time,
            play_count: self.play_count,
        }
    }
}

/// Listening time of one artist and the number of tracks heard.
#[derive(Debug)]
pub struct ArtistStats {
    pub artist: String,
    pub total_listened_time: i64,
    pub track_count: i64,
}

/// Mathematical value of an [`ArtistStats`].
pub struct ArtistStatsView {
    pub artist: Seq<char>,
    pub total_listened_time: i64,
    pub track_count: i64,
}

impl View for ArtistStats {
    type V = ArtistStatsView;

    open spec fn view(&self) -> ArtistStatsView {
        ArtistStatsView {
            artist: self.artist@,
            total_listened_time: self.total_listened_time,
            track_count: self.track_count,
        }
    }
}

impl Clone for ArtistStats {
    fn clone(&self) -> (r: Self)
        ensures
            r@ == self@,
    {
        ArtistStats {
            artist: self.artist.clone(),
            total_listened_time: self.total_listened_time,
            track_count: self.track_count,
        }
    }
}

/// A session together with the track played and the player that played it.
#[derive(Debug)]
pub struct SessionWithMetadata {
    pub session: Session,
    pub track: Track,
    pub player: Player,
}

/// Mathematical value of a [`SessionWithMetadata`].
pub struct SessionWithMetadataView {
    pub session: SessionView,
    pub track: TrackView,
    pub player: PlayerView,
}

impl View for SessionWithMetadata {
    type V = SessionWithMetadataView;

    open spec fn view(&self) -> SessionWithMetadataView {
        SessionWithMetadataView {
            session: self.session@,
            track: self.track@,
            player: self.player@,
        }
    }
}

impl Clone for SessionWithMetadata {
    fn clone(&self) -> (r: Self)
        ensures
            r@ == self@,
    {
        SessionWithMetadata {
            session: self.session.clone(),
            track: self.track.clone(),
            player: self.player.clone(),
        }
    }
}

/// Statistics of a time window.
#[derive(Debug)]
pub struct ListeningStats {
    pub total_listening_time: i64,
    pub top_tracks: Vec<TrackStats>,
    pub top_artists: Vec<ArtistStats>,
    pub listening_history: Vec<SessionWithMetadata>,
}

/// Mathematical value of a [`ListeningStats`].
pub struct ListeningStatsView {
    pub total_listening_time: i64,
    pub top_tracks: Seq<TrackStatsView>,
    pub top_artists: Seq<ArtistStatsView>,
    pub listening_history: Seq<SessionWithMetadataView>,
}

/// Values of a list of track statistics.
pub open spec fn track_stats_view(v: Seq<TrackStats>) -> Seq<TrackStatsView> {
    v.map_values(|t: TrackStats| t@)
}

/// Values of a list of artist statistics.
pub open spec fn artist_stats_view(v: Seq<ArtistStats>) -> Seq<ArtistStatsView> {
    v.map_values(|a: ArtistStats| a@)
}

/// Values of a list of sessions with their metadata.
pub open spec fn history_view(v: Seq<SessionWithMetadata>) -> Seq<SessionWithMetadataView> {
    v.map_values(|h: SessionWithMetadata| h@)
}

impl View for ListeningStats {
    type V = ListeningStatsView;

    open spec fn view(&self) -> ListeningStatsView {
        ListeningStatsView {
            total_listening_time: self.total_listening_time,
            top_tracks: track_stats_view(self.top_tracks@),
            top_artists: artist_stats_view(self.top_artists@),
            listening_history: history_view(self.listening_history@),
        }
    }
}

/// Row counts of the store.
#[derive(Debug, Clone, Copy, PartialEq, Eq, Structural)]
pub struct DatabaseStats {
    pub total_sessions: i64,
    pub active_sessions: i64,
    pub total_tracks: i64,
    pub total_players: i64,
}

// ---------------------------------------------------------------------------
// The model of the store.
// ---------------------------------------------------------------------------

/// Why the store refused an operation.
#[derive(Debug, Clone, Copy, PartialEq, Eq, Structural)]
pub enum DatabaseError {
    /// A time or a count does not fit in 64 bits.
    Overflow,
    /// The largest id of a table is the last value of its type.
    IdsExhausted,
    /// A session names a track that is not stored.
    UnknownTrack,
    /// A session names a player that is not stored.
    UnknownPlayer,
}

/// Mathematical value of a [`Database`]: its three tables, rows in the
/// order in which they were inserted.
pub struct DatabaseView {
    pub players: Seq<PlayerView>,
    pub tracks: Seq<TrackView>,
    pub sessions: Seq<SessionView>,
}

/// Whether `x` is a value of `i64`.
pub open spec fn fits_i64(x: int) -> bool {
    i64::MIN <= x <= i64::MAX
}

/// Whether a player of that name is stored.
pub open spec fn has_player_named(players: Seq<PlayerView>, name: Seq<char>) -> bool {
    exists|i: int| 0 <= i < players.len() && (#[trigger] players[i]).name == name
}

/// Row of the player of that name; meaningful where `has_player_named`.
pub open spec fn player_named(players: Seq<PlayerView>, name: Seq<char>) -> int {
    choose|i: int| 0 <= i < players.len() && (#[trigger] players[i]).name == name
}

/// Whether a player with that id is stored.
pub open spec fn has_player(players: Seq<PlayerView>, id: i64) -> bool {
    exists|i: int| 0 <= i < players.len() && (#[trigger] players[i]).id == id
}

/// Row of the player with that id; meaningful where `has_player`.
pub open spec fn player_row(players: Seq<PlayerView>, id: i64) -> int {
    choose|i: int| 0 <= i < players.len() && (#[trigger] players[i]).id == id
}

/// Whether a track with that id is stored.
pub open spec fn has_track(tracks: Seq<TrackView>, id: Seq<char>) -> bool {
    exists|i: int| 0 <= i < tracks.len() && (#[trigger] tracks[i]).id == id
}

/// Row of the track with that id; meaningful where `has_track`.
pub open spec fn track_row(tracks: Seq<TrackView>, id: Seq<char>) -> int {
    choose|i: int| 0 <= i < tracks.len() && (#[trigger] tracks[i]).id == id
}

/// Whether a session with that id is stored.
pub open spec fn has_session_id(sessions: Seq<SessionView>, id: i64) -> bool {
    exists|i: int| 0 <= i < sessions.len() && (#[trigger] sessions[i]).id == id
}

/// Row of the session with that id; meaningful where `has_session_id`.
pub open spec fn session_row(sessions: Seq<SessionView>, id: i64) -> int {
    choose|i: int| 0 <= i < sessions.len() && (#[trigger] sessions[i]).id == id
}

/// The invariant of the store: ids are keys of their tables, and so is the
/// name of a player.
pub open spec fn database_inv(d: DatabaseView) -> bool {
    &&& forall|i: int, j: int|
        0 <= i < d.players.len() && 0 <= j < d.players.len() && i != j ==> (
        #[trigger] d.players[i]).id != (#[trigger] d.players[j]).id
    &&& forall|i: int, j: int|
        0 <= i < d.players.len() && 0 <= j < d.players.len() && i != j ==> (
        #[trigger] d.players[i]).name != (#[trigger] d.players[j]).name
    &&& forall|i: int, j: int|
        0 <= i < d.tracks.len() && 0 <= j < d.tracks.len() && i != j ==> (
        #[trigger] d.tracks[i]).id != (#[trigger] d.tracks[j]).id
    &&& forall|i: int, j: int|
        0 <= i < d.sessions.len() && 0 <= j < d.sessions.len() && i != j ==> (
        #[trigger] d.sessions[i]).id != (#[trigger] d.sessions[j]).id
}

/// Whether `m` is the largest of `ids`.
pub open spec fn is_largest(ids: Seq<i64>, m: int) -> bool {
    &&& exists|i: int| 0 <= i < ids.len() && #[trigger] ids[i] == m
    &&& forall|i: int| 0 <= i < ids.len() ==> #[trigger] ids[i] <= m
}

/// The id that the next row of a table gets: 1 in an empty table, else one
/// more than the largest id in use.
pub open spec fn fresh_id(ids: Seq<i64>) -> int {
    if ids.len() == 0 {
        1
    } else {
        1 + choose|m: int| is_largest(ids, m)
    }
}

/// The ids of the players, row by row.
pub open spec fn player_ids(players: Seq<PlayerView>) -> Seq<i64> {
    Seq::new(players.len(), |i: int| players[i].id)
}

/// The ids of the sessions, row by row.
pub open spec fn session_ids(sessions: Seq<SessionView>) -> Seq<i64> {
    Seq::new(sessions.len(), |i: int| sessions[i].id)
}

/// Whether a session is still open.
pub open spec fn is_active(s: SessionView) -> bool {
    s.status == STATUS_ACTIVE@
}

/// Listened time of a session that ends at `end_time`.
pub open spec fn listened_until(s: SessionView, end_time: i64) -> int {
    end_time - s.start_time - s.paused_time
}

/// The row of a session after it was finalized at `end_time`.
pub open spec fn finalized_row(s: SessionView, end_time: i64, status: Seq<char>) -> SessionView {
    SessionView {
        end_time: Some(end_time),
        listened_time: Some(listened_until(s, end_time) as i64),
        status,
        ..s
    }
}

/// The row of an open session after its progress was brought to
/// `current_time`.
pub open spec fn progressed_row(s: SessionView, current_time: i64) -> SessionView {
    SessionView { listened_time: Some(listened_until(s, current_time) as i64), ..s }
}

/// The row of a session that is opened.
pub open spec fn opened_row(
    id: i64,
    track_id: Seq<char>,
    player_id: i64,
    start_time: i64,
) -> SessionView {
    SessionView {
        id,
        track_id,
        player_id,
        start_time,
        end_time: None,
        paused_time: 0,
        listened_time: None,
        status: STATUS_ACTIVE@,
    }
}

/// Values of the rows of a table of players.
pub open spec fn players_view(v: Seq<Player>) -> Seq<PlayerView> {
    v.map_values(|p: Player| p@)
}

/// Values of the rows of a table of tracks.
pub open spec fn tracks_view(v: Seq<Track>) -> Seq<TrackView> {
    v.map_values(|t: Track| t@)
}

/// Values of the rows of a table of sessions.
pub open spec fn sessions_view(v: Seq<Session>) -> Seq<SessionView> {
    v.map_values(|s: Session| s@)
}

/// The largest id is unique, so the fresh id is one more than any largest.
pub proof fn lemma_fresh_id(ids: Seq<i64>, m: int)
    requires
        is_largest(ids, m),
    ensures
        fresh_id(ids) == m + 1,
        forall|i: int| 0 <= i < ids.len() ==> #[trigger] ids[i] < fresh_id(ids),
{
    let c = choose|c: int| is_largest(ids, c);
    assert(is_largest(ids, c));
    assert(c <= m && m <= c);
}

/// One more than the largest of `ids`, 1 where there is none; `None` where
/// it does not fit.
fn next_id(ids: &Vec<i64>) -> (r: Option<i64>)
    ensures
        r is Some <==> fits_i64(fresh_id(ids@)),
        r matches Some(id) ==> id == fresh_id(ids@),
        forall|i: int| 0 <= i < ids@.len() ==> #[trigger] ids@[i] < fresh_id(ids@),
{
    if ids.len() == 0 {
        return Some(1);
    }
    let mut best: i64 = ids[0];
    let mut k: usize = 1;
    while k < ids.len()
        invariant
            1 <= k <= ids.len(),
            exists|i: int| 0 <= i < k && #[trigger] ids@[i] == best,
            forall|i: int| 0 <= i < k ==> #[trigger] ids@[i] <= best,
        decreases ids.len() - k,
    {
        if ids[k] > best {
            best = ids[k];
        }
        k += 1;
    }
    proof {
        lemma_fresh_id(ids@, best as int);
    }
    best.checked_add(1)
}

/// The store: players, tracks and sessions.
pub struct Database {
    players: Vec<Player>,
    tracks: Vec<Track>,
    sessions: Vec<Session>,
}

impl View for Database {
    type V = DatabaseView;

    closed spec fn view(&self) -> DatabaseView {
        DatabaseView {
            players: players_view(self.players@),
            tracks: tracks_view(self.tracks@),
            sessions: sessions_view(self.sessions@),
        }
    }
}

/// Whether no number occurs twice.
fn numbers_distinct(v: &Vec<i64>) -> (r: bool)
    ensures
        r == forall|i: int, j: int|
            0 <= i < v@.len() && 0 <= j < v@.len() && i != j ==> #[trigger] v@[i]
                != #[trigger] v@[j],
{
    let mut b: usize = 0;
    while b < v.len()
        invariant
            b <= v.len(),
            forall|i: int, j: int|
                0 <= i < j < b ==> #[trigger] v@[i] != #[trigger] v@[j],
        decreases v.len() - b,
    {
        let mut a: usize = 0;
        while a < b
            invariant
                a <= b < v.len(),
                forall|i: int| 0 <= i < a ==> #[trigger] v@[i] != v@[b as int],
            decreases b - a,
        {
            if v[a] == v[b] {
                return false;
            }
            a += 1;
        }
        b += 1;
    }
    assert forall|i: int, j: int|
        0 <= i < v@.len() && 0 <= j < v@.len() && i != j implies #[trigger] v@[i]
        != #[trigger] v@[j] by {
        if i < j {
            assert(v@[i] != v@[j]);
        } else {
            assert(v@[j] != v@[i]);
        }
    }
    true
}

/// Whether no text occurs twice.
fn texts_distinct(v: &Vec<String>) -> (r: bool)
    ensures
        r == forall|i: int, j: int|
            0 <= i < v@.len() && 0 <= j < v@.len() && i != j ==> (#[trigger] v@[i])@ != (
            #[trigger] v@[j])@,
{
    let mut b: usize = 0;
    while b < v.len()
        invariant
            b <= v.len(),
            forall|i: int, j: int|
                0 <= i < j < b ==> (#[trigger] v@[i])@ != (#[trigger] v@[j])@,
        decreases v.len() - b,
    {
        let mut a: usize = 0;
        while a < b
            invariant
                a <= b < v.len(),
                forall|i: int| 0 <= i < a ==> (#[trigger] v@[i])@ != v@[b as int]@,
            decreases b - a,
        {
            if same_text(&v[a], &v[b]) {
                return false;
            }
            a += 1;
        }
        b += 1;
    }
    assert forall|i: int, j: int|
        0 <= i < v@.len() && 0 <= j < v@.len() && i != j implies (#[trigger] v@[i])@ != (
    #[trigger] v@[j])@ by {
        if i < j {
            assert(v@[i]@ != v@[j]@);
        } else {
            assert(v@[j]@ != v@[i]@);
        }
    }
    true
}

/// Whether two strings hold the same text.
fn same_text(a: &String, b: &String) -> (r: bool)
    ensures
        r == (a@ == b@),
{
    *a == *b
}

// ---------------------------------------------------------------------------
// What each operation does to a `DatabaseView`.
// ---------------------------------------------------------------------------

/// Whether registering a player of that name is accepted.
pub open spec fn player_upsert_defined(d: DatabaseView, name: Seq<char>) -> bool {
    has_player_named(d.players, name) || fits_i64(fresh_id(player_ids(d.players)))
}

/// The id of the player of that name after it was registered.
pub open spec fn player_upsert_id(d: DatabaseView, name: Seq<char>) -> int {
    if has_player_named(d.players, name) {
        d.players[player_named(d.players, name)].id as int
    } else {
        fresh_id(player_ids(d.players))
    }
}

/// State after a player was registered: a known name keeps its id and gets
/// the new identity, an unknown name gets a fresh id.
pub open spec fn after_player_upsert(
    d: DatabaseView,
    name: Seq<char>,
    identity: Seq<char>,
) -> DatabaseView {
    if has_player_named(d.players, name) {
        let i = player_named(d.players, name);
        DatabaseView { players: d.players.update(i, PlayerView { identity, ..d.players[i] }), ..d }
    } else {
        DatabaseView {
            players: d.players.push(
                PlayerView { id: fresh_id(player_ids(d.players)) as i64, name, identity },
            ),
            ..d
        }
    }
}

/// State after a track was stored: a known id has its row replaced, an
/// unknown id gets a new row.
pub open spec fn after_track_upsert(d: DatabaseView, track: TrackView) -> DatabaseView {
    if has_track(d.tracks, track.id) {
        DatabaseView { tracks: d.tracks.update(track_row(d.tracks, track.id), track), ..d }
    } else {
        DatabaseView { tracks: d.tracks.push(track), ..d }
    }
}

/// Whether row `i` is the first open session of `player`.
pub open spec fn is_first_open(sessions: Seq<SessionView>, player: i64, i: int) -> bool {
    &&& 0 <= i < sessions.len()
    &&& sessions[i].player_id == player
    &&& is_active(sessions[i])
    &&& forall|j: int|
        0 <= j < i ==> !((#[trigger] sessions[j]).player_id == player && is_active(sessions[j]))
}

/// Whether `player` has an open session.
pub open spec fn has_open_session(sessions: Seq<SessionView>, player: i64) -> bool {
    exists|i: int| is_first_open(sessions, player, i)
}

/// Row of the first open session of `player`; meaningful where
/// `has_open_session`.
pub open spec fn first_open_session(sessions: Seq<SessionView>, player: i64) -> int {
    choose|i: int| is_first_open(sessions, player, i)
}

/// Whether a session is an open session of `player`.
pub open spec fn is_open_for(s: SessionView, player: i64) -> bool {
    s.player_id == player && is_active(s)
}

/// Whether every open session of `player` can be interrupted at
/// `start_time`: its listened time up to then fits in 64 bits.
pub open spec fn interruption_fits(d: DatabaseView, player: i64, start_time: i64) -> bool {
    forall|i: int|
        0 <= i < d.sessions.len() && is_open_for(#[trigger] d.sessions[i], player) ==> fits_i64(
            listened_until(d.sessions[i], start_time),
        )
}

/// Why opening a session is refused, if it is: the track or the player is
/// not stored, the listened time of a session that is interrupted does
/// not fit in 64 bits, or no id is left.
pub open spec fn start_session_refusal(
    d: DatabaseView,
    track_id: Seq<char>,
    player: i64,
    start_time: i64,
) -> Option<DatabaseError> {
    if !has_track(d.tracks, track_id) {
        Some(DatabaseError::UnknownTrack)
    } else if !has_player(d.players, player) {
        Some(DatabaseError::UnknownPlayer)
    } else if !interruption_fits(d, player, start_time) {
        Some(DatabaseError::Overflow)
    } else if !fits_i64(fresh_id(session_ids(d.sessions))) {
        Some(DatabaseError::IdsExhausted)
    } else {
        None
    }
}

/// Whether opening a session of `player` on `track_id` at `start_time` is
/// accepted.
pub open spec fn start_session_defined(
    d: DatabaseView,
    track_id: Seq<char>,
    player: i64,
    start_time: i64,
) -> bool {
    start_session_refusal(d, track_id, player, start_time) is None
}

/// The row of a session after a session of `player` was opened at
/// `start_time`: an open session of that player is finalized as
/// interrupted, any other row stays as it is.
pub open spec fn interrupted_row(s: SessionView, player: i64, start_time: i64) -> SessionView {
    if is_open_for(s, player) {
        finalized_row(s, start_time, STATUS_INTERRUPTED@)
    } else {
        s
    }
}

/// State after a session was opened: every session of the player that was
/// still open is finalized as interrupted at `start_time`, then the new
/// row is added.
pub open spec fn after_start_session(
    d: DatabaseView,
    track_id: Seq<char>,
    player: i64,
    start_time: i64,
) -> DatabaseView {
    DatabaseView {
        sessions: Seq::new(
            d.sessions.len(),
            |i: int| interrupted_row(d.sessions[i], player, start_time),
        ).push(opened_row(fresh_id(session_ids(d.sessions)) as i64, track_id, player, start_time)),
        ..d
    }
}

/// Whether `id` names a session that is still open.
pub open spec fn has_active_session(sessions: Seq<SessionView>, id: i64) -> bool {
    has_session_id(sessions, id) && is_active(sessions[session_row(sessions, id)])
}

/// Whether adding pause time to a session is accepted.
pub open spec fn add_pause_defined(d: DatabaseView, id: i64, seconds: i64) -> bool {
    has_active_session(d.sessions, id) ==> fits_i64(
        d.sessions[session_row(d.sessions, id)].paused_time + seconds,
    )
}

/// State after pause time was added to a session: an open session has
/// its pause time grown; a session that has ended, whose listened time
/// is settled, is left alone.
pub open spec fn after_add_pause(d: DatabaseView, id: i64, seconds: i64) -> DatabaseView {
    if has_active_session(d.sessions, id) {
        let i = session_row(d.sessions, id);
        let s = d.sessions[i];
        DatabaseView {
            sessions: d.sessions.update(
                i,
                SessionView { paused_time: (s.paused_time + seconds) as i64, ..s },
            ),
            ..d
        }
    } else {
        d
    }
}

/// Whether finalizing a session at `end_time` is accepted.
pub open spec fn finalize_session_defined(d: DatabaseView, id: i64, end_time: i64) -> bool {
    has_active_session(d.sessions, id) ==> fits_i64(
        listened_until(d.sessions[session_row(d.sessions, id)], end_time),
    )
}

/// State after a session was finalized: an open session gets its end,
/// its listened time and its status; a session that has ended keeps what
/// it got when it ended.
pub open spec fn after_finalize_session(
    d: DatabaseView,
    id: i64,
    end_time: i64,
    status: Seq<char>,
) -> DatabaseView {
    if has_active_session(d.sessions, id) {
        let i = session_row(d.sessions, id);
        DatabaseView {
            sessions: d.sessions.update(i, finalized_row(d.sessions[i], end_time, status)),
            ..d
        }
    } else {
        d
    }
}

/// Whether a progress update of a session is accepted.
pub open spec fn progress_defined(d: DatabaseView, id: i64, current_time: i64) -> bool {
    has_active_session(d.sessions, id) ==> fits_i64(
        listened_until(d.sessions[session_row(d.sessions, id)], current_time),
    )
}

/// State after a progress update: an open session has its listened time
/// brought to `current_time`; any other session is left alone.
pub open spec fn after_progress(d: DatabaseView, id: i64, current_time: i64) -> DatabaseView {
    if has_active_session(d.sessions, id) {
        let i = session_row(d.sessions, id);
        DatabaseView {
            sessions: d.sessions.update(i, progressed_row(d.sessions[i], current_time)),
            ..d
        }
    } else {
        d
    }
}

/// Whether row `i` is the open session of `player` that started last, the
/// first such where several started at the same time.
pub open spec fn is_latest_open(sessions: Seq<SessionView>, player: i64, i: int) -> bool {
    &&& 0 <= i < sessions.len()
    &&& sessions[i].player_id == player
    &&& is_active(sessions[i])
    &&& forall|j: int|
        0 <= j < sessions.len() && (#[trigger] sessions[j]).player_id == player && is_active(
            sessions[j],
        ) ==> sessions[j].start_time < sessions[i].start_time || (sessions[j].start_time
            == sessions[i].start_time && i <= j)
}

/// Whether a session was left open by an earlier process: it is open and
/// began more than `max_duration` before `current_time`.
pub open spec fn is_orphan(s: SessionView, current_time: i64, max_duration: i64) -> bool {
    is_active(s) && current_time - s.start_time > max_duration
}

/// The row of a session after orphan recovery: an orphan is finalized as
/// orphaned, with its start plus `max_duration` as estimated end.
pub open spec fn recovered_row(
    s: SessionView,
    current_time: i64,
    max_duration: i64,
) -> SessionView {
    if is_orphan(s, current_time, max_duration) {
        finalized_row(s, (s.start_time + max_duration) as i64, STATUS_ORPHANED@)
    } else {
        s
    }
}

/// Whether an orphan can be recovered: its estimated end and the listened
/// time up to it fit in 64 bits.
pub open spec fn recoverable(s: SessionView, max_duration: i64) -> bool {
    fits_i64(s.start_time + max_duration) && fits_i64(max_duration - s.paused_time)
}

/// Whether orphan recovery is accepted: every orphan can be recovered.
pub open spec fn recovery_defined(d: DatabaseView, current_time: i64, max_duration: i64) -> bool {
    forall|i: int|
        0 <= i < d.sessions.len() && is_orphan(#[trigger] d.sessions[i], current_time, max_duration)
            ==> recoverable(d.sessions[i], max_duration)
}

/// State after orphan recovery.
pub open spec fn after_recovery(
    d: DatabaseView,
    current_time: i64,
    max_duration: i64,
) -> DatabaseView {
    DatabaseView {
        sessions: Seq::new(
            d.sessions.len(),
            |i: int| recovered_row(d.sessions[i], current_time, max_duration),
        ),
        ..d
    }
}

/// Number of orphans among `sessions`.
pub open spec fn orphan_count(
    sessions: Seq<SessionView>,
    current_time: i64,
    max_duration: i64,
) -> nat
    decreases sessions.len(),
{
    if sessions.len() == 0 {
        0
    } else {
        orphan_count(sessions.drop_last(), current_time, max_duration) + if is_orphan(
            sessions.last(),
            current_time,
            max_duration,
        ) {
            1nat
        } else {
            0nat
        }
    }
}

/// Number of open sessions among `sessions`.
pub open spec fn active_count(sessions: Seq<SessionView>) -> nat
    decreases sessions.len(),
{
    if sessions.len() == 0 {
        0
    } else {
        active_count(sessions.drop_last()) + if is_active(sessions.last()) {
            1nat
        } else {
            0nat
        }
    }
}

// ---------------------------------------------------------------------------
// The store.
// ---------------------------------------------------------------------------

/// Whether `session` is still open; `active` holds the status of an open
/// session.
pub(crate) fn row_is_active(session: &Session, active: &String) -> (r: bool)
    requires
        active@ == STATUS_ACTIVE@,
    ensures
        r == is_active(session@),
{
    same_text(&session.status, active)
}

/// Listened time of `session` up to `end_time`, `None` where it does not
/// fit.
pub(crate) fn listened_of(session: &Session, end_time: i64) -> (r: Option<i64>)
    ensures
        r is Some <==> fits_i64(listened_until(session@, end_time)),
        r matches Some(t) ==> t == listened_until(session@, end_time),
{
    let t: i128 = end_time as i128 - session.start_time as i128 - session.paused_time as i128;
    if i64::MIN as i128 <= t && t <= i64::MAX as i128 {
        Some(t as i64)
    } else {
        None
    }
}

impl Database {
    /// The invariant: ids are keys, and so are the names of players.
    pub open spec fn wf(&self) -> bool {
        database_inv(self@)
    }

    /// An empty store.
    pub fn new() -> (r: Self)
        ensures
            r.wf(),
            r@ == (DatabaseView {
                players: Seq::empty(),
                tracks: Seq::empty(),
                sessions: Seq::empty(),
            }),
    {
        let r = Database { players: Vec::new(), tracks: Vec::new(), sessions: Vec::new() };
        assert(r@.players =~= Seq::empty());
        assert(r@.tracks =~= Seq::empty());
        assert(r@.sessions =~= Seq::empty());
        r
    }

    /// The store that holds the given rows, where ids, and the names of
    /// players, are keys; `None` where two rows share a key.
    pub fn from_rows(players: Vec<Player>, tracks: Vec<Track>, sessions: Vec<Session>) -> (r:
        Option<Self>)
        ensures
            r is Some <==> database_inv(
                DatabaseView {
                    players: players_view(players@),
                    tracks: tracks_view(tracks@),
                    sessions: sessions_view(sessions@),
                },
            ),
            r matches Some(db) ==> db.wf() && db@ == (DatabaseView {
                players: players_view(players@),
                tracks: tracks_view(tracks@),
                sessions: sessions_view(sessions@),
            }),
    {
        let db = Database { players, tracks, sessions };
        let player_ids = db.player_id_list();
        let session_ids = db.session_id_list();
        let names = db.player_names();
        let track_ids = db.track_id_list();
        let ids_are_keys = numbers_distinct(&player_ids) && numbers_distinct(&session_ids);
        let texts_are_keys = texts_distinct(&names) && texts_distinct(&track_ids);
        proof {
            let d = db@;
            if ids_are_keys && texts_are_keys {
                assert forall|i: int, j: int|
                    0 <= i < d.players.len() && 0 <= j < d.players.len() && i != j implies (
                #[trigger] d.players[i]).id != (#[trigger] d.players[j]).id by {
                    assert(player_ids@[i] != player_ids@[j]);
                }
                assert forall|i: int, j: int|
                    0 <= i < d.players.len() && 0 <= j < d.players.len() && i != j implies (
                #[trigger] d.players[i]).name != (#[trigger] d.players[j]).name by {
                    assert(names@[i]@ != names@[j]@);
                }
                assert forall|i: int, j: int|
                    0 <= i < d.tracks.len() && 0 <= j < d.tracks.len() && i != j implies (
                #[trigger] d.tracks[i]).id != (#[trigger] d.tracks[j]).id by {
                    assert(track_ids@[i]@ != track_ids@[j]@);
                }
                assert forall|i: int, j: int|
                    0 <= i < d.sessions.len() && 0 <= j < d.sessions.len() && i != j implies (
                #[trigger] d.sessions[i]).id != (#[trigger] d.sessions[j]).id by {
                    assert(session_ids@[i] != session_ids@[j]);
                }
            }
            if database_inv(d) {
                assert forall|i: int, j: int|
                    0 <= i < player_ids@.len() && 0 <= j < player_ids@.len() && i
                        != j implies #[trigger] player_ids@[i] != #[trigger] player_ids@[j] by {
                    assert(d.players[i].id != d.players[j].id);
                }
                assert forall|i: int, j: int|
                    0 <= i < session_ids@.len() && 0 <= j < session_ids@.len() && i
                        != j implies #[trigger] session_ids@[i] != #[trigger] session_ids@[j] by {
                    assert(d.sessions[i].id != d.sessions[j].id);
                }
                assert forall|i: int, j: int|
                    0 <= i < names@.len() && 0 <= j < names@.len() && i != j implies (
                #[trigger] names@[i])@ != (#[trigger] names@[j])@ by {
                    assert(d.players[i].name != d.players[j].name);
                }
                assert forall|i: int, j: int|
                    0 <= i < track_ids@.len() && 0 <= j < track_ids@.len() && i != j implies (
                #[trigger] track_ids@[i])@ != (#[trigger] track_ids@[j])@ by {
                    assert(d.tracks[i].id != d.tracks[j].id);
                }
            }
        }
        if ids_are_keys && texts_are_keys {
            Some(db)
        } else {
            None
        }
    }

    fn player_names(&self) -> (r: Vec<String>)
        ensures
            r@.len() == self@.players.len(),
            forall|i: int| 0 <= i < r@.len() ==> (#[trigger] r@[i])@ == self@.players[i].name,
    {
        let mut names: Vec<String> = Vec::new();
        let mut i: usize = 0;
        while i < self.players.len()
            invariant
                i <= self.players.len(),
                names@.len() == i,
                forall|j: int| 0 <= j < i ==> (#[trigger] names@[j])@ == self@.players[j].name,
            decreases self.players.len() - i,
        {
            names.push(self.players[i].name.clone());
            i += 1;
        }
        names
    }

    fn track_id_list(&self) -> (r: Vec<String>)
        ensures
            r@.len() == self@.tracks.len(),
            forall|i: int| 0 <= i < r@.len() ==> (#[trigger] r@[i])@ == self@.tracks[i].id,
    {
        let mut ids: Vec<String> = Vec::new();
        let mut i: usize = 0;
        while i < self.tracks.len()
            invariant
                i <= self.tracks.len(),
                ids@.len() == i,
                forall|j: int| 0 <= j < i ==> (#[trigger] ids@[j])@ == self@.tracks[j].id,
            decreases self.tracks.len() - i,
        {
            ids.push(self.tracks[i].id.clone());
            i += 1;
        }
        ids
    }

    /// The players, row by row.
    pub fn players(&self) -> (r: &Vec<Player>)
        ensures
            players_view(r@) == self@.players,
    {
        &self.players
    }

    /// The tracks, row by row.
    pub fn tracks(&self) -> (r: &Vec<Track>)
        ensures
            tracks_view(r@) == self@.tracks,
    {
        &self.tracks
    }

    /// The sessions, row by row.
    pub fn sessions(&self) -> (r: &Vec<Session>)
        ensures
            sessions_view(r@) == self@.sessions,
    {
        &self.sessions
    }

    fn find_player_named(&self, name: &String) -> (r: Option<usize>)
        requires
            self.wf(),
        ensures
            r is Some <==> has_player_named(self@.players, name@),
            r matches Some(i) ==> (i == player_named(self@.players, name@) && i
                < self.players.len()),
    {
        let mut i: usize = 0;
        while i < self.players.len()
            invariant
                self.wf(),
                i <= self.players.len(),
                forall|j: int| 0 <= j < i ==> (#[trigger] self@.players[j]).name != name@,
            decreases self.players.len() - i,
        {
            if same_text(&self.players[i].name, name) {
                assert(self@.players[i as int].name == name@);
                return Some(i);
            }
            i += 1;
        }
        None
    }

    fn find_track(&self, id: &String) -> (r: Option<usize>)
        requires
            self.wf(),
        ensures
            r is Some <==> has_track(self@.tracks, id@),
            r matches Some(i) ==> (i == track_row(self@.tracks, id@) && i < self.tracks.len()),
    {
        let mut i: usize = 0;
        while i < self.tracks.len()
            invariant
                self.wf(),
                i <= self.tracks.len(),
                forall|j: int| 0 <= j < i ==> (#[trigger] self@.tracks[j]).id != id@,
            decreases self.tracks.len() - i,
        {
            if same_text(&self.tracks[i].id, id) {
                assert(self@.tracks[i as int].id == id@);
                return Some(i);
            }
            i += 1;
        }
        None
    }

    fn find_player(&self, id: i64) -> (r: Option<usize>)
        requires
            self.wf(),
        ensures
            r is Some <==> has_player(self@.players, id),
            r matches Some(i) ==> (i == player_row(self@.players, id) && i < self.players.len()),
    {
        let mut i: usize = 0;
        while i < self.players.len()
            invariant
                self.wf(),
                i <= self.players.len(),
                forall|j: int| 0 <= j < i ==> (#[trigger] self@.players[j]).id != id,
            decreases self.players.len() - i,
        {
            if self.players[i].id == id {
                assert(self@.players[i as int].id == id);
                return Some(i);
            }
            i += 1;
        }
        None
    }

    fn find_session(&self, id: i64) -> (r: Option<usize>)
        requires
            self.wf(),
        ensures
            r is Some <==> has_session_id(self@.sessions, id),
            r matches Some(i) ==> (i == session_row(self@.sessions, id) && i
                < self.sessions.len()),
    {
        let mut i: usize = 0;
        while i < self.sessions.len()
            invariant
                self.wf(),
                i <= self.sessions.len(),
                forall|j: int| 0 <= j < i ==> (#[trigger] self@.sessions[j]).id != id,
            decreases self.sessions.len() - i,
        {
            if self.sessions[i].id == id {
                assert(self@.sessions[i as int].id == id);
                return Some(i);
            }
            i += 1;
        }
        None
    }

    /// The row of the session `id`, where that session is still open.
    fn find_open_session(&self, id: i64) -> (r: Option<usize>)
        requires
            self.wf(),
        ensures
            r is Some <==> has_active_session(self@.sessions, id),
            r matches Some(i) ==> (i == session_row(self@.sessions, id) && i
                < self.sessions.len()),
    {
        let active = String::from_str(STATUS_ACTIVE);
        match self.find_session(id) {
            Some(i) => if row_is_active(&self.sessions[i], &active) {
                Some(i)
            } else {
                None
            },
            None => None,
        }
    }

    fn find_first_open(&self, player_id: i64, active: &String) -> (r: Option<usize>)
        requires
            active@ == STATUS_ACTIVE@,
        ensures
            r is Some <==> has_open_session(self@.sessions, player_id),
            r matches Some(i) ==> (i == first_open_session(self@.sessions, player_id) && i
                < self.sessions.len()),
    {
        let mut i: usize = 0;
        while i < self.sessions.len()
            invariant
                active@ == STATUS_ACTIVE@,
                i <= self.sessions.len(),
                forall|j: int|
                    0 <= j < i ==> !((#[trigger] self@.sessions[j]).player_id == player_id
                        && is_active(self@.sessions[j])),
            decreases self.sessions.len() - i,
        {
            if self.sessions[i].player_id == player_id && row_is_active(&self.sessions[i], active) {
                proof {
                    let sessions = self@.sessions;
                    assert(is_first_open(sessions, player_id, i as int));
                    let c = first_open_session(sessions, player_id);
                    assert(is_first_open(sessions, player_id, c));
                    assert(!(c < i) && !(i < c)) by {
                        if c < i {
                            assert(sessions[c].player_id == player_id);
                        }
                        if i < c {
                            assert(sessions[i as int].player_id == player_id);
                        }
                    }
                }
                return Some(i);
            }
            i += 1;
        }
        proof {
            let sessions = self@.sessions;
            assert forall|k: int| !is_first_open(sessions, player_id, k) by {
                if 0 <= k < sessions.len() {
                    assert(!(sessions[k].player_id == player_id && is_active(sessions[k])));
                }
            }
        }
        None
    }

    fn player_id_list(&self) -> (r: Vec<i64>)
        ensures
            r@ == player_ids(self@.players),
    {
        let mut ids: Vec<i64> = Vec::new();
        let mut i: usize = 0;
        while i < self.players.len()
            invariant
                i <= self.players.len(),
                ids@.len() == i,
                forall|j: int| 0 <= j < i ==> #[trigger] ids@[j] == self@.players[j].id,
            decreases self.players.len() - i,
        {
            ids.push(self.players[i].id);
            i += 1;
        }
        assert(ids@ =~= player_ids(self@.players));
        ids
    }

    fn session_id_list(&self) -> (r: Vec<i64>)
        ensures
            r@ == session_ids(self@.sessions),
    {
        let mut ids: Vec<i64> = Vec::new();
        let mut i: usize = 0;
        while i < self.sessions.len()
            invariant
                i <= self.sessions.len(),
                ids@.len() == i,
                forall|j: int| 0 <= j < i ==> #[trigger] ids@[j] == self@.sessions[j].id,
            decreases self.sessions.len() - i,
        {
            ids.push(self.sessions[i].id);
            i += 1;
        }
        assert(ids@ =~= session_ids(self@.sessions));
        ids
    }

    /// Registers a player under its name and returns its id. A known name
    /// keeps its id and takes the new identity; an unknown name gets one
    /// more than the largest id in use, 1 in an empty table. Refused, with
    /// the store unchanged, where that id does not fit in 64 bits.
    pub fn insert_or_update_player(&mut self, name: &str, identity: &str) -> (r: Result<
        i64,
        DatabaseError,
    >)
        requires
            old(self).wf(),
        ensures
            final(self).wf(),
            r is Ok <==> player_upsert_defined(old(self)@, name@),
            r matches Ok(id) ==> (id == player_upsert_id(old(self)@, name@) && final(self)@
                == after_player_upsert(old(self)@, name@, identity@)),
            r is Err ==> final(self)@ == old(self)@ && r == Err::<i64, DatabaseError>(
                DatabaseError::IdsExhausted,
            ),
    {
        let name = String::from_str(name);
        let identity = String::from_str(identity);
        match self.find_player_named(&name) {
            Some(i) => {
                let mut player = self.players.remove(i);
                player.identity = identity;
                let id = player.id;
                self.players.insert(i, player);
                assert(self@.players =~= after_player_upsert(
                    old(self)@,
                    name@,
                    identity@,
                ).players);
                Ok(id)
            },
            None => {
                let ids = self.player_id_list();
                match next_id(&ids) {
                    Some(id) => {
                        proof {
                            assert forall|j: int| 0 <= j < old(self)@.players.len() implies (
                            #[trigger] old(self)@.players[j]).id != id by {
                                assert(ids@[j] == old(self)@.players[j].id);
                            }
                        }
                        self.players.push(Player { id, name, identity });
                        assert(self@.players =~= after_player_upsert(
                            old(self)@,
                            name@,
                            identity@,
                        ).players);
                        Ok(id)
                    },
                    None => Err(DatabaseError::IdsExhausted),
                }
            },
        }
    }

    /// Stores a track under its id: a known id has its row replaced, an
    /// unknown id gets a new row.
    pub fn insert_or_update_track(&mut self, track: &Track) -> (r: Result<(), DatabaseError>)
        requires
            old(self).wf(),
        ensures
            final(self).wf(),
            r is Ok,
            final(self)@ == after_track_upsert(old(self)@, track@),
    {
        match self.find_track(&track.id) {
            Some(i) => {
                let _ = self.tracks.remove(i);
                self.tracks.insert(i, track.clone());
                assert(self@.tracks =~= after_track_upsert(old(self)@, track@).tracks);
            },
            None => {
                self.tracks.push(track.clone());
                assert(self@.tracks =~= after_track_upsert(old(self)@, track@).tracks);
            },
        }
        Ok(())
    }

    /// Opens a session of `player_id` on `track_id` and returns its id, one
    /// more than the largest session id in use. Every session of the
    /// player that is still open is finalized as interrupted at
    /// `start_time` first, so that the new session is the only open one of
    /// the player. Refused, with the store unchanged, where the track or
    /// the player is not stored, or where the listened time of an
    /// interrupted session or the new id does not fit in 64 bits.
    pub fn start_session(&mut self, track_id: &str, player_id: i64, start_time: i64) -> (r: Result<
        i64,
        DatabaseError,
    >)
        requires
            old(self).wf(),
        ensures
            final(self).wf(),
            r is Ok <==> start_session_defined(old(self)@, track_id@, player_id, start_time),
            r matches Ok(id) ==> (id == fresh_id(session_ids(old(self)@.sessions)) && final(self)@
                == after_start_session(old(self)@, track_id@, player_id, start_time)),
            r matches Err(e) ==> (final(self)@ == old(self)@ && start_session_refusal(
                old(self)@,
                track_id@,
                player_id,
                start_time,
            ) == Some(e)),
    {
        let track = String::from_str(track_id);
        if self.find_track(&track).is_none() {
            return Err(DatabaseError::UnknownTrack);
        }
        if self.find_player(player_id).is_none() {
            return Err(DatabaseError::UnknownPlayer);
        }
        let active = String::from_str(STATUS_ACTIVE);
        let mut checked: usize = 0;
        while checked < self.sessions.len()
            invariant
                active@ == STATUS_ACTIVE@,
                *self == *old(self),
                self.wf(),
                has_track(self@.tracks, track_id@),
                has_player(self@.players, player_id),
                checked <= self.sessions.len(),
                forall|j: int|
                    0 <= j < checked && is_open_for(#[trigger] self@.sessions[j], player_id)
                        ==> fits_i64(listened_until(self@.sessions[j], start_time)),
            decreases self.sessions.len() - checked,
        {
            let row = &self.sessions[checked];
            if row.player_id == player_id && row_is_active(row, &active) && listened_of(
                row,
                start_time,
            ).is_none() {
                assert(is_open_for(self@.sessions[checked as int], player_id));
                return Err(DatabaseError::Overflow);
            }
            checked += 1;
        }
        let ids = self.session_id_list();
        let id = match next_id(&ids) {
            Some(id) => id,
            None => {
                return Err(DatabaseError::IdsExhausted);
            },
        };
        let ghost rows = self@.sessions;
        proof {
            assert forall|j: int| 0 <= j < rows.len() implies (#[trigger] rows[j]).id != id by {
                assert(ids@[j] == rows[j].id);
            }
        }
        let mut i: usize = 0;
        while i < self.sessions.len()
            invariant
                active@ == STATUS_ACTIVE@,
                rows == old(self)@.sessions,
                interruption_fits(old(self)@, player_id, start_time),
                self@.players == old(self)@.players,
                self@.tracks == old(self)@.tracks,
                i <= self.sessions.len(),
                self.sessions.len() == rows.len(),
                forall|j: int|
                    0 <= j < i ==> #[trigger] self@.sessions[j] == interrupted_row(
                        rows[j],
                        player_id,
                        start_time,
                    ),
                forall|j: int| i <= j < rows.len() ==> #[trigger] self@.sessions[j] == rows[j],
            decreases self.sessions.len() - i,
        {
            proof {
                assert(self@.sessions[i as int] == rows[i as int]);
            }
            let open = self.sessions[i].player_id == player_id && row_is_active(
                &self.sessions[i],
                &active,
            );
            if open {
                let ghost before = self@.sessions;
                let listened = listened_of(&self.sessions[i], start_time);
                let mut interrupted = self.sessions.remove(i);
                interrupted.end_time = Some(start_time);
                interrupted.listened_time = listened;
                interrupted.status = String::from_str(STATUS_INTERRUPTED);
                self.sessions.insert(i, interrupted);
                proof {
                    assert(self@.sessions =~= before.update(
                        i as int,
                        interrupted_row(rows[i as int], player_id, start_time),
                    ));
                }
            }
            i += 1;
        }
        let ghost mid = self@.sessions;
        self.sessions.push(
            Session {
                id,
                track_id: track,
                player_id,
                start_time,
                end_time: None,
                paused_time: 0,
                listened_time: None,
                status: active,
            },
        );
        proof {
            let after = self@.sessions;
            assert(after =~= mid.push(opened_row(id, track_id@, player_id, start_time)));
            assert(mid.len() == rows.len());
            assert forall|j: int| 0 <= j < mid.len() implies #[trigger] mid[j] == interrupted_row(
                rows[j],
                player_id,
                start_time,
            ) by {}
            assert(after =~= after_start_session(
                old(self)@,
                track_id@,
                player_id,
                start_time,
            ).sessions);
            assert forall|a: int, b: int|
                0 <= a < after.len() && 0 <= b < after.len() && a != b implies (
            #[trigger] after[a]).id != (#[trigger] after[b]).id by {
                if a < mid.len() {
                    assert(after[a].id == rows[a].id);
                }
                if b < mid.len() {
                    assert(after[b].id == rows[b].id);
                }
            }
        }
        Ok(id)
    }

    /// Adds `additional_pause_time` seconds to the pause time of an open
    /// session. A session that has ended, and an unknown id, change
    /// nothing. Refused, with the store unchanged, where the new pause time
    /// does not fit in 64 bits.
    pub fn update_session_pause_time(&mut self, session_id: i64, additional_pause_time: i64) -> (r:
        Result<(), DatabaseError>)
        requires
            old(self).wf(),
        ensures
            final(self).wf(),
            r is Ok <==> add_pause_defined(old(self)@, session_id, additional_pause_time),
            r is Ok ==> final(self)@ == after_add_pause(
                old(self)@,
                session_id,
                additional_pause_time,
            ),
            r is Err ==> final(self)@ == old(self)@ && r == Err::<(), DatabaseError>(
                DatabaseError::Overflow,
            ),
    {
        match self.find_open_session(session_id) {
            Some(i) => {
                let paused = match self.sessions[i].paused_time.checked_add(additional_pause_time) {
                    Some(paused) => paused,
                    None => {
                        return Err(DatabaseError::Overflow);
                    },
                };
                let mut session = self.sessions.remove(i);
                session.paused_time = paused;
                self.sessions.insert(i, session);
                assert(self@.sessions =~= after_add_pause(
                    old(self)@,
                    session_id,
                    additional_pause_time,
                ).sessions);
            },
            None => {},
        }
        Ok(())
    }

    /// Finalizes an open session: it gets `end_time` as its end, the time
    /// from its start to that end less its pause time as its listened
    /// time, and `status`. A session that has ended keeps what it got when
    /// it ended, and an unknown id changes nothing. Refused, with the store
    /// unchanged, where the listened time does not fit in 64 bits.
    pub fn finalize_session(&mut self, session_id: i64, end_time: i64, status: &str) -> (r: Result<
        (),
        DatabaseError,
    >)
        requires
            old(self).wf(),
        ensures
            final(self).wf(),
            r is Ok <==> finalize_session_defined(old(self)@, session_id, end_time),
            r is Ok ==> final(self)@ == after_finalize_session(
                old(self)@,
                session_id,
                end_time,
                status@,
            ),
            r is Err ==> final(self)@ == old(self)@ && r == Err::<(), DatabaseError>(
                DatabaseError::Overflow,
            ),
    {
        match self.find_open_session(session_id) {
            Some(i) => {
                let listened = match listened_of(&self.sessions[i], end_time) {
                    Some(t) => t,
                    None => {
                        return Err(DatabaseError::Overflow);
                    },
                };
                let mut session = self.sessions.remove(i);
                session.end_time = Some(end_time);
                session.listened_time = Some(listened);
                session.status = String::from_str(status);
                self.sessions.insert(i, session);
                assert(self@.sessions =~= after_finalize_session(
                    old(self)@,
                    session_id,
                    end_time,
                    status@,
                ).sessions);
            },
            None => {},
        }
        Ok(())
    }

    /// Brings the listened time of an open session to `current_time`
    /// without finalizing it. Status, start, end and pause time stay as
    /// they are; a session that is not open, and an unknown id, change
    /// nothing. Refused, with the store unchanged, where the listened time
    /// does not fit in 64 bits.
    pub fn update_active_session_progress(&mut self, session_id: i64, current_time: i64) -> (r:
        Result<(), DatabaseError>)
        requires
            old(self).wf(),
        ensures
            final(self).wf(),
            r is Ok <==> progress_defined(old(self)@, session_id, current_time),
            r is Ok ==> final(self)@ == after_progress(old(self)@, session_id, current_time),
            r is Err ==> final(self)@ == old(self)@ && r == Err::<(), DatabaseError>(
                DatabaseError::Overflow,
            ),
    {
        match self.find_open_session(session_id) {
            Some(i) => {
                let listened = match listened_of(&self.sessions[i], current_time) {
                    Some(t) => t,
                    None => {
                        return Err(DatabaseError::Overflow);
                    },
                };
                let mut session = self.sessions.remove(i);
                session.listened_time = Some(listened);
                self.sessions.insert(i, session);
                assert(self@.sessions =~= after_progress(
                    old(self)@,
                    session_id,
                    current_time,
                ).sessions);
            },
            None => {},
        }
        Ok(())
    }

    /// The open session of `player_id` that started last; of several that
    /// started at the same time, the first in the table.
    pub fn get_active_session_for_player(&self, player_id: i64) -> (r: Option<Session>)
        ensures
            r is Some <==> has_open_session(self@.sessions, player_id),
            r matches Some(s) ==> exists|i: int|
                is_latest_open(self@.sessions, player_id, i) && #[trigger] self@.sessions[i] == s@,
    {
        let active = String::from_str(STATUS_ACTIVE);
        let first = match self.find_first_open(player_id, &active) {
            Some(i) => i,
            None => {
                return None;
            },
        };
        let mut best: usize = first;
        let mut k: usize = first + 1;
        proof {
            assert(is_first_open(self@.sessions, player_id, first as int));
        }
        while k < self.sessions.len()
            invariant
                active@ == STATUS_ACTIVE@,
                first <= best < k <= self.sessions.len(),
                self@.sessions[best as int].player_id == player_id,
                is_active(self@.sessions[best as int]),
                forall|j: int|
                    0 <= j < k && (#[trigger] self@.sessions[j]).player_id == player_id
                        && is_active(self@.sessions[j]) ==> self@.sessions[j].start_time
                        < self@.sessions[best as int].start_time || (self@.sessions[j].start_time
                        == self@.sessions[best as int].start_time && best <= j),
            decreases self.sessions.len() - k,
        {
            let row = &self.sessions[k];
            if row.player_id == player_id && row_is_active(row, &active) && row.start_time
                > self.sessions[best].start_time {
                best = k;
            }
            k += 1;
        }
        assert(is_latest_open(self@.sessions, player_id, best as int));
        Some(self.sessions[best].clone())
    }

    /// Finalizes as orphaned every open session that began more than
    /// `max_session_duration` seconds before `current_time`, with its start
    /// plus that duration as estimated end, and returns how many sessions
    /// that were. Refused, with the store unchanged, where the estimated
    /// end or the listened time of one of them does not fit in 64 bits.
    pub fn cleanup_orphaned_sessions(&mut self, current_time: i64, max_session_duration: i64) -> (r:
        Result<usize, DatabaseError>)
        requires
            old(self).wf(),
        ensures
            final(self).wf(),
            r is Ok <==> recovery_defined(old(self)@, current_time, max_session_duration),
            r matches Ok(count) ==> (count == orphan_count(
                old(self)@.sessions,
                current_time,
                max_session_duration,
            ) && final(self)@ == after_recovery(old(self)@, current_time, max_session_duration)),
            r is Err ==> final(self)@ == old(self)@ && r == Err::<usize, DatabaseError>(
                DatabaseError::Overflow,
            ),
    {
        let active = String::from_str(STATUS_ACTIVE);
        let mut checked: usize = 0;
        while checked < self.sessions.len()
            invariant
                active@ == STATUS_ACTIVE@,
                *self == *old(self),
                self.wf(),
                checked <= self.sessions.len(),
                forall|j: int|
                    0 <= j < checked && is_orphan(
                        #[trigger] self@.sessions[j],
                        current_time,
                        max_session_duration,
                    ) ==> recoverable(self@.sessions[j], max_session_duration),
            decreases self.sessions.len() - checked,
        {
            let row = &self.sessions[checked];
            if row_is_orphan(row, &active, current_time, max_session_duration) {
                let end: i128 = row.start_time as i128 + max_session_duration as i128;
                let listened: i128 = max_session_duration as i128 - row.paused_time as i128;
                if end < i64::MIN as i128 || end > i64::MAX as i128 || listened < i64::MIN as i128
                    || listened > i64::MAX as i128 {
                    assert(is_orphan(
                        self@.sessions[checked as int],
                        current_time,
                        max_session_duration,
                    ));
                    return Err(DatabaseError::Overflow);
                }
            }
            checked += 1;
        }
        let ghost rows = self@.sessions;
        let mut count: usize = 0;
        let mut i: usize = 0;
        proof {
            assert(rows.take(0) =~= Seq::empty());
        }
        while i < self.sessions.len()
            invariant
                active@ == STATUS_ACTIVE@,
                rows == old(self)@.sessions,
                recovery_defined(old(self)@, current_time, max_session_duration),
                self@.players == old(self)@.players,
                self@.tracks == old(self)@.tracks,
                i <= self.sessions.len(),
                self.sessions.len() == rows.len(),
                count <= i,
                count == orphan_count(rows.take(i as int), current_time, max_session_duration),
                forall|j: int|
                    0 <= j < i ==> #[trigger] self@.sessions[j] == recovered_row(
                        rows[j],
                        current_time,
                        max_session_duration,
                    ),
                forall|j: int| i <= j < rows.len() ==> #[trigger] self@.sessions[j] == rows[j],
            decreases self.sessions.len() - i,
        {
            proof {
                assert(rows.take(i + 1).drop_last() =~= rows.take(i as int));
                assert(rows.take(i + 1).last() == rows[i as int]);
                assert(self@.sessions[i as int] == rows[i as int]);
            }
            if row_is_orphan(&self.sessions[i], &active, current_time, max_session_duration) {
                let ghost before = self@.sessions;
                let mut session = self.sessions.remove(i);
                let end: i64 = session.start_time + max_session_duration;
                session.listened_time = Some(max_session_duration - session.paused_time);
                session.end_time = Some(end);
                session.status = String::from_str(STATUS_ORPHANED);
                self.sessions.insert(i, session);
                count += 1;
                proof {
                    assert(self@.sessions =~= before.update(
                        i as int,
                        recovered_row(rows[i as int], current_time, max_session_duration),
                    ));
                }
            }
            i += 1;
        }
        proof {
            assert(rows.take(i as int) =~= rows);
            assert(self@.sessions =~= after_recovery(
                old(self)@,
                current_time,
                max_session_duration,
            ).sessions);
            assert forall|a: int, b: int|
                0 <= a < self@.sessions.len() && 0 <= b < self@.sessions.len() && a != b implies (
            #[trigger] self@.sessions[a]).id != (#[trigger] self@.sessions[b]).id by {
                assert(self@.sessions[a].id == rows[a].id);
                assert(self@.sessions[b].id == rows[b].id);
            }
        }
        Ok(count)
    }

    /// The statistics of the sessions that began in the half-open window
    /// from `start_time` to `end_time`, as of `current_time`: the total
    /// listened time, the top tracks, the top artists and the history. A
    /// session that is still open counts with the time since its start
    /// less its pause time. Refused where the size of a table or a sum,
    /// formed row by row, does not fit in 64 bits.
    pub fn get_listening_stats(
        &self,
        start_time: Option<i64>,
        end_time: Option<i64>,
        current_time: i64,
    ) -> (r: Result<ListeningStats, DatabaseError>)
        requires
            self.wf(),
        ensures
            r is Ok <==> stats_defined(
                self@,
                Query { start: start_time, end: end_time, current_time },
            ),
            r matches Ok(stats) ==> is_listening_stats(
                self@,
                Query { start: start_time, end: end_time, current_time },
                stats@,
            ),
            r is Err ==> r == Err::<ListeningStats, DatabaseError>(DatabaseError::Overflow),
    {
        listening_stats(
            &self.players,
            &self.tracks,
            &self.sessions,
            start_time,
            end_time,
            current_time,
        )
    }

    /// Row counts of the store. Refused where a count does not fit in 64
    /// bits.
    pub fn get_database_stats(&self) -> (r: Result<DatabaseStats, DatabaseError>)
        ensures
            r is Ok <==> (fits_i64(self@.sessions.len() as int) && fits_i64(
                self@.tracks.len() as int,
            ) && fits_i64(self@.players.len() as int)),
            r matches Ok(stats) ==> (stats.total_sessions == self@.sessions.len()
                && stats.active_sessions == active_count(self@.sessions) && stats.total_tracks
                == self@.tracks.len() && stats.total_players == self@.players.len()),
            r is Err ==> r == Err::<DatabaseStats, DatabaseError>(DatabaseError::Overflow),
    {
        let active = String::from_str(STATUS_ACTIVE);
        let (total_sessions, total_tracks, total_players) = match (
            count_of(self.sessions.len()),
            count_of(self.tracks.len()),
            count_of(self.players.len()),
        ) {
            (Some(s), Some(t), Some(p)) => (s, t, p),
            _ => {
                return Err(DatabaseError::Overflow);
            },
        };
        let mut open: i64 = 0;
        let mut i: usize = 0;
        proof {
            assert(self@.sessions.take(0) =~= Seq::empty());
        }
        while i < self.sessions.len()
            invariant
                active@ == STATUS_ACTIVE@,
                i <= self.sessions.len() <= i64::MAX,
                open <= i,
                open == active_count(self@.sessions.take(i as int)),
            decreases self.sessions.len() - i,
        {
            proof {
                assert(self@.sessions.take(i + 1).drop_last() =~= self@.sessions.take(i as int));
                assert(self@.sessions.take(i + 1).last() == self@.sessions[i as int]);
            }
            if row_is_active(&self.sessions[i], &active) {
                open += 1;
            }
            i += 1;
        }
        proof {
            assert(self@.sessions.take(i as int) =~= self@.sessions);
        }
        Ok(
            DatabaseStats {
                total_sessions,
                active_sessions: open,
                total_tracks,
                total_players,
            },
        )
    }
}

/// A count as a 64-bit number, `None` where it does not fit.
pub(crate) fn count_of(n: usize) -> (r: Option<i64>)
    ensures
        r is Some <==> fits_i64(n as int),
        r matches Some(v) ==> v == n,
{
    if n as u64 <= i64::MAX as u64 {
        Some(n as i64)
    } else {
        None
    }
}

/// Whether `session` is an orphan; `active` holds the status of an open
/// session.
fn row_is_orphan(session: &Session, active: &String, current_time: i64, max_duration: i64) -> (r:
    bool)
    requires
        active@ == STATUS_ACTIVE@,
    ensures
        r == is_orphan(session@, current_time, max_duration),
{
    row_is_active(session, active) && current_time as i128 - session.start_time as i128
        > max_duration as i128
}

} // verus!
