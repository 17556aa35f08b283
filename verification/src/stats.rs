//! Time-windowed aggregation of the stored sessions.
//!
//! Membership in a window goes by the start of a session. A session that is
//! still open counts with the time it has been listened to so far, as of
//! the moment of the query.

use vstd::prelude::*;
use vstd::string::*;
use crate::database::{
    artist_stats_view, count_of, database_inv, fits_i64, has_player, has_track, history_view,
    is_active, listened_of, listened_until, player_row, players_view, row_is_active,
    sessions_view, track_row, track_stats_view, tracks_view, ArtistStats, ArtistStatsView,
    DatabaseError, DatabaseView, ListeningStats, ListeningStatsView, Player, Session,
    SessionView, SessionWithMetadata, SessionWithMetadataView, Track, TrackStats, TrackStatsView,
    TrackView, STATUS_ACTIVE,
};

verus! {

/// Most entries that the lists of top tracks and top artists hold.
pub const TOP_LIMIT: usize = 20;

/// Most entries that the listening history holds.
pub const HISTORY_LIMIT: usize = 100;

/// What statistics are asked for: the half-open window from `start` to
/// `end`, a bound that is absent being no bound, and the moment at which
/// the question is put.
#[derive(Debug, Clone, Copy)]
pub struct Query {
    pub start: Option<i64>,
    pub end: Option<i64>,
    pub current_time: i64,
}

// ---------------------------------------------------------------------------
// What is counted, and with how much.
// ---------------------------------------------------------------------------

/// Whether a session belongs to the window of a query.
///
/// Membership goes by the start of the session: it must lie in the window.
/// One kind of session belongs to the window although it began before it:
/// a session that is still open and so reaches into the window, which it
/// does where the window has begun by the moment of the query. A session
/// that began before the window and has ended does not belong to it,
/// wherever it ended.
pub open spec fn in_window(s: SessionView, q: Query) -> bool {
    &&& q.start matches Some(a) ==> a <= s.start_time || (is_active(s) && a <= q.current_time)
    &&& q.end matches Some(b) ==> s.start_time < b
}

/// Whether a session has listened time to count: it is open, or its
/// listened time is set.
pub open spec fn is_counted(s: SessionView) -> bool {
    is_active(s) || s.listened_time is Some
}

/// The listened time that a session counts with at `current_time`: an open
/// session the time since its start less its pause time, any other its
/// listened time.
pub open spec fn effective_time(s: SessionView, current_time: i64) -> int {
    if is_active(s) {
        listened_until(s, current_time)
    } else {
        match s.listened_time {
            Some(t) => t as int,
            None => 0,
        }
    }
}

/// The sessions that the statistics of a query count.
pub open spec fn in_scope(q: Query) -> spec_fn(SessionView) -> bool {
    |s: SessionView| is_counted(s) && in_window(s, q)
}

/// The counted sessions of a query that played the track `track_id`.
pub open spec fn on_track(q: Query, track_id: Seq<char>) -> spec_fn(SessionView) -> bool {
    |s: SessionView| is_counted(s) && in_window(s, q) && s.track_id == track_id
}

/// The counted sessions of a query that played a stored track of `artist`.
pub open spec fn by_artist(tracks: Seq<TrackView>, q: Query, artist: Seq<char>) -> spec_fn(
    SessionView,
) -> bool {
    |s: SessionView|
        is_counted(s) && in_window(s, q) && has_track(tracks, s.track_id)
            && tracks[track_row(tracks, s.track_id)].artist == artist
}

/// Sum of the effective times of the sessions that `pick` picks.
pub open spec fn total_time(
    sessions: Seq<SessionView>,
    pick: spec_fn(SessionView) -> bool,
    current_time: i64,
) -> int
    decreases sessions.len(),
{
    if sessions.len() == 0 {
        0
    } else {
        total_time(sessions.drop_last(), pick, current_time) + if pick(sessions.last()) {
            effective_time(sessions.last(), current_time)
        } else {
            0
        }
    }
}

/// Whether the sum of `total_time` can be formed row by row in 64 bits:
/// every term and every partial sum fits.
pub open spec fn total_fits(
    sessions: Seq<SessionView>,
    pick: spec_fn(SessionView) -> bool,
    current_time: i64,
) -> bool
    decreases sessions.len(),
{
    if sessions.len() == 0 {
        true
    } else {
        &&& total_fits(sessions.drop_last(), pick, current_time)
        &&& pick(sessions.last()) ==> fits_i64(effective_time(sessions.last(), current_time))
        &&& fits_i64(total_time(sessions, pick, current_time))
    }
}

/// Number of the sessions that `pick` picks.
pub open spec fn pick_count(sessions: Seq<SessionView>, pick: spec_fn(SessionView) -> bool) -> nat
    decreases sessions.len(),
{
    if sessions.len() == 0 {
        0
    } else {
        pick_count(sessions.drop_last(), pick) + if pick(sessions.last()) {
            1nat
        } else {
            0nat
        }
    }
}

// ---------------------------------------------------------------------------
// Rankings.
// ---------------------------------------------------------------------------

/// Position `a` ranks before position `b`: the larger key first, and of
/// equal keys the earlier position.
pub open spec fn ranks_before(keys: Seq<i64>, a: int, b: int) -> bool {
    keys[a] > keys[b] || (keys[a] == keys[b] && a < b)
}

/// Whether `picks` is the ranking of the eligible positions of `keys`, cut
/// off after `limit` entries: it holds eligible positions in ranking order,
/// and every eligible position that it leaves out ranks after all of them
/// and is left out only because the limit is reached.
pub open spec fn is_ranking(
    picks: Seq<int>,
    keys: Seq<i64>,
    eligible: Seq<bool>,
    limit: int,
) -> bool {
    &&& picks.len() <= limit
    &&& forall|r: int|
        0 <= r < picks.len() ==> 0 <= #[trigger] picks[r] < keys.len() && eligible[picks[r]]
    &&& forall|r: int, q: int|
        0 <= r < q < picks.len() ==> ranks_before(keys, #[trigger] picks[r], #[trigger] picks[q])
    &&& forall|k: int|
        0 <= k < keys.len() && #[trigger] eligible[k] && !picks.contains(k) ==> picks.len()
            == limit && forall|r: int|
            0 <= r < picks.len() ==> ranks_before(keys, #[trigger] picks[r], k)
}

/// The positions of a list of picks as mathematical integers.
pub open spec fn positions(picks: Seq<usize>) -> Seq<int> {
    picks.map_values(|p: usize| p as int)
}

/// The ranking of the eligible positions of `keys`, cut off after `limit`
/// entries.
pub fn top_indices(keys: &Vec<i64>, eligible: &Vec<bool>, limit: usize) -> (picks: Vec<usize>)
    requires
        keys@.len() == eligible@.len(),
    ensures
        is_ranking(positions(picks@), keys@, eligible@, limit as int),
{
    let n = keys.len();
    let mut taken: Vec<bool> = Vec::new();
    while taken.len() < n
        invariant
            taken@.len() <= n,
            forall|k: int| 0 <= k < taken@.len() ==> !#[trigger] taken@[k],
        decreases n - taken@.len(),
    {
        taken.push(false);
    }
    let mut picks: Vec<usize> = Vec::new();
    let mut exhausted = false;
    while picks.len() < limit && !exhausted
        invariant
            n == keys@.len(),
            n == eligible@.len(),
            n == taken@.len(),
            picks@.len() <= limit,
            forall|r: int|
                0 <= r < picks@.len() ==> (#[trigger] picks@[r]) < n && eligible@[picks@[r] as int]
                    && taken@[picks@[r] as int],
            forall|k: int|
                0 <= k < n && #[trigger] taken@[k] ==> exists|r: int|
                    0 <= r < picks@.len() && #[trigger] picks@[r] == k,
            forall|r: int, q: int|
                0 <= r < q < picks@.len() ==> ranks_before(
                    keys@,
                    (#[trigger] picks@[r]) as int,
                    (#[trigger] picks@[q]) as int,
                ),
            forall|r: int, k: int|
                0 <= r < picks@.len() && 0 <= k < n && eligible@[k] && !#[trigger] taken@[k]
                    ==> ranks_before(keys@, (#[trigger] picks@[r]) as int, k),
            exhausted ==> forall|k: int| 0 <= k < n && #[trigger] eligible@[k] ==> taken@[k],
        decreases (limit - picks@.len()) + (if exhausted { 0int } else { 1int }),
    {
        let mut best: Option<usize> = None;
        let mut k: usize = 0;
        while k < n
            invariant
                n == keys@.len(),
                n == eligible@.len(),
                n == taken@.len(),
                k <= n,
                match best {
                    None => forall|j: int| 0 <= j < k ==> !(#[trigger] eligible@[j] && !taken@[j]),
                    Some(b) => b < k && eligible@[b as int] && !taken@[b as int] && forall|j: int|
                        0 <= j < k && #[trigger] eligible@[j] && !taken@[j] && j != b
                            ==> ranks_before(keys@, b as int, j),
                },
            decreases n - k,
        {
            if eligible[k] && !taken[k] {
                match best {
                    None => {
                        best = Some(k);
                    },
                    Some(b) => {
                        if keys[k] > keys[b] {
                            best = Some(k);
                        }
                    },
                }
            }
            k += 1;
        }
        match best {
            None => {
                exhausted = true;
            },
            Some(b) => {
                let ghost before = picks@;
                let ghost taken_before = taken@;
                taken.set(b, true);
                picks.push(b);
                proof {
                    assert forall|k: int| 0 <= k < n && #[trigger] taken@[k] implies exists|r: int|
                        0 <= r < picks@.len() && #[trigger] picks@[r] == k by {
                        if k == b {
                            assert(picks@[before.len() as int] == b);
                        } else {
                            assert(taken_before[k]);
                            let r = choose|r: int|
                                0 <= r < before.len() && #[trigger] before[r] == k;
                            assert(picks@[r] == k);
                        }
                    }
                    assert forall|r: int, q: int| 0 <= r < q < picks@.len() implies ranks_before(
                        keys@,
                        (#[trigger] picks@[r]) as int,
                        (#[trigger] picks@[q]) as int,
                    ) by {
                        if q < before.len() {
                            assert(picks@[r] == before[r] && picks@[q] == before[q]);
                        } else {
                            assert(picks@[r] == before[r]);
                            assert(!taken_before[b as int]);
                        }
                    }
                    assert forall|r: int, k: int|
                        0 <= r < picks@.len() && 0 <= k < n && eligible@[k] && !#[trigger] taken@[k]
                        implies ranks_before(keys@, (#[trigger] picks@[r]) as int, k) by {
                        assert(!taken_before[k]);
                        if r < before.len() {
                            assert(picks@[r] == before[r]);
                        }
                    }
                }
            },
        }
    }
    proof {
        let result = positions(picks@);
        assert forall|k: int|
            0 <= k < keys@.len() && #[trigger] eligible@[k] && !result.contains(k) implies
            result.len() == limit && forall|r: int|
            0 <= r < result.len() ==> ranks_before(keys@, #[trigger] result[r], k) by {
            if taken@[k] {
                let r = choose|r: int| 0 <= r < picks@.len() && #[trigger] picks@[r] == k;
                assert(result[r] == k);
            }
            assert forall|r: int| 0 <= r < result.len() implies ranks_before(
                keys@,
                #[trigger] result[r],
                k,
            ) by {
                assert(result[r] == picks@[r]);
            }
        }
        assert forall|r: int, q: int| 0 <= r < q < result.len() implies ranks_before(
            keys@,
            #[trigger] result[r],
            #[trigger] result[q],
        ) by {
            assert(result[r] == picks@[r] && result[q] == picks@[q]);
        }
    }
    picks
}

// ---------------------------------------------------------------------------
// The statistics of a query.
// ---------------------------------------------------------------------------

/// The store that three tables make.
pub open spec fn tables(
    players: Seq<Player>,
    tracks: Seq<Track>,
    sessions: Seq<Session>,
) -> DatabaseView {
    DatabaseView {
        players: players_view(players),
        tracks: tracks_view(tracks),
        sessions: sessions_view(sessions),
    }
}

/// Listened time of the counted sessions that played the track of row `t`.
pub open spec fn track_total(d: DatabaseView, q: Query, t: int) -> int {
    total_time(d.sessions, on_track(q, d.tracks[t].id), q.current_time)
}

/// Number of the counted sessions that played the track of row `t`.
pub open spec fn track_plays(d: DatabaseView, q: Query, t: int) -> nat {
    pick_count(d.sessions, on_track(q, d.tracks[t].id))
}

/// Listened time of the counted sessions that played a track of the artist
/// of row `t`.
pub open spec fn artist_total(d: DatabaseView, q: Query, t: int) -> int {
    total_time(d.sessions, by_artist(d.tracks, q, d.tracks[t].artist), q.current_time)
}

/// Number of the counted sessions that played a track of the artist of
/// row `t`.
pub open spec fn artist_plays(d: DatabaseView, q: Query, t: int) -> nat {
    pick_count(d.sessions, by_artist(d.tracks, q, d.tracks[t].artist))
}

/// Number of the tracks of `artist`, among the first `n` rows, that a
/// counted session played.
pub open spec fn heard_tracks(d: DatabaseView, q: Query, artist: Seq<char>, n: int) -> nat
    decreases n,
{
    if n <= 0 {
        0
    } else {
        heard_tracks(d, q, artist, n - 1) + if d.tracks[n - 1].artist == artist && track_plays(
            d,
            q,
            n - 1,
        ) >= 1 {
            1nat
        } else {
            0nat
        }
    }
}

/// Whether the statistics of a query can be formed: the sizes of the
/// tables and every sum fit in 64 bits.
pub open spec fn stats_defined(d: DatabaseView, q: Query) -> bool {
    &&& fits_i64(d.sessions.len() as int)
    &&& fits_i64(d.tracks.len() as int)
    &&& total_fits(d.sessions, in_scope(q), q.current_time)
    &&& forall|t: int|
        0 <= t < d.tracks.len() ==> total_fits(
            d.sessions,
            on_track(q, (#[trigger] d.tracks[t]).id),
            q.current_time,
        )
    &&& forall|t: int|
        0 <= t < d.tracks.len() ==> total_fits(
            d.sessions,
            by_artist(d.tracks, q, (#[trigger] d.tracks[t]).artist),
            q.current_time,
        )
}

/// Key of each track in the ranking of tracks: its listened time.
pub open spec fn track_keys(d: DatabaseView, q: Query) -> Seq<i64> {
    Seq::new(d.tracks.len(), |t: int| track_total(d, q, t) as i64)
}

/// The tracks that are ranked: those that a counted session played.
pub open spec fn track_eligible(d: DatabaseView, q: Query) -> Seq<bool> {
    Seq::new(d.tracks.len(), |t: int| track_plays(d, q, t) >= 1)
}

/// The entry of the track of row `t` in the list of top tracks.
pub open spec fn track_entry(d: DatabaseView, q: Query, t: int) -> TrackStatsView {
    TrackStatsView {
        track: d.tracks[t],
        total_listened_time: track_total(d, q, t) as i64,
        play_count: track_plays(d, q, t) as i64,
    }
}

/// Whether `out` is the list of top tracks of a query: the tracks that
/// were played, by listened time, the longest first and of equal times the
/// earlier row first, cut off after `TOP_LIMIT` entries.
pub open spec fn is_top_tracks(d: DatabaseView, q: Query, out: Seq<TrackStatsView>) -> bool {
    exists|picks: Seq<int>|
        {
            &&& #[trigger] is_ranking(
                picks,
                track_keys(d, q),
                track_eligible(d, q),
                TOP_LIMIT as int,
            )
            &&& out.len() == picks.len()
            &&& forall|r: int|
                0 <= r < out.len() ==> #[trigger] out[r] == track_entry(d, q, picks[r])
        }
}

/// Whether no earlier track has the artist of track `t`.
pub open spec fn is_artist_leader(tracks: Seq<TrackView>, t: int) -> bool {
    forall|u: int| 0 <= u < t ==> (#[trigger] tracks[u]).artist != tracks[t].artist
}

/// Key of each row in the ranking of artists: the listened time of the
/// artist of the row.
pub open spec fn artist_keys(d: DatabaseView, q: Query) -> Seq<i64> {
    Seq::new(d.tracks.len(), |t: int| artist_total(d, q, t) as i64)
}

/// The rows that stand for an artist in the ranking of artists: the first
/// row of each artist of whom a counted session played a track.
pub open spec fn artist_eligible(d: DatabaseView, q: Query) -> Seq<bool> {
    Seq::new(
        d.tracks.len(),
        |t: int| is_artist_leader(d.tracks, t) && artist_plays(d, q, t) >= 1,
    )
}

/// The entry of the artist of row `t` in the list of top artists.
pub open spec fn artist_entry(d: DatabaseView, q: Query, t: int) -> ArtistStatsView {
    ArtistStatsView {
        artist: d.tracks[t].artist,
        total_listened_time: artist_total(d, q, t) as i64,
        track_count: heard_tracks(d, q, d.tracks[t].artist, d.tracks.len() as int) as i64,
    }
}

/// Whether `out` is the list of top artists of a query: the artists of
/// whom a track was played, by listened time, the longest first and of
/// equal times the artist whose first track is the earlier row first, cut
/// off after `TOP_LIMIT` entries.
pub open spec fn is_top_artists(d: DatabaseView, q: Query, out: Seq<ArtistStatsView>) -> bool {
    exists|picks: Seq<int>|
        {
            &&& #[trigger] is_ranking(
                picks,
                artist_keys(d, q),
                artist_eligible(d, q),
                TOP_LIMIT as int,
            )
            &&& out.len() == picks.len()
            &&& forall|r: int|
                0 <= r < out.len() ==> #[trigger] out[r] == artist_entry(d, q, picks[r])
        }
}

/// Key of each session in the history: its start.
pub open spec fn history_keys(d: DatabaseView) -> Seq<i64> {
    Seq::new(d.sessions.len(), |j: int| d.sessions[j].start_time)
}

/// Whether a session is listed in the history: it is counted, it counts
/// with more than zero seconds, and its track and its player are stored.
pub open spec fn in_history(d: DatabaseView, q: Query, s: SessionView) -> bool {
    &&& in_scope(q)(s)
    &&& effective_time(s, q.current_time) > 0
    &&& has_track(d.tracks, s.track_id)
    &&& has_player(d.players, s.player_id)
}

/// The sessions that the history lists.
pub open spec fn history_eligible(d: DatabaseView, q: Query) -> Seq<bool> {
    Seq::new(d.sessions.len(), |j: int| in_history(d, q, d.sessions[j]))
}

/// The entry of the session of row `j` in the history: the session with
/// its effective time as listened time, its track and its player.
pub open spec fn history_entry(d: DatabaseView, q: Query, j: int) -> SessionWithMetadataView {
    let s = d.sessions[j];
    SessionWithMetadataView {
        session: SessionView {
            listened_time: Some(effective_time(s, q.current_time) as i64),
            ..s
        },
        track: d.tracks[track_row(d.tracks, s.track_id)],
        player: d.players[player_row(d.players, s.player_id)],
    }
}

/// Whether `out` is the history of a query: the sessions that are listed,
/// the latest start first and of equal starts the earlier row first, cut
/// off after `HISTORY_LIMIT` entries.
pub open spec fn is_history(d: DatabaseView, q: Query, out: Seq<SessionWithMetadataView>) -> bool {
    exists|picks: Seq<int>|
        {
            &&& #[trigger] is_ranking(
                picks,
                history_keys(d),
                history_eligible(d, q),
                HISTORY_LIMIT as int,
            )
            &&& out.len() == picks.len()
            &&& forall|r: int|
                0 <= r < out.len() ==> #[trigger] out[r] == history_entry(d, q, picks[r])
        }
}

/// Whether `stats` are the statistics of a query.
pub open spec fn is_listening_stats(d: DatabaseView, q: Query, stats: ListeningStatsView) -> bool {
    &&& stats.total_listening_time == total_time(d.sessions, in_scope(q), q.current_time)
    &&& is_top_tracks(d, q, stats.top_tracks)
    &&& is_top_artists(d, q, stats.top_artists)
    &&& is_history(d, q, stats.listening_history)
}

// ---------------------------------------------------------------------------
// Facts about sums, joins and artists.
// ---------------------------------------------------------------------------

/// A sum that can be formed row by row can be formed over every prefix.
pub proof fn lemma_total_fits_prefix(
    sessions: Seq<SessionView>,
    pick: spec_fn(SessionView) -> bool,
    current_time: i64,
    n: int,
)
    requires
        total_fits(sessions, pick, current_time),
        0 <= n <= sessions.len(),
    ensures
        total_fits(sessions.take(n), pick, current_time),
    decreases sessions.len(),
{
    if n == sessions.len() {
        assert(sessions.take(n) =~= sessions);
    } else {
        lemma_total_fits_prefix(sessions.drop_last(), pick, current_time, n);
        assert(sessions.drop_last().take(n) =~= sessions.take(n));
    }
}

/// Every term of a sum that can be formed row by row fits.
pub proof fn lemma_total_fits_terms(
    sessions: Seq<SessionView>,
    pick: spec_fn(SessionView) -> bool,
    current_time: i64,
    j: int,
)
    requires
        total_fits(sessions, pick, current_time),
        0 <= j < sessions.len(),
        pick(sessions[j]),
    ensures
        fits_i64(effective_time(sessions[j], current_time)),
    decreases sessions.len(),
{
    if j < sessions.len() - 1 {
        lemma_total_fits_terms(sessions.drop_last(), pick, current_time, j);
    }
}

/// With ids as keys, the track of an id is found in one row only.
pub proof fn lemma_track_row_unique(d: DatabaseView, id: Seq<char>, t: int)
    requires
        database_inv(d),
        0 <= t < d.tracks.len(),
        d.tracks[t].id == id,
    ensures
        has_track(d.tracks, id),
        track_row(d.tracks, id) == t,
{
}

/// With ids as keys, the player of an id is found in one row only.
pub proof fn lemma_player_row_unique(d: DatabaseView, id: i64, p: int)
    requires
        database_inv(d),
        0 <= p < d.players.len(),
        d.players[p].id == id,
    ensures
        has_player(d.players, id),
        player_row(d.players, id) == p,
{
}

/// Two first rows of one artist are one row.
pub proof fn lemma_one_leader_per_artist(tracks: Seq<TrackView>, a: int, b: int)
    requires
        0 <= a < tracks.len(),
        0 <= b < tracks.len(),
        is_artist_leader(tracks, a),
        is_artist_leader(tracks, b),
        tracks[a].artist == tracks[b].artist,
    ensures
        a == b,
{
    if a < b {
        assert(tracks[a].artist != tracks[b].artist);
    }
    if b < a {
        assert(tracks[b].artist != tracks[a].artist);
    }
}

// ---------------------------------------------------------------------------
// Forming the statistics.
// ---------------------------------------------------------------------------

/// `scope` tells of each session whether the query counts it.
spec fn is_scope(scope: Seq<bool>, d: DatabaseView, q: Query) -> bool {
    &&& scope.len() == d.sessions.len()
    &&& forall|j: int| 0 <= j < scope.len() ==> #[trigger] scope[j] == in_scope(q)(d.sessions[j])
}

/// `joins` tells of each session the row of its track, if that is stored.
spec fn is_track_join(joins: Seq<Option<usize>>, d: DatabaseView) -> bool {
    &&& joins.len() == d.sessions.len()
    &&& forall|j: int|
        0 <= j < joins.len() ==> match #[trigger] joins[j] {
            Some(t) => t < d.tracks.len() && has_track(d.tracks, d.sessions[j].track_id)
                && track_row(d.tracks, d.sessions[j].track_id) == t,
            None => !has_track(d.tracks, d.sessions[j].track_id),
        }
}

/// `owners` tells of each session the row of its player, if that is
/// stored.
spec fn is_player_join(owners: Seq<Option<usize>>, d: DatabaseView) -> bool {
    &&& owners.len() == d.sessions.len()
    &&& forall|j: int|
        0 <= j < owners.len() ==> match #[trigger] owners[j] {
            Some(p) => p < d.players.len() && has_player(d.players, d.sessions[j].player_id)
                && player_row(d.players, d.sessions[j].player_id) == p,
            None => !has_player(d.players, d.sessions[j].player_id),
        }
}

/// `lead` tells of each track the first row that has its artist.
spec fn is_leaders(lead: Seq<usize>, tracks: Seq<TrackView>) -> bool {
    &&& lead.len() == tracks.len()
    &&& forall|t: int|
        0 <= t < lead.len() ==> (#[trigger] lead[t]) <= t && tracks[lead[t] as int].artist
            == tracks[t].artist && is_artist_leader(tracks, lead[t] as int)
}

/// `groups` tells of each session the first row of the artist of its
/// track, if that is stored.
spec fn is_artist_join(
    groups: Seq<Option<usize>>,
    joins: Seq<Option<usize>>,
    lead: Seq<usize>,
) -> bool {
    &&& groups.len() == joins.len()
    &&& forall|j: int|
        0 <= j < groups.len() ==> #[trigger] groups[j] == match joins[j] {
            Some(u) => Some(lead[u as int]),
            None => None::<usize>,
        }
}

/// `plays` tells of each track the number of its plays.
spec fn is_track_plays(plays: Seq<i64>, d: DatabaseView, q: Query) -> bool {
    &&& plays.len() == d.tracks.len()
    &&& forall|t: int| 0 <= t < plays.len() ==> #[trigger] plays[t] == track_plays(d, q, t)
}

/// `totals` tells of each track its listened time.
spec fn is_track_totals(totals: Seq<i64>, d: DatabaseView, q: Query) -> bool {
    &&& totals.len() == d.tracks.len()
    &&& forall|t: int| 0 <= t < totals.len() ==> #[trigger] totals[t] == track_total(d, q, t)
}

/// `plays` tells of each row the number of plays of its artist.
spec fn is_artist_plays(plays: Seq<i64>, d: DatabaseView, q: Query) -> bool {
    &&& plays.len() == d.tracks.len()
    &&& forall|t: int| 0 <= t < plays.len() ==> #[trigger] plays[t] == artist_plays(d, q, t)
}

/// `totals` tells of each row the listened time of its artist.
spec fn is_artist_totals(totals: Seq<i64>, d: DatabaseView, q: Query) -> bool {
    &&& totals.len() == d.tracks.len()
    &&& forall|t: int| 0 <= t < totals.len() ==> #[trigger] totals[t] == artist_total(d, q, t)
}

/// `heard` tells of each row the number of tracks of its artist that were
/// played.
spec fn is_artist_heard(heard: Seq<i64>, d: DatabaseView, q: Query) -> bool {
    &&& heard.len() == d.tracks.len()
    &&& forall|t: int|
        0 <= t < heard.len() ==> #[trigger] heard[t] == heard_tracks(
            d,
            q,
            d.tracks[t].artist,
            d.tracks.len() as int,
        )
}

/// Whether the sums of every track can be formed.
spec fn track_sums_fit(d: DatabaseView, q: Query, n: int) -> bool {
    forall|t: int|
        0 <= t < n ==> total_fits(
            d.sessions,
            on_track(q, (#[trigger] d.tracks[t]).id),
            q.current_time,
        )
}

/// Whether the sums of the artist of every row can be formed.
spec fn artist_sums_fit(d: DatabaseView, q: Query, n: int) -> bool {
    forall|t: int|
        0 <= t < n ==> total_fits(
            d.sessions,
            by_artist(d.tracks, q, (#[trigger] d.tracks[t]).artist),
            q.current_time,
        )
}

/// The listened time that `session` counts with, `None` where it does not
/// fit.
fn effective_of(session: &Session, active: &String, current_time: i64) -> (r: Option<i64>)
    requires
        active@ == STATUS_ACTIVE@,
    ensures
        r is Some <==> fits_i64(effective_time(session@, current_time)),
        r matches Some(t) ==> t == effective_time(session@, current_time),
{
    if row_is_active(session, active) {
        listened_of(session, current_time)
    } else {
        match session.listened_time {
            Some(t) => Some(t),
            None => Some(0),
        }
    }
}

/// Whether the query counts `session`.
fn scope_holds(session: &Session, active: &String, q: Query) -> (r: bool)
    requires
        active@ == STATUS_ACTIVE@,
    ensures
        r == in_scope(q)(session@),
{
    let open = row_is_active(session, active);
    let counted = open || session.listened_time.is_some();
    let after_start = match q.start {
        Some(a) => a <= session.start_time || (open && a <= q.current_time),
        None => true,
    };
    let before_end = match q.end {
        Some(b) => session.start_time < b,
        None => true,
    };
    counted && after_start && before_end
}

/// For each session, whether the query counts it.
fn scope_mask(
    sessions: &Vec<Session>,
    active: &String,
    q: Query,
    Ghost(d): Ghost<DatabaseView>,
) -> (mask: Vec<bool>)
    requires
        active@ == STATUS_ACTIVE@,
        d.sessions == sessions_view(sessions@),
    ensures
        is_scope(mask@, d, q),
{
    let mut mask: Vec<bool> = Vec::new();
    let mut j: usize = 0;
    while j < sessions.len()
        invariant
            active@ == STATUS_ACTIVE@,
            d.sessions == sessions_view(sessions@),
            j <= sessions.len(),
            mask@.len() == j,
            forall|i: int| 0 <= i < j ==> #[trigger] mask@[i] == in_scope(q)(d.sessions[i]),
        decreases sessions.len() - j,
    {
        mask.push(scope_holds(&sessions[j], active, q));
        j += 1;
    }
    mask
}

/// Sum of the effective times, and number, of the sessions that `mask`
/// marks; `None` where the sum cannot be formed row by row in 64 bits.
fn sum_picked(
    sessions: &Vec<Session>,
    mask: &Vec<bool>,
    active: &String,
    current_time: i64,
    Ghost(pick): Ghost<spec_fn(SessionView) -> bool>,
) -> (r: Option<(i64, i64)>)
    requires
        active@ == STATUS_ACTIVE@,
        mask@.len() == sessions@.len(),
        fits_i64(sessions@.len() as int),
        forall|j: int| 0 <= j < mask@.len() ==> #[trigger] mask@[j] == pick(sessions@[j]@),
    ensures
        r is Some <==> total_fits(sessions_view(sessions@), pick, current_time),
        r matches Some((sum, count)) ==> (sum == total_time(
            sessions_view(sessions@),
            pick,
            current_time,
        ) && count == pick_count(sessions_view(sessions@), pick)),
{
    let ghost rows = sessions_view(sessions@);
    let mut sum: i64 = 0;
    let mut count: i64 = 0;
    let mut j: usize = 0;
    proof {
        assert(rows.take(0) =~= Seq::empty());
    }
    while j < sessions.len()
        invariant
            active@ == STATUS_ACTIVE@,
            rows == sessions_view(sessions@),
            mask@.len() == sessions@.len(),
            fits_i64(sessions@.len() as int),
            forall|i: int| 0 <= i < mask@.len() ==> #[trigger] mask@[i] == pick(sessions@[i]@),
            j <= sessions.len(),
            total_fits(rows.take(j as int), pick, current_time),
            sum == total_time(rows.take(j as int), pick, current_time),
            count == pick_count(rows.take(j as int), pick),
            0 <= count <= j,
        decreases sessions.len() - j,
    {
        proof {
            assert(rows.take(j + 1).drop_last() =~= rows.take(j as int));
            assert(rows.take(j + 1).last() == sessions@[j as int]@);
            if total_fits(rows, pick, current_time) {
                lemma_total_fits_prefix(rows, pick, current_time, j + 1);
            }
        }
        if mask[j] {
            let term = match effective_of(&sessions[j], active, current_time) {
                Some(term) => term,
                None => {
                    return None;
                },
            };
            sum = match sum.checked_add(term) {
                Some(sum) => sum,
                None => {
                    return None;
                },
            };
            count += 1;
        }
        j += 1;
    }
    proof {
        assert(rows.take(j as int) =~= rows);
    }
    Some((sum, count))
}

/// For each session, the row of its track, if that is stored.
fn track_joins(
    sessions: &Vec<Session>,
    tracks: &Vec<Track>,
    Ghost(d): Ghost<DatabaseView>,
) -> (rows: Vec<Option<usize>>)
    requires
        database_inv(d),
        d.tracks == tracks_view(tracks@),
        d.sessions == sessions_view(sessions@),
    ensures
        is_track_join(rows@, d),
{
    let mut rows: Vec<Option<usize>> = Vec::new();
    let mut j: usize = 0;
    while j < sessions.len()
        invariant
            database_inv(d),
            d.tracks == tracks_view(tracks@),
            d.sessions == sessions_view(sessions@),
            j <= sessions.len(),
            rows@.len() == j,
            forall|i: int|
                0 <= i < j ==> match #[trigger] rows@[i] {
                    Some(t) => t < d.tracks.len() && has_track(d.tracks, d.sessions[i].track_id)
                        && track_row(d.tracks, d.sessions[i].track_id) == t,
                    None => !has_track(d.tracks, d.sessions[i].track_id),
                },
        decreases sessions.len() - j,
    {
        let mut found: Option<usize> = None;
        let mut t: usize = 0;
        while t < tracks.len() && found.is_none()
            invariant
                database_inv(d),
                d.tracks == tracks_view(tracks@),
                d.sessions == sessions_view(sessions@),
                j < sessions.len(),
                t <= tracks.len(),
                match found {
                    Some(u) => u < d.tracks.len() && has_track(
                        d.tracks,
                        d.sessions[j as int].track_id,
                    ) && track_row(d.tracks, d.sessions[j as int].track_id) == u,
                    None => forall|u: int|
                        0 <= u < t ==> (#[trigger] d.tracks[u]).id != d.sessions[j as int].track_id,
                },
            decreases tracks.len() - t + (if found is None { 1int } else { 0int }),
        {
            if tracks[t].id == sessions[j].track_id {
                proof {
                    lemma_track_row_unique(d, d.sessions[j as int].track_id, t as int);
                }
                found = Some(t);
            } else {
                t += 1;
            }
        }
        rows.push(found);
        j += 1;
    }
    rows
}

/// For each session, the row of its player, if that is stored.
fn player_joins(
    sessions: &Vec<Session>,
    players: &Vec<Player>,
    Ghost(d): Ghost<DatabaseView>,
) -> (rows: Vec<Option<usize>>)
    requires
        database_inv(d),
        d.players == players_view(players@),
        d.sessions == sessions_view(sessions@),
    ensures
        is_player_join(rows@, d),
{
    let mut rows: Vec<Option<usize>> = Vec::new();
    let mut j: usize = 0;
    while j < sessions.len()
        invariant
            database_inv(d),
            d.players == players_view(players@),
            d.sessions == sessions_view(sessions@),
            j <= sessions.len(),
            rows@.len() == j,
            forall|i: int|
                0 <= i < j ==> match #[trigger] rows@[i] {
                    Some(p) => p < d.players.len() && has_player(
                        d.players,
                        d.sessions[i].player_id,
                    ) && player_row(d.players, d.sessions[i].player_id) == p,
                    None => !has_player(d.players, d.sessions[i].player_id),
                },
        decreases sessions.len() - j,
    {
        let mut found: Option<usize> = None;
        let mut p: usize = 0;
        while p < players.len() && found.is_none()
            invariant
                database_inv(d),
                d.players == players_view(players@),
                d.sessions == sessions_view(sessions@),
                j < sessions.len(),
                p <= players.len(),
                match found {
                    Some(u) => u < d.players.len() && has_player(
                        d.players,
                        d.sessions[j as int].player_id,
                    ) && player_row(d.players, d.sessions[j as int].player_id) == u,
                    None => forall|u: int|
                        0 <= u < p ==> (#[trigger] d.players[u]).id
                            != d.sessions[j as int].player_id,
                },
            decreases players.len() - p + (if found is None { 1int } else { 0int }),
        {
            if players[p].id == sessions[j].player_id {
                proof {
                    lemma_player_row_unique(d, d.sessions[j as int].player_id, p as int);
                }
                found = Some(p);
            } else {
                p += 1;
            }
        }
        rows.push(found);
        j += 1;
    }
    rows
}

/// For each track, the first row that has its artist.
fn artist_leaders(tracks: &Vec<Track>) -> (lead: Vec<usize>)
    ensures
        is_leaders(lead@, tracks_view(tracks@)),
{
    let ghost table = tracks_view(tracks@);
    let mut lead: Vec<usize> = Vec::new();
    let mut t: usize = 0;
    while t < tracks.len()
        invariant
            table == tracks_view(tracks@),
            t <= tracks.len(),
            lead@.len() == t,
            forall|i: int|
                0 <= i < t ==> (#[trigger] lead@[i]) <= i && table[lead@[i] as int].artist
                    == table[i].artist && is_artist_leader(table, lead@[i] as int),
        decreases tracks.len() - t,
    {
        let mut u: usize = 0;
        while u < t && !(tracks[u].artist == tracks[t].artist)
            invariant
                table == tracks_view(tracks@),
                t < tracks.len(),
                u <= t,
                forall|i: int|
                    0 <= i < u ==> (#[trigger] table[i]).artist != table[t as int].artist,
            decreases t - u,
        {
            u += 1;
        }
        proof {
            assert(table[u as int].artist == table[t as int].artist);
            assert(is_artist_leader(table, u as int));
        }
        lead.push(u);
        t += 1;
    }
    lead
}

/// For each session, the first row of the artist of its track.
fn artist_groups(
    joins: &Vec<Option<usize>>,
    lead: &Vec<usize>,
    Ghost(d): Ghost<DatabaseView>,
) -> (groups: Vec<Option<usize>>)
    requires
        is_track_join(joins@, d),
        is_leaders(lead@, d.tracks),
    ensures
        is_artist_join(groups@, joins@, lead@),
{
    let mut groups: Vec<Option<usize>> = Vec::new();
    let mut j: usize = 0;
    while j < joins.len()
        invariant
            is_track_join(joins@, d),
            is_leaders(lead@, d.tracks),
            j <= joins.len(),
            groups@.len() == j,
            forall|i: int|
                0 <= i < j ==> #[trigger] groups@[i] == match joins@[i] {
                    Some(u) => Some(lead@[u as int]),
                    None => None::<usize>,
                },
        decreases joins.len() - j,
    {
        let g = match joins[j] {
            Some(u) => Some(lead[u]),
            None => None,
        };
        groups.push(g);
        j += 1;
    }
    groups
}

/// For each session, whether it is counted and belongs to group `wanted`.
fn mask_where(scope: &Vec<bool>, group: &Vec<Option<usize>>, wanted: usize) -> (mask: Vec<bool>)
    requires
        scope@.len() == group@.len(),
    ensures
        mask@.len() == scope@.len(),
        forall|j: int|
            0 <= j < mask@.len() ==> #[trigger] mask@[j] == (scope@[j] && group@[j] == Some(
                wanted,
            )),
{
    let mut mask: Vec<bool> = Vec::new();
    let mut j: usize = 0;
    while j < scope.len()
        invariant
            scope@.len() == group@.len(),
            j <= scope.len(),
            mask@.len() == j,
            forall|i: int|
                0 <= i < j ==> #[trigger] mask@[i] == (scope@[i] && group@[i] == Some(wanted)),
        decreases scope.len() - j,
    {
        let hit = match group[j] {
            Some(g) => g == wanted,
            None => false,
        };
        mask.push(scope[j] && hit);
        j += 1;
    }
    mask
}

/// Listened time and number of plays of each track; `None` where a sum
/// cannot be formed.
fn track_summaries(
    sessions: &Vec<Session>,
    tracks: &Vec<Track>,
    scope: &Vec<bool>,
    joins: &Vec<Option<usize>>,
    active: &String,
    q: Query,
    Ghost(d): Ghost<DatabaseView>,
) -> (r: Option<(Vec<i64>, Vec<i64>)>)
    requires
        active@ == STATUS_ACTIVE@,
        database_inv(d),
        d.tracks == tracks_view(tracks@),
        d.sessions == sessions_view(sessions@),
        fits_i64(sessions@.len() as int),
        is_scope(scope@, d, q),
        is_track_join(joins@, d),
    ensures
        r is Some <==> track_sums_fit(d, q, d.tracks.len() as int),
        r matches Some((totals, plays)) ==> is_track_totals(totals@, d, q),
        r matches Some((totals, plays)) ==> is_track_plays(plays@, d, q),
{
    let mut totals: Vec<i64> = Vec::new();
    let mut plays: Vec<i64> = Vec::new();
    let mut t: usize = 0;
    while t < tracks.len()
        invariant
            active@ == STATUS_ACTIVE@,
            database_inv(d),
            d.tracks == tracks_view(tracks@),
            d.sessions == sessions_view(sessions@),
            fits_i64(sessions@.len() as int),
            is_scope(scope@, d, q),
            is_track_join(joins@, d),
            t <= tracks.len(),
            totals@.len() == t,
            plays@.len() == t,
            track_sums_fit(d, q, t as int),
            forall|u: int| 0 <= u < t ==> #[trigger] totals@[u] == track_total(d, q, u),
            forall|u: int| 0 <= u < t ==> #[trigger] plays@[u] == track_plays(d, q, u),
        decreases tracks.len() - t,
    {
        let mask = mask_where(scope, joins, t);
        let ghost pick = on_track(q, d.tracks[t as int].id);
        proof {
            assert forall|j: int| 0 <= j < mask@.len() implies #[trigger] mask@[j] == pick(
                sessions@[j]@,
            ) by {
                let s = d.sessions[j];
                assert(scope@[j] == in_scope(q)(s));
                if s.track_id == d.tracks[t as int].id {
                    lemma_track_row_unique(d, s.track_id, t as int);
                }
                match joins@[j] {
                    Some(u) => {
                        assert(d.tracks[u as int].id == s.track_id);
                    },
                    None => {},
                }
            }
        }
        match sum_picked(sessions, &mask, active, q.current_time, Ghost(pick)) {
            Some((sum, count)) => {
                totals.push(sum);
                plays.push(count);
            },
            None => {
                return None;
            },
        }
        t += 1;
    }
    Some((totals, plays))
}

/// Number of the tracks of the artist of row `t` that were played.
fn count_heard(
    lead: &Vec<usize>,
    plays: &Vec<i64>,
    t: usize,
    Ghost(d): Ghost<DatabaseView>,
    Ghost(q): Ghost<Query>,
) -> (n: i64)
    requires
        is_leaders(lead@, d.tracks),
        is_track_plays(plays@, d, q),
        fits_i64(d.tracks.len() as int),
        t < d.tracks.len(),
        lead@[t as int] == t,
    ensures
        n == heard_tracks(d, q, d.tracks[t as int].artist, d.tracks.len() as int),
{
    let mut n: i64 = 0;
    let mut u: usize = 0;
    while u < lead.len()
        invariant
            is_leaders(lead@, d.tracks),
            is_track_plays(plays@, d, q),
            fits_i64(d.tracks.len() as int),
            t < d.tracks.len(),
            lead@[t as int] == t,
            u <= lead.len(),
            0 <= n <= u,
            n == heard_tracks(d, q, d.tracks[t as int].artist, u as int),
        decreases lead.len() - u,
    {
        proof {
            let l = lead@[u as int] as int;
            assert(is_artist_leader(d.tracks, lead@[t as int] as int));
            if d.tracks[u as int].artist == d.tracks[t as int].artist {
                lemma_one_leader_per_artist(d.tracks, l, t as int);
            }
        }
        if lead[u] == t && plays[u] >= 1 {
            n += 1;
        }
        u += 1;
    }
    n
}

/// Listened time, number of plays and number of tracks heard of the artist
/// of each track; `None` where a sum cannot be formed.
fn artist_summaries(
    sessions: &Vec<Session>,
    tracks: &Vec<Track>,
    scope: &Vec<bool>,
    joins: &Vec<Option<usize>>,
    lead: &Vec<usize>,
    plays: &Vec<i64>,
    active: &String,
    q: Query,
    Ghost(d): Ghost<DatabaseView>,
) -> (r: Option<(Vec<i64>, Vec<i64>, Vec<i64>)>)
    requires
        active@ == STATUS_ACTIVE@,
        database_inv(d),
        d.tracks == tracks_view(tracks@),
        d.sessions == sessions_view(sessions@),
        fits_i64(sessions@.len() as int),
        fits_i64(tracks@.len() as int),
        is_scope(scope@, d, q),
        is_track_join(joins@, d),
        is_leaders(lead@, d.tracks),
        is_track_plays(plays@, d, q),
    ensures
        r is Some <==> artist_sums_fit(d, q, d.tracks.len() as int),
        r matches Some((totals, counts, heard)) ==> is_artist_totals(totals@, d, q),
        r matches Some((totals, counts, heard)) ==> is_artist_plays(counts@, d, q),
        r matches Some((totals, counts, heard)) ==> is_artist_heard(heard@, d, q),
{
    let groups = artist_groups(joins, lead, Ghost(d));
    let mut totals: Vec<i64> = Vec::new();
    let mut counts: Vec<i64> = Vec::new();
    let mut heard: Vec<i64> = Vec::new();
    let mut t: usize = 0;
    while t < tracks.len()
        invariant
            active@ == STATUS_ACTIVE@,
            database_inv(d),
            d.tracks == tracks_view(tracks@),
            d.sessions == sessions_view(sessions@),
            fits_i64(sessions@.len() as int),
            fits_i64(tracks@.len() as int),
            is_scope(scope@, d, q),
            is_track_join(joins@, d),
            is_leaders(lead@, d.tracks),
            is_track_plays(plays@, d, q),
            is_artist_join(groups@, joins@, lead@),
            t <= tracks.len(),
            totals@.len() == t,
            counts@.len() == t,
            heard@.len() == t,
            artist_sums_fit(d, q, t as int),
            forall|u: int| 0 <= u < t ==> #[trigger] totals@[u] == artist_total(d, q, u),
            forall|u: int| 0 <= u < t ==> #[trigger] counts@[u] == artist_plays(d, q, u),
            forall|u: int|
                0 <= u < t ==> #[trigger] heard@[u] == heard_tracks(
                    d,
                    q,
                    d.tracks[u].artist,
                    d.tracks.len() as int,
                ),
        decreases tracks.len() - t,
    {
        let first = lead[t];
        if first == t {
            let mask = mask_where(scope, &groups, t);
            let ghost pick = by_artist(d.tracks, q, d.tracks[t as int].artist);
            proof {
                assert forall|j: int| 0 <= j < mask@.len() implies #[trigger] mask@[j] == pick(
                    sessions@[j]@,
                ) by {
                    let s = d.sessions[j];
                    assert(scope@[j] == in_scope(q)(s));
                    assert(is_artist_leader(d.tracks, lead@[t as int] as int));
                    match joins@[j] {
                        Some(u) => {
                            let l = lead@[u as int] as int;
                            assert(groups@[j] == Some(lead@[u as int]));
                            if d.tracks[u as int].artist == d.tracks[t as int].artist {
                                lemma_one_leader_per_artist(d.tracks, l, t as int);
                            }
                        },
                        None => {
                            assert(groups@[j] == None::<usize>);
                        },
                    }
                }
            }
            match sum_picked(sessions, &mask, active, q.current_time, Ghost(pick)) {
                Some((sum, count)) => {
                    let n = count_heard(lead, plays, t, Ghost(d), Ghost(q));
                    totals.push(sum);
                    counts.push(count);
                    heard.push(n);
                },
                None => {
                    return None;
                },
            }
        } else {
            assert(d.tracks[first as int].artist == d.tracks[t as int].artist);
            let sum = totals[first];
            let count = counts[first];
            let n = heard[first];
            totals.push(sum);
            counts.push(count);
            heard.push(n);
        }
        t += 1;
    }
    Some((totals, counts, heard))
}

/// The list of top tracks.
fn top_tracks_of(
    tracks: &Vec<Track>,
    totals: &Vec<i64>,
    plays: &Vec<i64>,
    Ghost(d): Ghost<DatabaseView>,
    Ghost(q): Ghost<Query>,
) -> (out: Vec<TrackStats>)
    requires
        d.tracks == tracks_view(tracks@),
        is_track_totals(totals@, d, q),
        is_track_plays(plays@, d, q),
    ensures
        is_top_tracks(d, q, track_stats_view(out@)),
{
    let mut played: Vec<bool> = Vec::new();
    let mut t: usize = 0;
    while t < plays.len()
        invariant
            t <= plays.len(),
            played@.len() == t,
            forall|u: int| 0 <= u < t ==> #[trigger] played@[u] == (plays@[u] >= 1),
        decreases plays.len() - t,
    {
        played.push(plays[t] >= 1);
        t += 1;
    }
    let picks = top_indices(totals, &played, TOP_LIMIT);
    let ghost ranking = positions(picks@);
    proof {
        assert(totals@ =~= track_keys(d, q));
        assert(played@ =~= track_eligible(d, q));
        assert forall|r: int| 0 <= r < picks@.len() implies (#[trigger] picks@[r])
            < tracks@.len() by {
            assert(0 <= ranking[r] < totals@.len());
        }
    }
    let mut out: Vec<TrackStats> = Vec::new();
    let mut r: usize = 0;
    while r < picks.len()
        invariant
            d.tracks == tracks_view(tracks@),
            is_track_totals(totals@, d, q),
            is_track_plays(plays@, d, q),
            forall|k: int| 0 <= k < picks@.len() ==> (#[trigger] picks@[k]) < tracks@.len(),
            r <= picks.len(),
            out@.len() == r,
            forall|k: int|
                0 <= k < r ==> (#[trigger] out@[k])@ == track_entry(d, q, picks@[k] as int),
        decreases picks.len() - r,
    {
        let t = picks[r];
        out.push(
            TrackStats {
                track: tracks[t].clone(),
                total_listened_time: totals[t],
                play_count: plays[t],
            },
        );
        r += 1;
    }
    proof {
        let list = track_stats_view(out@);
        assert forall|k: int| 0 <= k < list.len() implies #[trigger] list[k] == track_entry(
            d,
            q,
            ranking[k],
        ) by {
            assert(list[k] == out@[k]@);
        }
        assert(is_ranking(ranking, track_keys(d, q), track_eligible(d, q), TOP_LIMIT as int));
    }
    out
}

/// The list of top artists.
fn top_artists_of(
    tracks: &Vec<Track>,
    lead: &Vec<usize>,
    totals: &Vec<i64>,
    counts: &Vec<i64>,
    heard: &Vec<i64>,
    Ghost(d): Ghost<DatabaseView>,
    Ghost(q): Ghost<Query>,
) -> (out: Vec<ArtistStats>)
    requires
        d.tracks == tracks_view(tracks@),
        is_leaders(lead@, d.tracks),
        is_artist_totals(totals@, d, q),
        is_artist_plays(counts@, d, q),
        is_artist_heard(heard@, d, q),
    ensures
        is_top_artists(d, q, artist_stats_view(out@)),
{
    let mut ranked: Vec<bool> = Vec::new();
    let mut t: usize = 0;
    while t < tracks.len()
        invariant
            d.tracks == tracks_view(tracks@),
            is_leaders(lead@, d.tracks),
            is_artist_plays(counts@, d, q),
            t <= tracks.len(),
            ranked@.len() == t,
            forall|u: int|
                0 <= u < t ==> #[trigger] ranked@[u] == (is_artist_leader(d.tracks, u)
                    && artist_plays(d, q, u) >= 1),
        decreases tracks.len() - t,
    {
        proof {
            let l = lead@[t as int] as int;
            if is_artist_leader(d.tracks, t as int) {
                lemma_one_leader_per_artist(d.tracks, l, t as int);
            }
            assert(counts@[t as int] == artist_plays(d, q, t as int));
        }
        ranked.push(lead[t] == t && counts[t] >= 1);
        t += 1;
    }
    let picks = top_indices(totals, &ranked, TOP_LIMIT);
    let ghost ranking = positions(picks@);
    proof {
        assert(totals@ =~= artist_keys(d, q));
        assert(ranked@ =~= artist_eligible(d, q));
        assert forall|r: int| 0 <= r < picks@.len() implies (#[trigger] picks@[r])
            < tracks@.len() by {
            assert(0 <= ranking[r] < totals@.len());
        }
    }
    let mut out: Vec<ArtistStats> = Vec::new();
    let mut r: usize = 0;
    while r < picks.len()
        invariant
            d.tracks == tracks_view(tracks@),
            is_artist_totals(totals@, d, q),
            is_artist_heard(heard@, d, q),
            forall|k: int| 0 <= k < picks@.len() ==> (#[trigger] picks@[k]) < tracks@.len(),
            r <= picks.len(),
            out@.len() == r,
            forall|k: int|
                0 <= k < r ==> (#[trigger] out@[k])@ == artist_entry(d, q, picks@[k] as int),
        decreases picks.len() - r,
    {
        let t = picks[r];
        out.push(
            ArtistStats {
                artist: tracks[t].artist.clone(),
                total_listened_time: totals[t],
                track_count: heard[t],
            },
        );
        r += 1;
    }
    proof {
        let list = artist_stats_view(out@);
        assert forall|k: int| 0 <= k < list.len() implies #[trigger] list[k] == artist_entry(
            d,
            q,
            ranking[k],
        ) by {
            assert(list[k] == out@[k]@);
        }
        assert(is_ranking(ranking, artist_keys(d, q), artist_eligible(d, q), TOP_LIMIT as int));
    }
    out
}

/// `times` tells of each session that the history lists what it counts
/// with, and `listed` which sessions those are.
spec fn is_history_terms(times: Seq<i64>, listed: Seq<bool>, d: DatabaseView, q: Query) -> bool {
    &&& times.len() == d.sessions.len()
    &&& listed.len() == d.sessions.len()
    &&& forall|j: int|
        0 <= j < listed.len() ==> #[trigger] listed[j] == in_history(d, q, d.sessions[j])
    &&& forall|j: int|
        0 <= j < times.len() && listed[j] ==> #[trigger] times[j] == effective_time(
            d.sessions[j],
            q.current_time,
        )
}

/// The listening history.
fn history_of(
    players: &Vec<Player>,
    tracks: &Vec<Track>,
    sessions: &Vec<Session>,
    scope: &Vec<bool>,
    joins: &Vec<Option<usize>>,
    active: &String,
    q: Query,
    Ghost(d): Ghost<DatabaseView>,
) -> (out: Vec<SessionWithMetadata>)
    requires
        active@ == STATUS_ACTIVE@,
        database_inv(d),
        d == tables(players@, tracks@, sessions@),
        total_fits(d.sessions, in_scope(q), q.current_time),
        is_scope(scope@, d, q),
        is_track_join(joins@, d),
    ensures
        is_history(d, q, history_view(out@)),
{
    let owners = player_joins(sessions, players, Ghost(d));
    let mut starts: Vec<i64> = Vec::new();
    let mut times: Vec<i64> = Vec::new();
    let mut listed: Vec<bool> = Vec::new();
    let mut j: usize = 0;
    while j < sessions.len()
        invariant
            active@ == STATUS_ACTIVE@,
            d == tables(players@, tracks@, sessions@),
            total_fits(d.sessions, in_scope(q), q.current_time),
            is_scope(scope@, d, q),
            is_track_join(joins@, d),
            is_player_join(owners@, d),
            j <= sessions.len(),
            starts@.len() == j,
            times@.len() == j,
            listed@.len() == j,
            forall|i: int| 0 <= i < j ==> #[trigger] starts@[i] == d.sessions[i].start_time,
            forall|i: int| 0 <= i < j ==> #[trigger] listed@[i] == in_history(d, q, d.sessions[i]),
            forall|i: int|
                0 <= i < j && listed@[i] ==> #[trigger] times@[i] == effective_time(
                    d.sessions[i],
                    q.current_time,
                ),
        decreases sessions.len() - j,
    {
        let session = &sessions[j];
        let mut time: i64 = 0;
        let mut show = false;
        if scope[j] {
            proof {
                assert(d.sessions[j as int] == sessions@[j as int]@);
                lemma_total_fits_terms(d.sessions, in_scope(q), q.current_time, j as int);
            }
            match effective_of(session, active, q.current_time) {
                Some(t) => {
                    time = t;
                    show = t > 0 && joins[j].is_some() && owners[j].is_some();
                },
                None => {},
            }
        }
        starts.push(session.start_time);
        times.push(time);
        listed.push(show);
        j += 1;
    }
    let picks = top_indices(&starts, &listed, HISTORY_LIMIT);
    let ghost ranking = positions(picks@);
    proof {
        assert(starts@ =~= history_keys(d));
        assert(listed@ =~= history_eligible(d, q));
        assert forall|r: int| 0 <= r < picks@.len() implies (#[trigger] picks@[r])
            < sessions@.len() && listed@[picks@[r] as int] by {
            assert(0 <= ranking[r] < starts@.len());
            assert(listed@[ranking[r]]);
        }
    }
    let mut out: Vec<SessionWithMetadata> = Vec::new();
    let mut r: usize = 0;
    while r < picks.len()
        invariant
            d == tables(players@, tracks@, sessions@),
            is_track_join(joins@, d),
            is_player_join(owners@, d),
            is_history_terms(times@, listed@, d, q),
            forall|k: int|
                0 <= k < picks@.len() ==> (#[trigger] picks@[k]) < sessions@.len()
                    && listed@[picks@[k] as int],
            r <= picks.len(),
            out@.len() == r,
            forall|k: int|
                0 <= k < r ==> (#[trigger] out@[k])@ == history_entry(d, q, picks@[k] as int),
        decreases picks.len() - r,
    {
        let j = picks[r];
        proof {
            assert(listed@[j as int]);
            assert(in_history(d, q, d.sessions[j as int]));
            assert(joins@[j as int] is Some && owners@[j as int] is Some);
        }
        match (joins[j], owners[j]) {
            (Some(t), Some(p)) => {
                let mut session = sessions[j].clone();
                session.listened_time = Some(times[j]);
                out.push(
                    SessionWithMetadata {
                        session,
                        track: tracks[t].clone(),
                        player: players[p].clone(),
                    },
                );
            },
            _ => {},
        }
        r += 1;
    }
    proof {
        let list = history_view(out@);
        assert forall|k: int| 0 <= k < list.len() implies #[trigger] list[k] == history_entry(
            d,
            q,
            ranking[k],
        ) by {
            assert(list[k] == out@[k]@);
        }
        assert(is_ranking(ranking, history_keys(d), history_eligible(d, q), HISTORY_LIMIT as int));
    }
    out
}

/// The statistics of the sessions in three tables for the window from
/// `start_time` to `end_time`, as of `current_time`: the total listened
/// time, the top tracks, the top artists and the history. Refused where
/// the size of a table or a sum, formed row by row, does not fit in 64
/// bits.
pub fn listening_stats(
    players: &Vec<Player>,
    tracks: &Vec<Track>,
    sessions: &Vec<Session>,
    start_time: Option<i64>,
    end_time: Option<i64>,
    current_time: i64,
) -> (r: Result<ListeningStats, DatabaseError>)
    requires
        database_inv(tables(players@, tracks@, sessions@)),
    ensures
        r is Ok <==> stats_defined(
            tables(players@, tracks@, sessions@),
            Query { start: start_time, end: end_time, current_time },
        ),
        r matches Ok(stats) ==> is_listening_stats(
            tables(players@, tracks@, sessions@),
            Query { start: start_time, end: end_time, current_time },
            stats@,
        ),
        r is Err ==> r == Err::<ListeningStats, DatabaseError>(DatabaseError::Overflow),
{
    let ghost d = tables(players@, tracks@, sessions@);
    let q = Query { start: start_time, end: end_time, current_time };
    let active = String::from_str(STATUS_ACTIVE);
    if count_of(sessions.len()).is_none() || count_of(tracks.len()).is_none() {
        return Err(DatabaseError::Overflow);
    }
    let scope = scope_mask(sessions, &active, q, Ghost(d));
    let total = match sum_picked(sessions, &scope, &active, current_time, Ghost(in_scope(q))) {
        Some((sum, _)) => sum,
        None => {
            return Err(DatabaseError::Overflow);
        },
    };
    let joins = track_joins(sessions, tracks, Ghost(d));
    let (track_totals, track_counts) = match track_summaries(
        sessions,
        tracks,
        &scope,
        &joins,
        &active,
        q,
        Ghost(d),
    ) {
        Some(summary) => summary,
        None => {
            return Err(DatabaseError::Overflow);
        },
    };
    let lead = artist_leaders(tracks);
    let (artist_totals, artist_counts, artist_heard) = match artist_summaries(
        sessions,
        tracks,
        &scope,
        &joins,
        &lead,
        &track_counts,
        &active,
        q,
        Ghost(d),
    ) {
        Some(summary) => summary,
        None => {
            return Err(DatabaseError::Overflow);
        },
    };
    let top_tracks = top_tracks_of(tracks, &track_totals, &track_counts, Ghost(d), Ghost(q));
    let top_artists = top_artists_of(
        tracks,
        &lead,
        &artist_totals,
        &artist_counts,
        &artist_heard,
        Ghost(d),
        Ghost(q),
    );
    let listening_history = history_of(
        players,
        tracks,
        sessions,
        &scope,
        &joins,
        &active,
        q,
        Ghost(d),
    );
    Ok(ListeningStats { total_listening_time: total, top_tracks, top_artists, listening_history })
}

/// Key of each entry of a list of tracks in the ranking by plays.
pub open spec fn play_counts(tracks: Seq<TrackStatsView>) -> Seq<i64> {
    Seq::new(tracks.len(), |i: int| tracks[i].play_count)
}

/// A ranking in which every position is eligible.
pub open spec fn all_eligible(n: nat) -> Seq<bool> {
    Seq::new(n, |i: int| true)
}

/// The entries of `tracks` by number of plays, the most played first and
/// of equal numbers the earlier entry first, cut off after `limit` entries.
pub fn top_by_play_count(tracks: &Vec<TrackStats>, limit: usize) -> (out: Vec<TrackStats>)
    ensures
        exists|picks: Seq<int>|
            {
                &&& #[trigger] is_ranking(
                    picks,
                    play_counts(track_stats_view(tracks@)),
                    all_eligible(tracks@.len()),
                    limit as int,
                )
                &&& out@.len() == picks.len()
                &&& forall|r: int|
                    0 <= r < out@.len() ==> (#[trigger] out@[r])@ == tracks@[picks[r]]@
            },
{
    let mut keys: Vec<i64> = Vec::new();
    let mut all: Vec<bool> = Vec::new();
    let mut i: usize = 0;
    while i < tracks.len()
        invariant
            i <= tracks.len(),
            keys@.len() == i,
            all@.len() == i,
            forall|j: int| 0 <= j < i ==> #[trigger] keys@[j] == tracks@[j].play_count,
            forall|j: int| 0 <= j < i ==> #[trigger] all@[j],
        decreases tracks.len() - i,
    {
        keys.push(tracks[i].play_count);
        all.push(true);
        i += 1;
    }
    let picks = top_indices(&keys, &all, limit);
    let ghost ranking = positions(picks@);
    proof {
        assert(keys@ =~= play_counts(track_stats_view(tracks@)));
        assert(all@ =~= all_eligible(tracks@.len()));
        assert forall|r: int| 0 <= r < picks@.len() implies (#[trigger] picks@[r])
            < tracks@.len() by {
            assert(0 <= ranking[r] < keys@.len());
        }
    }
    let mut out: Vec<TrackStats> = Vec::new();
    let mut r: usize = 0;
    while r < picks.len()
        invariant
            forall|k: int| 0 <= k < picks@.len() ==> (#[trigger] picks@[k]) < tracks@.len(),
            r <= picks.len(),
            out@.len() == r,
            forall|k: int| 0 <= k < r ==> (#[trigger] out@[k])@ == tracks@[picks@[k] as int]@,
        decreases picks.len() - r,
    {
        out.push(tracks[picks[r]].clone());
        r += 1;
    }
    proof {
        assert forall|k: int| 0 <= k < out@.len() implies (#[trigger] out@[k])@
            == tracks@[ranking[k]]@ by {
            assert(ranking[k] == picks@[k]);
        }
        assert(is_ranking(
            ranking,
            play_counts(track_stats_view(tracks@)),
            all_eligible(tracks@.len()),
            limit as int,
        ));
    }
    out
}

} // verus!
