//! Laws of the store and of the statistics, stated over their models.

use vstd::prelude::*;
use crate::database::{
    add_pause_defined, after_add_pause, after_finalize_session, after_progress, after_recovery,
    after_start_session, after_track_upsert, database_inv, finalize_session_defined, fits_i64,
    fresh_id, has_active_session, has_session_id, has_track, interrupted_row, is_active,
    is_open_for, is_orphan, opened_row, orphan_count, progress_defined, recovery_defined,
    session_ids, session_row, start_session_defined, track_row, DatabaseView, SessionView,
    TrackView, STATUS_ACTIVE, STATUS_COMPLETED, STATUS_INTERRUPTED, STATUS_ORPHANED,
    STATUS_TIMEOUT,
};
use crate::stats::{
    effective_time, in_scope, in_window, is_counted, is_ranking, on_track, pick_count,
    ranks_before, total_fits, total_time, track_plays, Query,
};

verus! {

/// Only the status of a session that is open reads as active: each of the
/// four final statuses differs from it.
pub proof fn lemma_final_statuses_are_not_active()
    ensures
        STATUS_COMPLETED@ != STATUS_ACTIVE@,
        STATUS_INTERRUPTED@ != STATUS_ACTIVE@,
        STATUS_ORPHANED@ != STATUS_ACTIVE@,
        STATUS_TIMEOUT@ != STATUS_ACTIVE@,
{
    reveal_strlit("active");
    reveal_strlit("completed");
    reveal_strlit("interrupted");
    reveal_strlit("orphaned");
    reveal_strlit("timeout");
    assert(STATUS_ACTIVE@.len() == 6);
    assert(STATUS_COMPLETED@.len() == 9);
    assert(STATUS_INTERRUPTED@.len() == 11);
    assert(STATUS_ORPHANED@.len() == 8);
    assert(STATUS_TIMEOUT@.len() == 7);
}

/// With ids as keys, the session of an id is found in one row only.
pub proof fn lemma_session_row_unique(d: DatabaseView, id: i64, i: int)
    requires
        database_inv(d),
        0 <= i < d.sessions.len(),
        d.sessions[i].id == id,
    ensures
        has_session_id(d.sessions, id),
        session_row(d.sessions, id) == i,
{
}

/// Finalizing an open session sets its listened time to the time from its
/// start to its end less its pause time; with a final status the session
/// is open no more.
pub proof fn lemma_finalized_session(d: DatabaseView, id: i64, end_time: i64, status: Seq<char>)
    requires
        database_inv(d),
        has_active_session(d.sessions, id),
        finalize_session_defined(d, id, end_time),
    ensures
        ({
            let i = session_row(d.sessions, id);
            let before = d.sessions[i];
            let after = after_finalize_session(d, id, end_time, status).sessions[i];
            &&& database_inv(after_finalize_session(d, id, end_time, status))
            &&& after.end_time == Some(end_time)
            &&& after.listened_time is Some
            &&& after.listened_time->0 == end_time - before.start_time - before.paused_time
            &&& after.listened_time->0 == after.end_time->0 - after.start_time - after.paused_time
            &&& after.status == status
            &&& after.id == before.id && after.track_id == before.track_id && after.player_id
                == before.player_id && after.start_time == before.start_time && after.paused_time
                == before.paused_time
            &&& status != STATUS_ACTIVE@ ==> !is_active(after)
        }),
{
}

/// A session leaves the open state once. After it was finalized with a
/// final status, a second final event, a pause notice and a progress
/// update of the same session change nothing: end, listened time and
/// status stay what they were set to, and the listened time stays the
/// end less the start less the pause time.
pub proof fn lemma_session_ends_once(
    d: DatabaseView,
    id: i64,
    end_time: i64,
    status: Seq<char>,
    later_end: i64,
    later_status: Seq<char>,
    later_pause: i64,
    later_time: i64,
)
    requires
        database_inv(d),
        has_active_session(d.sessions, id),
        finalize_session_defined(d, id, end_time),
        status != STATUS_ACTIVE@,
    ensures
        ({
            let ended = after_finalize_session(d, id, end_time, status);
            &&& !has_active_session(ended.sessions, id)
            &&& finalize_session_defined(ended, id, later_end)
            &&& after_finalize_session(ended, id, later_end, later_status) == ended
            &&& add_pause_defined(ended, id, later_pause)
            &&& after_add_pause(ended, id, later_pause) == ended
            &&& progress_defined(ended, id, later_time)
            &&& after_progress(ended, id, later_time) == ended
        }),
{
    let ended = after_finalize_session(d, id, end_time, status);
    let i = session_row(d.sessions, id);
    lemma_finalized_session(d, id, end_time, status);
    assert(ended.sessions[i].id == id);
    lemma_session_row_unique(ended, id, i);
}

/// Number of the rows, among the first `n`, in which two tables differ.
pub open spec fn changed_rows(before: Seq<SessionView>, after: Seq<SessionView>, n: int) -> nat
    decreases n,
{
    if n <= 0 {
        0
    } else {
        changed_rows(before, after, n - 1) + if before[n - 1] != after[n - 1] {
            1nat
        } else {
            0nat
        }
    }
}

/// Orphan recovery changes the orphans and no other row.
proof fn lemma_recovery_changes_orphans(
    d: DatabaseView,
    current_time: i64,
    max_duration: i64,
    n: int,
)
    requires
        0 <= n <= d.sessions.len(),
    ensures
        changed_rows(
            d.sessions,
            after_recovery(d, current_time, max_duration).sessions,
            n,
        ) == orphan_count(d.sessions.take(n), current_time, max_duration),
    decreases n,
{
    lemma_final_statuses_are_not_active();
    if n > 0 {
        lemma_recovery_changes_orphans(d, current_time, max_duration, n - 1);
        assert(d.sessions.take(n).drop_last() =~= d.sessions.take(n - 1));
        assert(d.sessions.take(n).last() == d.sessions[n - 1]);
    } else {
        assert(d.sessions.take(0) =~= Seq::empty());
    }
}

/// Orphan recovery finalizes every open session that began more than
/// `max_duration` before `current_time`: it becomes orphaned, with its
/// start plus `max_duration` as end and the time up to that end less its
/// pause time as listened time. Every other row stays as it is, so the
/// number of orphans, which the recovery returns, is the number of rows
/// that changed. Afterwards no orphan is left.
pub proof fn lemma_orphan_recovery(d: DatabaseView, current_time: i64, max_duration: i64)
    requires
        database_inv(d),
        recovery_defined(d, current_time, max_duration),
    ensures
        ({
            let after = after_recovery(d, current_time, max_duration);
            &&& database_inv(after)
            &&& after.players == d.players
            &&& after.tracks == d.tracks
            &&& after.sessions.len() == d.sessions.len()
            &&& forall|i: int|
                0 <= i < d.sessions.len() && is_orphan(
                    #[trigger] d.sessions[i],
                    current_time,
                    max_duration,
                ) ==> {
                    let s = d.sessions[i];
                    let r = after.sessions[i];
                    &&& r.status == STATUS_ORPHANED@
                    &&& r.end_time == Some((s.start_time + max_duration) as i64)
                    &&& r.end_time->0 == s.start_time + max_duration
                    &&& r.listened_time->0 == r.end_time->0 - r.start_time - r.paused_time
                    &&& r.listened_time is Some
                    &&& r.id == s.id && r.track_id == s.track_id && r.player_id == s.player_id
                        && r.start_time == s.start_time && r.paused_time == s.paused_time
                }
            &&& forall|i: int|
                0 <= i < d.sessions.len() && !is_orphan(
                    #[trigger] d.sessions[i],
                    current_time,
                    max_duration,
                ) ==> after.sessions[i] == d.sessions[i]
            &&& forall|i: int|
                0 <= i < after.sessions.len() ==> !is_orphan(
                    #[trigger] after.sessions[i],
                    current_time,
                    max_duration,
                )
            &&& orphan_count(d.sessions, current_time, max_duration) == changed_rows(
                d.sessions,
                after.sessions,
                d.sessions.len() as int,
            )
        }),
{
    lemma_final_statuses_are_not_active();
    let after = after_recovery(d, current_time, max_duration);
    lemma_recovery_changes_orphans(d, current_time, max_duration, d.sessions.len() as int);
    assert(d.sessions.take(d.sessions.len() as int) =~= d.sessions);
    assert forall|i: int, j: int|
        0 <= i < after.sessions.len() && 0 <= j < after.sessions.len() && i != j implies (
    #[trigger] after.sessions[i]).id != (#[trigger] after.sessions[j]).id by {
        assert(after.sessions[i].id == d.sessions[i].id);
        assert(after.sessions[j].id == d.sessions[j].id);
    }
    assert forall|i: int| 0 <= i < after.sessions.len() implies !is_orphan(
        #[trigger] after.sessions[i],
        current_time,
        max_duration,
    ) by {
        let s = d.sessions[i];
        if is_orphan(s, current_time, max_duration) {
            assert(after.sessions[i].status == STATUS_ORPHANED@);
        }
    }
}

/// An unbounded window holds every session, and there the counted sessions
/// are all that are open or have a listened time.
pub proof fn lemma_unbounded_window_holds_every_session(s: SessionView, current_time: i64)
    ensures
        in_window(s, Query { start: None, end: None, current_time }),
        in_scope(Query { start: None, end: None, current_time })(s) == is_counted(s),
{
}

/// A session that is still open is counted, in every window that it
/// belongs to, with the time from its start to the moment of the query
/// less its pause time, whatever progress its row holds.
pub proof fn lemma_open_session_is_extrapolated(s: SessionView, q: Query)
    requires
        is_active(s),
    ensures
        is_counted(s),
        in_window(s, q) ==> in_scope(q)(s),
        effective_time(s, q.current_time) == q.current_time - s.start_time - s.paused_time,
{
}

/// The rule of the window. A session that began in the window belongs to
/// it. A session that began before the window belongs to it only where it
/// is still open and the window has begun: one that has ended is left out,
/// also where it ended inside the window. A session that began at or after
/// the end of the window is left out.
pub proof fn lemma_window_rule(s: SessionView, start: i64, end: Option<i64>, current_time: i64)
    ensures
        ({
            let q = Query { start: Some(start), end, current_time };
            let before_end = end matches Some(b) ==> s.start_time < b;
            &&& start <= s.start_time && before_end ==> in_window(s, q)
            &&& s.start_time < start && is_active(s) && start <= current_time && before_end
                ==> in_window(s, q)
            &&& s.start_time < start && !is_active(s) ==> !in_window(s, q)
            &&& !before_end ==> !in_window(s, q)
        }),
{
}

/// Every session that is picked adds its effective time to the total: the
/// total is that time more than the total of the other sessions.
pub proof fn lemma_total_includes_each_session(
    sessions: Seq<SessionView>,
    pick: spec_fn(SessionView) -> bool,
    current_time: i64,
    j: int,
)
    requires
        0 <= j < sessions.len(),
    ensures
        total_time(sessions, pick, current_time) == total_time(
            sessions.remove(j),
            pick,
            current_time,
        ) + if pick(sessions[j]) {
            effective_time(sessions[j], current_time)
        } else {
            0
        },
    decreases sessions.len(),
{
    if j == sessions.len() - 1 {
        assert(sessions.remove(j) =~= sessions.drop_last());
    } else {
        lemma_total_includes_each_session(sessions.drop_last(), pick, current_time, j);
        assert(sessions.remove(j).drop_last() =~= sessions.drop_last().remove(j));
        assert(sessions.remove(j).last() == sessions.last());
    }
}

/// The total of an unbounded window is the sum over all sessions that are
/// open or have a listened time, an open session with its time as of the
/// moment of the query.
pub proof fn lemma_unbounded_total(sessions: Seq<SessionView>, current_time: i64)
    ensures
        total_time(
            sessions,
            in_scope(Query { start: None, end: None, current_time }),
            current_time,
        ) == total_time(
            sessions,
            |s: SessionView| is_counted(s),
            current_time,
        ),
    decreases sessions.len(),
{
    if sessions.len() > 0 {
        lemma_unbounded_total(sessions.drop_last(), current_time);
    }
}

/// A progress update alters neither status nor start of any session, nor
/// anything but the listened time of the session that it names.
pub proof fn lemma_progress_keeps_identity(d: DatabaseView, id: i64, current_time: i64)
    requires
        database_inv(d),
    ensures
        ({
            let after = after_progress(d, id, current_time);
            &&& database_inv(after)
            &&& after.players == d.players
            &&& after.tracks == d.tracks
            &&& after.sessions.len() == d.sessions.len()
            &&& forall|i: int|
                0 <= i < d.sessions.len() ==> {
                    let s = d.sessions[i];
                    let r = #[trigger] after.sessions[i];
                    &&& r.status == s.status
                    &&& r.start_time == s.start_time
                    &&& r.id == s.id && r.track_id == s.track_id && r.player_id == s.player_id
                        && r.end_time == s.end_time && r.paused_time == s.paused_time
                    &&& s.id != id ==> r == s
                    &&& !is_active(s) ==> r == s
                }
            &&& has_active_session(after.sessions, id) == has_active_session(d.sessions, id)
        }),
{
    let after = after_progress(d, id, current_time);
    if has_active_session(d.sessions, id) {
        let i = session_row(d.sessions, id);
        assert(after.sessions[i].id == id);
        lemma_session_row_unique(after, id, i);
    } else {
        if has_session_id(after.sessions, id) {
            let k = session_row(after.sessions, id);
            assert(d.sessions[k].id == id);
            lemma_session_row_unique(d, id, k);
        }
    }
}

/// Progress updates are repeatable, and the listened time of an open
/// session does not decrease as the time of the update advances: a second
/// update leaves what it alone would have left, and an update at a later
/// time leaves a listened time that is no smaller.
pub proof fn lemma_progress_is_monotone(d: DatabaseView, id: i64, earlier: i64, later: i64)
    requires
        database_inv(d),
        has_active_session(d.sessions, id),
        earlier <= later,
        progress_defined(d, id, earlier),
        progress_defined(d, id, later),
    ensures
        ({
            let i = session_row(d.sessions, id);
            let first = after_progress(d, id, earlier);
            let second = after_progress(first, id, later);
            &&& progress_defined(first, id, later)
            &&& second == after_progress(d, id, later)
            &&& after_progress(first, id, earlier) == first
            &&& first.sessions[i].listened_time is Some
            &&& second.sessions[i].listened_time is Some
            &&& first.sessions[i].listened_time->0 <= second.sessions[i].listened_time->0
            &&& first.sessions[i].listened_time->0 == earlier - d.sessions[i].start_time
                - d.sessions[i].paused_time
        }),
{
    let i = session_row(d.sessions, id);
    let first = after_progress(d, id, earlier);
    lemma_progress_keeps_identity(d, id, earlier);
    assert(first.sessions[i].id == id);
    lemma_session_row_unique(first, id, i);
    assert(after_progress(first, id, later).sessions =~= after_progress(d, id, later).sessions);
    assert(after_progress(first, id, earlier).sessions =~= first.sessions);
}

/// Of two positions, one ranks before the other.
pub proof fn lemma_ranks_total(keys: Seq<i64>, a: int, b: int)
    ensures
        a != b ==> ranks_before(keys, a, b) || ranks_before(keys, b, a),
        !(ranks_before(keys, a, b) && ranks_before(keys, b, a)),
        !ranks_before(keys, a, a),
{
}

/// Two rankings agree in every entry that both have.
proof fn lemma_rankings_agree(
    first: Seq<int>,
    second: Seq<int>,
    keys: Seq<i64>,
    eligible: Seq<bool>,
    limit: int,
    n: int,
)
    requires
        is_ranking(first, keys, eligible, limit),
        is_ranking(second, keys, eligible, limit),
        0 <= n <= first.len(),
        n <= second.len(),
    ensures
        forall|r: int| 0 <= r < n ==> first[r] == second[r],
    decreases n,
{
    if n > 0 {
        lemma_rankings_agree(first, second, keys, eligible, limit, n - 1);
        let a = first[n - 1];
        let b = second[n - 1];
        if a != b {
            // Where does `a` stand in `second`, and `b` in `first`?
            assert(eligible[a] && eligible[b]);
            if second.contains(a) {
                let q = choose|q: int| 0 <= q < second.len() && second[q] == a;
                if q < n - 1 {
                    assert(first[q] == a);
                    assert(ranks_before(keys, first[q], first[n - 1]));
                } else {
                    assert(q > n - 1);
                    assert(ranks_before(keys, second[n - 1], second[q]));
                }
            } else {
                assert(ranks_before(keys, second[n - 1], a));
            }
            assert(ranks_before(keys, b, a));
            if first.contains(b) {
                let q = choose|q: int| 0 <= q < first.len() && first[q] == b;
                if q < n - 1 {
                    assert(second[q] == b);
                    assert(ranks_before(keys, second[q], second[n - 1]));
                } else {
                    assert(q > n - 1);
                    assert(ranks_before(keys, first[n - 1], first[q]));
                }
            } else {
                assert(ranks_before(keys, first[n - 1], b));
            }
            assert(ranks_before(keys, a, b));
        }
    }
}

/// The ranking of given keys is unique: a list of top tracks, of top
/// artists or a history is determined by the store, the window and the
/// moment of the query.
pub proof fn lemma_ranking_is_unique(
    first: Seq<int>,
    second: Seq<int>,
    keys: Seq<i64>,
    eligible: Seq<bool>,
    limit: int,
)
    requires
        is_ranking(first, keys, eligible, limit),
        is_ranking(second, keys, eligible, limit),
    ensures
        first == second,
{
    if first.len() <= second.len() {
        lemma_rankings_agree(first, second, keys, eligible, limit, first.len() as int);
        if first.len() < second.len() {
            let k = second[first.len() as int];
            assert(eligible[k]);
            if first.contains(k) {
                let q = choose|q: int| 0 <= q < first.len() && first[q] == k;
                assert(second[q] == k);
                assert(ranks_before(keys, second[q], second[first.len() as int]));
            }
        }
    } else {
        lemma_rankings_agree(first, second, keys, eligible, limit, second.len() as int);
        let k = first[second.len() as int];
        assert(eligible[k]);
        if second.contains(k) {
            let q = choose|q: int| 0 <= q < second.len() && second[q] == k;
            assert(first[q] == k);
            assert(ranks_before(keys, first[q], first[second.len() as int]));
        }
    }
    assert(first =~= second);
}

/// Where the sum of a total can be formed row by row, the total fits.
pub proof fn lemma_total_fits_result(
    sessions: Seq<SessionView>,
    pick: spec_fn(SessionView) -> bool,
    current_time: i64,
)
    requires
        total_fits(sessions, pick, current_time),
    ensures
        fits_i64(total_time(sessions, pick, current_time)),
{
}

/// A session that has ended is left as it is by every operation on
/// sessions: by a final event, a pause notice and a progress update,
/// whichever session they name, by orphan recovery, and by the
/// interruption that opening a session brings.
pub proof fn lemma_closed_session_stays_as_it_is(
    d: DatabaseView,
    i: int,
    id: i64,
    track_id: Seq<char>,
    player: i64,
    current_time: i64,
    max_duration: i64,
    status: Seq<char>,
    seconds: i64,
)
    requires
        database_inv(d),
        0 <= i < d.sessions.len(),
        !is_active(d.sessions[i]),
    ensures
        after_finalize_session(d, id, current_time, status).sessions[i] == d.sessions[i],
        after_add_pause(d, id, seconds).sessions[i] == d.sessions[i],
        after_progress(d, id, current_time).sessions[i] == d.sessions[i],
        after_recovery(d, current_time, max_duration).sessions[i] == d.sessions[i],
        after_start_session(d, track_id, player, current_time).sessions[i] == d.sessions[i],
{
    if has_active_session(d.sessions, id) {
        assert(session_row(d.sessions, id) != i);
    }
}

/// After a session was opened for a player, it is the only open session
/// of that player, whatever the store held before; the sessions of other
/// players and the sessions that had ended are as they were.
pub proof fn lemma_new_session_is_the_only_open_one(
    d: DatabaseView,
    track_id: Seq<char>,
    player: i64,
    start_time: i64,
)
    requires
        database_inv(d),
        start_session_defined(d, track_id, player, start_time),
    ensures
        ({
            let after = after_start_session(d, track_id, player, start_time);
            let last = after.sessions.len() - 1;
            &&& after.sessions.len() == d.sessions.len() + 1
            &&& after.sessions[last] == opened_row(
                fresh_id(session_ids(d.sessions)) as i64,
                track_id,
                player,
                start_time,
            )
            &&& is_open_for(after.sessions[last], player)
            &&& forall|i: int|
                0 <= i < after.sessions.len() && is_open_for(#[trigger] after.sessions[i], player)
                    ==> i == last
            &&& forall|i: int|
                0 <= i < d.sessions.len() && !is_open_for(#[trigger] d.sessions[i], player)
                    ==> after.sessions[i] == d.sessions[i]
            &&& forall|i: int|
                0 <= i < d.sessions.len() && is_open_for(#[trigger] d.sessions[i], player) ==> {
                    let s = d.sessions[i];
                    let r = after.sessions[i];
                    &&& r.status == STATUS_INTERRUPTED@
                    &&& r.end_time == Some(start_time)
                    &&& r.listened_time is Some
                    &&& r.listened_time->0 == start_time - s.start_time - s.paused_time
                }
        }),
{
    lemma_final_statuses_are_not_active();
    let after = after_start_session(d, track_id, player, start_time);
    assert forall|i: int|
        0 <= i < after.sessions.len() && is_open_for(
            #[trigger] after.sessions[i],
            player,
        ) implies i == after.sessions.len() - 1 by {
        if i < d.sessions.len() {
            assert(after.sessions[i] == interrupted_row(d.sessions[i], player, start_time));
        }
    }
}

/// Storing a track a second time changes nothing.
pub proof fn lemma_track_upsert_is_idempotent(d: DatabaseView, track: TrackView)
    requires
        database_inv(d),
    ensures
        database_inv(after_track_upsert(d, track)),
        has_track(after_track_upsert(d, track).tracks, track.id),
        after_track_upsert(d, track).tracks[track_row(
            after_track_upsert(d, track).tracks,
            track.id,
        )] == track,
        after_track_upsert(after_track_upsert(d, track), track) == after_track_upsert(d, track),
{
    let once = after_track_upsert(d, track);
    if has_track(d.tracks, track.id) {
        let i = track_row(d.tracks, track.id);
        assert(once.tracks[i] == track);
        assert forall|a: int, b: int|
            0 <= a < once.tracks.len() && 0 <= b < once.tracks.len() && a != b implies (
        #[trigger] once.tracks[a]).id != (#[trigger] once.tracks[b]).id by {
            assert(once.tracks[a].id == d.tracks[a].id);
            assert(once.tracks[b].id == d.tracks[b].id);
        }
        let k = track_row(once.tracks, track.id);
        assert(once.tracks[k].id == track.id);
        assert(k == i);
        assert(after_track_upsert(once, track).tracks =~= once.tracks);
    } else {
        let last = once.tracks.len() - 1;
        assert(once.tracks[last] == track);
        assert forall|a: int, b: int|
            0 <= a < once.tracks.len() && 0 <= b < once.tracks.len() && a != b implies (
        #[trigger] once.tracks[a]).id != (#[trigger] once.tracks[b]).id by {
            if a < last {
                assert(once.tracks[a] == d.tracks[a]);
            }
            if b < last {
                assert(once.tracks[b] == d.tracks[b]);
            }
        }
        let k = track_row(once.tracks, track.id);
        assert(once.tracks[k].id == track.id);
        assert(k == last);
        assert(after_track_upsert(once, track).tracks =~= once.tracks);
    }
}

/// Sum of the plays of the first `n` tracks.
pub open spec fn plays_of_tracks(d: DatabaseView, q: Query, n: int) -> int
    decreases n,
{
    if n <= 0 {
        0
    } else {
        plays_of_tracks(d, q, n - 1) + track_plays(d, q, n - 1)
    }
}

/// The sessions that a query counts and whose track is stored.
pub open spec fn counted_with_track(d: DatabaseView, q: Query) -> spec_fn(SessionView) -> bool {
    |s: SessionView| in_scope(q)(s) && has_track(d.tracks, s.track_id)
}

/// Whether one of the first `n` tracks has the id `id`.
spec fn among_first(d: DatabaseView, id: Seq<char>, n: int) -> bool {
    exists|t: int| 0 <= t < n && t < d.tracks.len() && (#[trigger] d.tracks[t]).id == id
}

/// One more session adds one play to the tracks where it is counted and
/// its track is among them, and none else.
proof fn lemma_plays_grow_by_session(d: DatabaseView, q: Query, n: int)
    requires
        database_inv(d),
        d.sessions.len() > 0,
        0 <= n <= d.tracks.len(),
    ensures
        plays_of_tracks(d, q, n) == plays_of_tracks(
            DatabaseView { sessions: d.sessions.drop_last(), ..d },
            q,
            n,
        ) + if in_scope(q)(d.sessions.last()) && among_first(d, d.sessions.last().track_id, n) {
            1int
        } else {
            0int
        },
    decreases n,
{
    let front = DatabaseView { sessions: d.sessions.drop_last(), ..d };
    let last = d.sessions.last();
    if n > 0 {
        lemma_plays_grow_by_session(d, q, n - 1);
        let id = d.tracks[n - 1].id;
        assert(track_plays(d, q, n - 1) == track_plays(front, q, n - 1) + if on_track(q, id)(
            last,
        ) {
            1int
        } else {
            0int
        });
        if among_first(d, last.track_id, n - 1) {
            let t = choose|t: int|
                0 <= t < n - 1 && t < d.tracks.len() && (#[trigger] d.tracks[t]).id
                    == last.track_id;
            assert(d.tracks[t].id != d.tracks[n - 1].id);
            assert(among_first(d, last.track_id, n));
        } else if id == last.track_id {
            assert(among_first(d, last.track_id, n));
        } else {
            if among_first(d, last.track_id, n) {
                let t = choose|t: int|
                    0 <= t < n && t < d.tracks.len() && (#[trigger] d.tracks[t]).id
                        == last.track_id;
                assert(t < n - 1);
                assert(among_first(d, last.track_id, n - 1));
            }
        }
    }
}

/// The plays of the tracks add up to the number of sessions: every session
/// that a query counts, and whose track is stored, is a play of exactly one
/// track.
pub proof fn lemma_plays_add_up(d: DatabaseView, q: Query)
    requires
        database_inv(d),
    ensures
        plays_of_tracks(d, q, d.tracks.len() as int) == pick_count(
            d.sessions,
            counted_with_track(d, q),
        ),
    decreases d.sessions.len(),
{
    if d.sessions.len() == 0 {
        lemma_no_session_no_play(d, q, d.tracks.len() as int);
    } else {
        let front = DatabaseView { sessions: d.sessions.drop_last(), ..d };
        assert forall|i: int, j: int|
            0 <= i < front.sessions.len() && 0 <= j < front.sessions.len() && i != j implies (
        #[trigger] front.sessions[i]).id != (#[trigger] front.sessions[j]).id by {
            assert(front.sessions[i] == d.sessions[i]);
            assert(front.sessions[j] == d.sessions[j]);
        }
        lemma_plays_add_up(front, q);
        lemma_plays_grow_by_session(d, q, d.tracks.len() as int);
        let last = d.sessions.last();
        assert(among_first(d, last.track_id, d.tracks.len() as int) == has_track(
            d.tracks,
            last.track_id,
        ));
        assert(counted_with_track(front, q) == counted_with_track(d, q));
    }
}

/// Without sessions no track has a play.
proof fn lemma_no_session_no_play(d: DatabaseView, q: Query, n: int)
    requires
        d.sessions.len() == 0,
    ensures
        plays_of_tracks(d, q, n) == 0,
    decreases n,
{
    if n > 0 {
        lemma_no_session_no_play(d, q, n - 1);
    }
}

} // verus!
