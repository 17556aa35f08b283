//! The change detector: from two successive observations of a player to
//! the transitions that lie between them.

use vstd::prelude::*;
use vstd::string::*;
use crate::database::{Track, TrackView};
use crate::session_tracker::{
    after_pause, after_play, after_resume, after_stop, play_defined, resume_defined,
    stop_defined, SessionTracker, TrackerError, TrackerView,
};
use crate::text::{
    clone_opt_text, join, joined, opt_text, same_opt_text, same_texts, texts,
};

verus! {

/// Title, artist and album of a track of which the player does not tell.
pub const UNKNOWN: &'static str = "Unknown";

/// What stands between the artists of a track.
pub const ARTIST_SEPARATOR: &'static str = ", ";

/// What stands between title, artist and album in the id of a track.
pub const ID_SEPARATOR: &'static str = "::";

/// What a player is doing.
#[derive(Debug, Clone, Copy, PartialEq, Eq, Structural)]
pub enum PlaybackStatus {
    Playing,
    Paused,
    Stopped,
}

/// What a player tells about its current track.
#[derive(Debug)]
pub struct Metadata {
    /// The id that the player gives the track; players are known to give
    /// one id to several tracks.
    pub track_id: Option<String>,
    pub title: Option<String>,
    pub artists: Option<Vec<String>>,
    pub album_name: Option<String>,
    /// Length in microseconds.
    pub length: Option<i64>,
    pub art_url: Option<String>,
}

/// Mathematical value of a [`Metadata`].
pub struct MetadataView {
    pub track_id: Option<Seq<char>>,
    pub title: Option<Seq<char>>,
    pub artists: Option<Seq<Seq<char>>>,
    pub album_name: Option<Seq<char>>,
    pub length: Option<i64>,
    pub art_url: Option<Seq<char>>,
}

/// Value of an optional list of strings.
pub open spec fn opt_texts(v: Option<Vec<String>>) -> Option<Seq<Seq<char>>> {
    match v {
        Some(names) => Some(texts(names@)),
        None => None,
    }
}

impl View for Metadata {
    type V = MetadataView;

    open spec fn view(&self) -> MetadataView {
        MetadataView {
            track_id: opt_text(self.track_id),
            title: opt_text(self.title),
            artists: opt_texts(self.artists),
            album_name: opt_text(self.album_name),
            length: self.length,
            art_url: opt_text(self.art_url),
        }
    }
}

/// Value of optional metadata.
pub open spec fn opt_metadata(m: Option<Metadata>) -> Option<MetadataView> {
    match m {
        Some(metadata) => Some(metadata@),
        None => None,
    }
}

/// Copies a list of strings.
fn clone_texts(v: &Vec<String>) -> (r: Vec<String>)
    ensures
        texts(r@) == texts(v@),
{
    let mut out: Vec<String> = Vec::new();
    let mut i: usize = 0;
    while i < v.len()
        invariant
            i <= v.len(),
            out@.len() == i,
            forall|j: int| 0 <= j < i ==> (#[trigger] out@[j])@ == v@[j]@,
        decreases v.len() - i,
    {
        out.push(v[i].clone());
        i += 1;
    }
    assert(texts(out@) =~= texts(v@));
    out
}

impl Clone for Metadata {
    fn clone(&self) -> (r: Self)
        ensures
            r@ == self@,
    {
        let artists = match &self.artists {
            Some(names) => Some(clone_texts(names)),
            None => None,
        };
        Metadata {
            track_id: clone_opt_text(&self.track_id),
            title: clone_opt_text(&self.title),
            artists,
            album_name: clone_opt_text(&self.album_name),
            length: self.length,
            art_url: clone_opt_text(&self.art_url),
        }
    }
}

/// Copies optional metadata.
pub fn clone_opt_metadata(m: &Option<Metadata>) -> (r: Option<Metadata>)
    ensures
        opt_metadata(r) == opt_metadata(*m),
{
    match m {
        Some(metadata) => Some(metadata.clone()),
        None => None,
    }
}

/// A text, or "Unknown" where there is none.
pub open spec fn text_or_unknown(t: Option<Seq<char>>) -> Seq<char> {
    match t {
        Some(text) => text,
        None => UNKNOWN@,
    }
}

/// The artists of a track as one text, or "Unknown" where there are none.
pub open spec fn artist_text(artists: Option<Seq<Seq<char>>>) -> Seq<char> {
    match artists {
        Some(names) => joined(names, ARTIST_SEPARATOR@),
        None => UNKNOWN@,
    }
}

/// The id of a track: made of its title, artist and album, and of nothing
/// that the player calls an id.
pub open spec fn content_id(title: Seq<char>, artist: Seq<char>, album: Seq<char>) -> Seq<char> {
    title + ID_SEPARATOR@ + artist + ID_SEPARATOR@ + album
}

/// The track that metadata describe.
pub open spec fn track_of(m: MetadataView) -> TrackView {
    let title = text_or_unknown(m.title);
    let artist = artist_text(m.artists);
    let album = text_or_unknown(m.album_name);
    TrackView {
        id: content_id(title, artist, album),
        title,
        artist,
        album,
        length: m.length,
        art_url: m.art_url,
    }
}

/// The text of an optional string, or "Unknown".
fn owned_or_unknown(t: &Option<String>) -> (r: String)
    ensures
        r@ == text_or_unknown(opt_text(*t)),
{
    match t {
        Some(text) => text.clone(),
        None => String::from_str(UNKNOWN),
    }
}

/// The track that `metadata` describe. Its id is derived from title, artist
/// and album alone.
pub fn metadata_to_track(metadata: &Metadata) -> (r: Track)
    ensures
        r@ == track_of(metadata@),
{
    let title = owned_or_unknown(&metadata.title);
    let artist = match &metadata.artists {
        Some(names) => join(names, ARTIST_SEPARATOR),
        None => String::from_str(UNKNOWN),
    };
    let album = owned_or_unknown(&metadata.album_name);
    let mut id = title.clone();
    id.append(ID_SEPARATOR);
    id.append(artist.as_str());
    id.append(ID_SEPARATOR);
    id.append(album.as_str());
    assert(id@ =~= content_id(title@, artist@, album@));
    Track {
        id,
        title,
        artist,
        album,
        length: metadata.length,
        art_url: clone_opt_text(&metadata.art_url),
    }
}

/// Whether the identity of the track changed between two observations.
/// Title and artists decide, and nothing else: the id that a player gives
/// a track is not looked at, so that neither one id for two tracks nor two
/// ids for one track mislead. Metadata that appear or disappear are a
/// change.
pub open spec fn metadata_changed(
    old_meta: Option<MetadataView>,
    new_meta: Option<MetadataView>,
) -> bool {
    match (old_meta, new_meta) {
        (Some(o), Some(n)) => o.title != n.title || o.artists != n.artists,
        (None, Some(_)) => true,
        (Some(_), None) => true,
        (None, None) => false,
    }
}

/// Whether the identity of the track changed between two observations.
pub fn identity_changed(old_meta: &Option<Metadata>, new_meta: &Option<Metadata>) -> (r: bool)
    ensures
        r == metadata_changed(opt_metadata(*old_meta), opt_metadata(*new_meta)),
{
    match (old_meta, new_meta) {
        (Some(o), Some(n)) => {
            let title_changed = !same_opt_text(&o.title, &n.title);
            let artist_changed = match (&o.artists, &n.artists) {
                (Some(a), Some(b)) => !same_texts(a, b),
                (None, None) => false,
                _ => true,
            };
            title_changed || artist_changed
        },
        (None, Some(_)) => true,
        (Some(_), None) => true,
        (None, None) => false,
    }
}

/// What happened to a player between two observations.
#[derive(Debug)]
pub enum Transition {
    /// It started the track.
    Started(Track),
    Paused,
    Resumed,
    Stopped,
}

/// Mathematical value of a [`Transition`].
pub enum TransitionView {
    Started(TrackView),
    Paused,
    Resumed,
    Stopped,
}

impl View for Transition {
    type V = TransitionView;

    open spec fn view(&self) -> TransitionView {
        match *self {
            Transition::Started(track) => TransitionView::Started(track@),
            Transition::Paused => TransitionView::Paused,
            Transition::Resumed => TransitionView::Resumed,
            Transition::Stopped => TransitionView::Stopped,
        }
    }
}

/// Values of a list of transitions.
pub open spec fn transitions_view(v: Seq<Transition>) -> Seq<TransitionView> {
    v.map_values(|t: Transition| t@)
}

/// The start of the track of the new metadata, of the old ones where the
/// new observation has none, and nothing where both are absent.
pub open spec fn started_with(
    new_meta: Option<MetadataView>,
    old_meta: Option<MetadataView>,
) -> Seq<TransitionView> {
    match new_meta {
        Some(m) => seq![TransitionView::Started(track_of(m))],
        None => match old_meta {
            Some(m) => seq![TransitionView::Started(track_of(m))],
            None => Seq::empty(),
        },
    }
}

/// The transitions that a change of status means. A player that goes from
/// paused to playing resumes where it has a session, and starts one where
/// it has none.
pub open spec fn status_transitions(
    old_status: PlaybackStatus,
    new_status: PlaybackStatus,
    old_meta: Option<MetadataView>,
    new_meta: Option<MetadataView>,
    has_session: bool,
) -> Seq<TransitionView> {
    match (old_status, new_status) {
        (PlaybackStatus::Playing, PlaybackStatus::Paused) => seq![TransitionView::Paused],
        (PlaybackStatus::Paused, PlaybackStatus::Playing) => if has_session {
            seq![TransitionView::Resumed]
        } else {
            started_with(new_meta, old_meta)
        },
        (PlaybackStatus::Playing, PlaybackStatus::Stopped) => seq![TransitionView::Stopped],
        (PlaybackStatus::Stopped, PlaybackStatus::Playing) => started_with(new_meta, old_meta),
        _ => Seq::empty(),
    }
}

/// The transitions that a change of track means: the track that was
/// playing stops, then the track that is playing starts.
pub open spec fn identity_transitions(
    old_status: PlaybackStatus,
    new_status: PlaybackStatus,
    old_meta: Option<MetadataView>,
    new_meta: Option<MetadataView>,
) -> Seq<TransitionView> {
    if metadata_changed(old_meta, new_meta) {
        (if old_status == PlaybackStatus::Playing {
            seq![TransitionView::Stopped]
        } else {
            Seq::empty()
        }) + (if new_status == PlaybackStatus::Playing {
            match new_meta {
                Some(m) => seq![TransitionView::Started(track_of(m))],
                None => Seq::empty(),
            }
        } else {
            Seq::empty()
        })
    } else {
        Seq::empty()
    }
}

/// The transitions between two observations of a player, in order: those
/// of the change of status, then those of the change of track.
pub open spec fn detected(
    old_status: PlaybackStatus,
    new_status: PlaybackStatus,
    old_meta: Option<MetadataView>,
    new_meta: Option<MetadataView>,
    has_session: bool,
) -> Seq<TransitionView> {
    status_transitions(old_status, new_status, old_meta, new_meta, has_session)
        + identity_transitions(old_status, new_status, old_meta, new_meta)
}

/// Queues the start that `started_with` describes.
fn push_started(
    steps: &mut Vec<Transition>,
    new_meta: &Option<Metadata>,
    old_meta: &Option<Metadata>,
)
    ensures
        transitions_view(final(steps)@) == transitions_view(old(steps)@) + started_with(
            opt_metadata(*new_meta),
            opt_metadata(*old_meta),
        ),
{
    match new_meta {
        Some(m) => {
            steps.push(Transition::Started(metadata_to_track(m)));
        },
        None => match old_meta {
            Some(m) => {
                steps.push(Transition::Started(metadata_to_track(m)));
            },
            None => {},
        },
    }
    assert(transitions_view(steps@) =~= transitions_view(old(steps)@) + started_with(
        opt_metadata(*new_meta),
        opt_metadata(*old_meta),
    ));
}

/// The transitions between two observations of a player. `has_session`
/// says whether the player has a session in progress.
pub fn detect_transitions(
    old_status: PlaybackStatus,
    new_status: PlaybackStatus,
    old_meta: &Option<Metadata>,
    new_meta: &Option<Metadata>,
    has_session: bool,
) -> (steps: Vec<Transition>)
    ensures
        transitions_view(steps@) == detected(
            old_status,
            new_status,
            opt_metadata(*old_meta),
            opt_metadata(*new_meta),
            has_session,
        ),
{
    let mut steps: Vec<Transition> = Vec::new();
    match (old_status, new_status) {
        (PlaybackStatus::Playing, PlaybackStatus::Paused) => {
            steps.push(Transition::Paused);
        },
        (PlaybackStatus::Paused, PlaybackStatus::Playing) => {
            if has_session {
                steps.push(Transition::Resumed);
            } else {
                push_started(&mut steps, new_meta, old_meta);
            }
        },
        (PlaybackStatus::Playing, PlaybackStatus::Stopped) => {
            steps.push(Transition::Stopped);
        },
        (PlaybackStatus::Stopped, PlaybackStatus::Playing) => {
            push_started(&mut steps, new_meta, old_meta);
        },
        _ => {},
    }
    assert(transitions_view(steps@) =~= status_transitions(
        old_status,
        new_status,
        opt_metadata(*old_meta),
        opt_metadata(*new_meta),
        has_session,
    ));
    let ghost first = transitions_view(steps@);
    if identity_changed(old_meta, new_meta) {
        if old_status == PlaybackStatus::Playing {
            steps.push(Transition::Stopped);
        }
        if new_status == PlaybackStatus::Playing {
            match new_meta {
                Some(m) => {
                    steps.push(Transition::Started(metadata_to_track(m)));
                },
                None => {},
            }
        }
    }
    assert(transitions_view(steps@) =~= first + identity_transitions(
        old_status,
        new_status,
        opt_metadata(*old_meta),
        opt_metadata(*new_meta),
    ));
    steps
}

// ---------------------------------------------------------------------------
// Handing the transitions to the state machine.
// ---------------------------------------------------------------------------

/// Why the state machine refuses a transition, if it does.
pub open spec fn step_refusal(
    t: TrackerView,
    player: i64,
    step: TransitionView,
    timestamp: i64,
) -> Option<TrackerError> {
    match step {
        TransitionView::Started(_) => if !stop_defined(t, player, timestamp) {
            Some(TrackerError::TimeOverflow)
        } else if !play_defined(t, player, timestamp) {
            Some(TrackerError::SessionIdsExhausted)
        } else {
            None
        },
        TransitionView::Paused => None,
        TransitionView::Resumed => if resume_defined(t, player, timestamp) {
            None
        } else {
            Some(TrackerError::TimeOverflow)
        },
        TransitionView::Stopped => if stop_defined(t, player, timestamp) {
            None
        } else {
            Some(TrackerError::TimeOverflow)
        },
    }
}

/// State of the state machine after a transition that it accepts.
pub open spec fn after_step(
    t: TrackerView,
    player: i64,
    step: TransitionView,
    timestamp: i64,
) -> TrackerView {
    match step {
        TransitionView::Started(track) => after_play(t, player, track, timestamp),
        TransitionView::Paused => after_pause(t, player, timestamp),
        TransitionView::Resumed => after_resume(t, player, timestamp),
        TransitionView::Stopped => after_stop(t, player, timestamp),
    }
}

/// Where a run of transitions ends: the state reached, and the refusal
/// that ended the run early, if one did.
pub struct Outcome {
    pub state: TrackerView,
    pub refusal: Option<TrackerError>,
}

/// Hands `steps` to the state machine one by one, up to the first that it
/// refuses.
pub open spec fn run(
    t: TrackerView,
    player: i64,
    steps: Seq<TransitionView>,
    timestamp: i64,
) -> Outcome
    decreases steps.len(),
{
    if steps.len() == 0 {
        Outcome { state: t, refusal: None }
    } else {
        match step_refusal(t, player, steps[0], timestamp) {
            Some(e) => Outcome { state: t, refusal: Some(e) },
            None => run(
                after_step(t, player, steps[0], timestamp),
                player,
                steps.skip(1),
                timestamp,
            ),
        }
    }
}

/// The result that stands for the end of a run.
pub open spec fn run_result(refusal: Option<TrackerError>) -> Result<(), TrackerError> {
    match refusal {
        Some(e) => Err(e),
        None => Ok(()),
    }
}

/// Hands `steps` to the state machine one by one, at `timestamp`, and
/// stops at the first that it refuses.
pub fn apply_transitions(
    tracker: &mut SessionTracker,
    player_id: i64,
    steps: &Vec<Transition>,
    timestamp: i64,
) -> (r: Result<(), TrackerError>)
    requires
        old(tracker).wf(),
    ensures
        final(tracker).wf(),
        final(tracker)@ == run(old(tracker)@, player_id, transitions_view(steps@), timestamp).state,
        r == run_result(
            run(old(tracker)@, player_id, transitions_view(steps@), timestamp).refusal,
        ),
{
    let ghost all = transitions_view(steps@);
    let ghost goal = run(tracker@, player_id, all, timestamp);
    let mut i: usize = 0;
    proof {
        assert(all.skip(0) =~= all);
    }
    while i < steps.len()
        invariant
            tracker.wf(),
            all == transitions_view(steps@),
            i <= steps.len(),
            goal == run(old(tracker)@, player_id, all, timestamp),
            goal == run(tracker@, player_id, all.skip(i as int), timestamp),
        decreases steps.len() - i,
    {
        proof {
            assert(all.skip(i as int)[0] == steps@[i as int]@);
            assert(all.skip(i as int).skip(1) =~= all.skip(i + 1));
        }
        let outcome = match &steps[i] {
            Transition::Started(track) => tracker.handle_play_event(
                player_id,
                track.clone(),
                timestamp,
            ),
            Transition::Paused => tracker.handle_pause_event(player_id, timestamp),
            Transition::Resumed => tracker.handle_resume_event(player_id, timestamp),
            Transition::Stopped => tracker.handle_stop_event(player_id, timestamp),
        };
        match outcome {
            Ok(()) => {},
            Err(e) => {
                return Err(e);
            },
        }
        i += 1;
    }
    Ok(())
}

} // verus!
