//! The sync engine's state and its diff engine: each new playback snapshot
//! is classified against the previous one, in priority order track change,
//! play-state change, seek, ordinary position update.

use vstd::prelude::*;

use crate::lrc::{view_lines, LrcFile, LrcLine, LrcMetadata, LrcWord, view_words};
use crate::playback::{
    spec_seek_occurred, spec_track_changed, PlaybackState, TrackInfo, TrackModel,
};

verus! {

/// Position delta beyond which a same-track jump counts as a seek.
pub const SEEK_THRESHOLD_MS: u64 = 2000;

/// Events published by the sync engine.
#[derive(Clone, Debug)]
pub enum SyncEvent {
    /// Playback started for a track that was not loaded before.
    PlaybackStarted { track: TrackInfo, position: u64 },
    PlaybackPaused { position: u64 },
    PlaybackResumed { position: u64 },
    /// No track is playing any more.
    PlaybackStopped,
    /// The track identity changed.
    TrackChanged { track: TrackInfo, position: u64 },
    /// Ordinary periodic position update.
    PositionSync { position: u64 },
    /// A jump within the current track.
    SeekOccurred { position: u64 },
    /// Lyrics were loaded for the current track.
    LyricsLoaded { lyrics: LrcFile },
    /// No lyrics could be found for the current track.
    LyricsNotFound,
    Error { message: String },
}

/// View-preserving copy of a track, so that an event can carry the track
/// while the state keeps it too.
pub fn clone_track(t: &TrackInfo) -> (r: TrackInfo)
    ensures
        r@ == t@,
{
    let mut pairs: Vec<(String, String)> = Vec::new();
    let mut i: usize = 0;
    while i < t.provider_ids.len()
        invariant
            0 <= i <= t.provider_ids@.len(),
            pairs@.len() == i,
            forall|j: int|
                0 <= j < i ==> (#[trigger] pairs@[j]).0@ == t.provider_ids@[j].0@ && pairs@[j].1@
                    == t.provider_ids@[j].1@,
        decreases t.provider_ids@.len() - i,
    {
        let p = (t.provider_ids[i].0.clone(), t.provider_ids[i].1.clone());
        pairs.push(p);
        i += 1;
    }
    let r = TrackInfo {
        source: t.source,
        source_track_id: t.source_track_id.clone(),
        provider_ids: pairs,
        name: t.name.clone(),
        artist: t.artist.clone(),
        album: t.album.clone(),
        duration: t.duration,
    };
    proof {
        assert forall|j: int| 0 <= j < r.provider_ids@.len() implies #[trigger] crate::idmap::view_pairs(
            r.provider_ids@,
        )[j] == crate::idmap::view_pairs(t.provider_ids@)[j] by {
            assert(crate::idmap::view_pairs(r.provider_ids@)[j] == (
                r.provider_ids@[j].0@,
                r.provider_ids@[j].1@,
            ));
            assert(crate::idmap::view_pairs(t.provider_ids@)[j] == (
                t.provider_ids@[j].0@,
                t.provider_ids@[j].1@,
            ));
        }
        assert(crate::idmap::view_pairs(r.provider_ids@) =~= crate::idmap::view_pairs(
            t.provider_ids@,
        ));
    }
    r
}

fn clone_word(w: &LrcWord) -> (r: LrcWord)
    ensures
        r@ == w@,
{
    LrcWord { start_time: w.start_time, end_time: w.end_time, text: w.text.clone() }
}

fn clone_line(l: &LrcLine) -> (r: LrcLine)
    ensures
        r@ == l@,
{
    let words: Option<Vec<LrcWord>> = match &l.words {
        Some(ws) => {
            let mut out: Vec<LrcWord> = Vec::new();
            let mut i: usize = 0;
            while i < ws.len()
                invariant
                    0 <= i <= ws@.len(),
                    out@.len() == i,
                    forall|j: int| 0 <= j < i ==> (#[trigger] out@[j])@ == ws@[j]@,
                decreases ws@.len() - i,
            {
                let w = clone_word(&ws[i]);
                out.push(w);
                i += 1;
            }
            proof {
                assert forall|j: int| 0 <= j < out@.len() implies #[trigger] view_words(out@)[j]
                    == view_words(ws@)[j] by {
                    assert(view_words(out@)[j] == out@[j]@);
                    assert(view_words(ws@)[j] == ws@[j]@);
                }
                assert(view_words(out@) =~= view_words(ws@));
            }
            Some(out)
        },
        None => None,
    };
    LrcLine { start_time: l.start_time, text: l.text.clone(), words }
}

fn clone_opt_string(s: &Option<String>) -> (r: Option<String>)
    ensures
        crate::lrc::view_opt_string(&r) == crate::lrc::view_opt_string(s),
{
    match s {
        Some(x) => Some(x.clone()),
        None => None,
    }
}

/// View-preserving copy of a parsed lyrics file.
pub fn clone_lrc(f: &LrcFile) -> (r: LrcFile)
    ensures
        r.metadata@ == f.metadata@,
        view_lines(r.lines@) == view_lines(f.lines@),
{
    let metadata = LrcMetadata {
        title: clone_opt_string(&f.metadata.title),
        artist: clone_opt_string(&f.metadata.artist),
        album: clone_opt_string(&f.metadata.album),
        author: clone_opt_string(&f.metadata.author),
        length: f.metadata.length,
        offset: f.metadata.offset,
    };
    let mut lines: Vec<LrcLine> = Vec::new();
    let mut i: usize = 0;
    while i < f.lines.len()
        invariant
            0 <= i <= f.lines@.len(),
            lines@.len() == i,
            forall|j: int| 0 <= j < i ==> (#[trigger] lines@[j])@ == f.lines@[j]@,
        decreases f.lines@.len() - i,
    {
        let l = clone_line(&f.lines[i]);
        lines.push(l);
        i += 1;
    }
    proof {
        assert forall|j: int| 0 <= j < lines@.len() implies #[trigger] view_lines(lines@)[j]
            == view_lines(f.lines@)[j] by {
            assert(view_lines(lines@)[j] == lines@[j]@);
            assert(view_lines(f.lines@)[j] == f.lines@[j]@);
        }
        assert(view_lines(lines@) =~= view_lines(f.lines@));
    }
    LrcFile { metadata, lines }
}

/// What the diff engine decides for one new snapshot.
pub open spec fn spec_expected_events(
    a: crate::playback::PlaybackModel,
    b: crate::playback::PlaybackModel,
    events: Seq<SyncEvent>,
) -> bool {
    if spec_track_changed(a, b) {
        match b.track {
            Some(tm) => {
                &&& events.len() == 2
                &&& (events[0] matches SyncEvent::TrackChanged { track, position } && track@ == tm
                    && position == b.position)
                &&& (if b.is_playing {
                    events[1] matches SyncEvent::PlaybackResumed { position } && position
                        == b.position
                } else {
                    events[1] matches SyncEvent::PlaybackPaused { position } && position
                        == b.position
                })
            },
            None => events =~= seq![SyncEvent::PlaybackStopped],
        }
    } else if a.is_playing != b.is_playing {
        if b.is_playing {
            if a.track is Some {
                events.len() == 1 && (events[0] matches SyncEvent::PlaybackResumed { position }
                    && position == b.position)
            } else if b.track is Some {
                events.len() == 1 && (events[0] matches SyncEvent::PlaybackStarted {
                    track,
                    position,
                } && track@ == b.track->0 && position == b.position)
            } else {
                events.len() == 0
            }
        } else {
            events.len() == 1 && (events[0] matches SyncEvent::PlaybackPaused { position }
                && position == b.position)
        }
    } else if spec_seek_occurred(a, b, SEEK_THRESHOLD_MS) {
        events.len() == 1 && (events[0] matches SyncEvent::SeekOccurred { position } && position
            == b.position)
    } else {
        events.len() == 1 && (events[0] matches SyncEvent::PositionSync { position } && position
            == b.position)
    }
}

/// The sync engine's state: the latest snapshot and the lyrics loaded for
/// it. The surrounding application holds this behind its async lock and
/// broadcasts the returned events.
pub struct SyncEngineState {
    pub state: PlaybackState,
    pub lyrics: Option<LrcFile>,
}

impl SyncEngineState {
    /// Fresh engine state: stopped, no lyrics.
    pub fn new(updated_at: u64) -> (r: SyncEngineState)
        ensures
            r.state.is_playing == false,
            r.state@.track is None,
            r.lyrics is None,
    {
        SyncEngineState { state: PlaybackState::stopped(updated_at), lyrics: None }
    }

    /// Apply a new snapshot: record it and classify the change against the
    /// previous one, in priority order track change, play-state change,
    /// seek, ordinary tick. A changed track clears the loaded lyrics.
    pub fn update_state(&mut self, new_state: PlaybackState) -> (events: Vec<SyncEvent>)
        ensures
            final (self).state == new_state,
            spec_expected_events(old(self).state@, new_state@, events@),
            final (self).lyrics is Some <==> (!spec_track_changed(old(self).state@, new_state@)
                && old(self).lyrics is Some),
            final (self).lyrics is Some ==> old(self).lyrics is Some && final (self).lyrics->0
                == old(self).lyrics->0,
    {
        let mut events: Vec<SyncEvent> = Vec::new();
        let track_changed = self.state.track_changed(&new_state);
        let playback_changed = self.state.playback_state_changed(&new_state);
        let seek = self.state.seek_occurred(&new_state, SEEK_THRESHOLD_MS);
        if track_changed {
            self.lyrics = None;
            match &new_state.track {
                Some(track) => {
                    let t = clone_track(track);
                    events.push(SyncEvent::TrackChanged { track: t, position: new_state.position });
                    if new_state.is_playing {
                        events.push(SyncEvent::PlaybackResumed { position: new_state.position });
                    } else {
                        events.push(SyncEvent::PlaybackPaused { position: new_state.position });
                    }
                },
                None => {
                    events.push(SyncEvent::PlaybackStopped);
                    proof {
                        assert(events@ =~= seq![SyncEvent::PlaybackStopped]);
                    }
                },
            }
        } else if playback_changed {
            if new_state.is_playing {
                if self.state.track.is_some() {
                    events.push(SyncEvent::PlaybackResumed { position: new_state.position });
                } else {
                    match &new_state.track {
                        Some(track) => {
                            let t = clone_track(track);
                            events.push(
                                SyncEvent::PlaybackStarted {
                                    track: t,
                                    position: new_state.position,
                                },
                            );
                        },
                        None => {},
                    }
                }
            } else {
                events.push(SyncEvent::PlaybackPaused { position: new_state.position });
            }
        } else if seek {
            events.push(SyncEvent::SeekOccurred { position: new_state.position });
        } else {
            events.push(SyncEvent::PositionSync { position: new_state.position });
        }
        self.state = new_state;
        events
    }

    /// Record loaded lyrics; the returned event carries an equal copy.
    pub fn set_lyrics(&mut self, lyrics: LrcFile) -> (events: Vec<SyncEvent>)
        ensures
            final (self).state == old(self).state,
            final (self).lyrics is Some,
            final (self).lyrics->0.metadata@ == lyrics.metadata@,
            view_lines(final (self).lyrics->0.lines@) == view_lines(lyrics.lines@),
            events@.len() == 1,
            events@[0] matches SyncEvent::LyricsLoaded { lyrics: l } && l.metadata@
                == lyrics.metadata@ && view_lines(l.lines@) == view_lines(lyrics.lines@),
    {
        let copy = clone_lrc(&lyrics);
        self.lyrics = Some(copy);
        let mut events: Vec<SyncEvent> = Vec::new();
        events.push(SyncEvent::LyricsLoaded { lyrics });
        events
    }

    /// Record that no lyrics were found.
    pub fn set_no_lyrics(&mut self) -> (events: Vec<SyncEvent>)
        ensures
            final (self).state == old(self).state,
            final (self).lyrics is None,
            events@ =~= seq![SyncEvent::LyricsNotFound],
    {
        self.lyrics = None;
        let mut events: Vec<SyncEvent> = Vec::new();
        events.push(SyncEvent::LyricsNotFound);
        proof {
            assert(events@ =~= seq![SyncEvent::LyricsNotFound]);
        }
        events
    }

    /// Position interpolated to `now` on the caller's monotonic clock.
    pub fn current_position(&self, now: u64) -> (r: u64)
        ensures
            r == crate::playback::spec_interpolated(self.state@, now),
    {
        self.state.interpolated_position(now)
    }

    /// Whether the latest snapshot was playing.
    pub fn is_playing(&self) -> (r: bool)
        ensures
            r == self.state.is_playing,
    {
        self.state.is_playing
    }

    /// The current track, if one is loaded.
    pub fn current_track(&self) -> (r: Option<&TrackInfo>)
        ensures
            match r {
                Some(t) => self.state@.track == Some(t@),
                None => self.state@.track is None,
            },
    {
        match &self.state.track {
            Some(t) => Some(t),
            None => None,
        }
    }
}

} // verus!
