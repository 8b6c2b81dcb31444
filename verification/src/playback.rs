//! Playback snapshots and the comparisons the diff engine is built on.
//!
//! All times are whole milliseconds. `updated_at` is a reading of a
//! monotonic clock supplied by the caller; positions are interpolated
//! against it only while the snapshot was playing.

use vstd::prelude::*;

use crate::idmap::{assoc_get, assoc_lookup, assoc_put, assoc_upsert, view_pairs};
use crate::source::MusicSource;

verus! {

/// Information about the currently playing track. Identity for
/// track-change detection is `(source, source_track_id)`.
#[derive(Clone, Debug)]
pub struct TrackInfo {
    pub source: MusicSource,
    /// Primary track id from the source, in the source's own format.
    pub source_track_id: String,
    /// Additional provider-specific ids for lyrics lookup; keys are unique.
    pub provider_ids: Vec<(String, String)>,
    pub name: String,
    pub artist: String,
    pub album: String,
    /// Track duration in milliseconds.
    pub duration: u64,
}

/// Mathematical image of a track.
pub ghost struct TrackModel {
    pub source: MusicSource,
    pub source_track_id: Seq<char>,
    pub provider_ids: Seq<(Seq<char>, Seq<char>)>,
    pub name: Seq<char>,
    pub artist: Seq<char>,
    pub album: Seq<char>,
    pub duration: u64,
}

impl View for TrackInfo {
    type V = TrackModel;

    open spec fn view(&self) -> TrackModel {
        TrackModel {
            source: self.source,
            source_track_id: self.source_track_id@,
            provider_ids: view_pairs(self.provider_ids@),
            name: self.name@,
            artist: self.artist@,
            album: self.album@,
            duration: self.duration,
        }
    }
}

impl TrackInfo {
    /// A track with no provider-specific ids yet.
    pub fn new(
        source: MusicSource,
        source_track_id: &str,
        name: &str,
        artist: &str,
        album: &str,
        duration: u64,
    ) -> (r: TrackInfo)
        ensures
            r@ == (TrackModel {
                source,
                source_track_id: source_track_id@,
                provider_ids: Seq::empty(),
                name: name@,
                artist: artist@,
                album: album@,
                duration,
            }),
    {
        let t = TrackInfo {
            source,
            source_track_id: source_track_id.to_owned(),
            provider_ids: Vec::new(),
            name: name.to_owned(),
            artist: artist.to_owned(),
            album: album.to_owned(),
            duration,
        };
        proof {
            assert(view_pairs(t.provider_ids@) =~= Seq::<(Seq<char>, Seq<char>)>::empty());
        }
        t
    }

    /// Add or replace a provider-specific track id.
    pub fn with_provider_id(self, provider: &str, id: &str) -> (r: TrackInfo)
        ensures
            r@ == (TrackModel {
                provider_ids: assoc_upsert(self@.provider_ids, provider@, id@),
                ..self@
            }),
    {
        let mut t = self;
        assoc_put(&mut t.provider_ids, provider.to_owned(), id.to_owned());
        t
    }

    /// A provider-specific track id, if one is known.
    pub fn provider_id<'a>(&'a self, provider: &str) -> (r: Option<&'a String>)
        ensures
            match r {
                Some(v) => assoc_lookup(self@.provider_ids, provider@) == Some(v@),
                None => assoc_lookup(self@.provider_ids, provider@) is None,
            },
    {
        assoc_get(&self.provider_ids, provider)
    }

    /// Track duration in whole seconds, saturating at `u32::MAX`.
    pub fn duration_secs(&self) -> (r: u32)
        ensures
            r == if self.duration / 1000 <= u32::MAX {
                self.duration as int / 1000
            } else {
                u32::MAX as int
            },
    {
        let secs = self.duration / 1000;
        if secs > u32::MAX as u64 {
            u32::MAX
        } else {
            secs as u32
        }
    }
}

/// One playback snapshot from the poller. Never mutated, only superseded.
#[derive(Clone, Debug)]
pub struct PlaybackState {
    /// Whether music is currently playing.
    pub is_playing: bool,
    /// Current track, `None` when nothing is loaded.
    pub track: Option<TrackInfo>,
    /// Playback position in milliseconds.
    pub position: u64,
    /// Track duration in milliseconds.
    pub duration: u64,
    /// Monotonic-clock reading (milliseconds) when this snapshot was taken.
    pub updated_at: u64,
}

/// Mathematical image of a snapshot.
pub ghost struct PlaybackModel {
    pub is_playing: bool,
    pub track: Option<TrackModel>,
    pub position: u64,
    pub duration: u64,
    pub updated_at: u64,
}

impl View for PlaybackState {
    type V = PlaybackModel;

    open spec fn view(&self) -> PlaybackModel {
        PlaybackModel {
            is_playing: self.is_playing,
            track: match self.track {
                Some(t) => Some(t@),
                None => None,
            },
            position: self.position,
            duration: self.duration,
            updated_at: self.updated_at,
        }
    }
}

/// Position interpolated to `now`: a paused snapshot never advances, a
/// playing one advances by the elapsed time, clamped to the duration.
pub open spec fn spec_interpolated(s: PlaybackModel, now: u64) -> u64 {
    if !s.is_playing {
        s.position
    } else {
        let elapsed: int = if now >= s.updated_at {
            now - s.updated_at
        } else {
            0
        };
        let advanced: int = if s.position + elapsed <= u64::MAX {
            s.position + elapsed
        } else {
            u64::MAX as int
        };
        if advanced <= s.duration {
            advanced as u64
        } else {
            s.duration
        }
    }
}

/// Track identity differs between two snapshots, `None` to `Some`
/// transitions included.
pub open spec fn spec_track_changed(a: PlaybackModel, b: PlaybackModel) -> bool {
    match (a.track, b.track) {
        (Some(x), Some(y)) => x.source != y.source || x.source_track_id != y.source_track_id,
        (None, None) => false,
        _ => true,
    }
}

/// Same track, but the new position is further from the extrapolated one
/// than the threshold allows.
pub open spec fn spec_seek_occurred(a: PlaybackModel, b: PlaybackModel, threshold: u64) -> bool {
    if spec_track_changed(a, b) {
        false
    } else {
        let expected = spec_interpolated(a, b.updated_at);
        let actual = b.position;
        if actual > expected {
            actual - expected > threshold
        } else {
            expected - actual > threshold
        }
    }
}

impl PlaybackState {
    /// A snapshot observed at `updated_at` on the caller's monotonic clock.
    pub fn new(
        is_playing: bool,
        track: Option<TrackInfo>,
        position: u64,
        duration: u64,
        updated_at: u64,
    ) -> (r: PlaybackState)
        ensures
            r.is_playing == is_playing,
            r@.track == match track {
                Some(t) => Some(t@),
                None => None::<TrackModel>,
            },
            r.position == position,
            r.duration == duration,
            r.updated_at == updated_at,
    {
        PlaybackState { is_playing, track, position, duration, updated_at }
    }

    /// The stopped state used before the first poll arrives.
    pub fn stopped(updated_at: u64) -> (r: PlaybackState)
        ensures
            r.is_playing == false,
            r@.track is None,
            r.position == 0,
            r.duration == 0,
            r.updated_at == updated_at,
    {
        PlaybackState { is_playing: false, track: None, position: 0, duration: 0, updated_at }
    }

    /// Position interpolated to `now` on the same monotonic clock.
    pub fn interpolated_position(&self, now: u64) -> (r: u64)
        ensures
            r == spec_interpolated(self@, now),
    {
        if !self.is_playing {
            return self.position;
        }
        let elapsed: u64 = if now >= self.updated_at {
            now - self.updated_at
        } else {
            0
        };
        let advanced = self.position.saturating_add(elapsed);
        if advanced <= self.duration {
            advanced
        } else {
            self.duration
        }
    }

    /// Whether the track identity changed between `self` and `other`.
    pub fn track_changed(&self, other: &PlaybackState) -> (r: bool)
        ensures
            r == spec_track_changed(self@, other@),
    {
        match (&self.track, &other.track) {
            (Some(a), Some(b)) => a.source != b.source || a.source_track_id != b.source_track_id,
            (None, None) => false,
            _ => true,
        }
    }

    /// Whether play/pause toggled between `self` and `other`.
    pub fn playback_state_changed(&self, other: &PlaybackState) -> (r: bool)
        ensures
            r == (self.is_playing != other.is_playing),
    {
        self.is_playing != other.is_playing
    }

    /// Whether `other` sits further from the position extrapolated from
    /// `self` than `threshold` milliseconds. A changed track is never a
    /// seek.
    pub fn seek_occurred(&self, other: &PlaybackState, threshold: u64) -> (r: bool)
        ensures
            r == spec_seek_occurred(self@, other@, threshold),
    {
        if self.track_changed(other) {
            return false;
        }
        let expected = self.interpolated_position(other.updated_at);
        let actual = other.position;
        if actual > expected {
            actual - expected > threshold
        } else {
            expected - actual > threshold
        }
    }
}

} // verus!
