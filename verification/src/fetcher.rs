//! Decision core of the lyrics fetch orchestrator: which events trigger a
//! fetch, the cache-first check, the query built from a track, and the
//! walk along the provider chain. The surrounding application runs the
//! subscriber loop and the network calls.

use vstd::prelude::*;

use crate::cache::{CachedLyrics, TrackMetadata};
use crate::idmap::assoc_upsert;
use crate::lrc::{spec_parse_lines, spec_parse_meta, view_lines, LrcFile};
use crate::playback::{TrackInfo, TrackModel};
use crate::provider::{FetchedLyrics, LyricsQuery, LyricsResult};
use crate::sync::SyncEvent;

verus! {

/// The events that make the orchestrator resolve lyrics.
pub fn wants_fetch(event: &SyncEvent) -> (r: bool)
    ensures
        r == (event is TrackChanged || event is PlaybackStarted),
{
    match event {
        SyncEvent::TrackChanged { .. } => true,
        SyncEvent::PlaybackStarted { .. } => true,
        _ => false,
    }
}

/// On startup the orchestrator fetches proactively exactly when a track
/// is already active and no lyrics are loaded.
pub fn startup_fetch_needed(track_loaded: bool, lyrics_loaded: bool) -> (r: bool)
    ensures
        r == (track_loaded && !lyrics_loaded),
{
    track_loaded && !lyrics_loaded
}

/// The cache-first step: a cache hit is used directly only when it holds
/// synced content; anything else sends the orchestrator to the provider
/// chain.
pub fn cached_synced_lyrics(cached: &CachedLyrics) -> (r: Option<LrcFile>)
    ensures
        r is Some <==> cached.lyrics_type is Synced,
        r is Some ==> r->0.metadata@ == spec_parse_meta(cached.content@) && view_lines(
            r->0.lines@,
        ) == spec_parse_lines(cached.content@),
{
    match cached.to_lyrics_result() {
        LyricsResult::Synced(lrc) => Some(lrc),
        _ => None,
    }
}

/// The provider-id map a track's query carries: the source's own id
/// under the source's name, then every provider-specific id the track
/// already knows.
pub open spec fn spec_query_ids(t: TrackModel) -> Seq<(Seq<char>, Seq<char>)>
    decreases t.provider_ids.len(),
{
    if t.provider_ids.len() == 0 {
        assoc_upsert(Seq::empty(), t.source.spec_name(), t.source_track_id)
    } else {
        assoc_upsert(
            spec_query_ids(TrackModel { provider_ids: t.provider_ids.drop_last(), ..t }),
            t.provider_ids.last().0,
            t.provider_ids.last().1,
        )
    }
}

/// Build the lyrics query for a track: name, artist, album, duration in
/// seconds, and every provider-specific id known for the track.
pub fn build_query(track: &TrackInfo) -> (q: LyricsQuery)
    ensures
        q@.track_name == track@.name,
        q@.artist_name == track@.artist,
        q@.album_name == Some(track@.album),
        q@.duration_secs == Some(
            (if track@.duration / 1000 <= u32::MAX {
                track@.duration as int / 1000
            } else {
                u32::MAX as int
            }) as u32,
        ),
        q@.provider_ids == spec_query_ids(track@),
{
    let mut q = LyricsQuery::new(track.name.as_str(), track.artist.as_str()).with_album(
        track.album.as_str(),
    ).with_duration(track.duration_secs()).with_provider_id(
        track.source.as_str(),
        track.source_track_id.as_str(),
    );
    let mut k: usize = 0;
    proof {
        assert(track@.provider_ids.subrange(0, 0) =~= Seq::<(Seq<char>, Seq<char>)>::empty());
        assert(q@.provider_ids == spec_query_ids(
            TrackModel { provider_ids: track@.provider_ids.subrange(0, 0), ..track@ },
        ));
    }
    while k < track.provider_ids.len()
        invariant
            0 <= k <= track.provider_ids@.len(),
            q@.track_name == track@.name,
            q@.artist_name == track@.artist,
            q@.album_name == Some(track@.album),
            q@.duration_secs == Some(
                (if track@.duration / 1000 <= u32::MAX {
                    track@.duration as int / 1000
                } else {
                    u32::MAX as int
                }) as u32,
            ),
            q@.provider_ids == spec_query_ids(
                TrackModel { provider_ids: track@.provider_ids.subrange(0, k as int), ..track@ },
            ),
        decreases track.provider_ids@.len() - k,
    {
        proof {
            assert(track@.provider_ids[k as int] == (
                track.provider_ids@[k as int].0@,
                track.provider_ids@[k as int].1@,
            ));
            let pre = track@.provider_ids.subrange(0, k as int);
            let cur = track@.provider_ids.subrange(0, k + 1 as int);
            assert(cur.drop_last() =~= pre);
            assert(cur.last() == track@.provider_ids[k as int]);
        }
        q = q.with_provider_id(
            track.provider_ids[k].0.as_str(),
            track.provider_ids[k].1.as_str(),
        );
        k += 1;
    }
    proof {
        assert(track@.provider_ids.subrange(0, track@.provider_ids.len() as int)
            =~= track@.provider_ids);
    }
    q
}

/// The metadata a successful fetch is cached under.
pub fn cache_metadata(track: &TrackInfo) -> (m: TrackMetadata)
    ensures
        m.artist@ == track@.artist,
        m.track@ == track@.name,
        m@.album == Some(track@.album),
        m.duration_ms == Some(
            (if track@.duration <= i64::MAX {
                track@.duration as int
            } else {
                i64::MAX as int
            }) as i64,
        ),
{
    let duration_ms: i64 = if track.duration <= i64::MAX as u64 {
        track.duration as i64
    } else {
        i64::MAX
    };
    TrackMetadata {
        artist: track.artist.clone(),
        track: track.name.clone(),
        album: Some(track.album.clone()),
        duration_ms: Some(duration_ms),
    }
}

/// What the chain does with one provider's outcome: the first synced
/// result is committed at once; unsynced results, misses and provider
/// errors all continue to the next provider.
pub fn chain_commits(outcome: &Option<FetchedLyrics>) -> (r: bool)
    ensures
        r == match outcome {
            Some(f) => f.result is Synced,
            None => false,
        },
{
    match outcome {
        Some(f) => matches!(f.result, LyricsResult::Synced(_)),
        None => false,
    }
}

/// Walk a whole chain of outcomes (`None` marks a provider error): the
/// index of the first synced result, or nothing when the chain is
/// exhausted and lyrics-not-found must be published.
pub fn first_synced(outcomes: &Vec<Option<FetchedLyrics>>) -> (r: Option<usize>)
    ensures
        match r {
            Some(i) => 0 <= i < outcomes@.len() && (outcomes@[i as int] matches Some(f) && f.result
                is Synced) && forall|k: int|
                0 <= k < i ==> !(#[trigger] outcomes@[k] matches Some(f) && f.result is Synced),
            None => forall|k: int|
                0 <= k < outcomes@.len() ==> !(#[trigger] outcomes@[k] matches Some(f) && f.result
                    is Synced),
        },
{
    let mut i: usize = 0;
    while i < outcomes.len()
        invariant
            0 <= i <= outcomes@.len(),
            forall|k: int|
                0 <= k < i ==> !(#[trigger] outcomes@[k] matches Some(f) && f.result is Synced),
        decreases outcomes@.len() - i,
    {
        if chain_commits(&outcomes[i]) {
            return Some(i);
        }
        i += 1;
    }
    None
}

} // verus!
