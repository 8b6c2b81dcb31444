use versualizer_core::playback::{PlaybackState, TrackInfo};
use versualizer_core::source::MusicSource;
use versualizer_core::sync::{SyncEngineState, SyncEvent};

#[test]
fn test_playback_state_default() {
    let state = PlaybackState::stopped(0);
    assert!(!state.is_playing);
    assert!(state.track.is_none());
    assert_eq!(state.position, 0);
    assert_eq!(state.duration, 0);
}

#[test]
fn test_playback_state_new() {
    let track = TrackInfo::new(
        MusicSource::Spotify,
        "track123",
        "Test Song",
        "Test Artist",
        "Test Album",
        180_000,
    );

    let state = PlaybackState::new(true, Some(track), 30_000, 180_000, 0);

    assert!(state.is_playing);
    assert!(state.track.is_some());
    assert_eq!(state.position, 30_000);
    assert_eq!(state.duration, 180_000);
}

#[test]
fn test_interpolated_position_paused() {
    let state = PlaybackState::new(false, None, 30_000, 180_000, 1_000);

    // When paused, position should not advance.
    assert_eq!(state.interpolated_position(6_000), 30_000);
}

#[test]
fn test_interpolated_position_clamped() {
    let state = PlaybackState::new(true, None, 178_000, 180_000, 1_000);

    // Ten seconds later the position is clamped to the duration.
    assert_eq!(state.interpolated_position(11_000), 180_000);
}

#[test]
fn test_track_changed_same_track() {
    let track = TrackInfo::new(
        MusicSource::Spotify,
        "track123",
        "Song",
        "Artist",
        "Album",
        180_000,
    );

    let state1 = PlaybackState::new(true, Some(track.clone()), 0, 180_000, 0);
    let state2 = PlaybackState::new(true, Some(track), 30_000, 180_000, 30_000);

    assert!(!state1.track_changed(&state2));
}

#[test]
fn test_track_changed_different_track() {
    let track1 = TrackInfo::new(
        MusicSource::Spotify,
        "track123",
        "Song 1",
        "Artist",
        "Album",
        180_000,
    );
    let track2 = TrackInfo::new(
        MusicSource::Spotify,
        "track456",
        "Song 2",
        "Artist",
        "Album",
        200_000,
    );

    let state1 = PlaybackState::new(true, Some(track1), 0, 180_000, 0);
    let state2 = PlaybackState::new(true, Some(track2), 0, 200_000, 0);

    assert!(state1.track_changed(&state2));
}

#[test]
fn test_track_changed_none_to_some() {
    let track = TrackInfo::new(
        MusicSource::Spotify,
        "track123",
        "Song",
        "Artist",
        "Album",
        180_000,
    );

    let state1 = PlaybackState::stopped(0);
    let state2 = PlaybackState::new(true, Some(track), 0, 180_000, 0);

    assert!(state1.track_changed(&state2));
}

#[test]
fn test_track_changed_both_none() {
    let state1 = PlaybackState::stopped(0);
    let state2 = PlaybackState::stopped(0);

    assert!(!state1.track_changed(&state2));
}

#[test]
fn test_playback_state_changed() {
    let state1 = PlaybackState::new(true, None, 0, 0, 0);
    let state2 = PlaybackState::new(false, None, 0, 0, 0);

    assert!(state1.playback_state_changed(&state2));
    assert!(!state1.playback_state_changed(&state1));
}

#[test]
fn test_track_info_new() {
    let track = TrackInfo::new(
        MusicSource::Spotify,
        "track123",
        "Test Song",
        "Test Artist",
        "Test Album",
        180_000,
    );

    assert_eq!(track.source, MusicSource::Spotify);
    assert_eq!(track.source_track_id, "track123");
    assert_eq!(track.name, "Test Song");
    assert_eq!(track.artist, "Test Artist");
    assert_eq!(track.album, "Test Album");
    assert_eq!(track.duration, 180_000);
    assert!(track.provider_ids.is_empty());
}

#[test]
fn test_track_info_with_provider_id() {
    let track = TrackInfo::new(
        MusicSource::Spotify,
        "track123",
        "Song",
        "Artist",
        "Album",
        180_000,
    )
    .with_provider_id("spotify", "spotify_track_id")
    .with_provider_id("lrclib", "lrclib_id");

    assert_eq!(
        track.provider_id("spotify"),
        Some(&"spotify_track_id".to_string())
    );
    assert_eq!(track.provider_id("lrclib"), Some(&"lrclib_id".to_string()));
}

#[test]
fn test_track_info_duration_secs() {
    let track = TrackInfo::new(
        MusicSource::Spotify,
        "track123",
        "Song",
        "Artist",
        "Album",
        183_000, // 3 minutes 3 seconds
    );

    assert_eq!(track.duration_secs(), 183);
}

fn track(id: &str) -> TrackInfo {
    TrackInfo::new(MusicSource::Spotify, id, "Song", "Artist", "Album", 180_000)
}

#[test]
fn test_diff_position_sync_within_threshold() {
    // Previous snapshot: track A, playing, 10 s, observed at t0 = 0.
    let mut engine = SyncEngineState::new(0);
    engine.update_state(PlaybackState::new(true, Some(track("A")), 10_000, 180_000, 0));
    // New snapshot 100 ms later at 10.1 s: consistent with elapsed time.
    let events = engine.update_state(PlaybackState::new(
        true,
        Some(track("A")),
        10_100,
        180_000,
        100,
    ));
    assert_eq!(events.len(), 1);
    assert!(matches!(events[0], SyncEvent::PositionSync { position: 10_100 }));
}

#[test]
fn test_diff_seek_beyond_threshold() {
    let mut engine = SyncEngineState::new(0);
    engine.update_state(PlaybackState::new(true, Some(track("A")), 10_000, 180_000, 0));
    // New snapshot 100 ms later at 40 s: the 2 s threshold is exceeded.
    let events = engine.update_state(PlaybackState::new(
        true,
        Some(track("A")),
        40_000,
        180_000,
        100,
    ));
    assert_eq!(events.len(), 1);
    assert!(matches!(events[0], SyncEvent::SeekOccurred { position: 40_000 }));
}

#[test]
fn test_diff_track_change_wins_over_seek() {
    let mut engine = SyncEngineState::new(0);
    engine.update_state(PlaybackState::new(true, Some(track("A")), 10_000, 180_000, 0));
    // A different track at a wildly different position is a track change.
    let events = engine.update_state(PlaybackState::new(
        true,
        Some(track("B")),
        40_000,
        180_000,
        100,
    ));
    assert_eq!(events.len(), 2);
    assert!(matches!(
        &events[0],
        SyncEvent::TrackChanged { track: t, position: 40_000 } if t.source_track_id == "B"
    ));
    assert!(matches!(events[1], SyncEvent::PlaybackResumed { position: 40_000 }));
}

#[test]
fn test_diff_track_change_while_paused_is_not_a_seek() {
    let mut engine = SyncEngineState::new(0);
    engine.update_state(PlaybackState::new(false, Some(track("A")), 10_000, 180_000, 0));
    let events = engine.update_state(PlaybackState::new(
        false,
        Some(track("B")),
        90_000,
        180_000,
        100,
    ));
    assert_eq!(events.len(), 2);
    assert!(matches!(&events[0], SyncEvent::TrackChanged { .. }));
    assert!(matches!(events[1], SyncEvent::PlaybackPaused { position: 90_000 }));
}

#[test]
fn test_diff_pause_and_resume() {
    let mut engine = SyncEngineState::new(0);
    engine.update_state(PlaybackState::new(true, Some(track("A")), 10_000, 180_000, 0));
    let paused = engine.update_state(PlaybackState::new(
        false,
        Some(track("A")),
        10_100,
        180_000,
        100,
    ));
    assert_eq!(paused.len(), 1);
    assert!(matches!(paused[0], SyncEvent::PlaybackPaused { position: 10_100 }));
    let resumed = engine.update_state(PlaybackState::new(
        true,
        Some(track("A")),
        10_100,
        180_000,
        5_000,
    ));
    assert_eq!(resumed.len(), 1);
    assert!(matches!(resumed[0], SyncEvent::PlaybackResumed { position: 10_100 }));
}

#[test]
fn test_diff_stop_clears_track() {
    let mut engine = SyncEngineState::new(0);
    engine.update_state(PlaybackState::new(true, Some(track("A")), 10_000, 180_000, 0));
    let events = engine.update_state(PlaybackState::stopped(100));
    assert_eq!(events.len(), 1);
    assert!(matches!(events[0], SyncEvent::PlaybackStopped));
}

#[test]
fn test_lyrics_events() {
    let mut engine = SyncEngineState::new(0);
    let lrc = versualizer_core::lrc::LrcFile::parse("[00:05.00]Hi").unwrap();
    let loaded = engine.set_lyrics(lrc);
    assert_eq!(loaded.len(), 1);
    assert!(matches!(&loaded[0], SyncEvent::LyricsLoaded { .. }));
    let missing = engine.set_no_lyrics();
    assert_eq!(missing.len(), 1);
    assert!(matches!(missing[0], SyncEvent::LyricsNotFound));
    assert!(engine.lyrics.is_none());
}

#[test]
fn test_track_change_clears_lyrics() {
    let mut engine = SyncEngineState::new(0);
    engine.update_state(PlaybackState::new(true, Some(track("A")), 0, 180_000, 0));
    let lrc = versualizer_core::lrc::LrcFile::parse("[00:05.00]Hi").unwrap();
    engine.set_lyrics(lrc);
    assert!(engine.lyrics.is_some());
    engine.update_state(PlaybackState::new(true, Some(track("B")), 0, 180_000, 100));
    assert!(engine.lyrics.is_none());
}
