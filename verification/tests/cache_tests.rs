use versualizer_core::cache::{
    format_timestamp, serialize_lrc, LyricsCache, LyricsType, TrackMetadata,
};
use versualizer_core::lrc::{LrcFile, LrcLine, LrcMetadata, LrcWord};
use versualizer_core::provider::LyricsResult;

#[test]
fn test_lyrics_type_as_str() {
    assert_eq!(LyricsType::Synced.as_str(), "synced");
    assert_eq!(LyricsType::Unsynced.as_str(), "unsynced");
}

#[test]
fn test_lyrics_type_from_str() {
    assert_eq!(LyricsType::from_str("synced"), Some(LyricsType::Synced));
    assert_eq!(LyricsType::from_str("unsynced"), Some(LyricsType::Unsynced));
    assert_eq!(LyricsType::from_str("unknown"), None);
    assert_eq!(LyricsType::from_str(""), None);
}

#[test]
fn test_format_timestamp_basic() {
    // 12 seconds, 340 milliseconds
    assert_eq!(format_timestamp(12_340), "00:12.34");
}

#[test]
fn test_format_timestamp_with_minutes() {
    // 1 minute, 30 seconds
    assert_eq!(format_timestamp(90_000), "01:30.00");
}

#[test]
fn test_format_timestamp_zero() {
    assert_eq!(format_timestamp(0), "00:00.00");
}

#[test]
fn test_format_timestamp_long_duration() {
    // 5 minutes, 45 seconds, 670 ms
    assert_eq!(format_timestamp(5 * 60 * 1000 + 45 * 1000 + 670), "05:45.67");
}

fn empty_metadata() -> LrcMetadata {
    LrcMetadata {
        title: None,
        artist: None,
        album: None,
        author: None,
        length: None,
        offset: 0,
    }
}

#[test]
fn test_serialize_lrc_simple() {
    let lrc = LrcFile {
        metadata: empty_metadata(),
        lines: vec![
            LrcLine {
                start_time: 5_000,
                text: "Hello world".to_string(),
                words: None,
            },
            LrcLine {
                start_time: 10_000,
                text: "Second line".to_string(),
                words: None,
            },
        ],
    };

    let serialized = serialize_lrc(&lrc);
    assert!(serialized.contains("[00:05.00]Hello world"));
    assert!(serialized.contains("[00:10.00]Second line"));
}

#[test]
fn test_serialize_lrc_with_metadata() {
    let lrc = LrcFile {
        metadata: LrcMetadata {
            title: Some("Test Song".to_string()),
            artist: Some("Test Artist".to_string()),
            album: Some("Test Album".to_string()),
            author: None,
            length: None,
            offset: 0,
        },
        lines: vec![LrcLine {
            start_time: 5_000,
            text: "Lyrics here".to_string(),
            words: None,
        }],
    };

    let serialized = serialize_lrc(&lrc);
    assert!(serialized.contains("[ti:Test Song]"));
    assert!(serialized.contains("[ar:Test Artist]"));
    assert!(serialized.contains("[al:Test Album]"));
}

#[test]
fn test_serialize_lrc_with_offset() {
    // The offset was already applied to the line times at parse time, so
    // the serializer writes the shifted times and no offset tag: writing
    // both would make a re-parse shift the times a second time.
    let lrc = LrcFile {
        metadata: LrcMetadata {
            offset: 500,
            ..empty_metadata()
        },
        lines: vec![LrcLine {
            start_time: 5_000,
            text: "Test".to_string(),
            words: None,
        }],
    };

    let serialized = serialize_lrc(&lrc);
    assert!(!serialized.contains("[offset:"));
    assert!(serialized.contains("[00:05.00]Test"));
}

#[test]
fn test_serialize_lrc_enhanced_format() {
    let lrc = LrcFile {
        metadata: empty_metadata(),
        lines: vec![LrcLine {
            start_time: 5_000,
            text: "Hello world".to_string(),
            words: Some(vec![
                LrcWord {
                    start_time: 5_000,
                    end_time: Some(5_500),
                    text: "Hello".to_string(),
                },
                LrcWord {
                    start_time: 5_500,
                    end_time: Some(6_000),
                    text: "world".to_string(),
                },
            ]),
        }],
    };

    let serialized = serialize_lrc(&lrc);
    assert!(serialized.contains("[00:05.00]"));
    assert!(serialized.contains("<00:05.00>"));
    assert!(serialized.contains("Hello"));
    assert!(serialized.contains("<00:05.50>"));
    assert!(serialized.contains("world"));
}

fn sample_cached(lyrics_type: LyricsType, content: &str) -> versualizer_core::cache::CachedLyrics {
    versualizer_core::cache::CachedLyrics {
        id: 1,
        artist: "Artist".to_string(),
        track: "Track".to_string(),
        album: Some("Album".to_string()),
        duration_ms: Some(180_000),
        provider: "lrclib".to_string(),
        provider_id: "123".to_string(),
        lyrics_type,
        content: content.to_string(),
        fetched_at: 1_700_000_000,
    }
}

#[test]
fn test_cached_lyrics_to_lyrics_result_synced() {
    let cached = sample_cached(LyricsType::Synced, "[00:05.00]Test lyrics");
    let result = cached.to_lyrics_result();
    assert!(result.is_synced());
    assert!(result.is_found());
}

#[test]
fn test_cached_lyrics_to_lyrics_result_unsynced() {
    let cached = sample_cached(LyricsType::Unsynced, "Plain text lyrics");
    let result = cached.to_lyrics_result();
    assert!(!result.is_synced());
    assert!(result.is_found());
    assert_eq!(result.text(), Some("Plain text lyrics".to_string()));
}

fn meta(artist: &str, track: &str, album: &str) -> TrackMetadata {
    TrackMetadata {
        artist: artist.to_string(),
        track: track.to_string(),
        album: Some(album.to_string()),
        duration_ms: Some(180_000),
    }
}

#[test]
fn test_store_and_get_by_provider_id() {
    let mut cache = LyricsCache::new();
    let id = cache
        .store(
            "spotify",
            "track123",
            &LyricsResult::Unsynced("words".to_string()),
            &meta("Artist", "Track", "Album"),
            "lrclib",
            "99",
            1_000,
        )
        .unwrap();
    let row = cache.get_by_provider_id("spotify", "track123").unwrap();
    assert_eq!(row.id, id);
    assert_eq!(row.content, "words");
    assert_eq!(row.provider, "lrclib");
    assert_eq!(row.provider_id, "99");
    assert!(cache.get_by_provider_id("spotify", "other").is_none());
}

#[test]
fn test_store_same_key_twice_updates_row() {
    // Storing the same (artist, track, album) twice with different
    // content updates the single row and the provider-id lookup sees the
    // newer content.
    let mut cache = LyricsCache::new();
    let id1 = cache
        .store(
            "spotify",
            "track123",
            &LyricsResult::Unsynced("old words".to_string()),
            &meta("Artist", "Track", "Album"),
            "lrclib",
            "1",
            1_000,
        )
        .unwrap();
    let id2 = cache
        .store(
            "spotify",
            "track123",
            &LyricsResult::Unsynced("new words".to_string()),
            &meta("Artist", "Track", "Album"),
            "lrclib",
            "2",
            2_000,
        )
        .unwrap();
    assert_eq!(id1, id2);
    assert_eq!(cache.len(), 1);
    let row = cache.get_by_provider_id("spotify", "track123").unwrap();
    assert_eq!(row.content, "new words");
}

#[test]
fn test_store_rejects_not_found() {
    let mut cache = LyricsCache::new();
    let r = cache.store(
        "spotify",
        "track123",
        &LyricsResult::NotFound,
        &meta("Artist", "Track", "Album"),
        "lrclib",
        "1",
        1_000,
    );
    assert!(matches!(
        r,
        Err(versualizer_core::error::CoreError::LyricsNotFound { .. })
    ));
    assert_eq!(cache.len(), 0);
}

#[test]
fn test_get_by_metadata_case_insensitive() {
    let mut cache = LyricsCache::new();
    cache
        .store(
            "spotify",
            "t1",
            &LyricsResult::Unsynced("words".to_string()),
            &meta("The Artist", "The Track", "The Album"),
            "lrclib",
            "1",
            1_000,
        )
        .unwrap();
    let row = cache
        .get_by_metadata("the artist", "THE TRACK", Some("the album"))
        .unwrap();
    assert_eq!(row.artist, "The Artist");
    assert!(cache
        .get_by_metadata("someone else", "THE TRACK", Some("the album"))
        .is_none());
}

#[test]
fn test_get_by_metadata_most_recent_without_album() {
    let mut cache = LyricsCache::new();
    cache
        .store(
            "spotify",
            "t1",
            &LyricsResult::Unsynced("older".to_string()),
            &meta("Artist", "Track", "Album One"),
            "lrclib",
            "1",
            1_000,
        )
        .unwrap();
    cache
        .store(
            "spotify",
            "t2",
            &LyricsResult::Unsynced("newer".to_string()),
            &meta("Artist", "Track", "Album Two"),
            "lrclib",
            "2",
            2_000,
        )
        .unwrap();
    let row = cache.get_by_metadata("artist", "track", None).unwrap();
    assert_eq!(row.content, "newer");
}

#[test]
fn test_cleanup_removes_old_rows_and_mappings() {
    let mut cache = LyricsCache::new();
    cache
        .store(
            "spotify",
            "old",
            &LyricsResult::Unsynced("old".to_string()),
            &meta("A", "Old Song", "X"),
            "lrclib",
            "1",
            1_000,
        )
        .unwrap();
    let now = 1_000 + 40 * 86_400;
    cache
        .store(
            "spotify",
            "new",
            &LyricsResult::Unsynced("new".to_string()),
            &meta("A", "New Song", "X"),
            "lrclib",
            "2",
            now,
        )
        .unwrap();
    let deleted = cache.cleanup(30, now);
    assert_eq!(deleted, 1);
    assert_eq!(cache.len(), 1);
    assert!(cache.get_by_provider_id("spotify", "old").is_none());
    assert!(cache.get_by_provider_id("spotify", "new").is_some());
}

#[test]
fn test_store_synced_serializes_content() {
    let mut cache = LyricsCache::new();
    let lrc = LrcFile::parse("[00:05.00]Hello").unwrap();
    cache
        .store(
            "spotify",
            "t1",
            &LyricsResult::Synced(lrc),
            &meta("Artist", "Track", "Album"),
            "lrclib",
            "1",
            1_000,
        )
        .unwrap();
    let row = cache.get_by_provider_id("spotify", "t1").unwrap();
    assert_eq!(row.lyrics_type, LyricsType::Synced);
    assert!(row.content.contains("[00:05.00]Hello"));
    let back = row.to_lyrics_result();
    assert!(back.is_synced());
}
