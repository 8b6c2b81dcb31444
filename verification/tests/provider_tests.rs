use versualizer_core::lrc::LrcFile;
use versualizer_core::lrclib::{
    exact_url, full_search_pick, track_search_pick, LrclibCandidate,
};
use versualizer_core::provider::{FetchedLyrics, LyricsQuery, LyricsResult};
use versualizer_core::sync::SyncEvent;

#[test]
fn test_lyrics_query_new() {
    let query = LyricsQuery::new("Test Song", "Test Artist");

    assert_eq!(query.track_name, "Test Song");
    assert_eq!(query.artist_name, "Test Artist");
    assert!(query.album_name.is_none());
    assert!(query.duration_secs.is_none());
    assert!(query.provider_ids.is_empty());
}

#[test]
fn test_lyrics_query_with_album() {
    let query = LyricsQuery::new("Song", "Artist").with_album("Album");

    assert_eq!(query.album_name, Some("Album".to_string()));
}

#[test]
fn test_lyrics_query_with_duration() {
    let query = LyricsQuery::new("Song", "Artist").with_duration(180);

    assert_eq!(query.duration_secs, Some(180));
}

#[test]
fn test_lyrics_query_with_provider_id() {
    let query = LyricsQuery::new("Song", "Artist")
        .with_provider_id("spotify", "spotify_track_123")
        .with_provider_id("lrclib", "12345");

    assert_eq!(
        query.provider_id("spotify"),
        Some(&"spotify_track_123".to_string())
    );
    assert_eq!(query.provider_id("lrclib"), Some(&"12345".to_string()));
    assert_eq!(query.provider_id("unknown"), None);
}

#[test]
fn test_lyrics_query_spotify_track_id() {
    let query =
        LyricsQuery::new("Song", "Artist").with_provider_id("spotify", "4uLU6hMCjMI75M1A2tKUQC");

    assert_eq!(
        query.spotify_track_id(),
        Some(&"4uLU6hMCjMI75M1A2tKUQC".to_string())
    );
}

#[test]
fn test_lyrics_query_spotify_track_id_missing() {
    let query = LyricsQuery::new("Song", "Artist");

    assert!(query.spotify_track_id().is_none());
}

#[test]
fn test_lyrics_query_chained_builder() {
    let query = LyricsQuery::new("Test Song", "Test Artist")
        .with_album("Test Album")
        .with_duration(200)
        .with_provider_id("spotify", "abc123");

    assert_eq!(query.track_name, "Test Song");
    assert_eq!(query.artist_name, "Test Artist");
    assert_eq!(query.album_name, Some("Test Album".to_string()));
    assert_eq!(query.duration_secs, Some(200));
    assert_eq!(query.provider_id("spotify"), Some(&"abc123".to_string()));
}

#[test]
fn test_lyrics_result_not_found() {
    let result = LyricsResult::NotFound;

    assert!(!result.is_found());
    assert!(!result.is_synced());
    assert!(result.as_synced().is_none());
    assert!(result.text().is_none());
}

#[test]
fn test_lyrics_result_unsynced() {
    let result = LyricsResult::Unsynced("Plain text lyrics\nLine 2".to_string());

    assert!(result.is_found());
    assert!(!result.is_synced());
    assert!(result.as_synced().is_none());
    assert_eq!(result.text(), Some("Plain text lyrics\nLine 2".to_string()));
}

#[test]
fn test_lyrics_result_synced() {
    let lrc = LrcFile::parse("[00:05.00]First line\n[00:10.00]Second line").unwrap();
    let result = LyricsResult::Synced(lrc);

    assert!(result.is_found());
    assert!(result.is_synced());
    assert!(result.as_synced().is_some());

    let text = result.text().unwrap();
    assert!(text.contains("First line"));
    assert!(text.contains("Second line"));
}

#[test]
fn test_lyrics_result_synced_text_extraction() {
    let lrc = LrcFile::parse("[00:05.00]Line 1\n[00:10.00]Line 2\n[00:15.00]Line 3").unwrap();
    let result = LyricsResult::Synced(lrc);

    let text = result.text().unwrap();
    assert_eq!(text, "Line 1\nLine 2\nLine 3");
}

#[test]
fn test_fetched_lyrics_struct() {
    let lrc = LrcFile::parse("[00:05.00]Test").unwrap();
    let fetched = FetchedLyrics {
        result: LyricsResult::Synced(lrc),
        provider_id: "12345".to_string(),
    };

    assert!(fetched.result.is_synced());
    assert_eq!(fetched.provider_id, "12345");
}

fn candidate(id: i64, duration_ms: Option<u64>, synced: bool, plain: bool) -> LrclibCandidate {
    LrclibCandidate {
        id,
        artist_name: "Artist".to_string(),
        duration_ms,
        instrumental: false,
        plain_lyrics: if plain {
            Some("plain words".to_string())
        } else {
            None
        },
        synced_lyrics: if synced {
            Some("[00:05.00]timed words".to_string())
        } else {
            None
        },
    }
}

#[test]
fn test_track_search_keeps_candidate_within_tolerance() {
    // No exact match happened; one candidate lies within the 2 s band.
    let results = vec![
        candidate(1, Some(120_000), true, false), // 60 s off: filtered out
        candidate(2, Some(181_500), true, false), // 1.5 s off: kept
    ];
    let picked = track_search_pick(results, Some(180)).unwrap();
    assert_eq!(picked.provider_id, "2");
    assert!(picked.result.is_synced());
}

#[test]
fn test_track_search_falls_through_without_usable_lyrics() {
    // The tolerance-filtered candidates carry no lyrics at all, so the
    // caller must fall through to the free-text search.
    let results = vec![
        candidate(1, Some(180_000), false, false),
        candidate(2, Some(181_000), false, false),
    ];
    assert!(track_search_pick(results, Some(180)).is_none());
}

#[test]
fn test_track_search_prefers_synced_over_closer_unsynced() {
    let results = vec![
        candidate(1, Some(180_000), false, true), // exact duration, plain only
        candidate(2, Some(181_900), true, false), // farther, but synced
    ];
    let picked = track_search_pick(results, Some(180)).unwrap();
    assert_eq!(picked.provider_id, "2");
}

#[test]
fn test_full_search_reports_not_found_on_empty() {
    let r = full_search_pick(Vec::new(), Some(180), "Song", "Artist");
    assert!(matches!(
        r,
        Err(versualizer_core::error::CoreError::LyricsNotFound { .. })
    ));
}

#[test]
fn test_full_search_picks_closest_duration() {
    let results = vec![
        candidate(1, Some(240_000), true, false), // 60 s off
        candidate(2, Some(185_000), true, false), // 5 s off
    ];
    let picked = full_search_pick(results, Some(180), "Song", "Artist").unwrap();
    assert_eq!(picked.provider_id, "2");
}

#[test]
fn test_instrumental_candidate_is_not_found() {
    let mut c = candidate(7, Some(180_000), true, true);
    c.instrumental = true;
    let results = vec![c];
    let picked = full_search_pick(results, Some(180), "Song", "Artist").unwrap();
    assert!(matches!(picked.result, LyricsResult::NotFound));
    assert_eq!(picked.provider_id, "7");
}

#[test]
fn test_exact_url_encodes_names() {
    let query = LyricsQuery::new("My Song", "An Artist").with_duration(200);
    let url = exact_url(&query);
    assert_eq!(
        url,
        "https://lrclib.net/api/get?artist_name=An%20Artist&track_name=My%20Song&duration=200"
    );
}

#[test]
fn test_chain_takes_first_synced() {
    let synced = FetchedLyrics {
        result: LyricsResult::Synced(LrcFile::parse("[00:05.00]Hi").unwrap()),
        provider_id: "a".to_string(),
    };
    let unsynced = FetchedLyrics {
        result: LyricsResult::Unsynced("plain".to_string()),
        provider_id: "b".to_string(),
    };
    let outcomes = vec![None, Some(unsynced), Some(synced)];
    assert_eq!(versualizer_core::fetcher::first_synced(&outcomes), Some(2));
}

#[test]
fn test_chain_exhausted_reports_none() {
    let unsynced = FetchedLyrics {
        result: LyricsResult::Unsynced("plain".to_string()),
        provider_id: "b".to_string(),
    };
    let outcomes = vec![None, Some(unsynced)];
    assert_eq!(versualizer_core::fetcher::first_synced(&outcomes), None);
}

#[test]
fn test_fetch_events() {
    let e = SyncEvent::PositionSync { position: 1 };
    assert!(!versualizer_core::fetcher::wants_fetch(&e));
    assert!(versualizer_core::fetcher::startup_fetch_needed(true, false));
    assert!(!versualizer_core::fetcher::startup_fetch_needed(true, true));
}
