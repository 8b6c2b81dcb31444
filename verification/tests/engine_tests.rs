use versualizer_core::config::{
    build_config_template, clamp_max_lines, AnimationConfig, LayoutConfig, LyricsConfig,
    LyricsProviderType, MusicConfig, SpotifyProviderConfig, UiConfig,
};
use versualizer_core::karaoke::{LocalPlaybackTimer, PrecomputedLyrics, INTRO_LINE_INDEX};
use versualizer_core::lrc::LrcFile;
use versualizer_core::source::MusicSource;
use versualizer_core::spotify::{
    check_auth_status, check_not_found, extract_track_id, parse_synced_lyrics,
    parse_unsynced_lyrics, AuthCheck, SpotifyLyrics, SpotifyLyricsLine,
};
use std::collections::HashSet;
use versualizer_core::poller::{backoff_ms, compensated_position_ms};
use versualizer_core::provider::LyricsQuery;
use versualizer_core::lrclib::full_search_url;
use versualizer_core::spotify::validate_query;

#[test]
fn test_music_source_as_str() {
    assert_eq!(MusicSource::Spotify.as_str(), "spotify");
    assert_eq!(MusicSource::Mpris.as_str(), "mpris");
    assert_eq!(MusicSource::WindowsMedia.as_str(), "windows_media");
    assert_eq!(MusicSource::YouTubeMusic.as_str(), "youtube_music");
}

#[test]
fn test_music_source_display() {
    assert_eq!(MusicSource::Spotify.as_str(), "spotify");
    assert_eq!(MusicSource::Mpris.as_str(), "mpris");
    assert_eq!(MusicSource::WindowsMedia.as_str(), "windows_media");
    assert_eq!(MusicSource::YouTubeMusic.as_str(), "youtube_music");
}

#[test]
fn test_music_source_equality() {
    assert_eq!(MusicSource::Spotify, MusicSource::Spotify);
    assert_ne!(MusicSource::Spotify, MusicSource::Mpris);
}

#[test]
fn test_music_source_clone() {
    let source = MusicSource::Spotify;
    let cloned = source;
    assert_eq!(source, cloned);
}

#[test]
fn test_music_source_hash() {

    let mut set = HashSet::new();
    set.insert(MusicSource::Spotify);
    set.insert(MusicSource::Mpris);
    set.insert(MusicSource::Spotify); // Duplicate

    assert_eq!(set.len(), 2);
    assert!(set.contains(&MusicSource::Spotify));
    assert!(set.contains(&MusicSource::Mpris));
}

#[test]
fn test_music_config_default() {
    let config = MusicConfig::default();
    assert_eq!(config.source, MusicSource::Spotify);
}

#[test]
fn test_lyrics_config_default() {
    let config = LyricsConfig::default();
    assert_eq!(config.providers, vec![LyricsProviderType::Lrclib]);
}

#[test]
fn test_layout_config_default() {
    let config = LayoutConfig::default();
    assert_eq!(config.max_lines, 3);
}

#[test]
fn test_animation_config_default() {
    let config = AnimationConfig::default();
    assert_eq!(config.framerate, 60);
    assert_eq!(config.drift_threshold_ms, 200);
}

#[test]
fn test_ui_config_default() {
    let config = UiConfig::default();
    assert_eq!(config.layout.max_lines, 3);
    assert_eq!(config.animation.framerate, 60);
}

#[test]
fn test_clamp_max_lines() {
    assert_eq!(clamp_max_lines(0), 1);
    assert_eq!(clamp_max_lines(2), 2);
    assert_eq!(clamp_max_lines(9), 3);
}

#[test]
fn test_config_template_sections() {
    let t = build_config_template(None);
    assert!(t.contains("[music]"));
    assert!(t.contains("[lyrics]"));
    assert!(t.contains("[ui.layout]"));
    let with = build_config_template(Some(&vec!["[providers.test]\nkey = 1\n\n".to_string()]));
    assert!(with.contains("[providers.test]"));
    // Provider sections sit between the base and the display sections.
    assert!(with.find("[providers.test]").unwrap() < with.find("[ui.layout]").unwrap());
}

#[test]
fn test_spotify_provider_config_validate() {
    let mut config = SpotifyProviderConfig {
        client_id: "id".to_string(),
        client_secret: "shh".to_string(),
        oauth_redirect_uri: "http://127.0.0.1:8888/callback".to_string(),
        poll_interval_ms: 1000,
        sp_dc: None,
        secret_key_url: None,
    };
    assert!(config.validate().is_ok());
    config.client_id = String::new();
    assert!(matches!(
        config.validate(),
        Err(versualizer_core::error::CoreError::ConfigMissingField { .. })
    ));
}

#[test]
fn test_extract_track_id_shapes() {
    assert_eq!(
        extract_track_id("spotify:track:4iV5W9uYEdYUVa79Axb7Rh").as_deref(),
        Some("4iV5W9uYEdYUVa79Axb7Rh")
    );
    assert_eq!(
        extract_track_id("https://open.spotify.com/track/4iV5W9uYEdYUVa79Axb7Rh?si=xyz").as_deref(),
        Some("4iV5W9uYEdYUVa79Axb7Rh")
    );
    assert_eq!(
        extract_track_id("4iV5W9uYEdYUVa79Axb7Rh").as_deref(),
        Some("4iV5W9uYEdYUVa79Axb7Rh")
    );
    assert_eq!(extract_track_id("not-a-track-id"), None);
}

#[test]
fn test_spotify_status_decisions() {
    assert!(matches!(check_auth_status(401), AuthCheck::InvalidateAndFail));
    assert!(matches!(check_auth_status(500), AuthCheck::Fail));
    assert!(matches!(check_auth_status(200), AuthCheck::Proceed));
    let miss = check_not_found(404, "tid").unwrap();
    assert_eq!(miss.provider_id, "tid");
    assert!(check_not_found(200, "tid").is_none());
}

#[test]
fn test_validate_query_requires_cookie_and_id() {
    let query = LyricsQuery::new("Song", "Artist").with_provider_id(
        "spotify",
        "spotify:track:4iV5W9uYEdYUVa79Axb7Rh",
    );
    // Unconfigured backend: a provider failure, not a panic.
    assert!(matches!(
        validate_query(false, &query),
        Err(versualizer_core::error::CoreError::LyricsProviderFailed { .. })
    ));
    // Configured, with a usable id.
    assert_eq!(
        validate_query(true, &query).unwrap(),
        "4iV5W9uYEdYUVa79Axb7Rh"
    );
    // Configured, but no Spotify id at all.
    let bare = LyricsQuery::new("Song", "Artist");
    assert!(matches!(
        validate_query(true, &bare),
        Err(versualizer_core::error::CoreError::LyricsProviderFailed { .. })
    ));
}

#[test]
fn test_precomputed_lyrics_from_lrc() {
    let lrc = LrcFile::parse("[00:05.00]One\n[00:10.00]Two\n[00:15.00]\n[00:20.00]Four").unwrap();
    let pre = PrecomputedLyrics::from_lrc(&lrc);
    assert_eq!(pre.lines.len(), 4);
    assert_eq!(pre.lines[0].start_time_ms, 5_000);
    assert_eq!(pre.lines[0].duration_ms, 5_000);
    // The last line gets the five-second default.
    assert_eq!(pre.lines[3].duration_ms, 5_000);
    // A blank line becomes the music note.
    assert_eq!(pre.lines[2].text, "\u{266a}");
    assert_eq!(pre.intro_duration_ms, 5_000);
    assert!(pre.has_intro());
}

#[test]
fn test_line_index_at_with_intro() {
    let lrc = LrcFile::parse("[00:05.00]One\n[00:10.00]Two\n[00:15.00]Three").unwrap();
    let pre = PrecomputedLyrics::from_lrc(&lrc);
    assert_eq!(pre.line_index_at(0), INTRO_LINE_INDEX);
    assert_eq!(pre.line_index_at(7_000), 0);
    assert_eq!(pre.line_index_at(12_000), 1);
    assert_eq!(pre.line_index_at(20_000), 2);
}

#[test]
fn test_local_timer_interpolates_only_while_playing() {
    let mut timer = LocalPlaybackTimer::new(0);
    assert_eq!(timer.interpolated_position_ms(10_000), 0);
    timer.set_playing(true, 10_000);
    assert_eq!(timer.interpolated_position_ms(12_500), 2_500);
    timer.set_playing(false, 12_500);
    assert_eq!(timer.interpolated_position_ms(99_000), 2_500);
}

#[test]
fn test_local_timer_drift_correction() {
    let mut timer = LocalPlaybackTimer::new(0);
    timer.hard_sync(10_000, 0);
    // Within the threshold the local clock is trusted.
    assert!(!timer.drift_correct(10_200, 0));
    assert_eq!(timer.interpolated_position_ms(0), 10_000);
    // Beyond it the server position wins.
    assert!(timer.drift_correct(11_000, 0));
    assert_eq!(timer.interpolated_position_ms(0), 11_000);
}

#[test]
fn test_backoff_grows_and_caps() {
    assert_eq!(backoff_ms(0), 100);
    assert_eq!(backoff_ms(1), 200);
    assert_eq!(backoff_ms(5), 3_200);
    // 100 * 2^9 = 51 200 is over the 30 s cap.
    assert_eq!(backoff_ms(9), 30_000);
    assert_eq!(backoff_ms(200), 30_000);
}

#[test]
fn test_compensated_position() {
    assert_eq!(compensated_position_ms(10_000, 300), 10_150);
}

#[test]
fn test_window_state_roundtrip_fields() {
    let w = versualizer_core::window::WindowState::new(12, -34);
    assert_eq!(w.x, 12);
    assert_eq!(w.y, -34);
}

#[test]
fn test_paths_end_with_file_names() {
    assert!(versualizer_core::paths::config_path().ends_with("/config.toml"));
    assert!(versualizer_core::paths::lyrics_cache_db_path().ends_with("/lyrics_cache.db"));
    assert!(versualizer_core::paths::window_state_path().ends_with("/.window_state.json"));
    assert!(versualizer_core::paths::theme_path().ends_with("/theme.css"));
    assert!(versualizer_core::paths::log_file_path().ends_with("/versualizer.log"));
    assert!(
        versualizer_core::paths::spotify_token_cache_path().ends_with("/.spotify_token_cache.json")
    );
}

#[test]
fn test_spotify_parse_synced_lines() {
    let lyrics = SpotifyLyrics {
        sync_type: "LINE_SYNCED".to_string(),
        lines: vec![
            SpotifyLyricsLine {
                start_time_ms: "1000".to_string(),
                words: "First".to_string(),
            },
            SpotifyLyricsLine {
                start_time_ms: "2000".to_string(),
                words: "\u{266a}".to_string(),
            },
            SpotifyLyricsLine {
                start_time_ms: "3000".to_string(),
                words: "Second".to_string(),
            },
        ],
    };
    let query = LyricsQuery::new("Song", "Artist").with_album("Album");
    let fetched = parse_synced_lyrics(lyrics, &query, "tid".to_string());
    let lrc = match fetched.result {
        versualizer_core::provider::LyricsResult::Synced(l) => l,
        _ => panic!("expected synced lyrics"),
    };
    assert_eq!(lrc.lines.len(), 2);
    assert_eq!(lrc.lines[0].start_time, 1_000);
    assert_eq!(lrc.lines[0].text, "First");
    assert_eq!(lrc.lines[1].text, "Second");
    assert_eq!(lrc.metadata.title, Some("Song".to_string()));
}

#[test]
fn test_spotify_parse_unsynced_lines() {
    let lyrics = SpotifyLyrics {
        sync_type: "UNSYNCED".to_string(),
        lines: vec![
            SpotifyLyricsLine {
                start_time_ms: "0".to_string(),
                words: "First".to_string(),
            },
            SpotifyLyricsLine {
                start_time_ms: "0".to_string(),
                words: "Second".to_string(),
            },
        ],
    };
    let fetched = parse_unsynced_lyrics(&lyrics, "tid".to_string());
    match fetched.result {
        versualizer_core::provider::LyricsResult::Unsynced(t) => {
            assert_eq!(t, "First\nSecond");
        },
        _ => panic!("expected unsynced lyrics"),
    }
}

#[test]
fn test_url_encoding_changes_input() {
    // The percent encoder must actually rewrite reserved characters.
    let q = LyricsQuery::new("a&b", "c d");
    let url = full_search_url(&q);
    assert_eq!(url, "https://lrclib.net/api/search?q=c%20d%20a%26b");
}
