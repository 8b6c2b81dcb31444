//! Configuration model and the template written on first run. Reading
//! and writing the file on disk, and provider-specific dynamic sections,
//! belong to the surrounding application.

use vstd::prelude::*;

use crate::source::MusicSource;
use crate::text::{push_all, string_from_chars};

verus! {

/// Which music source is polled.
#[derive(Clone, Debug)]
pub struct MusicConfig {
    pub source: MusicSource,
}

impl Default for MusicConfig {
    fn default() -> (r: MusicConfig)
        ensures
            r.source == MusicSource::Spotify,
    {
        MusicConfig { source: MusicSource::Spotify }
    }
}

/// The lyrics backends, in the order they are tried.
#[derive(Clone, Copy, PartialEq, Eq, Structural, Debug)]
pub enum LyricsProviderType {
    Lrclib,
    SpotifyLyrics,
}

/// Lyrics provider priority; order is configuration, not discovery.
#[derive(Clone, Debug)]
pub struct LyricsConfig {
    pub providers: Vec<LyricsProviderType>,
}

impl Default for LyricsConfig {
    fn default() -> (r: LyricsConfig)
        ensures
            r.providers@ =~= seq![LyricsProviderType::Lrclib],
    {
        let mut providers: Vec<LyricsProviderType> = Vec::new();
        providers.push(LyricsProviderType::Lrclib);
        proof {
            assert(providers@ =~= seq![LyricsProviderType::Lrclib]);
        }
        LyricsConfig { providers }
    }
}

/// How many lines the display shows at once.
#[derive(Clone, Copy, Debug)]
pub struct LayoutConfig {
    pub max_lines: usize,
}

pub const DEFAULT_MAX_LINES: usize = 3;

impl Default for LayoutConfig {
    fn default() -> (r: LayoutConfig)
        ensures
            r.max_lines == DEFAULT_MAX_LINES,
    {
        LayoutConfig { max_lines: DEFAULT_MAX_LINES }
    }
}

/// Animation cadence and the drift tolerance of the local timer.
#[derive(Clone, Copy, Debug)]
pub struct AnimationConfig {
    pub framerate: u32,
    /// Positions further apart than this force a hard resync.
    pub drift_threshold_ms: u64,
}

pub const DEFAULT_ANIMATION_FRAMERATE: u32 = 60;

pub const DEFAULT_DRIFT_THRESHOLD_MS: u64 = 200;

impl Default for AnimationConfig {
    fn default() -> (r: AnimationConfig)
        ensures
            r.framerate == DEFAULT_ANIMATION_FRAMERATE,
            r.drift_threshold_ms == DEFAULT_DRIFT_THRESHOLD_MS,
    {
        AnimationConfig {
            framerate: DEFAULT_ANIMATION_FRAMERATE,
            drift_threshold_ms: DEFAULT_DRIFT_THRESHOLD_MS,
        }
    }
}

/// Display configuration.
#[derive(Clone, Copy, Debug)]
pub struct UiConfig {
    pub layout: LayoutConfig,
    pub animation: AnimationConfig,
}

impl Default for UiConfig {
    fn default() -> (r: UiConfig)
        ensures
            r.layout.max_lines == DEFAULT_MAX_LINES,
            r.animation.framerate == DEFAULT_ANIMATION_FRAMERATE,
            r.animation.drift_threshold_ms == DEFAULT_DRIFT_THRESHOLD_MS,
    {
        UiConfig { layout: LayoutConfig::default(), animation: AnimationConfig::default() }
    }
}

/// Whether a log file is written.
#[derive(Clone, Copy, Debug)]
pub struct LoggingConfig {
    pub enabled: bool,
}

impl Default for LoggingConfig {
    fn default() -> (r: LoggingConfig)
        ensures
            r.enabled == false,
    {
        LoggingConfig { enabled: false }
    }
}

/// The whole configuration the core reads.
#[derive(Clone, Debug)]
pub struct VersualizerConfig {
    pub music: MusicConfig,
    pub lyrics: LyricsConfig,
    pub ui: UiConfig,
    pub logging: LoggingConfig,
}

/// Clamp the configured line count into the supported 1..=3 range.
pub fn clamp_max_lines(n: usize) -> (r: usize)
    ensures
        r == if n < 1 {
            1int
        } else if n > 3 {
            3int
        } else {
            n as int
        },
{
    if n < 1 {
        1
    } else if n > 3 {
        3
    } else {
        n
    }
}

/// Base config template, written when no config file exists yet.
pub const CONFIG_TEMPLATE_BASE: &'static str = "# Versualizer Configuration\n# ~/.config/versualizer/config.toml\n\n[music]\n# Active music source: \"spotify\", \"mpris\", \"windows_media\", \"youtube_music\"\nsource = \"spotify\"\n\n[lyrics]\n# Provider priority: providers are tried in order\n# Available: \"lrclib\", \"spotify_lyrics\"\nproviders = [\"lrclib\"]\n\n[logging]\n# Enable file logging to cache directory (versualizer.log)\nenabled = false\n\n";

/// Display section of the template.
pub const CONFIG_TEMPLATE_UI: &'static str = "[ui.layout]\n# The number of song lines to display in the visualizer\nmax_lines = 3\n\n[ui.animation]\n# Animation framerate in frames per second\nframerate = 60\n# Drift threshold in milliseconds. If local and server playback positions differ\n# by more than this amount, a hard sync is performed. Lower values = more syncs\n# but potential visual jumps. Higher values = fewer syncs but may drift.\n# Default 200ms tolerates ~2-3 poll intervals while keeping lyrics visually in sync.\ndrift_threshold_ms = 200\n";

/// The provider template sections concatenated, in order.
pub open spec fn spec_joined_templates(ts: Seq<Seq<char>>) -> Seq<char>
    decreases ts.len(),
{
    if ts.len() == 0 {
        Seq::empty()
    } else {
        spec_joined_templates(ts.drop_last()) + ts.last()
    }
}

/// The config template: the base sections, then any provider-specific
/// sections, then the display section.
pub fn build_config_template(provider_templates: Option<&Vec<String>>) -> (r: String)
    ensures
        r@ == CONFIG_TEMPLATE_BASE@ + (match provider_templates {
            Some(ts) => spec_joined_templates(ts@.map_values(|t: String| t@)),
            None => Seq::<char>::empty(),
        }) + CONFIG_TEMPLATE_UI@,
{
    let mut out: Vec<char> = Vec::new();
    push_all(&mut out, CONFIG_TEMPLATE_BASE);
    match provider_templates {
        Some(ts) => {
            let ghost tv = ts@.map_values(|t: String| t@);
            let mut i: usize = 0;
            proof {
                assert(spec_joined_templates(tv.subrange(0, 0)) =~= Seq::<char>::empty());
                assert(out@ + Seq::<char>::empty() =~= out@);
            }
            while i < ts.len()
                invariant
                    0 <= i <= ts@.len(),
                    tv == ts@.map_values(|t: String| t@),
                    out@ == CONFIG_TEMPLATE_BASE@ + spec_joined_templates(
                        tv.subrange(0, i as int),
                    ),
                decreases ts@.len() - i,
            {
                proof {
                    assert(tv[i as int] == ts@[i as int]@);
                    let pre = tv.subrange(0, i as int);
                    let cur = tv.subrange(0, i + 1 as int);
                    assert(cur.drop_last() =~= pre);
                    assert(cur.last() == tv[i as int]);
                }
                push_all(&mut out, ts[i].as_str());
                proof {
                    assert(out@ =~= CONFIG_TEMPLATE_BASE@ + spec_joined_templates(
                        tv.subrange(0, i + 1 as int),
                    ));
                }
                i += 1;
            }
            proof {
                assert(tv.subrange(0, tv.len() as int) =~= tv);
            }
        },
        None => {
            proof {
                assert(out@ + Seq::<char>::empty() =~= out@);
            }
        },
    }
    push_all(&mut out, CONFIG_TEMPLATE_UI);
    string_from_chars(&out)
}

/// Spotify provider configuration, as the application hands it in after
/// reading the dynamic section.
#[derive(Clone, Debug)]
pub struct SpotifyProviderConfig {
    pub client_id: String,
    pub client_secret: String,
    pub oauth_redirect_uri: String,
    pub poll_interval_ms: u64,
    pub sp_dc: Option<String>,
    pub secret_key_url: Option<String>,
}

impl SpotifyProviderConfig {
    /// The required credential fields must be present and nonempty.
    pub fn validate(&self) -> (r: Result<(), crate::error::CoreError>)
        ensures
            r is Ok <==> self.client_id@.len() > 0 && self.client_secret@.len() > 0,
            r is Err ==> (r->Err_0 matches crate::error::CoreError::ConfigMissingField {
                field,
            } && (field@ == "providers.spotify.client_id"@ || field@
                == "providers.spotify.client_secret"@)),
            r is Err && self.client_id@.len() == 0 ==> (r->Err_0 matches
                crate::error::CoreError::ConfigMissingField { field } && field@
                == "providers.spotify.client_id"@),
            r is Err && self.client_id@.len() > 0 ==> (r->Err_0 matches
                crate::error::CoreError::ConfigMissingField { field } && field@
                == "providers.spotify.client_secret"@),
    {
        if self.client_id.as_str().is_empty() {
            let f: &str = "providers.spotify.client_id";
            return Err(crate::error::CoreError::ConfigMissingField { field: f.to_owned() });
        }
        if self.client_secret.as_str().is_empty() {
            let f: &str = "providers.spotify.client_secret";
            return Err(crate::error::CoreError::ConfigMissingField { field: f.to_owned() });
        }
        Ok(())
    }
}

} // verus!
