//! Identification of upstream music sources.

use vstd::prelude::*;

verus! {

/// The music service a playback snapshot came from. The string forms are
/// stable identifiers used as cache keys.
#[derive(Clone, Copy, PartialEq, Eq, Structural, Hash, Debug)]
pub enum MusicSource {
    Spotify,
    Mpris,
    WindowsMedia,
    YouTubeMusic,
}

impl MusicSource {
    /// The stable identifier of this source.
    pub open spec fn spec_name(self) -> Seq<char> {
        match self {
            MusicSource::Spotify => "spotify"@,
            MusicSource::Mpris => "mpris"@,
            MusicSource::WindowsMedia => "windows_media"@,
            MusicSource::YouTubeMusic => "youtube_music"@,
        }
    }

    /// The string identifier used in cache lookups; stable across releases.
    pub fn as_str(&self) -> (r: &'static str)
        ensures
            r@ == self.spec_name(),
    {
        match self {
            MusicSource::Spotify => "spotify",
            MusicSource::Mpris => "mpris",
            MusicSource::WindowsMedia => "windows_media",
            MusicSource::YouTubeMusic => "youtube_music",
        }
    }
}

} // verus!
