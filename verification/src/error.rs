//! Error taxonomy of the library. Every variant carries plain values; the
//! surrounding application maps transport-level errors into these.

use vstd::prelude::*;

verus! {

/// Library-wide error type.
#[derive(Clone, Debug)]
pub enum CoreError {
    /// The config file was absent; a template was written at `path`.
    ConfigNotFound { path: String },
    /// The config file could not be understood.
    ConfigInvalid { message: String },
    /// A required config field was missing or empty.
    ConfigMissingField { field: String },
    /// No lyrics were found for the given track.
    LyricsNotFound { track: String, artist: String },
    /// A lyrics provider failed for the given reason.
    LyricsProviderFailed { provider: String, reason: String },
    /// LRC text could not be parsed.
    LrcParseError { reason: String },
    /// The persistent cache failed.
    CacheError { message: String },
    /// A network request failed.
    NetworkError { message: String },
}

} // verus!
