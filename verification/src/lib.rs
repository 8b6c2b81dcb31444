//! Core library of a karaoke-style lyrics visualizer: the timed-lyrics (LRC)
//! model and parser, the lyrics cache, the provider fallback chain, the
//! playback diff engine, and the TOTP-gated token lifecycle.

pub mod auth;
pub mod cache;
pub mod config;
pub mod error;
pub mod fetcher;
pub mod idmap;
pub mod karaoke;
pub mod lrc;
pub mod lrclib;
pub mod paths;
pub mod playback;
pub mod poller;
pub mod provider;
pub mod source;
pub mod spotify;
pub mod sync;
pub mod text;
pub mod token;
pub mod totp;
pub mod window;
