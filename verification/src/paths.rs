//! Locations of the files this library owns. Paths are plain strings
//! joined with `/`; the base directories come from the environment, so
//! only the shape of each path is promised.

use vstd::prelude::*;

use crate::text::{push_all, string_from_chars};

verus! {

/// The configuration directory name under `~/.config/`.
pub const CONFIG_DIR_NAME: &'static str = "versualizer";

/// The main configuration file name.
pub const CONFIG_FILE_NAME: &'static str = "config.toml";

/// The lyrics cache database file name.
pub const LYRICS_CACHE_DB_FILE_NAME: &'static str = "lyrics_cache.db";

/// The window state cache file name.
pub const WINDOW_STATE_FILE_NAME: &'static str = ".window_state.json";

/// The theme file name.
pub const THEME_FILE_NAME: &'static str = "theme.css";

/// The log file name.
pub const LOG_FILE_NAME: &'static str = "versualizer.log";

/// The token cache file name of the Spotify source.
pub const SPOTIFY_TOKEN_CACHE_FILE_NAME: &'static str = ".spotify_token_cache.json";

/// Relies on `dirs::home_dir`: the user's home directory, if the
/// environment names one that is valid text. The result depends on the
/// environment, so nothing more is promised.
#[verifier::external_body]
fn home_dir_string() -> (r: Option<String>) {
    dirs::home_dir().and_then(|p| p.into_os_string().into_string().ok())
}

/// Relies on `dirs::cache_dir`: the user's cache directory, if the
/// environment names one that is valid text.
#[verifier::external_body]
fn cache_base_string() -> (r: Option<String>) {
    dirs::cache_dir().and_then(|p| p.into_os_string().into_string().ok())
}

/// The configuration directory: `.config/versualizer` under the home
/// directory, or under `.` when the environment names none.
pub fn config_dir() -> (r: String)
    ensures
        exists|base: Seq<char>| r@ == base + "/.config/versualizer"@,
{
    let base: String = match home_dir_string() {
        Some(h) => h,
        None => {
            let dot: &str = ".";
            dot.to_owned()
        },
    };
    let mut out: Vec<char> = Vec::new();
    push_all(&mut out, base.as_str());
    push_all(&mut out, "/.config/versualizer");
    proof {
        assert(out@ == base@ + "/.config/versualizer"@);
    }
    string_from_chars(&out)
}

fn join_under_config_dir(name: &str) -> (r: String)
    ensures
        exists|dir: Seq<char>|
            r@ == dir + "/"@ + name@ && (exists|base: Seq<char>|
                dir == base + "/.config/versualizer"@),
{
    let dir = config_dir();
    let mut out: Vec<char> = Vec::new();
    push_all(&mut out, dir.as_str());
    push_all(&mut out, "/");
    push_all(&mut out, name);
    proof {
        assert(out@ == dir@ + "/"@ + name@);
    }
    string_from_chars(&out)
}

/// The config file path: `config.toml` in the configuration directory.
pub fn config_path() -> (r: String)
    ensures
        exists|dir: Seq<char>| r@ == dir + "/config.toml"@,
{
    let r = join_under_config_dir(CONFIG_FILE_NAME);
    proof {
        let dir = choose|dir: Seq<char>|
            r@ == dir + "/"@ + CONFIG_FILE_NAME@ && (exists|base: Seq<char>|
                dir == base + "/.config/versualizer"@);
        assert(r@ == dir + "/config.toml"@) by {
            reveal_strlit("/");
            reveal_strlit("config.toml");
            reveal_strlit("/config.toml");
            assert(r@ =~= dir + "/config.toml"@);
        }
    }
    r
}

/// The lyrics cache database path.
pub fn lyrics_cache_db_path() -> (r: String)
    ensures
        exists|dir: Seq<char>| r@ == dir + "/"@ + LYRICS_CACHE_DB_FILE_NAME@,
{
    join_under_config_dir(LYRICS_CACHE_DB_FILE_NAME)
}

/// The window state file path.
pub fn window_state_path() -> (r: String)
    ensures
        exists|dir: Seq<char>| r@ == dir + "/"@ + WINDOW_STATE_FILE_NAME@,
{
    join_under_config_dir(WINDOW_STATE_FILE_NAME)
}

/// The theme file path.
pub fn theme_path() -> (r: String)
    ensures
        exists|dir: Seq<char>| r@ == dir + "/"@ + THEME_FILE_NAME@,
{
    join_under_config_dir(THEME_FILE_NAME)
}

/// The token cache path of the Spotify source.
pub fn spotify_token_cache_path() -> (r: String)
    ensures
        exists|dir: Seq<char>| r@ == dir + "/"@ + SPOTIFY_TOKEN_CACHE_FILE_NAME@,
{
    join_under_config_dir(SPOTIFY_TOKEN_CACHE_FILE_NAME)
}

/// The cache directory: `versualizer` under the environment's cache
/// directory, or under `.` when it names none.
pub fn cache_dir() -> (r: String)
    ensures
        exists|base: Seq<char>| r@ == base + "/versualizer"@,
{
    let base: String = match cache_base_string() {
        Some(h) => h,
        None => {
            let dot: &str = ".";
            dot.to_owned()
        },
    };
    let mut out: Vec<char> = Vec::new();
    push_all(&mut out, base.as_str());
    push_all(&mut out, "/versualizer");
    proof {
        assert(out@ == base@ + "/versualizer"@);
    }
    string_from_chars(&out)
}

/// The log file path, under the cache directory.
pub fn log_file_path() -> (r: String)
    ensures
        exists|dir: Seq<char>| r@ == dir + "/"@ + LOG_FILE_NAME@,
{
    let dir = cache_dir();
    let mut out: Vec<char> = Vec::new();
    push_all(&mut out, dir.as_str());
    push_all(&mut out, "/");
    push_all(&mut out, LOG_FILE_NAME);
    proof {
        assert(out@ == dir@ + "/"@ + LOG_FILE_NAME@);
    }
    string_from_chars(&out)
}

} // verus!
