//! The Spotify lyrics backend's own logic: track-id extraction from the
//! several URI shapes, response classification, and the request URL. The
//! surrounding application holds the HTTP client and the bearer token.

use vstd::prelude::*;

use crate::error::CoreError;
use crate::lrc::{view_lines, LineModel, LrcFile, LrcLine, LrcMetadata};
use crate::provider::{FetchedLyrics, LyricsQuery, LyricsResult};
use crate::text::{
    chars_of, dec_val, is_u64_numeral, push_all, spec_find, string_from_chars, subvec,
};

verus! {

/// Whether `pat` occurs in `s` starting at `i`.
pub open spec fn is_sub_at(s: Seq<char>, pat: Seq<char>, i: int) -> bool {
    0 <= i && i + pat.len() <= s.len() && s.subrange(i, i + pat.len() as int) == pat
}

/// First occurrence of a nonempty `pat` in `s` at or after `from`.
pub open spec fn spec_find_sub(s: Seq<char>, pat: Seq<char>, from: int) -> Option<int>
    decreases s.len() - from,
{
    if from < 0 || from + pat.len() > s.len() || pat.len() == 0 {
        None
    } else if is_sub_at(s, pat, from) {
        Some(from)
    } else {
        spec_find_sub(s, pat, from + 1)
    }
}

fn sub_at(v: &Vec<char>, pat: &Vec<char>, i: usize) -> (r: bool)
    requires
        i + pat@.len() <= v@.len(),
    ensures
        r == is_sub_at(v@, pat@, i as int),
{
    let n = v.len();
    let mut k: usize = 0;
    while k < pat.len()
        invariant
            0 <= k <= pat@.len(),
            i + pat@.len() <= v@.len(),
            n == v@.len(),
            v@.subrange(i as int, i + k as int) == pat@.subrange(0, k as int),
        decreases pat@.len() - k,
    {
        if v[i + k] != pat[k] {
            proof {
                assert(v@.subrange(i as int, i + pat@.len() as int) != pat@) by {
                    assert(v@.subrange(i as int, i + pat@.len() as int)[k as int]
                        == v@[i + k]);
                    assert(pat@[k as int] != v@[i + k]);
                }
            }
            return false;
        }
        proof {
            assert(v@.subrange(i as int, i + (k + 1) as int) =~= v@.subrange(
                i as int,
                i + k as int,
            ).push(v@[i + k]));
            assert(pat@.subrange(0, k + 1 as int) =~= pat@.subrange(0, k as int).push(
                pat@[k as int],
            ));
        }
        k += 1;
    }
    proof {
        assert(pat@.subrange(0, pat@.len() as int) =~= pat@);
        assert(v@.subrange(i as int, i + pat@.len() as int) == pat@);
    }
    true
}

/// Find a pattern in a character vector.
pub fn find_sub(v: &Vec<char>, pat: &Vec<char>, from: usize) -> (r: Option<usize>)
    requires
        from <= v@.len(),
    ensures
        match r {
            Some(i) => Some(i as int) == spec_find_sub(v@, pat@, from as int) && from <= i
                && i + pat@.len() <= v@.len() && is_sub_at(v@, pat@, i as int),
            None => spec_find_sub(v@, pat@, from as int) is None,
        },
{
    let n = v.len();
    let m = pat.len();
    if m == 0 || m > n || from > n - m {
        proof {
            lemma_find_sub_out(v@, pat@, from as int);
        }
        return None;
    }
    let mut k: usize = from;
    while k <= n - m
        invariant
            from <= k <= n - m + 1,
            1 <= m <= n,
            n == v@.len(),
            m == pat@.len(),
            spec_find_sub(v@, pat@, from as int) == spec_find_sub(v@, pat@, k as int),
        decreases n - k,
    {
        if sub_at(v, pat, k) {
            return Some(k);
        }
        k += 1;
    }
    None
}

proof fn lemma_find_sub_out(s: Seq<char>, pat: Seq<char>, from: int)
    requires
        0 <= from,
        pat.len() == 0 || from + pat.len() > s.len(),
    ensures
        spec_find_sub(s, pat, from) is None,
    decreases s.len() - from,
{
}

/// The id contained in one of the accepted shapes: a `spotify:track:`
/// URI, an `open.spotify.com/track/` URL (up to a query string), or a
/// bare 22-character alphanumeric id.
pub open spec fn spec_extract_track_id(s: Seq<char>) -> Option<Seq<char>> {
    let uri_prefix = "spotify:track:"@;
    let host_marker = "open.spotify.com/track/"@;
    let path_marker = "/track/"@;
    if s.len() >= uri_prefix.len() && s.subrange(0, uri_prefix.len() as int) == uri_prefix {
        Some(s.subrange(uri_prefix.len() as int, s.len() as int))
    } else if spec_find_sub(s, host_marker, 0) is Some {
        match spec_find_sub(s, path_marker, 0) {
            Some(t) => {
                let start = t + path_marker.len();
                let seg_end: int = match spec_find_sub(s, path_marker, start) {
                    Some(n) => n,
                    None => s.len() as int,
                };
                let seg = s.subrange(start, seg_end);
                let q: int = match spec_find(seg, 0, '?') {
                    Some(p) => p,
                    None => seg.len() as int,
                };
                if 0 <= q <= seg.len() {
                    Some(seg.subrange(0, q))
                } else {
                    Some(seg)
                }
            },
            None => None,
        }
    } else if s.len() == 22 && (forall|i: int| 0 <= i < 22 ==> is_alnum(#[trigger] s[i])) {
        Some(s)
    } else {
        None
    }
}

pub open spec fn is_alnum(c: char) -> bool {
    ('0' <= c && c <= '9') || ('a' <= c && c <= 'z') || ('A' <= c && c <= 'Z')
}

/// Extract a track id from a Spotify URI, URL or bare id.
pub fn extract_track_id(id: &str) -> (r: Option<String>)
    ensures
        match r {
            Some(v) => spec_extract_track_id(id@) == Some(v@),
            None => spec_extract_track_id(id@) is None,
        },
{
    let cs = chars_of(id);
    let uri_prefix = chars_of("spotify:track:");
    let host_marker = chars_of("open.spotify.com/track/");
    let path_marker = chars_of("/track/");
    if cs.len() >= uri_prefix.len() && sub_at(&cs, &uri_prefix, 0) {
        proof {
            assert(cs@.subrange(0, uri_prefix@.len() as int) == uri_prefix@);
        }
        let rest = subvec(&cs, uri_prefix.len(), cs.len());
        return Some(string_from_chars(&rest));
    }
    proof {
        if cs@.len() >= uri_prefix@.len() {
            assert(cs@.subrange(0, uri_prefix@.len() as int) != uri_prefix@ || false
                == is_sub_at(cs@, uri_prefix@, 0));
        }
    }
    if find_sub(&cs, &host_marker, 0).is_some() {
        match find_sub(&cs, &path_marker, 0) {
            Some(t) => {
                let start = t + path_marker.len();
                let seg_end: usize = match find_sub(&cs, &path_marker, start) {
                    Some(n) => n,
                    None => cs.len(),
                };
                proof {
                    assert(start <= seg_end <= cs@.len());
                }
                let seg = subvec(&cs, start, seg_end);
                proof {
                    crate::text::lemma_find_props(seg@, 0, '?');
                }
                let q: usize = match crate::text::find_char(&seg, 0, '?') {
                    Some(p) => p,
                    None => seg.len(),
                };
                let val = subvec(&seg, 0, q);
                return Some(string_from_chars(&val));
            },
            None => {
                return None;
            },
        }
    }
    if cs.len() == 22 {
        let mut ok = true;
        let mut i: usize = 0;
        while i < cs.len()
            invariant
                0 <= i <= cs@.len(),
                ok == (forall|k: int| 0 <= k < i ==> is_alnum(#[trigger] cs@[k])),
            decreases cs@.len() - i,
        {
            let c = cs[i];
            let a = (c >= '0' && c <= '9') || (c >= 'a' && c <= 'z') || (c >= 'A' && c <= 'Z');
            ok = ok && a;
            i += 1;
        }
        if ok {
            return Some(string_from_chars(&cs));
        }
        return None;
    }
    None
}

/// One line of the lyrics response body.
#[derive(Clone, Debug)]
pub struct SpotifyLyricsLine {
    pub start_time_ms: String,
    pub words: String,
}

/// The lyrics part of the response body.
#[derive(Clone, Debug)]
pub struct SpotifyLyrics {
    pub sync_type: String,
    pub lines: Vec<SpotifyLyricsLine>,
}

/// Whether a response line is kept: empty lines and bare note glyphs are
/// instrumental filler.
pub open spec fn spec_line_kept(words: Seq<char>) -> bool {
    words.len() > 0 && words != seq!['\u{266a}']
}

/// The lyric line a kept response line becomes: its millisecond stamp
/// parsed (zero when malformed), its words as the text.
pub open spec fn spec_spotify_line(start: Seq<char>, words: Seq<char>) -> LineModel {
    LineModel {
        start_time: if is_u64_numeral(start) {
            dec_val(start) as u64
        } else {
            0u64
        },
        text: words,
        words: None,
    }
}

pub open spec fn spec_kept_lines(ls: Seq<(Seq<char>, Seq<char>)>) -> Seq<LineModel>
    decreases ls.len(),
{
    if ls.len() == 0 {
        Seq::empty()
    } else {
        spec_kept_lines(ls.drop_last()) + (if spec_line_kept(ls.last().1) {
            seq![spec_spotify_line(ls.last().0, ls.last().1)]
        } else {
            Seq::empty()
        })
    }
}

pub open spec fn view_sp_lines(ls: Seq<SpotifyLyricsLine>) -> Seq<(Seq<char>, Seq<char>)> {
    ls.map_values(|l: SpotifyLyricsLine| (l.start_time_ms@, l.words@))
}

fn line_kept(words: &String) -> (r: bool)
    ensures
        r == spec_line_kept(words@),
{
    let cs = chars_of(words.as_str());
    if cs.len() == 0 {
        proof {
            assert(!spec_line_kept(words@));
        }
        return false;
    }
    if cs.len() == 1 && cs[0] == '\u{266a}' {
        proof {
            assert(cs@ =~= seq!['\u{266a}']);
        }
        return false;
    }
    proof {
        if words@ == seq!['\u{266a}'] {
            assert(cs@.len() == 1);
            assert(cs@[0] == '\u{266a}');
        }
    }
    true
}

/// Turn a line-synced response into timed lines; an empty yield is a
/// miss.
pub fn parse_synced_lyrics(lyrics: SpotifyLyrics, query: &LyricsQuery, track_id: String) -> (r:
    FetchedLyrics)
    ensures
        r.provider_id == track_id,
        ({
            let kept = spec_kept_lines(view_sp_lines(lyrics.lines@));
            if kept.len() == 0 {
                r.result is NotFound
            } else {
                &&& r.result is Synced
                &&& view_lines(r.result->Synced_0.lines@) == kept
                &&& r.result->Synced_0.metadata@.title == Some(query@.track_name)
                &&& r.result->Synced_0.metadata@.artist == Some(query@.artist_name)
                &&& r.result->Synced_0.metadata@.album == query@.album_name
                &&& r.result->Synced_0.metadata@.offset == 0
            }
        }),
{
    let ghost sl = view_sp_lines(lyrics.lines@);
    let mut out: Vec<LrcLine> = Vec::new();
    let mut rest = lyrics.lines;
    let mut i: usize = 0;
    proof {
        assert(spec_kept_lines(sl.subrange(0, 0)) =~= Seq::<LineModel>::empty());
        assert(view_lines(out@) =~= Seq::<LineModel>::empty());
        assert(sl.len() == rest@.len());
    }
    let n0 = rest.len();
    while rest.len() > 0
        invariant
            i + rest@.len() == sl.len(),
            0 <= i <= sl.len() <= usize::MAX,
            forall|k: int|
                0 <= k < rest@.len() ==> (#[trigger] rest@[k].start_time_ms@, rest@[k].words@)
                    == sl[i + k],
            view_lines(out@) == spec_kept_lines(sl.subrange(0, i as int)),
        decreases rest@.len(),
    {
        let ghost rest_before = rest@;
        let line = rest.remove(0);
        proof {
            assert(rest@ =~= rest_before.drop_first());
            assert((line.start_time_ms@, line.words@) == sl[i as int]);
            let pre = sl.subrange(0, i as int);
            let cur = sl.subrange(0, i + 1 as int);
            assert(cur.drop_last() =~= pre);
            assert(cur.last() == sl[i as int]);
        }
        if line_kept(&line.words) {
            let scs = chars_of(line.start_time_ms.as_str());
            let start: u64 = match crate::text::parse_u64(&scs) {
                Some(v) => v,
                None => 0,
            };
            let ghost out_before = out@;
            let l = LrcLine { start_time: start, text: line.words, words: None };
            out.push(l);
            proof {
                assert forall|k: int| 0 <= k < out@.len() implies #[trigger] view_lines(out@)[k]
                    == spec_kept_lines(sl.subrange(0, i + 1 as int))[k] by {
                    assert(view_lines(out@)[k] == out@[k]@);
                    if k < out_before.len() {
                        assert(out@[k] == out_before[k]);
                        assert(view_lines(out_before)[k] == out_before[k]@);
                    }
                }
                assert(view_lines(out@) =~= spec_kept_lines(sl.subrange(0, i + 1 as int)));
            }
        } else {
            proof {
                assert(view_lines(out@) =~= spec_kept_lines(sl.subrange(0, i + 1 as int)));
            }
        }
        i += 1;
        proof {
            assert forall|k: int| 0 <= k < rest@.len() implies (
            #[trigger] rest@[k].start_time_ms@,
            rest@[k].words@,
            ) == sl[i + k] by {
                assert(rest@[k] == rest_before[k + 1]);
            }
        }
    }
    proof {
        assert(sl.subrange(0, sl.len() as int) =~= sl);
    }
    if out.len() == 0 {
        return FetchedLyrics { result: LyricsResult::NotFound, provider_id: track_id };
    }
    let metadata = LrcMetadata {
        title: Some(query.track_name.clone()),
        artist: Some(query.artist_name.clone()),
        album: match &query.album_name {
            Some(a) => Some(a.clone()),
            None => None,
        },
        author: None,
        length: None,
        offset: 0,
    };
    FetchedLyrics {
        result: LyricsResult::Synced(LrcFile { metadata, lines: out }),
        provider_id: track_id,
    }
}

/// The joined plain text of an unsynced response.
pub open spec fn spec_joined_words(ls: Seq<(Seq<char>, Seq<char>)>) -> Seq<char> {
    crate::provider::join_texts(spec_kept_lines(ls))
}

/// Turn an unsynced response into plain text; an empty yield is a miss.
pub fn parse_unsynced_lyrics(lyrics: &SpotifyLyrics, track_id: String) -> (r: FetchedLyrics)
    ensures
        r.provider_id == track_id,
        ({
            let kept = spec_kept_lines(view_sp_lines(lyrics.lines@));
            if crate::provider::join_texts(kept).len() == 0 {
                r.result is NotFound
            } else {
                r.result matches LyricsResult::Unsynced(t) && t@ == crate::provider::join_texts(
                    kept,
                )
            }
        }),
{
    let ghost sl = view_sp_lines(lyrics.lines@);
    let mut acc: Vec<char> = Vec::new();
    let mut kept_any: bool = false;
    let ghost kept_all = spec_kept_lines(sl);
    let mut i: usize = 0;
    proof {
        assert(spec_kept_lines(sl.subrange(0, 0)) =~= Seq::<LineModel>::empty());
        assert(sl.len() == lyrics.lines@.len());
    }
    while i < lyrics.lines.len()
        invariant
            0 <= i <= lyrics.lines@.len(),
            sl == view_sp_lines(lyrics.lines@),
            kept_any == (spec_kept_lines(sl.subrange(0, i as int)).len() > 0),
            acc@ == crate::provider::join_texts(spec_kept_lines(sl.subrange(0, i as int))),
        decreases lyrics.lines@.len() - i,
    {
        proof {
            assert(sl[i as int] == (
                lyrics.lines@[i as int].start_time_ms@,
                lyrics.lines@[i as int].words@,
            ));
            let pre = sl.subrange(0, i as int);
            let cur = sl.subrange(0, i + 1 as int);
            assert(cur.drop_last() =~= pre);
            assert(cur.last() == sl[i as int]);
        }
        if line_kept(&lyrics.lines[i].words) {
            let ghost before = acc@;
            if kept_any {
                acc.push('\n');
            }
            let wcs = chars_of(lyrics.lines[i].words.as_str());
            let mut k: usize = 0;
            while k < wcs.len()
                invariant
                    0 <= k <= wcs@.len(),
                    acc@ == (if kept_any {
                        before.push('\n')
                    } else {
                        before
                    }) + wcs@.subrange(0, k as int),
                    kept_any == (spec_kept_lines(sl.subrange(0, i as int)).len() > 0),
                decreases wcs@.len() - k,
            {
                acc.push(wcs[k]);
                proof {
                    let base = if kept_any {
                        before.push('\n')
                    } else {
                        before
                    };
                    assert(base + wcs@.subrange(0, k + 1 as int) =~= (base + wcs@.subrange(
                        0,
                        k as int,
                    )).push(wcs@[k as int]));
                }
                k += 1;
            }
            proof {
                let pre_lines = spec_kept_lines(sl.subrange(0, i as int));
                let cur_lines = spec_kept_lines(sl.subrange(0, i + 1 as int));
                assert(cur_lines =~= pre_lines + seq![
                    spec_spotify_line(sl[i as int].0, sl[i as int].1),
                ]);
                assert(cur_lines.drop_last() =~= pre_lines);
                assert(wcs@.subrange(0, wcs@.len() as int) =~= wcs@);
                if pre_lines.len() == 0 {
                    assert(cur_lines.len() == 1);
                    assert(crate::provider::join_texts(cur_lines) == cur_lines[0].text);
                    assert(before + wcs@ =~= wcs@);
                } else {
                    assert(crate::provider::join_texts(cur_lines) == crate::provider::join_texts(
                        pre_lines,
                    ) + seq!['\n'] + cur_lines.last().text);
                    assert(before.push('\n') + wcs@ =~= before + seq!['\n'] + wcs@);
                }
            }
            kept_any = true;
        } else {
            proof {
                assert(spec_kept_lines(sl.subrange(0, i + 1 as int)) =~= spec_kept_lines(
                    sl.subrange(0, i as int),
                ));
            }
        }
        i += 1;
    }
    proof {
        assert(sl.subrange(0, sl.len() as int) =~= sl);
    }
    if acc.len() == 0 {
        return FetchedLyrics { result: LyricsResult::NotFound, provider_id: track_id };
    }
    FetchedLyrics {
        result: LyricsResult::Unsynced(string_from_chars(&acc)),
        provider_id: track_id,
    }
}

/// Validate a query for this backend: it needs the session cookie
/// configured and a usable Spotify track id.
pub fn validate_query(configured: bool, query: &LyricsQuery) -> (r: Result<String, CoreError>)
    ensures
        !configured ==> r is Err,
        configured ==> match crate::idmap::assoc_lookup(query@.provider_ids, "spotify"@) {
            Some(raw) => match spec_extract_track_id(raw) {
                Some(v) => r is Ok && r->Ok_0@ == v,
                None => r is Err,
            },
            None => r is Err,
        },
        r is Err ==> r->Err_0 is LyricsProviderFailed,
{
    if !configured {
        let p: &str = "spotify_lyrics";
        let reason: &str = "sp_dc cookie not configured";
        return Err(
            CoreError::LyricsProviderFailed { provider: p.to_owned(), reason: reason.to_owned() },
        );
    }
    match query.spotify_track_id() {
        Some(id) => match extract_track_id(id.as_str()) {
            Some(extracted) => Ok(extracted),
            None => {
                let p: &str = "spotify_lyrics";
                let reason: &str = "invalid Spotify track id";
                Err(
                    CoreError::LyricsProviderFailed {
                        provider: p.to_owned(),
                        reason: reason.to_owned(),
                    },
                )
            },
        },
        None => {
            let p: &str = "spotify_lyrics";
            let reason: &str = "Spotify track ID required for Spotify lyrics";
            Err(
                CoreError::LyricsProviderFailed {
                    provider: p.to_owned(),
                    reason: reason.to_owned(),
                },
            )
        },
    }
}

/// A missing-lyrics status is a clean miss, reported with the track id.
pub fn check_not_found(status: u16, track_id: &str) -> (r: Option<FetchedLyrics>)
    ensures
        r is Some <==> status == 404,
        r is Some ==> r->0.result is NotFound && r->0.provider_id@ == track_id@,
{
    if status == 404 {
        Some(FetchedLyrics { result: LyricsResult::NotFound, provider_id: track_id.to_owned() })
    } else {
        None
    }
}

/// What an authenticated call does with a status: an unauthorized answer
/// must invalidate the cached token before failing; any other
/// non-success fails without that; success proceeds.
pub enum AuthCheck {
    /// Invalidate the cached token, then fail.
    InvalidateAndFail,
    /// Fail without touching the token.
    Fail,
    /// Go on with the body.
    Proceed,
}

pub fn check_auth_status(status: u16) -> (r: AuthCheck)
    ensures
        status == 401 ==> r is InvalidateAndFail,
        status != 401 && !(200 <= status < 300) ==> r is Fail,
        200 <= status < 300 ==> r is Proceed,
{
    if status == 401 {
        AuthCheck::InvalidateAndFail
    } else if status < 200 || status >= 300 {
        AuthCheck::Fail
    } else {
        AuthCheck::Proceed
    }
}

/// The lyrics request URL for a track id.
pub open spec fn spec_lyrics_url(track_id: Seq<char>) -> Seq<char> {
    "https://spclient.wg.spotify.com/color-lyrics/v2/track/"@ + track_id
        + "?format=json&market=from_token"@
}

/// Build the lyrics request URL.
pub fn lyrics_url(track_id: &str) -> (r: String)
    ensures
        r@ == spec_lyrics_url(track_id@),
{
    let mut out: Vec<char> = Vec::new();
    push_all(&mut out, "https://spclient.wg.spotify.com/color-lyrics/v2/track/");
    push_all(&mut out, track_id);
    push_all(&mut out, "?format=json&market=from_token");
    proof {
        assert(out@ =~= spec_lyrics_url(track_id@));
    }
    string_from_chars(&out)
}

} // verus!
