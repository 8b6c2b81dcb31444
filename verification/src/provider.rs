//! The uniform query/result contract implemented by every lyrics backend.

use vstd::prelude::*;

use crate::idmap::{assoc_get, assoc_lookup, assoc_upsert, assoc_put, view_pairs};
use crate::lrc::{view_lines, LineModel, LrcFile};

verus! {

/// Query parameters for fetching lyrics; one query object serves every
/// provider.
#[derive(Clone, Debug)]
pub struct LyricsQuery {
    pub track_name: String,
    pub artist_name: String,
    pub album_name: Option<String>,
    /// Track duration in seconds, used for duration-tolerant matching.
    pub duration_secs: Option<u32>,
    /// Provider-specific track ids; keys are provider names, unique.
    pub provider_ids: Vec<(String, String)>,
}

/// Mathematical image of a query.
pub ghost struct QueryModel {
    pub track_name: Seq<char>,
    pub artist_name: Seq<char>,
    pub album_name: Option<Seq<char>>,
    pub duration_secs: Option<u32>,
    pub provider_ids: Seq<(Seq<char>, Seq<char>)>,
}

impl View for LyricsQuery {
    type V = QueryModel;

    open spec fn view(&self) -> QueryModel {
        QueryModel {
            track_name: self.track_name@,
            artist_name: self.artist_name@,
            album_name: match self.album_name {
                Some(a) => Some(a@),
                None => None,
            },
            duration_secs: self.duration_secs,
            provider_ids: view_pairs(self.provider_ids@),
        }
    }
}

impl LyricsQuery {
    /// A query with only track and artist set.
    pub fn new(track_name: &str, artist_name: &str) -> (r: LyricsQuery)
        ensures
            r@ == (QueryModel {
                track_name: track_name@,
                artist_name: artist_name@,
                album_name: None,
                duration_secs: None,
                provider_ids: Seq::empty(),
            }),
    {
        let q = LyricsQuery {
            track_name: track_name.to_owned(),
            artist_name: artist_name.to_owned(),
            album_name: None,
            duration_secs: None,
            provider_ids: Vec::new(),
        };
        proof {
            assert(view_pairs(q.provider_ids@) =~= Seq::<(Seq<char>, Seq<char>)>::empty());
        }
        q
    }

    /// Set the album name.
    pub fn with_album(self, album: &str) -> (r: LyricsQuery)
        ensures
            r@ == (QueryModel { album_name: Some(album@), ..self@ }),
    {
        let mut q = self;
        q.album_name = Some(album.to_owned());
        q
    }

    /// Set the duration in seconds.
    pub fn with_duration(self, duration_secs: u32) -> (r: LyricsQuery)
        ensures
            r@ == (QueryModel { duration_secs: Some(duration_secs), ..self@ }),
    {
        let mut q = self;
        q.duration_secs = Some(duration_secs);
        q
    }

    /// Add or replace a provider-specific track id.
    pub fn with_provider_id(self, provider: &str, id: &str) -> (r: LyricsQuery)
        ensures
            r@ == (QueryModel {
                provider_ids: assoc_upsert(self@.provider_ids, provider@, id@),
                ..self@
            }),
    {
        let mut q = self;
        assoc_put(&mut q.provider_ids, provider.to_owned(), id.to_owned());
        q
    }

    /// A provider-specific track id, if one is known.
    pub fn provider_id<'a>(&'a self, provider: &str) -> (r: Option<&'a String>)
        ensures
            match r {
                Some(v) => assoc_lookup(self@.provider_ids, provider@) == Some(v@),
                None => assoc_lookup(self@.provider_ids, provider@) is None,
            },
    {
        assoc_get(&self.provider_ids, provider)
    }

    /// The Spotify track id, if one is known.
    pub fn spotify_track_id<'a>(&'a self) -> (r: Option<&'a String>)
        ensures
            match r {
                Some(v) => assoc_lookup(self@.provider_ids, "spotify"@) == Some(v@),
                None => assoc_lookup(self@.provider_ids, "spotify"@) is None,
            },
    {
        self.provider_id("spotify")
    }
}

/// What a provider answered.
#[derive(Clone, Debug)]
pub enum LyricsResult {
    /// Synchronized lyrics with timing.
    Synced(LrcFile),
    /// Plain text without timing.
    Unsynced(String),
    /// No lyrics found.
    NotFound,
}

/// Line texts joined with newlines.
pub open spec fn join_texts(ls: Seq<LineModel>) -> Seq<char>
    decreases ls.len(),
{
    if ls.len() == 0 {
        Seq::empty()
    } else if ls.len() == 1 {
        ls[0].text
    } else {
        join_texts(ls.drop_last()) + seq!['\n'] + ls.last().text
    }
}

impl LyricsResult {
    /// Whether any lyrics were found.
    pub fn is_found(&self) -> (r: bool)
        ensures
            r == !(self is NotFound),
    {
        !matches!(self, LyricsResult::NotFound)
    }

    /// Whether the lyrics carry timing.
    pub fn is_synced(&self) -> (r: bool)
        ensures
            r == self is Synced,
    {
        matches!(self, LyricsResult::Synced(_))
    }

    /// The parsed file, when synced.
    pub fn as_synced(&self) -> (r: Option<&LrcFile>)
        ensures
            match r {
                Some(f) => self is Synced && *f == self->Synced_0,
                None => !(self is Synced),
            },
    {
        match self {
            LyricsResult::Synced(lrc) => Some(lrc),
            _ => None,
        }
    }

    /// The text content regardless of type: synced line texts joined with
    /// newlines, unsynced text as is, nothing when not found.
    pub fn text(&self) -> (r: Option<String>)
        ensures
            match self {
                LyricsResult::Synced(f) => r is Some && r->0@ == join_texts(view_lines(f.lines@)),
                LyricsResult::Unsynced(t) => r == Some(*t),
                LyricsResult::NotFound => r is None,
            },
    {
        match self {
            LyricsResult::Synced(lrc) => {
                let mut acc: Vec<char> = Vec::new();
                let ghost ls = view_lines(lrc.lines@);
                let mut k: usize = 0;
                proof {
                    assert(ls.subrange(0, 0) =~= Seq::<LineModel>::empty());
                }
                while k < lrc.lines.len()
                    invariant
                        0 <= k <= lrc.lines@.len(),
                        ls == view_lines(lrc.lines@),
                        acc@ == join_texts(ls.subrange(0, k as int)),
                    decreases lrc.lines@.len() - k,
                {
                    let cs = crate::text::chars_of(lrc.lines[k].text.as_str());
                    let ghost before = acc@;
                    if k > 0 {
                        acc.push('\n');
                    }
                    let mut i: usize = 0;
                    while i < cs.len()
                        invariant
                            0 <= i <= cs@.len(),
                            acc@ == (if k > 0 {
                                before.push('\n')
                            } else {
                                before
                            }) + cs@.subrange(0, i as int),
                        decreases cs@.len() - i,
                    {
                        acc.push(cs[i]);
                        proof {
                            let base = if k > 0 {
                                before.push('\n')
                            } else {
                                before
                            };
                            assert(base + cs@.subrange(0, i + 1 as int) =~= (base + cs@.subrange(
                                0,
                                i as int,
                            )).push(cs@[i as int]));
                        }
                        i += 1;
                    }
                    proof {
                        let pre = ls.subrange(0, k as int);
                        let cur = ls.subrange(0, k + 1 as int);
                        assert(cur.drop_last() =~= pre);
                        assert(ls[k as int] == lrc.lines@[k as int]@);
                        assert(cur.last() == ls[k as int]);
                        assert(cs@.subrange(0, cs@.len() as int) =~= cs@);
                        if k == 0 {
                            assert(cur.len() == 1);
                            assert(join_texts(cur) == cur[0].text);
                            assert(before + cs@ =~= cs@);
                        } else {
                            assert(join_texts(cur) == join_texts(pre) + seq!['\n']
                                + cur.last().text);
                            assert(before.push('\n') + cs@ =~= before + seq!['\n'] + cs@);
                        }
                    }
                    k += 1;
                }
                proof {
                    assert(ls.subrange(0, ls.len() as int) =~= ls);
                }
                Some(crate::text::string_from_chars(&acc))
            },
            LyricsResult::Unsynced(text) => Some(text.clone()),
            LyricsResult::NotFound => None,
        }
    }
}

/// A provider's answer together with its own id for the track, returned
/// even on `NotFound` so a mapping can still be cached.
#[derive(Clone, Debug)]
pub struct FetchedLyrics {
    pub result: LyricsResult,
    pub provider_id: String,
}

} // verus!
