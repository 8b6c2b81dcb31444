//! The duration-tolerant matching of the lrclib backend: exact lookup
//! first, then a track-name search filtered to ±2 seconds, then a
//! free-text search — each tier scoring synced over unsynced and closer
//! duration over farther. The surrounding application performs the HTTP
//! requests and hands the decoded candidate lists back in.

use vstd::prelude::*;

use crate::error::CoreError;
use crate::lrc::{spec_parse_lines, spec_parse_meta, view_lines, LrcFile};
use crate::provider::{FetchedLyrics, LyricsQuery, LyricsResult};
use crate::text::{chars_of, dec_str, i64_to_string, push_all, push_dec, spec_trim, string_from_chars, trim_chars};

verus! {

/// Duration tolerance for search matching, in milliseconds.
pub const DURATION_TOLERANCE_MS: u64 = 2000;

/// One candidate from a search response.
#[derive(Clone, Debug)]
pub struct LrclibCandidate {
    pub id: i64,
    pub artist_name: String,
    /// Reported track duration in milliseconds, if the response had one.
    pub duration_ms: Option<u64>,
    pub instrumental: bool,
    pub plain_lyrics: Option<String>,
    pub synced_lyrics: Option<String>,
}

/// Mathematical image of a candidate.
pub ghost struct CandidateModel {
    pub id: i64,
    pub artist_name: Seq<char>,
    pub duration_ms: Option<u64>,
    pub instrumental: bool,
    pub plain_lyrics: Option<Seq<char>>,
    pub synced_lyrics: Option<Seq<char>>,
}

impl View for LrclibCandidate {
    type V = CandidateModel;

    open spec fn view(&self) -> CandidateModel {
        CandidateModel {
            id: self.id,
            artist_name: self.artist_name@,
            duration_ms: self.duration_ms,
            instrumental: self.instrumental,
            plain_lyrics: crate::lrc::view_opt_string(&self.plain_lyrics),
            synced_lyrics: crate::lrc::view_opt_string(&self.synced_lyrics),
        }
    }
}

/// A candidate that carries any lyrics at all.
pub open spec fn spec_usable(c: CandidateModel) -> bool {
    c.synced_lyrics is Some || c.plain_lyrics is Some
}

/// Duration mismatch score, lower is better: the millisecond gap in units
/// of `ms_per_unit`, or a fixed middling score when either side is
/// unknown.
pub open spec fn spec_duration_score(
    actual_ms: Option<u64>,
    expected_secs: Option<u32>,
    ms_per_unit: u64,
) -> int
    recommends
        ms_per_unit > 0,
{
    match (actual_ms, expected_secs) {
        (Some(d), Some(q)) => {
            let gap: int = if d >= q * 1000 {
                d - q * 1000
            } else {
                q * 1000 - d
            };
            gap / (ms_per_unit as int)
        },
        _ => 50,
    }
}

/// A candidate's score: synced beats unsynced outright within a tier,
/// then the closer duration wins.
pub open spec fn spec_score(c: CandidateModel, expected_secs: Option<u32>, ms_per_unit: u64) -> int {
    (if c.synced_lyrics is Some {
        0int
    } else {
        100int
    }) + spec_duration_score(c.duration_ms, expected_secs, ms_per_unit)
}

fn duration_score(actual_ms: Option<u64>, expected_secs: Option<u32>, ms_per_unit: u64) -> (r: u64)
    requires
        ms_per_unit >= 100,
    ensures
        r == spec_duration_score(actual_ms, expected_secs, ms_per_unit),
        r <= u64::MAX / 100,
{
    match (actual_ms, expected_secs) {
        (Some(d), Some(q)) => {
            let q_ms: u64 = (q as u64) * 1000;
            let gap: u64 = if d >= q_ms {
                d - q_ms
            } else {
                q_ms - d
            };
            let r = gap / ms_per_unit;
            proof {
                assert((gap as int) / (ms_per_unit as int) <= (u64::MAX as int) / 100) by (nonlinear_arith)
                    requires
                        ms_per_unit >= 100,
                        0 <= gap <= u64::MAX,
                ;
            }
            r
        },
        _ => 50,
    }
}

fn candidate_score(c: &LrclibCandidate, expected_secs: Option<u32>, ms_per_unit: u64) -> (r: u64)
    requires
        ms_per_unit >= 100,
    ensures
        r == spec_score(c@, expected_secs, ms_per_unit),
{
    let base: u64 = if c.synced_lyrics.is_some() {
        0
    } else {
        100
    };
    let ds = duration_score(c.duration_ms, expected_secs, ms_per_unit);
    proof {
        assert(ds <= u64::MAX / 100);
    }
    base + ds
}

/// Whether a candidate's duration lies within the tolerance of the
/// queried one; a candidate without a duration never passes the filter.
pub open spec fn spec_within_tolerance(c: CandidateModel, q_secs: u32) -> bool {
    match c.duration_ms {
        Some(d) => {
            let gap: int = if d >= q_secs * 1000 {
                d - q_secs * 1000
            } else {
                q_secs * 1000 - d
            };
            gap <= DURATION_TOLERANCE_MS
        },
        None => false,
    }
}

/// The candidates that survive the duration filter, in order. Without a
/// queried duration everything survives.
pub open spec fn spec_filtered(cs: Seq<CandidateModel>, q: Option<u32>) -> Seq<CandidateModel>
    decreases cs.len(),
{
    if cs.len() == 0 {
        Seq::empty()
    } else {
        spec_filtered(cs.drop_last(), q) + (match q {
            Some(qs) => if spec_within_tolerance(cs.last(), qs) {
                seq![cs.last()]
            } else {
                Seq::empty()
            },
            None => seq![cs.last()],
        })
    }
}

pub open spec fn view_candidates(cs: Seq<LrclibCandidate>) -> Seq<CandidateModel> {
    cs.map_values(|c: LrclibCandidate| c@)
}

/// Keep only candidates within the duration tolerance of the query.
pub fn filter_by_duration(cands: Vec<LrclibCandidate>, q: Option<u32>) -> (r: Vec<
    LrclibCandidate,
>)
    ensures
        view_candidates(r@) == spec_filtered(view_candidates(cands@), q),
{
    let ghost cs0 = view_candidates(cands@);
    let mut rest = cands;
    let mut out: Vec<LrclibCandidate> = Vec::new();
    proof {
        assert(spec_filtered(cs0.subrange(0, 0), q) =~= Seq::<CandidateModel>::empty());
        assert(view_candidates(out@) =~= Seq::<CandidateModel>::empty());
    }
    let n0 = rest.len();
    proof {
        assert(cs0.len() == n0);
    }
    let mut i: usize = 0;
    while rest.len() > 0
        invariant
            i + rest@.len() == cs0.len(),
            0 <= i <= cs0.len() <= usize::MAX,
            forall|k: int| 0 <= k < rest@.len() ==> (#[trigger] rest@[k])@ == cs0[i + k],
            view_candidates(out@) == spec_filtered(cs0.subrange(0, i as int), q),
        decreases rest@.len(),
    {
        let ghost rest_before = rest@;
        let c = rest.remove(0);
        proof {
            assert(rest@ =~= rest_before.drop_first());
            assert(c@ == cs0[i as int]);
            let pre = cs0.subrange(0, i as int);
            let cur = cs0.subrange(0, i + 1 as int);
            assert(cur.drop_last() =~= pre);
            assert(cur.last() == cs0[i as int]);
        }
        let keep: bool = match q {
            Some(qs) => {
                match c.duration_ms {
                    Some(d) => {
                        let q_ms: u64 = (qs as u64) * 1000;
                        let gap: u64 = if d >= q_ms {
                            d - q_ms
                        } else {
                            q_ms - d
                        };
                        gap <= DURATION_TOLERANCE_MS
                    },
                    None => false,
                }
            },
            None => true,
        };
        if keep {
            let ghost out_before = out@;
            out.push(c);
            proof {
                assert forall|k: int| 0 <= k < out@.len() implies #[trigger] view_candidates(
                    out@,
                )[k] == spec_filtered(cs0.subrange(0, i + 1 as int), q)[k] by {
                    assert(view_candidates(out@)[k] == out@[k]@);
                    if k < out_before.len() {
                        assert(out@[k] == out_before[k]);
                        assert(view_candidates(out_before)[k] == out_before[k]@);
                    }
                }
                assert(view_candidates(out@) =~= spec_filtered(cs0.subrange(0, i + 1 as int), q));
            }
        } else {
            proof {
                assert(view_candidates(out@) =~= spec_filtered(cs0.subrange(0, i + 1 as int), q));
            }
        }
        i += 1;
        proof {
            assert forall|k: int| 0 <= k < rest@.len() implies (#[trigger] rest@[k])@ == cs0[i + k] by {
                assert(rest@[k] == rest_before[k + 1]);
            }
        }
    }
    proof {
        assert(cs0.subrange(0, cs0.len() as int) =~= cs0);
    }
    out
}

/// Pick the best usable candidate: the first one with minimal score.
pub fn select_best(cands: &Vec<LrclibCandidate>, expected_secs: Option<u32>, ms_per_unit: u64) -> (r:
    Option<usize>)
    requires
        ms_per_unit >= 100,
    ensures
        ({
            let cs = view_candidates(cands@);
            match r {
                Some(i) => {
                    &&& 0 <= i < cs.len()
                    &&& spec_usable(cs[i as int])
                    &&& forall|k: int|
                        0 <= k < cs.len() && spec_usable(#[trigger] cs[k]) ==> spec_score(
                            cs[i as int],
                            expected_secs,
                            ms_per_unit,
                        ) <= spec_score(cs[k], expected_secs, ms_per_unit)
                    &&& forall|k: int|
                        0 <= k < i && spec_usable(#[trigger] cs[k]) ==> spec_score(
                            cs[k],
                            expected_secs,
                            ms_per_unit,
                        ) > spec_score(cs[i as int], expected_secs, ms_per_unit)
                },
                None => forall|k: int| 0 <= k < cs.len() ==> !spec_usable(#[trigger] cs[k]),
            }
        }),
{
    let ghost cs = view_candidates(cands@);
    let mut best: Option<usize> = None;
    let mut best_score: u64 = 0;
    let mut i: usize = 0;
    while i < cands.len()
        invariant
            0 <= i <= cands@.len(),
            cs == view_candidates(cands@),
            ms_per_unit >= 100,
            match best {
                Some(b) => {
                    &&& 0 <= b < i
                    &&& spec_usable(cs[b as int])
                    &&& best_score == spec_score(cs[b as int], expected_secs, ms_per_unit)
                    &&& forall|k: int|
                        0 <= k < i && spec_usable(#[trigger] cs[k]) ==> best_score <= spec_score(
                            cs[k],
                            expected_secs,
                            ms_per_unit,
                        )
                    &&& forall|k: int|
                        0 <= k < b && spec_usable(#[trigger] cs[k]) ==> spec_score(
                            cs[k],
                            expected_secs,
                            ms_per_unit,
                        ) > best_score
                },
                None => forall|k: int| 0 <= k < i ==> !spec_usable(#[trigger] cs[k]),
            },
        decreases cands@.len() - i,
    {
        proof {
            assert(cs[i as int] == cands@[i as int]@);
        }
        let usable = cands[i].synced_lyrics.is_some() || cands[i].plain_lyrics.is_some();
        if usable {
            let sc = candidate_score(&cands[i], expected_secs, ms_per_unit);
            let take: bool = match best {
                Some(_) => sc < best_score,
                None => true,
            };
            if take {
                best = Some(i);
                best_score = sc;
            }
        }
        i += 1;
    }
    best
}

/// Turn one candidate into a fetch result: instrumental tracks have no
/// lyrics, synced text is parsed, plain text is kept unsynced, and the
/// candidate's id is always reported back.
pub fn parse_response(result: LrclibCandidate) -> (r: FetchedLyrics)
    ensures
        r.provider_id@ == dec_str_i64(result@.id),
        result@.instrumental ==> r.result is NotFound,
        !result@.instrumental ==> match result@.synced_lyrics {
            Some(s) => if spec_trim(s).len() > 0 {
                r.result is Synced && r.result->Synced_0.metadata@ == spec_parse_meta(s)
                    && view_lines(r.result->Synced_0.lines@) == spec_parse_lines(s)
            } else {
                spec_plain_outcome(result@, r)
            },
            None => spec_plain_outcome(result@, r),
        },
{
    let provider_id = i64_to_string(result.id);
    if result.instrumental {
        return FetchedLyrics { result: LyricsResult::NotFound, provider_id };
    }
    match &result.synced_lyrics {
        Some(synced) => {
            let sc = chars_of(synced.as_str());
            let trimmed = trim_chars(&sc);
            if trimmed.len() > 0 {
                match LrcFile::parse(synced.as_str()) {
                    Ok(lrc) => {
                        return FetchedLyrics { result: LyricsResult::Synced(lrc), provider_id };
                    },
                    Err(_) => {},
                }
            }
        },
        None => {},
    }
    match &result.plain_lyrics {
        Some(plain) => {
            let pc = chars_of(plain.as_str());
            let trimmed = trim_chars(&pc);
            if trimmed.len() > 0 {
                return FetchedLyrics {
                    result: LyricsResult::Unsynced(plain.clone()),
                    provider_id,
                };
            }
        },
        None => {},
    }
    FetchedLyrics { result: LyricsResult::NotFound, provider_id }
}

/// The plain-lyrics fallback of `parse_response`: nonempty plain text is
/// kept as unsynced, anything else is a miss.
pub open spec fn spec_plain_outcome(c: CandidateModel, r: FetchedLyrics) -> bool {
    match c.plain_lyrics {
        Some(p) => if spec_trim(p).len() > 0 {
            r.result matches LyricsResult::Unsynced(t) && t@ == p
        } else {
            r.result is NotFound
        },
        None => r.result is NotFound,
    }
}

/// The decimal numeral of a signed value.
pub open spec fn dec_str_i64(x: i64) -> Seq<char> {
    if x < 0 {
        seq!['-'] + dec_str((-(x as int)) as nat)
    } else {
        dec_str(x as nat)
    }
}

/// Second tier: given the track-name search results, keep the candidates
/// within ±2 s of the queried duration and return the best usable one;
/// `None` says the caller must fall through to the free-text search.
pub fn track_search_pick(results: Vec<LrclibCandidate>, duration_secs: Option<u32>) -> (r: Option<
    FetchedLyrics,
>)
    ensures
        ({
            let filtered = spec_filtered(view_candidates(results@), duration_secs);
            match r {
                Some(f) => exists|i: int|
                    {
                        &&& 0 <= i < filtered.len()
                        &&& spec_usable(#[trigger] filtered[i])
                        &&& (forall|k: int|
                            0 <= k < filtered.len() && spec_usable(#[trigger] filtered[k])
                                ==> spec_score(filtered[i], duration_secs, 100) <= spec_score(
                                filtered[k],
                                duration_secs,
                                100,
                            ))
                        &&& (forall|k: int|
                            0 <= k < i && spec_usable(#[trigger] filtered[k]) ==> spec_score(
                                filtered[k],
                                duration_secs,
                                100,
                            ) > spec_score(filtered[i], duration_secs, 100))
                        &&& f.provider_id@ == dec_str_i64(filtered[i].id)
                    },
                None => results@.len() == 0 || forall|k: int|
                    0 <= k < filtered.len() ==> !spec_usable(#[trigger] filtered[k]),
            }
        }),
{
    if results.len() == 0 {
        return None;
    }
    let filtered = filter_by_duration(results, duration_secs);
    if filtered.len() == 0 {
        proof {
            assert(view_candidates(filtered@).len() == 0);
        }
        return None;
    }
    match select_best(&filtered, duration_secs, 100) {
        Some(i) => {
            let chosen = take_at(filtered, i);
            let f = parse_response(chosen);
            Some(f)
        },
        None => None,
    }
}

/// Move the element at `i` out of the vector.
fn take_at(mut v: Vec<LrclibCandidate>, i: usize) -> (r: LrclibCandidate)
    requires
        i < v@.len(),
    ensures
        r@ == v@.map_values(|c: LrclibCandidate| c@)[i as int],
{
    let ghost v0 = v@;
    let r = v.remove(i);
    proof {
        assert(r == v0[i as int]);
    }
    r
}

/// Third tier: free-text search results. An empty result list or no
/// usable candidate is a definitive miss; otherwise the best usable
/// candidate is taken, scoring the duration gap in whole seconds.
pub fn full_search_pick(
    results: Vec<LrclibCandidate>,
    duration_secs: Option<u32>,
    track_name: &str,
    artist_name: &str,
) -> (r: Result<FetchedLyrics, CoreError>)
    ensures
        ({
            let cs = view_candidates(results@);
            match r {
                Ok(f) => exists|i: int|
                    {
                        &&& 0 <= i < cs.len()
                        &&& spec_usable(#[trigger] cs[i])
                        &&& (forall|k: int|
                            0 <= k < cs.len() && spec_usable(#[trigger] cs[k]) ==> spec_score(
                                cs[i],
                                duration_secs,
                                1000,
                            ) <= spec_score(cs[k], duration_secs, 1000))
                        &&& (forall|k: int|
                            0 <= k < i && spec_usable(#[trigger] cs[k]) ==> spec_score(
                                cs[k],
                                duration_secs,
                                1000,
                            ) > spec_score(cs[i], duration_secs, 1000))
                        &&& f.provider_id@ == dec_str_i64(cs[i].id)
                    },
                Err(e) => (forall|k: int| 0 <= k < cs.len() ==> !spec_usable(#[trigger] cs[k]))
                    && (e matches CoreError::LyricsNotFound { track, artist } && track@
                    == track_name@ && artist@ == artist_name@),
            }
        }),
{
    if results.len() == 0 {
        return Err(
            CoreError::LyricsNotFound {
                track: track_name.to_owned(),
                artist: artist_name.to_owned(),
            },
        );
    }
    match select_best(&results, duration_secs, 1000) {
        Some(i) => {
            let chosen = take_at(results, i);
            let f = parse_response(chosen);
            Ok(f)
        },
        None => Err(
            CoreError::LyricsNotFound {
                track: track_name.to_owned(),
                artist: artist_name.to_owned(),
            },
        ),
    }
}

// ---------------------------------------------------------------------------
// Request URLs
// ---------------------------------------------------------------------------

/// The percent-encoded form of a string, as the `urlencoding` crate
/// produces it: a function of the characters alone.
pub uninterp spec fn percent_encoded(s: Seq<char>) -> Seq<char>;

/// Relies on `urlencoding::encode`: percent-encodes every byte except
/// ASCII alphanumerics and `-`, `_`, `.`, `~`, so a string of only those
/// characters comes back unchanged.
#[verifier::external_body]
fn url_encode(s: &str) -> (r: String)
    ensures
        r@ == percent_encoded(s@),
        (forall|i: int|
            0 <= i < s@.len() ==> crate::text::is_digit_char(#[trigger] s@[i]) || ('a' <= s@[i]
                && s@[i] <= 'z') || ('A' <= s@[i] && s@[i] <= 'Z') || s@[i] == '-' || s@[i] == '_'
                || s@[i] == '.' || s@[i] == '~') ==> r@ == s@,
{
    urlencoding::encode(s).into_owned()
}

/// The exact-lookup URL of a query: artist, track, then album and
/// duration where known.
pub open spec fn spec_exact_url(q: crate::provider::QueryModel) -> Seq<char> {
    "https://lrclib.net/api/get?artist_name="@ + percent_encoded(q.artist_name) + "&track_name="@
        + percent_encoded(q.track_name) + (match q.album_name {
        Some(a) => "&album_name="@ + percent_encoded(a),
        None => Seq::<char>::empty(),
    }) + (match q.duration_secs {
        Some(d) => "&duration="@ + dec_str(d as nat),
        None => Seq::<char>::empty(),
    })
}

/// Build the exact-lookup URL.
pub fn exact_url(query: &LyricsQuery) -> (r: String)
    ensures
        r@ == spec_exact_url(query@),
{
    let mut out: Vec<char> = Vec::new();
    push_all(&mut out, "https://lrclib.net/api/get?artist_name=");
    let ea = url_encode(query.artist_name.as_str());
    push_all(&mut out, ea.as_str());
    push_all(&mut out, "&track_name=");
    let et = url_encode(query.track_name.as_str());
    push_all(&mut out, et.as_str());
    match &query.album_name {
        Some(album) => {
            push_all(&mut out, "&album_name=");
            let eal = url_encode(album.as_str());
            push_all(&mut out, eal.as_str());
        },
        None => {},
    }
    match query.duration_secs {
        Some(d) => {
            push_all(&mut out, "&duration=");
            push_dec(d as u64, &mut out);
        },
        None => {},
    }
    proof {
        assert(out@ =~= spec_exact_url(query@));
    }
    string_from_chars(&out)
}

/// The track-name search URL.
pub open spec fn spec_track_search_url(track_name: Seq<char>) -> Seq<char> {
    "https://lrclib.net/api/search?track_name="@ + percent_encoded(track_name)
}

/// Build the track-name search URL.
pub fn track_search_url(query: &LyricsQuery) -> (r: String)
    ensures
        r@ == spec_track_search_url(query@.track_name),
{
    let mut out: Vec<char> = Vec::new();
    push_all(&mut out, "https://lrclib.net/api/search?track_name=");
    let et = url_encode(query.track_name.as_str());
    push_all(&mut out, et.as_str());
    proof {
        assert(out@ =~= spec_track_search_url(query@.track_name));
    }
    string_from_chars(&out)
}

/// The free-text search URL: artist and track joined by a space, encoded.
pub open spec fn spec_full_search_url(artist: Seq<char>, track: Seq<char>) -> Seq<char> {
    "https://lrclib.net/api/search?q="@ + percent_encoded(artist + seq![' '] + track)
}

/// Build the free-text search URL.
pub fn full_search_url(query: &LyricsQuery) -> (r: String)
    ensures
        r@ == spec_full_search_url(query@.artist_name, query@.track_name),
{
    let mut joined: Vec<char> = Vec::new();
    push_all(&mut joined, query.artist_name.as_str());
    joined.push(' ');
    push_all(&mut joined, query.track_name.as_str());
    proof {
        assert(joined@ =~= query@.artist_name + seq![' '] + query@.track_name);
    }
    let js = string_from_chars(&joined);
    let mut out: Vec<char> = Vec::new();
    push_all(&mut out, "https://lrclib.net/api/search?q=");
    let eq = url_encode(js.as_str());
    push_all(&mut out, eq.as_str());
    proof {
        assert(out@ =~= spec_full_search_url(query@.artist_name, query@.track_name));
    }
    string_from_chars(&out)
}

} // verus!
