//! Timed-lyrics model: the LRC grammar, its parser, and per-line timing
//! queries.
//!
//! All times are whole milliseconds. The parser never fails hard: malformed
//! lines and tags are skipped, a leading `[offset:N]` tag shifts every time
//! once with saturating arithmetic, and the collected lines are stable-sorted
//! by start time.

use vstd::prelude::*;

use crate::error::CoreError;
use crate::text::{
    all_digits, chars_of, dec_val, digits_only, find_char, is_digit_char,
    is_i64_numeral, i64_numeral_val, lemma_find_sub, parse_i64, parse_u64, spec_find, spec_trim,
    spec_trim_end, spec_trim_start, string_from_chars, subvec, trim_chars, is_u64_numeral,
};

verus! {

/// Word-level timing for enhanced LRC lines. Times are milliseconds.
#[derive(Clone, Debug)]
pub struct LrcWord {
    pub start_time: u64,
    pub end_time: Option<u64>,
    pub text: String,
}

/// One line of lyrics; `start_time` is milliseconds from track start.
#[derive(Clone, Debug)]
pub struct LrcLine {
    pub start_time: u64,
    pub text: String,
    /// Word-level timing, present only for enhanced-format lines.
    pub words: Option<Vec<LrcWord>>,
}

/// Metadata carried by LRC ID tags.
#[derive(Clone, Debug)]
pub struct LrcMetadata {
    pub title: Option<String>,
    pub artist: Option<String>,
    pub album: Option<String>,
    pub author: Option<String>,
    /// Track length from a `[length:mm:ss]` tag, in milliseconds.
    pub length: Option<u64>,
    /// Offset in milliseconds from an `[offset:N]` tag; may be negative.
    pub offset: i64,
}

/// Parsed LRC file: metadata plus lines sorted by start time.
#[derive(Clone, Debug)]
pub struct LrcFile {
    pub metadata: LrcMetadata,
    pub lines: Vec<LrcLine>,
}

/// Mathematical image of a word: times plus the character sequence.
pub ghost struct WordModel {
    pub start_time: u64,
    pub end_time: Option<u64>,
    pub text: Seq<char>,
}

/// Mathematical image of a line.
pub ghost struct LineModel {
    pub start_time: u64,
    pub text: Seq<char>,
    pub words: Option<Seq<WordModel>>,
}

/// Mathematical image of the metadata.
pub ghost struct MetaModel {
    pub title: Option<Seq<char>>,
    pub artist: Option<Seq<char>>,
    pub album: Option<Seq<char>>,
    pub author: Option<Seq<char>>,
    pub length: Option<u64>,
    pub offset: int,
}

impl View for LrcWord {
    type V = WordModel;

    open spec fn view(&self) -> WordModel {
        WordModel { start_time: self.start_time, end_time: self.end_time, text: self.text@ }
    }
}

impl View for LrcLine {
    type V = LineModel;

    open spec fn view(&self) -> LineModel {
        LineModel {
            start_time: self.start_time,
            text: self.text@,
            words: match self.words {
                Some(ws) => Some(ws@.map_values(|w: LrcWord| w@)),
                None => None,
            },
        }
    }
}

impl View for LrcMetadata {
    type V = MetaModel;

    open spec fn view(&self) -> MetaModel {
        MetaModel {
            title: view_opt_string(&self.title),
            artist: view_opt_string(&self.artist),
            album: view_opt_string(&self.album),
            author: view_opt_string(&self.author),
            length: self.length,
            offset: self.offset as int,
        }
    }
}

pub open spec fn view_opt_string(s: &Option<String>) -> Option<Seq<char>> {
    match s {
        Some(x) => Some(x@),
        None => None,
    }
}

pub open spec fn view_lines(ls: Seq<LrcLine>) -> Seq<LineModel> {
    ls.map_values(|l: LrcLine| l@)
}

// ---------------------------------------------------------------------------
// Splitting on a separator character
// ---------------------------------------------------------------------------

/// Parts of `s` split on `c`; a trailing separator yields a final empty part.
pub open spec fn spec_split(s: Seq<char>, c: char) -> Seq<Seq<char>>
    decreases s.len(),
{
    match spec_find(s, 0, c) {
        None => seq![s],
        Some(i) => if 0 <= i < s.len() {
            seq![s.subrange(0, i)] + spec_split(s.subrange(i + 1, s.len() as int), c)
        } else {
            seq![s]
        },
    }
}

pub proof fn lemma_find_bounds(s: Seq<char>, from: int, c: char)
    requires
        0 <= from <= s.len(),
    ensures
        match spec_find(s, from, c) {
            Some(i) => from <= i < s.len() && s[i] == c,
            None => true,
        },
    decreases s.len() - from,
{
    if from < s.len() && s[from] != c {
        lemma_find_bounds(s, from + 1, c);
    }
}

pub fn split_char(v: &Vec<char>, c: char) -> (r: Vec<Vec<char>>)
    ensures
        r@.map_values(|p: Vec<char>| p@) == spec_split(v@, c),
{
    let mut r: Vec<Vec<char>> = Vec::new();
    let mut cursor: usize = 0;
    proof {
        assert(v@.subrange(0, v@.len() as int) =~= v@);
        assert(r@.map_values(|p: Vec<char>| p@) + spec_split(v@, c) =~= spec_split(v@, c));
    }
    loop
        invariant
            0 <= cursor <= v@.len(),
            spec_split(v@, c) == r@.map_values(|p: Vec<char>| p@) + spec_split(
                v@.subrange(cursor as int, v@.len() as int),
                c,
            ),
        decreases v@.len() - cursor,
    {
        proof {
            lemma_find_sub(v@, cursor as int, 0, c);
            lemma_find_bounds(v@, cursor as int, c);
        }
        let n = v.len();
        match find_char(v, cursor, c) {
            Some(i) => {
                proof {
                    assert(i < n);
                }
                let part = subvec(v, cursor, i);
                r.push(part);
                proof {
                    let rest = v@.subrange(cursor as int, v@.len() as int);
                    assert(spec_find(rest, 0, c) == Some(i - cursor));
                    assert(rest.subrange(0, i - cursor) =~= v@.subrange(cursor as int, i as int));
                    assert(rest.subrange(i - cursor + 1, rest.len() as int) =~= v@.subrange(
                        i + 1,
                        v@.len() as int,
                    ));
                    assert(spec_split(rest, c) == seq![part@] + spec_split(
                        v@.subrange(i + 1, v@.len() as int),
                        c,
                    ));
                    assert(r@.map_values(|p: Vec<char>| p@) =~= r@.drop_last().map_values(
                        |p: Vec<char>| p@,
                    ).push(part@));
                    assert(r@.drop_last().map_values(|p: Vec<char>| p@).push(part@) + spec_split(
                        v@.subrange(i + 1, v@.len() as int),
                        c,
                    ) =~= r@.drop_last().map_values(|p: Vec<char>| p@) + (seq![part@] + spec_split(
                        v@.subrange(i + 1, v@.len() as int),
                        c,
                    )));
                }
                cursor = i + 1;
            },
            None => {
                let part = subvec(v, cursor, v.len());
                r.push(part);
                proof {
                    let rest = v@.subrange(cursor as int, v@.len() as int);
                    assert(spec_split(rest, c) == seq![rest]);
                    assert(r@.map_values(|p: Vec<char>| p@) =~= r@.drop_last().map_values(
                        |p: Vec<char>| p@,
                    ).push(part@));
                    assert(r@.drop_last().map_values(|p: Vec<char>| p@).push(rest)
                        =~= r@.drop_last().map_values(|p: Vec<char>| p@) + seq![rest]);
                }
                return r;
            },
        }
    }
}

// ---------------------------------------------------------------------------
// Timestamps
// ---------------------------------------------------------------------------

/// Milliseconds named by up to three fraction digits: `"3"` is 300 ms,
/// `"34"` is 340 ms, `"345"` is 345 ms, further digits are ignored.
pub open spec fn frac_ms(s: Seq<char>) -> int {
    frac_digit(s, 0) * 100 + frac_digit(s, 1) * 10 + frac_digit(s, 2)
}

pub open spec fn frac_digit(s: Seq<char>, i: int) -> int {
    if i < s.len() {
        crate::text::digit_val(s[i])
    } else {
        0
    }
}

/// Value of a two-part timestamp `mm:ss` or `mm:ss.xx`, if well formed and
/// within range.
pub open spec fn spec_ts2(m: Seq<char>, rest: Seq<char>) -> Option<u64> {
    if !is_u64_numeral(m) {
        None
    } else {
        match spec_find(rest, 0, '.') {
            None => {
                if is_u64_numeral(rest) && dec_val(m) * 60000 + dec_val(rest) * 1000
                    <= u64::MAX {
                    Some((dec_val(m) * 60000 + dec_val(rest) * 1000) as u64)
                } else {
                    None
                }
            },
            Some(d) => {
                let sec = rest.subrange(0, d);
                let frac = rest.subrange(d + 1, rest.len() as int);
                if is_u64_numeral(sec) && all_digits(frac) && dec_val(m) * 60000 + dec_val(sec)
                    * 1000 + frac_ms(frac) <= u64::MAX {
                    Some((dec_val(m) * 60000 + dec_val(sec) * 1000 + frac_ms(frac)) as u64)
                } else {
                    None
                }
            },
        }
    }
}

/// Value of a three-part timestamp `mm:ss:xx` (colon as hundredths
/// separator), if well formed and within range.
pub open spec fn spec_ts3(m: Seq<char>, s2: Seq<char>, h: Seq<char>) -> Option<u64> {
    if is_u64_numeral(m) && is_u64_numeral(s2) && is_u64_numeral(h) && dec_val(m) * 60000 + dec_val(
        s2,
    ) * 1000 + dec_val(h) * 10 <= u64::MAX {
        Some((dec_val(m) * 60000 + dec_val(s2) * 1000 + dec_val(h) * 10) as u64)
    } else {
        None
    }
}

/// The timestamp grammar: `mm:ss`, `mm:ss.xx` or `mm:ss:xx`, surrounding
/// blanks ignored.
pub open spec fn spec_timestamp(s: Seq<char>) -> Option<u64> {
    let t = spec_trim(s);
    let parts = spec_split(t, ':');
    if parts.len() == 2 {
        spec_ts2(parts[0], parts[1])
    } else if parts.len() == 3 {
        spec_ts3(parts[0], parts[1], parts[2])
    } else {
        None
    }
}

/// Parse a timestamp from characters.
pub fn parse_timestamp_chars(v: &Vec<char>) -> (r: Option<u64>)
    ensures
        r == spec_timestamp(v@),
{
    let t = trim_chars(v);
    let parts = split_char(&t, ':');
    proof {
        assert(parts@.map_values(|p: Vec<char>| p@).len() == parts@.len());
    }
    if parts.len() == 2 {
        proof {
            assert(parts@.map_values(|p: Vec<char>| p@)[0] == parts@[0]@);
            assert(parts@.map_values(|p: Vec<char>| p@)[1] == parts@[1]@);
        }
        let m = match parse_u64(&parts[0]) {
            Some(m) => m,
            None => {
                return None;
            },
        };
        let rest = &parts[1];
        proof {
            lemma_find_sub(rest@, 0, 0, '.');
        }
        match find_char(rest, 0, '.') {
            None => {
                let sec = match parse_u64(rest) {
                    Some(s) => s,
                    None => {
                        return None;
                    },
                };
                match m.checked_mul(60000) {
                    Some(mm) => match sec.checked_mul(1000) {
                        Some(ss) => mm.checked_add(ss),
                        None => None,
                    },
                    None => None,
                }
            },
            Some(d) => {
                let rest_len = rest.len();
                proof {
                    assert(d < rest_len);
                }
                let sec_part = subvec(rest, 0, d);
                let frac = subvec(rest, d + 1, rest_len);
                let sec = match parse_u64(&sec_part) {
                    Some(s) => s,
                    None => {
                        return None;
                    },
                };
                if !digits_only(&frac) {
                    return None;
                }
                let fr: u64 = frac_ms_exec(&frac);
                match m.checked_mul(60000) {
                    Some(mm) => match sec.checked_mul(1000) {
                        Some(ss) => match mm.checked_add(ss) {
                            Some(t0) => t0.checked_add(fr),
                            None => None,
                        },
                        None => None,
                    },
                    None => None,
                }
            },
        }
    } else if parts.len() == 3 {
        proof {
            assert(parts@.map_values(|p: Vec<char>| p@)[0] == parts@[0]@);
            assert(parts@.map_values(|p: Vec<char>| p@)[1] == parts@[1]@);
            assert(parts@.map_values(|p: Vec<char>| p@)[2] == parts@[2]@);
        }
        let m = match parse_u64(&parts[0]) {
            Some(x) => x,
            None => {
                return None;
            },
        };
        let s2 = match parse_u64(&parts[1]) {
            Some(x) => x,
            None => {
                return None;
            },
        };
        let h = match parse_u64(&parts[2]) {
            Some(x) => x,
            None => {
                return None;
            },
        };
        match m.checked_mul(60000) {
            Some(mm) => match s2.checked_mul(1000) {
                Some(ss) => match h.checked_mul(10) {
                    Some(hh) => match mm.checked_add(ss) {
                        Some(t0) => t0.checked_add(hh),
                        None => None,
                    },
                    None => None,
                },
                None => None,
            },
            None => None,
        }
    } else {
        None
    }
}

// ---------------------------------------------------------------------------
// ID tags
// ---------------------------------------------------------------------------

/// An ID tag `[tag:value]`: the bracket must open the line, the tag may not
/// be all digits (that shape is a timestamp), and the value is trimmed.
pub open spec fn spec_id_tag(line: Seq<char>) -> Option<(Seq<char>, Seq<char>)> {
    if line.len() == 0 || line[0] != '[' {
        None
    } else {
        match spec_find(line, 0, ']') {
            None => None,
            Some(j) => if 1 <= j < line.len() {
                let content = line.subrange(1, j);
                match spec_find(content, 0, ':') {
                    None => None,
                    Some(k) => if 0 <= k < content.len() {
                        let tag = content.subrange(0, k);
                        if all_digits(tag) {
                            None
                        } else {
                            Some(
                                (tag, spec_trim(content.subrange(k + 1, content.len() as int))),
                            )
                        }
                    } else {
                        None
                    },
                }
            } else {
                None
            },
        }
    }
}

/// Parse an ID tag from a line.
pub fn parse_id_tag(line: &Vec<char>) -> (r: Option<(Vec<char>, Vec<char>)>)
    ensures
        match r {
            Some(p) => spec_id_tag(line@) == Some((p.0@, p.1@)),
            None => spec_id_tag(line@) is None,
        },
{
    let n = line.len();
    if n == 0 || line[0] != '[' {
        return None;
    }
    proof {
        lemma_find_bounds(line@, 0, ']');
    }
    let j = match find_char(line, 0, ']') {
        Some(j) => j,
        None => {
            return None;
        },
    };
    proof {
        assert(line@[j as int] == ']');
        assert(line@[0] == '[');
        assert(j >= 1);
    }
    let content = subvec(line, 1, j);
    proof {
        lemma_find_bounds(content@, 0, ':');
    }
    let k = match find_char(&content, 0, ':') {
        Some(k) => k,
        None => {
            return None;
        },
    };
    let tag = subvec(&content, 0, k);
    if digits_only(&tag) {
        return None;
    }
    let content_len = content.len();
    proof {
        assert(k < content_len);
    }
    let value = trim_chars(&subvec(&content, k + 1, content_len));
    Some((tag, value))
}

// ---------------------------------------------------------------------------
// Leading timestamps of a lyric line
// ---------------------------------------------------------------------------

/// All leading bracketed timestamps of a line, and what follows them.
pub open spec fn spec_stamps(s: Seq<char>) -> (Seq<u64>, Seq<char>)
    decreases s.len(),
{
    if s.len() > 0 && s[0] == '[' {
        match spec_find(s, 0, ']') {
            None => (Seq::empty(), s),
            Some(j) => if 1 <= j < s.len() {
                match spec_timestamp(s.subrange(1, j)) {
                    None => (Seq::empty(), s),
                    Some(t) => {
                        let pr = spec_stamps(s.subrange(j + 1, s.len() as int));
                        (seq![t] + pr.0, pr.1)
                    },
                }
            } else {
                (Seq::empty(), s)
            },
        }
    } else {
        (Seq::empty(), s)
    }
}

/// Take the leading timestamps off a line; returns them and the index where
/// the remaining text begins.
pub fn take_stamps(line: &Vec<char>) -> (r: (Vec<u64>, usize))
    ensures
        r.1 <= line@.len(),
        spec_stamps(line@).0 == r.0@,
        spec_stamps(line@).1 == line@.subrange(r.1 as int, line@.len() as int),
{
    let mut stamps: Vec<u64> = Vec::new();
    let mut cursor: usize = 0;
    proof {
        assert(line@.subrange(0, line@.len() as int) =~= line@);
        assert(stamps@ + spec_stamps(line@).0 =~= spec_stamps(line@).0);
    }
    loop
        invariant
            0 <= cursor <= line@.len(),
            spec_stamps(line@).0 == stamps@ + spec_stamps(
                line@.subrange(cursor as int, line@.len() as int),
            ).0,
            spec_stamps(line@).1 == spec_stamps(
                line@.subrange(cursor as int, line@.len() as int),
            ).1,
        decreases line@.len() - cursor,
    {
        let ghost rest = line@.subrange(cursor as int, line@.len() as int);
        let n = line.len();
        if cursor >= n || line[cursor] != '[' {
            proof {
                if rest.len() > 0 {
                    assert(rest[0] == line@[cursor as int]);
                }
                assert(spec_stamps(rest) == (Seq::<u64>::empty(), rest));
                assert(stamps@ + Seq::<u64>::empty() =~= stamps@);
            }
            return (stamps, cursor);
        }
        proof {
            assert(rest[0] == line@[cursor as int]);
            lemma_find_sub(line@, cursor as int, 0, ']');
            lemma_find_bounds(line@, cursor as int, ']');
        }
        let j = match find_char(line, cursor, ']') {
            Some(j) => j,
            None => {
                proof {
                    assert(spec_stamps(rest) == (Seq::<u64>::empty(), rest));
                    assert(stamps@ + Seq::<u64>::empty() =~= stamps@);
                }
                return (stamps, cursor);
            },
        };
        proof {
            assert(j < n);
            assert(line@[j as int] == ']');
            assert(j >= 1 + cursor);
            assert(spec_find(rest, 0, ']') == Some(j - cursor));
        }
        let content = subvec(line, cursor + 1, j);
        proof {
            assert(content@ =~= rest.subrange(1, j - cursor));
        }
        match parse_timestamp_chars(&content) {
            Some(t) => {
                stamps.push(t);
                proof {
                    let tail = line@.subrange(j + 1, line@.len() as int);
                    assert(rest.subrange(j - cursor + 1, rest.len() as int) =~= tail);
                    assert(spec_stamps(rest).0 == seq![t] + spec_stamps(tail).0);
                    assert(spec_stamps(rest).1 == spec_stamps(tail).1);
                    assert(stamps@ =~= stamps@.drop_last() + seq![t]);
                    assert(stamps@.drop_last() + (seq![t] + spec_stamps(tail).0) =~= (
                    stamps@.drop_last() + seq![t]) + spec_stamps(tail).0);
                }
                cursor = j + 1;
            },
            None => {
                proof {
                    assert(spec_stamps(rest) == (Seq::<u64>::empty(), rest));
                    assert(stamps@ + Seq::<u64>::empty() =~= stamps@);
                }
                return (stamps, cursor);
            },
        }
    }
}

// ---------------------------------------------------------------------------
// Enhanced word timing
// ---------------------------------------------------------------------------

/// Words of an enhanced line `<ts> word <ts> word ...`, end times not yet
/// assigned. Content before the first `<` and empty words are skipped; a
/// malformed `<...>` group is skipped as well.
pub open spec fn spec_words(s: Seq<char>) -> Seq<WordModel>
    decreases s.len(),
{
    if s.len() == 0 {
        Seq::empty()
    } else if s[0] == '<' {
        match spec_find(s, 0, '>') {
            None => Seq::empty(),
            Some(e) => if 1 <= e < s.len() {
                let rest = s.subrange(e + 1, s.len() as int);
                match spec_timestamp(s.subrange(1, e)) {
                    None => spec_words(rest),
                    Some(t) => {
                        let wend = match spec_find(rest, 0, '<') {
                            None => rest.len() as int,
                            Some(i) => i,
                        };
                        if 0 <= wend <= rest.len() {
                            let wtext = spec_trim(rest.subrange(0, wend));
                            let tail = rest.subrange(wend, rest.len() as int);
                            if wtext.len() == 0 {
                                spec_words(tail)
                            } else {
                                seq![
                                    WordModel { start_time: t, end_time: None, text: wtext },
                                ] + spec_words(tail)
                            }
                        } else {
                            Seq::empty()
                        }
                    },
                }
            } else {
                Seq::empty()
            },
        }
    } else {
        match spec_find(s, 0, '<') {
            None => Seq::empty(),
            Some(i) => if 1 <= i < s.len() {
                spec_words(s.subrange(i, s.len() as int))
            } else {
                Seq::empty()
            },
        }
    }
}

/// Each word's end time is the next word's start time; the last is open.
pub open spec fn with_ends(ws: Seq<WordModel>) -> Seq<WordModel> {
    ws.map(
        |i: int, w: WordModel|
            WordModel {
                start_time: w.start_time,
                end_time: if i + 1 < ws.len() {
                    Some(ws[i + 1].start_time)
                } else {
                    None
                },
                text: w.text,
            },
    )
}

/// The enhanced-format reading of a line's text: `None` when the text has no
/// `<` or yields no words.
pub open spec fn spec_enhanced(text: Seq<char>) -> Option<Seq<WordModel>> {
    if spec_find(text, 0, '<') is None {
        None
    } else {
        let ws = spec_words(spec_trim(text));
        if ws.len() == 0 {
            None
        } else {
            Some(with_ends(ws))
        }
    }
}

pub open spec fn view_words(ws: Seq<LrcWord>) -> Seq<WordModel> {
    ws.map_values(|w: LrcWord| w@)
}

/// Parse word-level timing out of an enhanced-format line text.
pub fn parse_enhanced_words(text: &Vec<char>) -> (r: Option<Vec<LrcWord>>)
    ensures
        match r {
            Some(ws) => spec_enhanced(text@) == Some(view_words(ws@)),
            None => spec_enhanced(text@) is None,
        },
{
    proof {
        lemma_find_bounds(text@, 0, '<');
    }
    if find_char(text, 0, '<').is_none() {
        return None;
    }
    let t = trim_chars(text);
    let mut raw: Vec<LrcWord> = Vec::new();
    let mut cursor: usize = 0;
    proof {
        assert(t@.subrange(0, t@.len() as int) =~= t@);
        assert(view_words(raw@) + spec_words(t@) =~= spec_words(t@));
    }
    loop
        invariant
            0 <= cursor <= t@.len(),
            spec_words(t@) == view_words(raw@) + spec_words(
                t@.subrange(cursor as int, t@.len() as int),
            ),
        ensures
            spec_words(t@) == view_words(raw@),
        decreases t@.len() - cursor,
    {
        let ghost rest = t@.subrange(cursor as int, t@.len() as int);
        let n = t.len();
        if cursor >= n {
            proof {
                assert(rest.len() == 0);
                assert(spec_words(rest) =~= Seq::<WordModel>::empty());
                assert(view_words(raw@) + Seq::<WordModel>::empty() =~= view_words(raw@));
            }
            break ;
        }
        proof {
            assert(rest[0] == t@[cursor as int]);
        }
        if t[cursor] == '<' {
            proof {
                lemma_find_sub(t@, cursor as int, 0, '>');
                lemma_find_bounds(t@, cursor as int, '>');
            }
            let e = match find_char(&t, cursor, '>') {
                Some(e) => e,
                None => {
                    proof {
                        assert(spec_words(rest) =~= Seq::<WordModel>::empty());
                        assert(view_words(raw@) + Seq::<WordModel>::empty() =~= view_words(raw@));
                    }
                    break ;
                },
            };
            proof {
                assert(e < n);
                assert(t@[e as int] == '>');
                assert(e >= cursor + 1);
                assert(spec_find(rest, 0, '>') == Some(e - cursor));
            }
            let content = subvec(&t, cursor + 1, e);
            proof {
                assert(content@ =~= rest.subrange(1, e - cursor));
            }
            let ghost spec_rest2 = rest.subrange(e - cursor + 1, rest.len() as int);
            proof {
                assert(spec_rest2 =~= t@.subrange(e + 1, t@.len() as int));
            }
            match parse_timestamp_chars(&content) {
                None => {
                    cursor = e + 1;
                },
                Some(ts) => {
                    proof {
                        lemma_find_sub(t@, e + 1, 0, '<');
                        lemma_find_bounds(t@, e + 1, '<');
                    }
                    let wend = match find_char(&t, e + 1, '<') {
                        Some(i) => i,
                        None => n,
                    };
                    proof {
                        assert(e + 1 <= wend <= n);
                        let swend: int = match spec_find(spec_rest2, 0, '<') {
                            None => spec_rest2.len() as int,
                            Some(i) => i,
                        };
                        assert(swend == wend - e - 1);
                        assert(spec_rest2.subrange(0, swend) =~= t@.subrange(e + 1, wend as int));
                        assert(spec_rest2.subrange(swend, spec_rest2.len() as int) =~= t@.subrange(
                            wend as int,
                            t@.len() as int,
                        ));
                    }
                    let wtext = trim_chars(&subvec(&t, e + 1, wend));
                    if wtext.len() > 0 {
                        let w = LrcWord {
                            start_time: ts,
                            end_time: None,
                            text: string_from_chars(&wtext),
                        };
                        raw.push(w);
                        proof {
                            assert(view_words(raw@) =~= view_words(raw@.drop_last()).push(
                                raw@.last()@,
                            ));
                            let tailw = spec_words(t@.subrange(wend as int, t@.len() as int));
                            assert(spec_words(rest) =~= seq![raw@.last()@] + tailw);
                            assert(view_words(raw@.drop_last()).push(raw@.last()@) + tailw =~= (
                            view_words(raw@.drop_last()) + (seq![raw@.last()@] + tailw)));
                        }
                    }
                    cursor = wend;
                },
            }
        } else {
            proof {
                lemma_find_sub(t@, cursor as int, 0, '<');
                lemma_find_bounds(t@, cursor as int, '<');
            }
            match find_char(&t, cursor, '<') {
                None => {
                    proof {
                        assert(spec_words(rest) =~= Seq::<WordModel>::empty());
                        assert(view_words(raw@) + Seq::<WordModel>::empty() =~= view_words(raw@));
                    }
                    break ;
                },
                Some(i) => {
                    proof {
                        assert(i > cursor);
                        assert(spec_find(rest, 0, '<') == Some(i - cursor));
                        assert(rest.subrange(i - cursor, rest.len() as int) =~= t@.subrange(
                            i as int,
                            t@.len() as int,
                        ));
                    }
                    cursor = i;
                },
            }
        }
    }
    if raw.len() == 0 {
        return None;
    }
    // Assign end times: each word ends where the next begins.
    let mut out: Vec<LrcWord> = Vec::new();
    let ghost ws0 = view_words(raw@);
    proof {
        assert(view_words(raw@) =~= ws0.subrange(0, ws0.len() as int));
        assert(view_words(out@) =~= with_ends(ws0).subrange(0, 0));
    }
    while raw.len() > 0
        invariant
            out@.len() + raw@.len() == ws0.len(),
            view_words(out@) == with_ends(ws0).subrange(0, out@.len() as int),
            view_words(raw@) == ws0.subrange(out@.len() as int, ws0.len() as int),
        decreases raw@.len(),
    {
        let ghost k = out@.len() as int;
        let ghost raw_before = raw@;
        let first = raw.remove(0);
        proof {
            assert(raw@ =~= raw_before.drop_first());
            assert(view_words(raw_before)[0] == raw_before[0]@);
            assert(first@ == ws0[k]);
        }
        let end: Option<u64> = if raw.len() > 0 {
            proof {
                assert(view_words(raw_before)[1] == raw_before[1]@);
                assert(raw@[0]@ == ws0[k + 1]);
            }
            Some(raw[0].start_time)
        } else {
            None
        };
        let w = LrcWord { start_time: first.start_time, end_time: end, text: first.text };
        let ghost out_before = out@;
        out.push(w);
        proof {
            assert(out@ =~= out_before.push(w));
            assert forall|i: int| 0 <= i < out@.len() implies #[trigger] view_words(out@)[i]
                == with_ends(ws0).subrange(0, k + 1)[i] by {
                assert(view_words(out@)[i] == out@[i]@);
                if i < k {
                    assert(out@[i] == out_before[i]);
                    assert(view_words(out_before)[i] == out_before[i]@);
                } else {
                    assert(out@[i] == w);
                    assert(with_ends(ws0)[k] == WordModel {
                        start_time: ws0[k].start_time,
                        end_time: if k + 1 < ws0.len() {
                            Some(ws0[k + 1].start_time)
                        } else {
                            None
                        },
                        text: ws0[k].text,
                    });
                }
            }
            assert(view_words(out@) =~= with_ends(ws0).subrange(0, k + 1));
            assert forall|i: int| 0 <= i < raw@.len() implies #[trigger] view_words(raw@)[i]
                == ws0.subrange(k + 1, ws0.len() as int)[i] by {
                assert(view_words(raw@)[i] == raw@[i]@);
                assert(raw@[i] == raw_before[i + 1]);
                assert(view_words(raw_before)[i + 1] == raw_before[i + 1]@);
            }
            assert(view_words(raw@) =~= ws0.subrange(k + 1, ws0.len() as int));
        }
    }
    proof {
        assert(view_words(out@) =~= with_ends(ws0));
    }
    Some(out)
}

// ---------------------------------------------------------------------------
// Whole lyric lines
// ---------------------------------------------------------------------------

/// Word texts joined with single spaces.
pub open spec fn join_words(ws: Seq<WordModel>) -> Seq<char>
    decreases ws.len(),
{
    if ws.len() == 0 {
        Seq::empty()
    } else if ws.len() == 1 {
        ws[0].text
    } else {
        join_words(ws.drop_last()) + seq![' '] + ws.last().text
    }
}

/// The lines produced by one physical lyric line: one per leading timestamp,
/// sharing the same text and word timing.
pub open spec fn spec_lyric_lines(line: Seq<char>) -> Option<Seq<LineModel>> {
    let pr = spec_stamps(line);
    if pr.0.len() == 0 {
        None
    } else {
        let text = spec_trim(pr.1);
        let words = spec_enhanced(text);
        let shown = match words {
            Some(ws) => join_words(ws),
            None => text,
        };
        Some(
            pr.0.map_values(|t: u64| LineModel { start_time: t, text: shown, words }),
        )
    }
}

fn clone_words(ws: &Vec<LrcWord>) -> (r: Vec<LrcWord>)
    ensures
        view_words(r@) == view_words(ws@),
{
    let mut r: Vec<LrcWord> = Vec::new();
    let mut k: usize = 0;
    while k < ws.len()
        invariant
            0 <= k <= ws@.len(),
            r@.len() == k,
            forall|i: int| 0 <= i < k ==> (#[trigger] r@[i])@ == ws@[i]@,
        decreases ws@.len() - k,
    {
        let w = LrcWord {
            start_time: ws[k].start_time,
            end_time: ws[k].end_time,
            text: ws[k].text.clone(),
        };
        r.push(w);
        k += 1;
    }
    proof {
        assert forall|i: int| 0 <= i < r@.len() implies #[trigger] view_words(r@)[i] == view_words(
            ws@,
        )[i] by {
            assert(view_words(r@)[i] == r@[i]@);
            assert(view_words(ws@)[i] == ws@[i]@);
        }
        assert(view_words(r@) =~= view_words(ws@));
    }
    r
}

fn join_words_exec(ws: &Vec<LrcWord>) -> (r: String)
    ensures
        r@ == join_words(view_words(ws@)),
{
    let mut acc: Vec<char> = Vec::new();
    let mut k: usize = 0;
    while k < ws.len()
        invariant
            0 <= k <= ws@.len(),
            acc@ == join_words(view_words(ws@).subrange(0, k as int)),
        decreases ws@.len() - k,
    {
        let wchars = chars_of(ws[k].text.as_str());
        let ghost before = acc@;
        if k > 0 {
            acc.push(' ');
        }
        let mut i: usize = 0;
        while i < wchars.len()
            invariant
                0 <= i <= wchars@.len(),
                acc@ == (if k > 0 {
                    before.push(' ')
                } else {
                    before
                }) + wchars@.subrange(0, i as int),
            decreases wchars@.len() - i,
        {
            acc.push(wchars[i]);
            proof {
                let base = if k > 0 {
                    before.push(' ')
                } else {
                    before
                };
                assert(base + wchars@.subrange(0, i + 1 as int) =~= (base + wchars@.subrange(
                    0,
                    i as int,
                )).push(wchars@[i as int]));
            }
            i += 1;
        }
        proof {
            let pre = view_words(ws@).subrange(0, k as int);
            let cur = view_words(ws@).subrange(0, k + 1 as int);
            assert(cur.drop_last() =~= pre);
            assert(cur.last() == ws@[k as int]@);
            assert(wchars@.subrange(0, wchars@.len() as int) =~= wchars@);
            if k == 0 {
                assert(cur.len() == 1);
                assert(join_words(cur) == cur[0].text);
                assert(before + wchars@ =~= wchars@);
            } else {
                assert(join_words(cur) == join_words(pre) + seq![' '] + cur.last().text);
                assert(before.push(' ') + wchars@ =~= before + seq![' '] + wchars@);
            }
        }
        k += 1;
    }
    proof {
        assert(view_words(ws@).subrange(0, ws@.len() as int) =~= view_words(ws@));
    }
    string_from_chars(&acc)
}

pub open spec fn opt_view_words(ws: &Option<Vec<LrcWord>>) -> Option<Seq<WordModel>> {
    match ws {
        Some(v) => Some(view_words(v@)),
        None => None,
    }
}

/// Parse one physical lyric line into its timed lines.
pub fn parse_lyric_line(line: &Vec<char>) -> (r: Option<Vec<LrcLine>>)
    ensures
        match r {
            Some(ls) => spec_lyric_lines(line@) == Some(view_lines(ls@)),
            None => spec_lyric_lines(line@) is None,
        },
{
    let (stamps, idx) = take_stamps(line);
    if stamps.len() == 0 {
        return None;
    }
    let text = trim_chars(&subvec(line, idx, line.len()));
    proof {
        assert(text@ == spec_trim(spec_stamps(line@).1));
    }
    let words_opt = parse_enhanced_words(&text);
    let shown: String = match &words_opt {
        Some(ws) => join_words_exec(ws),
        None => string_from_chars(&text),
    };
    let mut out: Vec<LrcLine> = Vec::new();
    let mut k: usize = 0;
    let ghost stamps0 = stamps@;
    let ghost shown0 = shown@;
    let ghost words0 = opt_view_words(&words_opt);
    while k < stamps.len()
        invariant
            0 <= k <= stamps@.len(),
            stamps@ == stamps0,
            out@.len() == k,
            forall|i: int|
                0 <= i < k ==> (#[trigger] out@[i])@ == (LineModel {
                    start_time: stamps0[i],
                    text: shown0,
                    words: words0,
                }),
            shown@ == shown0,
            opt_view_words(&words_opt) == words0,
        decreases stamps@.len() - k,
    {
        let w: Option<Vec<LrcWord>> = match &words_opt {
            Some(ws) => Some(clone_words(ws)),
            None => None,
        };
        let l = LrcLine { start_time: stamps[k], text: shown.clone(), words: w };
        proof {
            assert(l@ == LineModel { start_time: stamps0[k as int], text: shown0, words: words0 });
        }
        out.push(l);
        k += 1;
    }
    proof {
        let expect = stamps0.map_values(
            |t: u64| LineModel { start_time: t, text: shown0, words: words0 },
        );
        assert forall|i: int| 0 <= i < out@.len() implies #[trigger] view_lines(out@)[i]
            == expect[i] by {
            assert(view_lines(out@)[i] == out@[i]@);
        }
        assert(view_lines(out@) =~= expect);
    }
    Some(out)
}

// ---------------------------------------------------------------------------
// Metadata tags
// ---------------------------------------------------------------------------

pub open spec fn empty_meta() -> MetaModel {
    MetaModel { title: None, artist: None, album: None, author: None, length: None, offset: 0 }
}

/// A `[length:mm:ss.xx]` tag value.
pub open spec fn spec_duration_tag(value: Seq<char>) -> Option<u64> {
    let parts = spec_split(value, ':');
    if parts.len() == 2 {
        spec_ts2(parts[0], parts[1])
    } else {
        None
    }
}

/// Effect of one ID tag on the metadata. Unknown tags change nothing; a bad
/// `offset` value is ignored; a bad `length` value clears the field.
pub open spec fn spec_apply_tag(m: MetaModel, tag: Seq<char>, value: Seq<char>) -> MetaModel {
    let lt = crate::text::ascii_lower(tag);
    if lt == seq!['t', 'i'] {
        MetaModel { title: Some(value), ..m }
    } else if lt == seq!['a', 'r'] {
        MetaModel { artist: Some(value), ..m }
    } else if lt == seq!['a', 'l'] {
        MetaModel { album: Some(value), ..m }
    } else if lt == seq!['a', 'u'] {
        MetaModel { author: Some(value), ..m }
    } else if lt == seq!['l', 'e', 'n', 'g', 't', 'h'] {
        MetaModel { length: spec_duration_tag(value), ..m }
    } else if lt == seq!['o', 'f', 'f', 's', 'e', 't'] {
        if is_i64_numeral(value) {
            MetaModel { offset: i64_numeral_val(value), ..m }
        } else {
            m
        }
    } else {
        m
    }
}

fn matches2(v: &Vec<char>, c0: char, c1: char) -> (r: bool)
    ensures
        r == (v@ == seq![c0, c1]),
{
    let r = v.len() == 2 && v[0] == c0 && v[1] == c1;
    proof {
        if r {
            assert(v@ =~= seq![c0, c1]);
        }
        if v@ == seq![c0, c1] {
            assert(v@.len() == 2);
            assert(v@[0] == c0);
            assert(v@[1] == c1);
        }
    }
    r
}

fn matches6(v: &Vec<char>, c0: char, c1: char, c2: char, c3: char, c4: char, c5: char) -> (r: bool)
    ensures
        r == (v@ == seq![c0, c1, c2, c3, c4, c5]),
{
    let r = v.len() == 6 && v[0] == c0 && v[1] == c1 && v[2] == c2 && v[3] == c3 && v[4] == c4
        && v[5] == c5;
    proof {
        if r {
            assert(v@ =~= seq![c0, c1, c2, c3, c4, c5]);
        }
        if v@ == seq![c0, c1, c2, c3, c4, c5] {
            assert(v@.len() == 6);
            assert(v@[0] == c0);
            assert(v@[1] == c1);
            assert(v@[2] == c2);
            assert(v@[3] == c3);
            assert(v@[4] == c4);
            assert(v@[5] == c5);
        }
    }
    r
}

fn parse_duration_chars(value: &Vec<char>) -> (r: Option<u64>)
    ensures
        r == spec_duration_tag(value@),
{
    let parts = split_char(value, ':');
    proof {
        assert(parts@.map_values(|p: Vec<char>| p@).len() == parts@.len());
    }
    if parts.len() != 2 {
        return None;
    }
    proof {
        assert(parts@.map_values(|p: Vec<char>| p@)[0] == parts@[0]@);
        assert(parts@.map_values(|p: Vec<char>| p@)[1] == parts@[1]@);
    }
    let m = match parse_u64(&parts[0]) {
        Some(m) => m,
        None => {
            return None;
        },
    };
    let rest = &parts[1];
    proof {
        lemma_find_sub(rest@, 0, 0, '.');
        lemma_find_bounds(rest@, 0, '.');
    }
    match find_char(rest, 0, '.') {
        None => {
            let sec = match parse_u64(rest) {
                Some(s) => s,
                None => {
                    return None;
                },
            };
            match m.checked_mul(60000) {
                Some(mm) => match sec.checked_mul(1000) {
                    Some(ss) => mm.checked_add(ss),
                    None => None,
                },
                None => None,
            }
        },
        Some(d) => {
            let rest_len = rest.len();
            proof {
                assert(d < rest_len);
            }
            let sec_part = subvec(rest, 0, d);
            let frac = subvec(rest, d + 1, rest_len);
            let sec = match parse_u64(&sec_part) {
                Some(s) => s,
                None => {
                    return None;
                },
            };
            if !digits_only(&frac) {
                return None;
            }
            let fr: u64 = frac_ms_exec(&frac);
            match m.checked_mul(60000) {
                Some(mm) => match sec.checked_mul(1000) {
                    Some(ss) => match mm.checked_add(ss) {
                        Some(t0) => t0.checked_add(fr),
                        None => None,
                    },
                    None => None,
                },
                None => None,
            }
        },
    }
}

fn apply_tag(meta: &mut LrcMetadata, tag: &Vec<char>, value: &Vec<char>)
    ensures
        final (meta)@ == spec_apply_tag(old(meta)@, tag@, value@),
{
    let lower = crate::text::to_ascii_lower(tag);
    if matches2(&lower, 't', 'i') {
        meta.title = Some(string_from_chars(value));
    } else if matches2(&lower, 'a', 'r') {
        meta.artist = Some(string_from_chars(value));
    } else if matches2(&lower, 'a', 'l') {
        meta.album = Some(string_from_chars(value));
    } else if matches2(&lower, 'a', 'u') {
        meta.author = Some(string_from_chars(value));
    } else if matches6(&lower, 'l', 'e', 'n', 'g', 't', 'h') {
        meta.length = parse_duration_chars(value);
    } else if matches6(&lower, 'o', 'f', 'f', 's', 'e', 't') {
        match parse_i64(value) {
            Some(o) => {
                meta.offset = o;
            },
            None => {},
        }
    }
}

// ---------------------------------------------------------------------------
// Collecting a whole file
// ---------------------------------------------------------------------------

/// Fold the remaining physical lines into the metadata and collected lines.
pub open spec fn spec_collect_from(
    m: MetaModel,
    acc: Seq<LineModel>,
    ls: Seq<Seq<char>>,
) -> (MetaModel, Seq<LineModel>)
    decreases ls.len(),
{
    if ls.len() == 0 {
        (m, acc)
    } else {
        let line = spec_trim(ls.first());
        let stepped: (MetaModel, Seq<LineModel>) = if line.len() == 0 {
            (m, acc)
        } else {
            match spec_id_tag(line) {
                Some(tv) => (spec_apply_tag(m, tv.0, tv.1), acc),
                None => match spec_lyric_lines(line) {
                    Some(nl) => (m, acc + nl),
                    None => (m, acc),
                },
            }
        };
        spec_collect_from(stepped.0, stepped.1, ls.drop_first())
    }
}

/// Metadata of a parsed file.
pub open spec fn spec_parse_meta(input: Seq<char>) -> MetaModel {
    spec_collect_from(empty_meta(), Seq::empty(), spec_split(input, '\n')).0
}

/// Lines of a parsed file before offset and sorting.
pub open spec fn spec_collected_lines(input: Seq<char>) -> Seq<LineModel> {
    spec_collect_from(empty_meta(), Seq::empty(), spec_split(input, '\n')).1
}

// ---------------------------------------------------------------------------
// Offset
// ---------------------------------------------------------------------------

/// Clamp an integer into `u64`.
pub open spec fn clip_u64(x: int) -> u64 {
    if x < 0 {
        0u64
    } else if x > u64::MAX {
        u64::MAX
    } else {
        x as u64
    }
}

pub open spec fn shift_word(w: WordModel, off: int) -> WordModel {
    WordModel {
        start_time: clip_u64(w.start_time + off),
        end_time: match w.end_time {
            Some(e) => Some(clip_u64(e + off)),
            None => None,
        },
        text: w.text,
    }
}

pub open spec fn shift_line(l: LineModel, off: int) -> LineModel {
    LineModel {
        start_time: clip_u64(l.start_time + off),
        text: l.text,
        words: match l.words {
            Some(ws) => Some(ws.map_values(|w: WordModel| shift_word(w, off))),
            None => None,
        },
    }
}

pub open spec fn shift_lines(ls: Seq<LineModel>, off: int) -> Seq<LineModel> {
    ls.map_values(|l: LineModel| shift_line(l, off))
}

/// Shift a time by a signed millisecond offset, saturating at both ends.
pub fn apply_offset(t: u64, off: i64) -> (r: u64)
    ensures
        r == clip_u64(t + off),
{
    if off >= 0 {
        t.saturating_add(off as u64)
    } else if off == i64::MIN {
        t.saturating_sub(9223372036854775808u64)
    } else {
        t.saturating_sub((-off) as u64)
    }
}

fn shift_words_vec(ws: Vec<LrcWord>, off: i64) -> (r: Vec<LrcWord>)
    ensures
        view_words(r@) == view_words(ws@).map_values(
            |w: WordModel| shift_word(w, off as int),
        ),
{
    let ghost ws0 = view_words(ws@);
    let mut rest = ws;
    let mut out: Vec<LrcWord> = Vec::new();
    while rest.len() > 0
        invariant
            out@.len() + rest@.len() == ws0.len(),
            forall|i: int|
                0 <= i < out@.len() ==> (#[trigger] out@[i])@ == shift_word(ws0[i], off as int),
            forall|i: int|
                0 <= i < rest@.len() ==> (#[trigger] rest@[i])@ == ws0[out@.len() + i],
        decreases rest@.len(),
    {
        let ghost rest_before = rest@;
        let w = rest.remove(0);
        proof {
            assert(rest@ =~= rest_before.drop_first());
            assert(w@ == ws0[out@.len() as int]);
        }
        let nw = LrcWord {
            start_time: apply_offset(w.start_time, off),
            end_time: match w.end_time {
                Some(e) => Some(apply_offset(e, off)),
                None => None,
            },
            text: w.text,
        };
        out.push(nw);
    }
    proof {
        let expect = ws0.map_values(|w: WordModel| shift_word(w, off as int));
        assert forall|i: int| 0 <= i < out@.len() implies #[trigger] view_words(out@)[i]
            == expect[i] by {
            assert(view_words(out@)[i] == out@[i]@);
        }
        assert(view_words(out@) =~= expect);
    }
    out
}

fn shift_lines_vec(ls: Vec<LrcLine>, off: i64) -> (r: Vec<LrcLine>)
    ensures
        view_lines(r@) == shift_lines(view_lines(ls@), off as int),
{
    let ghost ls0 = view_lines(ls@);
    let mut rest = ls;
    let mut out: Vec<LrcLine> = Vec::new();
    while rest.len() > 0
        invariant
            out@.len() + rest@.len() == ls0.len(),
            forall|i: int|
                0 <= i < out@.len() ==> (#[trigger] out@[i])@ == shift_line(ls0[i], off as int),
            forall|i: int|
                0 <= i < rest@.len() ==> (#[trigger] rest@[i])@ == ls0[out@.len() + i],
        decreases rest@.len(),
    {
        let ghost rest_before = rest@;
        let l = rest.remove(0);
        proof {
            assert(rest@ =~= rest_before.drop_first());
            assert(l@ == ls0[out@.len() as int]);
        }
        let nl = LrcLine {
            start_time: apply_offset(l.start_time, off),
            text: l.text,
            words: match l.words {
                Some(ws) => Some(shift_words_vec(ws, off)),
                None => None,
            },
        };
        out.push(nl);
    }
    proof {
        let expect = shift_lines(ls0, off as int);
        assert forall|i: int| 0 <= i < out@.len() implies #[trigger] view_lines(out@)[i]
            == expect[i] by {
            assert(view_lines(out@)[i] == out@[i]@);
        }
        assert(view_lines(out@) =~= expect);
    }
    out
}

// ---------------------------------------------------------------------------
// Stable sort by start time
// ---------------------------------------------------------------------------

/// Insert `x` after every earlier element whose start time does not exceed
/// it: the insertion step of a stable sort.
pub open spec fn stable_insert(s: Seq<LineModel>, x: LineModel) -> Seq<LineModel>
    decreases s.len(),
{
    if s.len() == 0 {
        seq![x]
    } else if s.last().start_time <= x.start_time {
        s.push(x)
    } else {
        stable_insert(s.drop_last(), x).push(s.last())
    }
}

/// Stable insertion sort by start time.
pub open spec fn stable_sort(s: Seq<LineModel>) -> Seq<LineModel>
    decreases s.len(),
{
    if s.len() == 0 {
        Seq::empty()
    } else {
        stable_insert(stable_sort(s.drop_last()), s.last())
    }
}

pub open spec fn sorted_by_start(ls: Seq<LineModel>) -> bool {
    forall|i: int, j: int| 0 <= i < j < ls.len() ==> ls[i].start_time <= ls[j].start_time
}

proof fn lemma_stable_insert_elems(s: Seq<LineModel>, x: LineModel)
    ensures
        stable_insert(s, x).len() == s.len() + 1,
        forall|k: int|
            0 <= k < stable_insert(s, x).len() ==> (#[trigger] stable_insert(s, x)[k] == x
                || exists|i: int| 0 <= i < s.len() && s[i] == stable_insert(s, x)[k]),
    decreases s.len(),
{
    if s.len() == 0 {
    } else if s.last().start_time <= x.start_time {
    } else {
        lemma_stable_insert_elems(s.drop_last(), x);
        let r = stable_insert(s, x);
        let r0 = stable_insert(s.drop_last(), x);
        assert forall|k: int| 0 <= k < r.len() implies (#[trigger] r[k] == x || exists|i: int|
            0 <= i < s.len() && s[i] == r[k]) by {
            if k < r0.len() {
                assert(r[k] == r0[k]);
                if r0[k] != x {
                    let i = choose|i: int| 0 <= i < s.drop_last().len() && s.drop_last()[i]
                        == r0[k];
                    assert(s[i] == r[k]);
                }
            } else {
                assert(r[k] == s.last());
                assert(s[s.len() - 1] == r[k]);
            }
        }
    }
}

proof fn lemma_stable_insert_sorted(s: Seq<LineModel>, x: LineModel)
    requires
        sorted_by_start(s),
    ensures
        sorted_by_start(stable_insert(s, x)),
    decreases s.len(),
{
    if s.len() == 0 {
    } else if s.last().start_time <= x.start_time {
        let r = s.push(x);
        assert forall|i: int, j: int| 0 <= i < j < r.len() implies r[i].start_time
            <= r[j].start_time by {
            if j < s.len() {
            } else {
                assert(r[j] == x);
                if i < s.len() - 1 {
                    assert(s[i].start_time <= s[s.len() - 1].start_time);
                }
            }
        }
    } else {
        assert(sorted_by_start(s.drop_last())) by {
            assert(forall|i: int, j: int|
                0 <= i < j < s.len() - 1 ==> (#[trigger] s.drop_last()[i]).start_time <= (
                #[trigger] s.drop_last()[j]).start_time);
        }
        lemma_stable_insert_sorted(s.drop_last(), x);
        lemma_stable_insert_elems(s.drop_last(), x);
        let r0 = stable_insert(s.drop_last(), x);
        let r = r0.push(s.last());
        assert forall|i: int, j: int| 0 <= i < j < r.len() implies r[i].start_time
            <= r[j].start_time by {
            if j < r0.len() {
            } else {
                assert(r[j] == s.last());
                if r0[i] == x {
                    assert(x.start_time <= s.last().start_time);
                } else {
                    let e = choose|e: int|
                        0 <= e < s.drop_last().len() && s.drop_last()[e] == r0[i];
                    assert(s[e].start_time <= s.last().start_time);
                }
            }
        }
    }
}

/// The stable sort indeed sorts.
pub proof fn lemma_stable_sort_sorted(s: Seq<LineModel>)
    ensures
        sorted_by_start(stable_sort(s)),
    decreases s.len(),
{
    if s.len() > 0 {
        lemma_stable_sort_sorted(s.drop_last());
        lemma_stable_insert_sorted(stable_sort(s.drop_last()), s.last());
    }
}

proof fn lemma_stable_insert_at(s: Seq<LineModel>, x: LineModel, j: int)
    requires
        0 <= j <= s.len(),
        forall|k: int| j <= k < s.len() ==> (#[trigger] s[k]).start_time > x.start_time,
        j == 0 || s[j - 1].start_time <= x.start_time,
    ensures
        stable_insert(s, x) == s.subrange(0, j) + seq![x] + s.subrange(j, s.len() as int),
    decreases s.len(),
{
    if s.len() == 0 {
        assert(stable_insert(s, x) =~= s.subrange(0, j) + seq![x] + s.subrange(
            j,
            s.len() as int,
        ));
    } else if s.last().start_time <= x.start_time {
        assert(j == s.len());
        assert(s.push(x) =~= s.subrange(0, j) + seq![x] + s.subrange(j, s.len() as int));
    } else {
        assert(j < s.len());
        lemma_stable_insert_at(s.drop_last(), x, j);
        assert(s.drop_last().subrange(0, j) =~= s.subrange(0, j));
        assert(s.drop_last().subrange(j, s.drop_last().len() as int) =~= s.subrange(
            j,
            s.len() - 1,
        ));
        assert((s.subrange(0, j) + seq![x] + s.subrange(j, s.len() - 1)).push(s.last())
            =~= s.subrange(0, j) + seq![x] + s.subrange(j, s.len() as int));
    }
}

#[verifier::rlimit(60)]
fn sort_lines(ls: Vec<LrcLine>) -> (r: Vec<LrcLine>)
    ensures
        view_lines(r@) == stable_sort(view_lines(ls@)),
{
    let ghost ls0 = view_lines(ls@);
    let mut rest = ls;
    let mut out: Vec<LrcLine> = Vec::new();
    proof {
        assert(view_lines(out@) =~= stable_sort(ls0.subrange(0, 0)));
    }
    while rest.len() > 0
        invariant
            out@.len() + rest@.len() == ls0.len(),
            view_lines(out@) == stable_sort(ls0.subrange(0, out@.len() as int)),
            forall|i: int|
                0 <= i < rest@.len() ==> (#[trigger] rest@[i])@ == ls0[out@.len() + i],
        decreases rest@.len(),
    {
        let ghost k = out@.len() as int;
        let ghost rest_before = rest@;
        let x = rest.remove(0);
        proof {
            assert(rest@ =~= rest_before.drop_first());
            assert(x@ == ls0[k]);
        }
        let mut j: usize = out.len();
        while j > 0 && out[j - 1].start_time > x.start_time
            invariant
                0 <= j <= out@.len(),
                forall|i: int|
                    j <= i < out@.len() ==> (#[trigger] out@[i])@.start_time > x@.start_time,
            decreases j,
        {
            j -= 1;
        }
        let ghost out_before = out@;
        let ghost out_before_views = view_lines(out_before);
        out.insert(j, x);
        proof {
            lemma_stable_insert_at(out_before_views, x@, j as int);
            out_before.insert_ensures(j as int, x);
            let target = out_before_views.subrange(0, j as int) + seq![x@]
                + out_before_views.subrange(j as int, out_before_views.len() as int);
            assert forall|i: int| 0 <= i < view_lines(out@).len() implies #[trigger] view_lines(
                out@,
            )[i] == target[i] by {
                assert(view_lines(out@)[i] == out@[i]@);
                if i < j {
                    assert(out@[i] == out_before[i]);
                    assert(view_lines(out_before)[i] == out_before[i]@);
                    assert(target[i] == out_before_views.subrange(0, j as int)[i]);
                } else if i == j {
                    assert(out@[i] == x);
                    assert(target[i] == x@);
                } else {
                    assert(out@[i] == out_before[i - 1]);
                    assert(view_lines(out_before)[i - 1] == out_before[i - 1]@);
                    assert(target[i] == out_before_views.subrange(
                        j as int,
                        out_before_views.len() as int,
                    )[i - j - 1]);
                }
            }
            assert(view_lines(out@) =~= target);
            let pre = ls0.subrange(0, k + 1);
            assert(pre.drop_last() =~= ls0.subrange(0, k));
            assert(pre.last() == ls0[k]);
            assert(stable_sort(pre) == stable_insert(stable_sort(ls0.subrange(0, k)), ls0[k]));
            assert forall|i: int| 0 <= i < rest@.len() implies (#[trigger] rest@[i])@ == ls0[out@.len()
                + i] by {
                assert(rest@[i] == rest_before[i + 1]);
            }
        }
    }
    proof {
        assert(ls0.subrange(0, ls0.len() as int) =~= ls0);
    }
    out
}

// ---------------------------------------------------------------------------
// Parsing a whole file
// ---------------------------------------------------------------------------

/// Lines of a parsed file: collected, shifted once by the offset tag, and
/// stable-sorted by start time.
pub open spec fn spec_parse_lines(input: Seq<char>) -> Seq<LineModel> {
    let m = spec_parse_meta(input);
    let ls = spec_collected_lines(input);
    stable_sort(
        if m.offset != 0 {
            shift_lines(ls, m.offset)
        } else {
            ls
        },
    )
}

impl LrcFile {
    /// Parse LRC text. Parsing never fails hard: malformed lines and tags
    /// are skipped, the `[offset:N]` tag is applied once to every time, and
    /// the lines come out stable-sorted by start time.
    pub fn parse(input: &str) -> (r: Result<LrcFile, CoreError>)
        ensures
            r is Ok,
            (r->Ok_0).metadata@ == spec_parse_meta(input@),
            view_lines((r->Ok_0).lines@) == spec_parse_lines(input@),
            sorted_by_start(view_lines((r->Ok_0).lines@)),
    {
        let cs = chars_of(input);
        let segs = split_char(&cs, '\n');
        let ghost all = spec_split(input@, '\n');
        proof {
            assert(segs@.map_values(|p: Vec<char>| p@) == all);
        }
        let mut meta = LrcMetadata {
            title: None,
            artist: None,
            album: None,
            author: None,
            length: None,
            offset: 0,
        };
        let mut lines: Vec<LrcLine> = Vec::new();
        let mut k: usize = 0;
        proof {
            assert(meta@ == empty_meta());
            assert(view_lines(lines@) =~= Seq::<LineModel>::empty());
            assert(all.subrange(0, all.len() as int) =~= all);
        }
        while k < segs.len()
            invariant
                0 <= k <= segs@.len(),
                segs@.map_values(|p: Vec<char>| p@) == all,
                spec_collect_from(empty_meta(), Seq::empty(), all) == spec_collect_from(
                    meta@,
                    view_lines(lines@),
                    all.subrange(k as int, all.len() as int),
                ),
            decreases segs@.len() - k,
        {
            let ghost rest = all.subrange(k as int, all.len() as int);
            proof {
                assert(segs@.map_values(|p: Vec<char>| p@)[k as int] == segs@[k as int]@);
                assert(rest.first() == all[k as int]);
                assert(rest.drop_first() =~= all.subrange(k + 1, all.len() as int));
            }
            let trimmed = trim_chars(&segs[k]);
            if trimmed.len() > 0 {
                match parse_id_tag(&trimmed) {
                    Some((tag, value)) => {
                        apply_tag(&mut meta, &tag, &value);
                    },
                    None => {
                        match parse_lyric_line(&trimmed) {
                            Some(mut nl) => {
                                let ghost lines_before = lines@;
                                let ghost nl0 = nl@;
                                lines.append(&mut nl);
                                proof {
                                    assert(lines@ == lines_before + nl0);
                                    assert forall|i: int| 0 <= i < lines@.len() implies
                                        #[trigger] view_lines(lines@)[i] == (view_lines(
                                        lines_before,
                                    ) + view_lines(nl0))[i] by {
                                        assert(view_lines(lines@)[i] == lines@[i]@);
                                        if i < lines_before.len() {
                                            assert(lines@[i] == lines_before[i]);
                                            assert(view_lines(lines_before)[i]
                                                == lines_before[i]@);
                                        } else {
                                            assert(lines@[i] == nl0[i - lines_before.len()]);
                                            assert(view_lines(nl0)[i - lines_before.len()]
                                                == nl0[i - lines_before.len()]@);
                                        }
                                    }
                                    assert(view_lines(lines@) =~= view_lines(lines_before)
                                        + view_lines(nl0));
                                }
                            },
                            None => {},
                        }
                    },
                }
            }
            k += 1;
        }
        proof {
            assert(all.subrange(segs@.len() as int, all.len() as int).len() == 0);
            assert(spec_collect_from(
                meta@,
                view_lines(lines@),
                all.subrange(segs@.len() as int, all.len() as int),
            ) == (meta@, view_lines(lines@)));
            assert(meta@ == spec_parse_meta(input@));
            assert(view_lines(lines@) == spec_collected_lines(input@));
        }
        let shifted = if meta.offset != 0 {
            let off = meta.offset;
            shift_lines_vec(lines, off)
        } else {
            lines
        };
        let sorted = sort_lines(shifted);
        proof {
            lemma_stable_sort_sorted(
                if meta@.offset != 0 {
                    shift_lines(spec_collected_lines(input@), meta@.offset)
                } else {
                    spec_collected_lines(input@)
                },
            );
        }
        Ok(LrcFile { metadata: meta, lines: sorted })
    }

    /// Index of the last line whose start time is at or before `position`.
    pub fn current_line_index(&self, position: u64) -> (r: Option<usize>)
        ensures
            match r {
                Some(i) => Some(i as int) == spec_line_index(view_lines(self.lines@), position),
                None => spec_line_index(view_lines(self.lines@), position) is None,
            },
    {
        let ghost full = view_lines(self.lines@);
        proof {
            assert(full.len() == self.lines@.len());
            assert(full.subrange(0, full.len() as int) =~= full);
        }
        let mut k: usize = self.lines.len();
        while k > 0
            invariant
                0 <= k <= self.lines@.len(),
                full == view_lines(self.lines@),
                spec_line_index(full, position) == spec_line_index(
                    full.subrange(0, k as int),
                    position,
                ),
            decreases k,
        {
            proof {
                let pre = full.subrange(0, k as int);
                assert(full[k - 1] == self.lines@[k - 1]@);
                assert(pre.last() == full[k - 1]);
                assert(pre.drop_last() =~= full.subrange(0, k - 1));
            }
            if self.lines[k - 1].start_time <= position {
                return Some(k - 1);
            }
            k -= 1;
        }
        None
    }

    /// The line active at `position`, if any line has started yet.
    pub fn current_line(&self, position: u64) -> (r: Option<&LrcLine>)
        ensures
            match r {
                Some(l) => {
                    &&& spec_line_index(view_lines(self.lines@), position) is Some
                    &&& *l == self.lines@[spec_line_index(view_lines(self.lines@), position)->0]
                },
                None => spec_line_index(view_lines(self.lines@), position) is None,
            },
    {
        match self.current_line_index(position) {
            Some(i) => {
                proof {
                    lemma_line_index_bounds(view_lines(self.lines@), position);
                    assert(view_lines(self.lines@).len() == self.lines@.len());
                }
                Some(&self.lines[i])
            },
            None => None,
        }
    }

    /// The window of lines shown around the current one: `before` lines
    /// above it and `after` lines below it, clipped to the file.
    pub fn visible_lines(&self, position: u64, before: usize, after: usize) -> (r: Vec<
        &LrcLine,
    >)
        ensures
            ({
                let ls = view_lines(self.lines@);
                let idx = match spec_line_index(ls, position) {
                    Some(i) => i,
                    None => 0,
                };
                let lo = if idx - before >= 0 {
                    idx - before
                } else {
                    0
                };
                let hi = if idx + after + 1 <= ls.len() {
                    idx + after + 1
                } else {
                    ls.len() as int
                };
                &&& r@.len() == hi - lo
                &&& forall|i: int| 0 <= i < r@.len() ==> *(#[trigger] r@[i]) == self.lines@[lo + i]
            }),
    {
        let idx: usize = match self.current_line_index(position) {
            Some(i) => i,
            None => 0,
        };
        let lo: usize = if idx >= before {
            idx - before
        } else {
            0
        };
        let n = self.lines.len();
        let reach = idx.saturating_add(after).saturating_add(1);
        let hi: usize = if reach <= n {
            reach
        } else {
            n
        };
        proof {
            let ls = view_lines(self.lines@);
            assert(ls.len() == self.lines@.len());
            if spec_line_index(ls, position) is Some {
                lemma_line_index_bounds(ls, position);
            }
        }
        let mut r: Vec<&LrcLine> = Vec::new();
        let mut i: usize = lo;
        while i < hi
            invariant
                lo <= i <= hi <= self.lines@.len(),
                r@.len() == i - lo,
                forall|j: int| 0 <= j < r@.len() ==> *(#[trigger] r@[j]) == self.lines@[lo + j],
            decreases hi - i,
        {
            r.push(&self.lines[i]);
            i += 1;
        }
        r
    }
}

/// Where a line's fill window ends: the last word's end time when word
/// timing is present, else the next line's start, else five seconds
/// after the line starts.
pub open spec fn spec_line_end(l: LineModel, next: Option<u64>) -> u64 {
    let fallback = clip_u64(l.start_time + 5000);
    match l.words {
        Some(ws) => if ws.len() > 0 {
            match ws.last().end_time {
                Some(e) => e,
                None => match next {
                    Some(n) => n,
                    None => fallback,
                },
            }
        } else {
            match next {
                Some(n) => n,
                None => fallback,
            }
        },
        None => match next {
            Some(n) => n,
            None => fallback,
        },
    }
}

/// Fill ratio of a line in thousandths: zero before the line starts, a
/// thousand from its end on, proportional in between.
pub open spec fn spec_progress_permille(l: LineModel, pos: u64, next: Option<u64>) -> int {
    if pos < l.start_time {
        0
    } else {
        let line_end = spec_line_end(l, next);
        if pos >= line_end {
            1000
        } else {
            let total = line_end - l.start_time;
            let elapsed = pos - l.start_time;
            if elapsed * 1000 / total > 1000 {
                1000
            } else {
                elapsed * 1000 / total
            }
        }
    }
}

/// The word-walk of the character fill test: find the word that holds
/// the character and decide from its timing; past the last word nothing
/// is decided.
pub open spec fn spec_word_walk(
    ws: Seq<WordModel>,
    pos: u64,
    char_index: int,
    current_char: int,
    total_chars: int,
) -> Option<bool>
    decreases ws.len(),
{
    if ws.len() == 0 {
        None
    } else {
        let w = ws.first();
        let word_len = w.text.len() as int;
        let word_end_char: int = if current_char + word_len <= usize::MAX {
            current_char + word_len
        } else {
            usize::MAX as int
        };
        if char_index < word_end_char {
            Some(
                if pos < w.start_time {
                    false
                } else {
                    match w.end_time {
                        Some(e) => if pos >= e {
                            true
                        } else {
                            let dur: int = if e >= w.start_time {
                                e - w.start_time
                            } else {
                                0
                            };
                            let elapsed: int = pos - w.start_time;
                            if dur == 0 {
                                true
                            } else if char_index < current_char {
                                // A separator between words is never the
                                // filled character.
                                false
                            } else {
                                elapsed * word_len >= (char_index - current_char) * dur
                            }
                        },
                        None => true,
                    }
                },
            )
        } else {
            let nc: int = if word_end_char < total_chars {
                word_end_char + 1
            } else {
                word_end_char
            };
            spec_word_walk(ws.drop_first(), pos, char_index, nc, total_chars)
        }
    }
}

/// The linear fallback of the character fill test: the line's fill ratio
/// against the character's fraction of the text.
pub open spec fn spec_fallback_fill(l: LineModel, pos: u64, char_index: int) -> bool {
    let tc = l.text.len() as int;
    let line_end = spec_line_end(l, None);
    if pos < l.start_time {
        char_index <= 0
    } else if pos >= line_end {
        char_index <= tc
    } else {
        let total: int = line_end - l.start_time;
        let elapsed: int = pos - l.start_time;
        elapsed * tc >= char_index * total
    }
}

/// Whether the character at `char_index` is filled at `pos`: an empty
/// line counts as filled; with word timing the owning word decides; past
/// the words, and without word timing, the linear fallback decides.
pub open spec fn spec_word_fill(l: LineModel, pos: u64, char_index: int) -> bool {
    if l.text.len() == 0 {
        true
    } else {
        match l.words {
            Some(ws) => match spec_word_walk(ws, pos, char_index, 0, l.text.len() as int) {
                Some(b) => b,
                None => spec_fallback_fill(l, pos, char_index),
            },
            None => spec_fallback_fill(l, pos, char_index),
        }
    }
}

impl LrcLine {
    /// Fill ratio of this line in thousandths at `position`, the window
    /// running to word timing, the next line's start, or a five-second
    /// default. The display divides by a thousand.
    pub fn progress_permille(&self, position: u64, next_line_start: Option<u64>) -> (r: u32)
        ensures
            r == spec_progress_permille(self@, position, next_line_start),
            r <= 1000,
    {
        if position < self.start_time {
            return 0;
        }
        let line_end: u64 = match &self.words {
            Some(ws) => {
                if ws.len() > 0 {
                    proof {
                        assert(view_words(ws@).last() == ws@[ws@.len() - 1]@);
                    }
                    match ws[ws.len() - 1].end_time {
                        Some(e) => e,
                        None => match next_line_start {
                            Some(n) => n,
                            None => self.start_time.saturating_add(5000),
                        },
                    }
                } else {
                    match next_line_start {
                        Some(n) => n,
                        None => self.start_time.saturating_add(5000),
                    }
                }
            },
            None => match next_line_start {
                Some(n) => n,
                None => self.start_time.saturating_add(5000),
            },
        };
        if position >= line_end {
            return 1000;
        }
        let total: u64 = line_end - self.start_time;
        let elapsed: u64 = position - self.start_time;
        let ratio: u128 = (elapsed as u128) * 1000 / (total as u128);
        if ratio > 1000 {
            1000
        } else {
            ratio as u32
        }
    }

    /// Whether the character at `char_index` is filled at `position`:
    /// the per-word timing decides where it exists, the line's linear
    /// fill otherwise.
    pub fn word_fill(&self, position: u64, char_index: usize) -> (r: bool)
        ensures
            r == spec_word_fill(self@, position, char_index as int),
    {
        let text_chars = chars_of(self.text.as_str());
        let total_chars = text_chars.len();
        if total_chars == 0 {
            return true;
        }
        match &self.words {
            Some(ws) => {
                let ghost wvs = view_words(ws@);
                let mut current_char: usize = 0;
                let mut k: usize = 0;
                proof {
                    assert(wvs.subrange(k as int, wvs.len() as int) =~= wvs);
                }
                while k < ws.len()
                    invariant
                        0 <= k <= ws@.len(),
                        wvs == view_words(ws@),
                        self@.words == Some(wvs),
                        total_chars == self.text@.len(),
                        total_chars > 0,
                        spec_word_walk(
                            wvs,
                            position,
                            char_index as int,
                            0,
                            total_chars as int,
                        ) == spec_word_walk(
                            wvs.subrange(k as int, wvs.len() as int),
                            position,
                            char_index as int,
                            current_char as int,
                            total_chars as int,
                        ),
                    decreases ws@.len() - k,
                {
                    let ghost tail = wvs.subrange(k as int, wvs.len() as int);
                    proof {
                        assert(wvs[k as int] == ws@[k as int]@);
                        assert(tail.first() == wvs[k as int]);
                        assert(tail.drop_first() =~= wvs.subrange(k + 1, wvs.len() as int));
                    }
                    let wcs = chars_of(ws[k].text.as_str());
                    let word_len = wcs.len();
                    let word_end_char = current_char.saturating_add(word_len);
                    if char_index < word_end_char {
                        let w_start = ws[k].start_time;
                        if position < w_start {
                            return false;
                        }
                        match ws[k].end_time {
                            Some(e) => {
                                if position >= e {
                                    return true;
                                }
                                let dur: u64 = if e >= w_start {
                                    e - w_start
                                } else {
                                    0
                                };
                                let elapsed: u64 = position - w_start;
                                if dur == 0 {
                                    return true;
                                }
                                if char_index < current_char {
                                    return false;
                                }
                                let char_in_word: usize = char_index - current_char;
                                return mul_cmp_ge(
                                    elapsed,
                                    word_len as u64,
                                    char_in_word as u64,
                                    dur,
                                );
                            },
                            None => {
                                return true;
                            },
                        }
                    }
                    let next_char: usize = if word_end_char < total_chars {
                        word_end_char + 1
                    } else {
                        word_end_char
                    };
                    current_char = next_char;
                    k += 1;
                }
                self.fallback_fill(position, char_index, &text_chars)
            },
            None => self.fallback_fill(position, char_index, &text_chars),
        }
    }

    fn fallback_fill(&self, position: u64, char_index: usize, text_chars: &Vec<char>) -> (r:
        bool)
        requires
            text_chars@ == self.text@,
            text_chars@.len() > 0,
        ensures
            r == spec_fallback_fill(self@, position, char_index as int),
    {
        let tc = text_chars.len();
        if position < self.start_time {
            return char_index == 0;
        }
        let line_end: u64 = match &self.words {
            Some(ws) => {
                if ws.len() > 0 {
                    proof {
                        assert(view_words(ws@).last() == ws@[ws@.len() - 1]@);
                    }
                    match ws[ws.len() - 1].end_time {
                        Some(e) => e,
                        None => self.start_time.saturating_add(5000),
                    }
                } else {
                    self.start_time.saturating_add(5000)
                }
            },
            None => self.start_time.saturating_add(5000),
        };
        if position >= line_end {
            return char_index <= tc;
        }
        let total: u64 = line_end - self.start_time;
        let elapsed: u64 = position - self.start_time;
        mul_cmp_ge(elapsed, tc as u64, char_index as u64, total)
    }
}

/// Compare two products without overflow.
fn mul_cmp_ge(a: u64, b: u64, c: u64, d: u64) -> (r: bool)
    ensures
        r == (a * b >= c * d),
{
    proof {
        assert((a as int) * (b as int) <= u128::MAX && (c as int) * (d as int)
            <= u128::MAX) by (nonlinear_arith)
            requires
                0 <= a <= u64::MAX,
                0 <= b <= u64::MAX,
                0 <= c <= u64::MAX,
                0 <= d <= u64::MAX,
        ;
    }
    (a as u128) * (b as u128) >= (c as u128) * (d as u128)
}

/// The line index at a position is the last line that has started: it
/// has started itself, and every later line starts strictly afterwards;
/// there is no index exactly when no line has started.
pub proof fn lemma_line_index_last(ls: Seq<LineModel>, position: u64)
    ensures
        match spec_line_index(ls, position) {
            Some(i) => 0 <= i < ls.len() && ls[i].start_time <= position && forall|j: int|
                i < j < ls.len() ==> (#[trigger] ls[j]).start_time > position,
            None => forall|j: int| 0 <= j < ls.len() ==> (#[trigger] ls[j]).start_time > position,
        },
    decreases ls.len(),
{
    if ls.len() > 0 && !(ls.last().start_time <= position) {
        lemma_line_index_last(ls.drop_last(), position);
        assert(forall|j: int| 0 <= j < ls.len() - 1 ==> ls.drop_last()[j] == ls[j]);
    }
}

/// A found line index is in range.
pub proof fn lemma_line_index_bounds(ls: Seq<LineModel>, position: u64)
    requires
        spec_line_index(ls, position) is Some,
    ensures
        0 <= spec_line_index(ls, position)->0 < ls.len(),
        ls[spec_line_index(ls, position)->0].start_time <= position,
    decreases ls.len(),
{
    if ls.len() > 0 && !(ls.last().start_time <= position) {
        lemma_line_index_bounds(ls.drop_last(), position);
    }
}

/// Index of the last line starting at or before `pos`, scanning from the
/// end.
pub open spec fn spec_line_index(ls: Seq<LineModel>, pos: u64) -> Option<int>
    decreases ls.len(),
{
    if ls.len() == 0 {
        None
    } else if ls.last().start_time <= pos {
        Some(ls.len() - 1)
    } else {
        spec_line_index(ls.drop_last(), pos)
    }
}

/// Parsing: any single well-formed `[mm:ss.xx]text` line parses to
/// exactly one line, starting at `mm*60000 + ss*1000 + xx*10`
/// milliseconds and carrying exactly `text`, with empty metadata. The
/// text may not hold a newline or the enhanced-format `<`, may not open
/// with `[` and may not begin or end blank.
pub proof fn lemma_parse_simple_line(
    input: Seq<char>,
    m1: char,
    m0: char,
    s1: char,
    s0: char,
    x1: char,
    x0: char,
    text: Seq<char>,
)
    requires
        input == seq!['[', m1, m0, ':', s1, s0, '.', x1, x0, ']'] + text,
        is_digit_char(m1) && is_digit_char(m0),
        is_digit_char(s1) && is_digit_char(s0),
        is_digit_char(x1) && is_digit_char(x0),
        forall|i: int| 0 <= i < text.len() ==> text[i] != '\n' && text[i] != '<',
        text.len() > 0 ==> !crate::text::is_blank_char(text[0]) && !crate::text::is_blank_char(
            text.last(),
        ) && text[0] != '[',
    ensures
        spec_parse_meta(input) == empty_meta(),
        spec_parse_lines(input) =~= seq![
            LineModel {
                start_time: ((crate::text::digit_val(m1) * 10 + crate::text::digit_val(m0))
                    * 60000 + (crate::text::digit_val(s1) * 10 + crate::text::digit_val(s0))
                    * 1000 + (crate::text::digit_val(x1) * 10 + crate::text::digit_val(x0))
                    * 10) as u64,
                text: text,
                words: None,
            },
        ],
{
    lemma_plain_segment(input, m1, m0, s1, s0, x1, x0, text);
    crate::text::lemma_find_none(input, 0, '\n');
    assert(spec_split(input, '\n') == seq![input]);
    let total = (crate::text::digit_val(m1) * 10 + crate::text::digit_val(m0)) * 60000 + (
    crate::text::digit_val(s1) * 10 + crate::text::digit_val(s0)) * 1000 + (
    crate::text::digit_val(x1) * 10 + crate::text::digit_val(x0)) * 10;
    let one = LineModel { start_time: total as u64, text: text, words: None };
    // Fold the single physical line.
    let all = seq![input];
    let mid = Seq::<LineModel>::empty() + seq![one];
    let rest_ls = all.drop_first();
    assert(all.first() == input);
    assert(rest_ls =~= Seq::<Seq<char>>::empty());
    assert(rest_ls.len() == 0);
    assert(spec_collect_from(empty_meta(), mid, rest_ls) == (empty_meta(), mid));
    assert(spec_lyric_lines(input)->0 == seq![one]);
    assert(spec_collect_from(empty_meta(), Seq::empty(), all) == spec_collect_from(
        empty_meta(),
        mid,
        rest_ls,
    ));
    assert(spec_collect_from(empty_meta(), Seq::empty(), all) == (empty_meta(), mid));
    assert(spec_parse_meta(input) == empty_meta());
    assert(spec_collected_lines(input) =~= seq![one]);
    // No offset, and a singleton is already sorted.
    assert(stable_sort(seq![one]) =~= seq![one]) by {
        assert(seq![one].drop_last() =~= Seq::<LineModel>::empty());
        assert(stable_sort(Seq::<LineModel>::empty()) == Seq::<LineModel>::empty());
        assert(stable_insert(Seq::<LineModel>::empty(), one) == seq![one]);
    }
}

/// Offset: a leading `[offset:N]` tag, `N` a signed numeral, shifts the
/// line that follows by exactly `N` milliseconds, once, saturating at
/// the ends of the time range.
#[verifier::rlimit(100)]
pub proof fn lemma_parse_offset_line(
    input: Seq<char>,
    off_str: Seq<char>,
    m1: char,
    m0: char,
    s1: char,
    s0: char,
    x1: char,
    x0: char,
    text: Seq<char>,
)
    requires
        input == "[offset:"@ + off_str + "]"@ + seq!['\n'] + (seq![
            '[',
            m1,
            m0,
            ':',
            s1,
            s0,
            '.',
            x1,
            x0,
            ']',
        ] + text),
        is_i64_numeral(off_str),
        is_digit_char(m1) && is_digit_char(m0),
        is_digit_char(s1) && is_digit_char(s0),
        is_digit_char(x1) && is_digit_char(x0),
        forall|i: int| 0 <= i < text.len() ==> text[i] != '\n' && text[i] != '<',
        text.len() > 0 ==> !crate::text::is_blank_char(text[0]) && !crate::text::is_blank_char(
            text.last(),
        ) && text[0] != '[',
    ensures
        spec_parse_meta(input).offset == i64_numeral_val(off_str),
        spec_parse_lines(input) =~= seq![
            LineModel {
                start_time: clip_u64(
                    ((crate::text::digit_val(m1) * 10 + crate::text::digit_val(m0)) * 60000 + (
                    crate::text::digit_val(s1) * 10 + crate::text::digit_val(s0)) * 1000 + (
                    crate::text::digit_val(x1) * 10 + crate::text::digit_val(x0)) * 10)
                        + i64_numeral_val(off_str),
                ),
                text: text,
                words: None,
            },
        ],
{
    reveal_strlit("[offset:");
    reveal_strlit("]");
    assert("[offset:"@ =~= seq!['[', 'o', 'f', 'f', 's', 'e', 't', ':']);
    assert("]"@ =~= seq![']']);
    let n = off_str.len() as int;
    let seg1 = "[offset:"@ + off_str + "]"@;
    let line2 = seq!['[', m1, m0, ':', s1, s0, '.', x1, x0, ']'] + text;
    assert(input =~= seg1 + seq!['\n'] + line2);
    // Every character of the numeral is a sign or a digit.
    assert forall|i: int| 0 <= i < n implies off_str[i] != ']' && off_str[i] != '\n' && off_str[i]
        != ':' && off_str[i] != '[' && !crate::text::is_blank_char(off_str[i]) by {
        if i == 0 && (off_str[0] == '-' || off_str[0] == '+') {
        } else {
            if off_str.len() > 0 && (off_str[0] == '-' || off_str[0] == '+') {
                assert(is_digit_char(off_str.drop_first()[i - 1]));
                assert(off_str.drop_first()[i - 1] == off_str[i]);
            } else {
                assert(is_digit_char(off_str[i]));
            }
        }
    }
    // The two physical lines.
    assert forall|i: int| 0 <= i < seg1.len() implies seg1[i] != '\n' by {
        if 8 <= i < 8 + n {
            assert(seg1[i] == off_str[i - 8]);
        }
    }
    lemma_split_concat_line(seg1, line2);
    lemma_plain_segment(line2, m1, m0, s1, s0, x1, x0, text);
    crate::text::lemma_find_none(line2, 0, '\n');
    assert(spec_split(line2, '\n') == seq![line2]);
    let parts = spec_split(input, '\n');
    assert(parts == seq![seg1] + seq![line2]);
    assert(parts.len() == 2);
    assert(parts.first() == seg1);
    assert(parts.drop_first() =~= seq![line2]);
    // The tag line is already trimmed.
    assert(seg1[0] == '[');
    assert(seg1.last() == ']');
    assert(spec_trim_start(seg1) == seg1);
    assert(spec_trim_end(seg1) == seg1);
    assert(spec_trim(seg1) == seg1);
    // It reads as the offset tag.
    assert forall|k: int| 0 <= k < 8 + n implies seg1[k] != ']' by {
        if 8 <= k {
            assert(seg1[k] == off_str[k - 8]);
        }
    }
    assert(seg1[8 + n] == ']');
    crate::text::lemma_find_at(seg1, 0, ']', 8 + n);
    let content = seg1.subrange(1, 8 + n);
    assert(content =~= seq!['o', 'f', 'f', 's', 'e', 't', ':'] + off_str);
    assert forall|k: int| 0 <= k < 6 implies content[k] != ':' by {}
    assert(content[6] == ':');
    crate::text::lemma_find_at(content, 0, ':', 6);
    let tag = content.subrange(0, 6);
    assert(tag =~= seq!['o', 'f', 'f', 's', 'e', 't']);
    assert(!all_digits(tag)) by {
        assert(!is_digit_char(tag[0]));
    }
    let value = content.subrange(7, content.len() as int);
    assert(value =~= off_str);
    assert(spec_trim_start(off_str) == off_str);
    assert(spec_trim_end(off_str) == off_str);
    assert(spec_trim(off_str) == off_str);
    assert(spec_id_tag(seg1) == Some((tag, off_str)));
    // The tag sets the offset and nothing else.
    let lt = crate::text::ascii_lower(tag);
    assert(lt =~= seq!['o', 'f', 'f', 's', 'e', 't']) by {
        assert forall|k: int| 0 <= k < 6 implies lt[k] == tag[k] by {
            assert(lt[k] == crate::text::ascii_lower_char(tag[k]));
        }
    }
    let off_val = i64_numeral_val(off_str);
    let meta1 = spec_apply_tag(empty_meta(), tag, off_str);
    assert(meta1 == (MetaModel { offset: off_val, ..empty_meta() }));
    // Fold both physical lines.
    let total = (crate::text::digit_val(m1) * 10 + crate::text::digit_val(m0)) * 60000 + (
    crate::text::digit_val(s1) * 10 + crate::text::digit_val(s0)) * 1000 + (
    crate::text::digit_val(x1) * 10 + crate::text::digit_val(x0)) * 10;
    let one = LineModel { start_time: total as u64, text: text, words: None };
    let mid = Seq::<LineModel>::empty() + seq![one];
    assert(seq![line2].drop_first() =~= Seq::<Seq<char>>::empty());
    assert(spec_collect_from(meta1, mid, Seq::<Seq<char>>::empty()) == (meta1, mid));
    assert(seg1.len() > 0);
    assert(spec_collect_from(empty_meta(), Seq::empty(), parts) == spec_collect_from(
        meta1,
        Seq::empty(),
        parts.drop_first(),
    ));
    assert(line2.len() > 0);
    assert(spec_collect_from(meta1, Seq::empty(), seq![line2]) == spec_collect_from(
        meta1,
        mid,
        seq![line2].drop_first(),
    ));
    assert(spec_parse_meta(input) == meta1);
    assert(spec_collected_lines(input) =~= seq![one]);
    // One shifted line, already sorted.
    let shifted = LineModel { start_time: clip_u64(total + off_val), text: text, words: None };
    let final_lines: Seq<LineModel> = if off_val != 0 {
        shift_lines(seq![one], off_val)
    } else {
        seq![one]
    };
    assert(final_lines =~= seq![shifted]) by {
        if off_val != 0 {
            assert(shift_lines(seq![one], off_val)[0] == shift_line(one, off_val));
            assert(shift_line(one, off_val) == shifted);
        } else {
            assert(clip_u64(total + 0) == total as u64);
        }
    }
    assert(spec_parse_lines(input) == stable_sort(final_lines));
    assert(stable_sort(seq![shifted]) =~= seq![shifted]) by {
        assert(seq![shifted].drop_last() =~= Seq::<LineModel>::empty());
        assert(stable_sort(Seq::<LineModel>::empty()) == Seq::<LineModel>::empty());
        assert(stable_insert(Seq::<LineModel>::empty(), shifted) == seq![shifted]);
    }
}

/// One physical line `[mm:ss.xx]text` taken apart: it is already
/// trimmed, it is no ID tag, and it yields exactly one timed line.
pub proof fn lemma_plain_segment(
    input: Seq<char>,
    m1: char,
    m0: char,
    s1: char,
    s0: char,
    x1: char,
    x0: char,
    text: Seq<char>,
)
    requires
        input == seq!['[', m1, m0, ':', s1, s0, '.', x1, x0, ']'] + text,
        is_digit_char(m1) && is_digit_char(m0),
        is_digit_char(s1) && is_digit_char(s0),
        is_digit_char(x1) && is_digit_char(x0),
        forall|i: int| 0 <= i < text.len() ==> text[i] != '\n' && text[i] != '<',
        text.len() > 0 ==> !crate::text::is_blank_char(text[0]) && !crate::text::is_blank_char(
            text.last(),
        ) && text[0] != '[',
    ensures
        input.len() == 10 + text.len(),
        forall|i: int| 0 <= i < input.len() ==> input[i] != '\n',
        spec_trim(input) == input,
        spec_id_tag(input) is None,
        spec_lyric_lines(input) == Some(
            seq![
                LineModel {
                    start_time: ((crate::text::digit_val(m1) * 10 + crate::text::digit_val(m0))
                        * 60000 + (crate::text::digit_val(s1) * 10 + crate::text::digit_val(s0))
                        * 1000 + (crate::text::digit_val(x1) * 10 + crate::text::digit_val(x0))
                        * 10) as u64,
                    text: text,
                    words: None,
                },
            ],
        ),
{
    let head = seq!['[', m1, m0, ':', s1, s0, '.', x1, x0, ']'];
    assert(input.len() == 10 + text.len());
    assert forall|i: int| 0 <= i < input.len() implies input[i] != '\n' by {
        if i >= 10 {
            assert(input[i] == text[i - 10]);
        }
    }
    // The line is already trimmed.
    assert(spec_trim_start(input) == input);
    if text.len() > 0 {
        assert(input.last() == text.last());
    } else {
        assert(input.last() == ']');
    }
    assert(spec_trim_end(input) == input);
    assert(spec_trim(input) == input);
    // It is not an ID tag: the tag part is all digits.
    assert forall|k: int| 0 <= k < 9 implies input[k] != ']' by {
        assert(input[k] == head[k]);
    }
    assert(input[9] == ']');
    crate::text::lemma_find_at(input, 0, ']', 9);
    let content = input.subrange(1, 9);
    assert(content =~= seq![m1, m0, ':', s1, s0, '.', x1, x0]);
    assert(content[0] == m1 && content[1] == m0 && content[2] == ':');
    crate::text::lemma_find_at(content, 0, ':', 2);
    let tag = content.subrange(0, 2);
    assert(tag =~= seq![m1, m0]);
    assert(all_digits(tag));
    assert(spec_id_tag(input) is None);
    // The leading timestamp.
    assert(spec_trim_start(content) == content);
    assert(spec_trim_end(content) == content);
    assert(spec_trim(content) == content);
    let rest_after_colon = content.subrange(3, 8);
    assert(rest_after_colon =~= seq![s1, s0, '.', x1, x0]);
    crate::text::lemma_find_none(rest_after_colon, 0, ':');
    assert(spec_split(rest_after_colon, ':') == seq![rest_after_colon]);
    assert(spec_split(content, ':') =~= seq![tag, rest_after_colon]);
    assert(rest_after_colon[0] == s1 && rest_after_colon[1] == s0 && rest_after_colon[2] == '.');
    crate::text::lemma_find_at(rest_after_colon, 0, '.', 2);
    let sec = rest_after_colon.subrange(0, 2);
    let frac = rest_after_colon.subrange(3, 5);
    assert(sec =~= seq![s1, s0]);
    assert(frac =~= seq![x1, x0]);
    let mval = crate::text::digit_val(m1) * 10 + crate::text::digit_val(m0);
    let sval = crate::text::digit_val(s1) * 10 + crate::text::digit_val(s0);
    assert(dec_val(tag) == mval) by {
        assert(tag.drop_last() =~= seq![m1]);
        assert(tag.last() == m0);
        assert(seq![m1].drop_last() =~= Seq::<char>::empty());
        assert(seq![m1].last() == m1);
        assert(dec_val(Seq::<char>::empty()) == 0);
        assert(dec_val(seq![m1]) == crate::text::digit_val(m1));
        assert(dec_val(tag) == dec_val(seq![m1]) * 10 + crate::text::digit_val(m0));
    }
    assert(dec_val(sec) == sval) by {
        assert(sec.drop_last() =~= seq![s1]);
        assert(sec.last() == s0);
        assert(seq![s1].drop_last() =~= Seq::<char>::empty());
        assert(seq![s1].last() == s1);
        assert(dec_val(Seq::<char>::empty()) == 0);
        assert(dec_val(seq![s1]) == crate::text::digit_val(s1));
        assert(dec_val(sec) == dec_val(seq![s1]) * 10 + crate::text::digit_val(s0));
    }
    assert(is_u64_numeral(tag));
    assert(is_u64_numeral(sec));
    assert(all_digits(frac));
    assert(frac_ms(frac) == crate::text::digit_val(x1) * 100 + crate::text::digit_val(x0) * 10);
    let total = mval * 60000 + sval * 1000 + frac_ms(frac);
    assert(spec_ts2(tag, rest_after_colon) == Some(total as u64));
    assert(spec_timestamp(content) == Some(total as u64));
    // The stamps and the remaining text.
    let after = input.subrange(10, input.len() as int);
    assert(after =~= text);
    assert(spec_stamps(text).0 =~= Seq::<u64>::empty() && spec_stamps(text).1 == text) by {
        if text.len() > 0 {
            assert(text[0] != '[');
        }
    }
    assert(input[0] == '[');
    assert(spec_stamps(input).0 =~= seq![total as u64]);
    assert(spec_stamps(input).1 == text);
    assert(spec_trim(text) == text) by {
        assert(spec_trim_start(text) == text);
        assert(spec_trim_end(text) == text);
    }
    crate::text::lemma_find_none(text, 0, '<');
    assert(spec_enhanced(text) is None);
    let one = LineModel { start_time: total as u64, text: text, words: None };
    assert(spec_lyric_lines(input) is Some);
    assert(spec_lyric_lines(input)->0 =~= seq![one]) by {
        assert(seq![total as u64].map_values(
            |t: u64| LineModel { start_time: t, text: text, words: None },
        ) =~= seq![one]);
    }
}

/// Splitting at a line break: a newline-free segment, a newline, and the
/// rest split into the segment and the rest's own parts.
pub proof fn lemma_split_concat_line(seg: Seq<char>, rest: Seq<char>)
    requires
        forall|i: int| 0 <= i < seg.len() ==> seg[i] != '\n',
    ensures
        spec_split(seg + seq!['\n'] + rest, '\n') == seq![seg] + spec_split(rest, '\n'),
{
    let s = seg + seq!['\n'] + rest;
    assert(s[seg.len() as int] == '\n');
    assert forall|k: int| 0 <= k < seg.len() implies s[k] != '\n' by {
        assert(s[k] == seg[k]);
    }
    crate::text::lemma_find_at(s, 0, '\n', seg.len() as int);
    assert(s.subrange(0, seg.len() as int) =~= seg);
    assert(s.subrange(seg.len() as int + 1, s.len() as int) =~= rest);
}

/// A sequence already sorted by start time is its own stable sort.
pub proof fn lemma_stable_sort_of_sorted(ls: Seq<LineModel>)
    requires
        sorted_by_start(ls),
    ensures
        stable_sort(ls) == ls,
    decreases ls.len(),
{
    if ls.len() > 0 {
        assert(sorted_by_start(ls.drop_last())) by {
            assert(forall|i: int, j: int|
                0 <= i < j < ls.len() - 1 ==> (#[trigger] ls.drop_last()[i]).start_time <= (
                #[trigger] ls.drop_last()[j]).start_time);
        }
        lemma_stable_sort_of_sorted(ls.drop_last());
        let pre = ls.drop_last();
        let x = ls.last();
        assert(forall|k: int| pre.len() <= k < pre.len() ==> (#[trigger] pre[k]).start_time
            > x.start_time);
        if pre.len() > 0 {
            assert(pre[pre.len() - 1].start_time <= x.start_time);
        }
        lemma_stable_insert_at(pre, x, pre.len() as int);
        assert(pre.subrange(0, pre.len() as int) =~= pre);
        assert(pre.subrange(pre.len() as int, pre.len() as int) =~= Seq::<LineModel>::empty());
        assert(pre + seq![x] + Seq::<LineModel>::empty() =~= ls);
    }
}

/// Multi-timestamp markup: a physical line with several leading
/// timestamps yields one line per timestamp, in order, all sharing the
/// same text and word timing.
pub proof fn lemma_multi_timestamp(line: Seq<char>)
    requires
        spec_lyric_lines(line) is Some,
    ensures
        spec_lyric_lines(line)->0.len() == spec_stamps(line).0.len(),
        forall|i: int|
            0 <= i < spec_lyric_lines(line)->0.len() ==> (#[trigger] spec_lyric_lines(
                line,
            )->0[i]).start_time == spec_stamps(line).0[i],
        forall|i: int|
            0 <= i < spec_lyric_lines(line)->0.len() ==> (#[trigger] spec_lyric_lines(
                line,
            )->0[i]).text == spec_lyric_lines(line)->0[0].text && spec_lyric_lines(
                line,
            )->0[i].words == spec_lyric_lines(line)->0[0].words,
{
}

fn frac_ms_exec(frac: &Vec<char>) -> (r: u64)
    requires
        all_digits(frac@),
    ensures
        r == frac_ms(frac@),
{
    let d0: u64 = frac_digit_exec(frac, 0);
    let d1: u64 = frac_digit_exec(frac, 1);
    let d2: u64 = frac_digit_exec(frac, 2);
    d0 * 100 + d1 * 10 + d2
}

fn frac_digit_exec(frac: &Vec<char>, i: usize) -> (r: u64)
    requires
        all_digits(frac@),
    ensures
        r == frac_digit(frac@, i as int),
        r <= 9,
{
    if i < frac.len() {
        let c = frac[i];
        proof {
            assert(crate::text::is_digit_char(frac@[i as int]));
        }
        (c as u32 - '0' as u32) as u64
    } else {
        0
    }
}

} // verus!
