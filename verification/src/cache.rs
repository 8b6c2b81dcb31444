//! The lyrics cache: a keyed store mapping a track identity to previously
//! resolved lyrics, with a secondary index from provider track ids.
//!
//! The store itself is a verified in-memory table with upsert semantics on
//! the `(artist, track, album)` key and on the `(provider,
//! provider_track_id)` mapping key; the surrounding application persists
//! it. Negative results are never stored.

use vstd::prelude::*;

use crate::error::CoreError;
use crate::lrc::{
    spec_parse_lines, spec_parse_meta, view_lines, LineModel, LrcFile, MetaModel, WordModel,
};
use crate::provider::LyricsResult;
use crate::text::{ascii_lower, dec_str, lowercase_string, push_all, push_dec, string_from_chars};

verus! {

/// Whether stored content is timed or plain text.
#[derive(Clone, Copy, PartialEq, Eq, Structural, Debug)]
pub enum LyricsType {
    Synced,
    Unsynced,
}

impl LyricsType {
    /// The stable string stored in the `lyrics_type` column.
    pub fn as_str(self) -> (r: &'static str)
        ensures
            r@ == if self is Synced {
                "synced"@
            } else {
                "unsynced"@
            },
    {
        match self {
            LyricsType::Synced => "synced",
            LyricsType::Unsynced => "unsynced",
        }
    }

    /// Read a stored `lyrics_type` string back.
    pub fn from_str(s: &str) -> (r: Option<LyricsType>)
        ensures
            r == if s@ == "synced"@ {
                Some(LyricsType::Synced)
            } else if s@ == "unsynced"@ {
                Some(LyricsType::Unsynced)
            } else {
                None::<LyricsType>
            },
    {
        let synced: &str = "synced";
        let unsynced: &str = "unsynced";
        if string_eq(s, synced) {
            Some(LyricsType::Synced)
        } else if string_eq(s, unsynced) {
            Some(LyricsType::Unsynced)
        } else {
            None
        }
    }
}

/// Whether two string slices hold the same characters.
fn string_eq(a: &str, b: &str) -> (r: bool)
    ensures
        r == (a@ == b@),
{
    let ca = crate::text::chars_of(a);
    let cb = crate::text::chars_of(b);
    if ca.len() != cb.len() {
        return false;
    }
    let mut i: usize = 0;
    while i < ca.len()
        invariant
            0 <= i <= ca@.len(),
            ca@ == a@,
            cb@ == b@,
            ca@.len() == cb@.len(),
            forall|k: int| 0 <= k < i ==> a@[k] == b@[k],
        decreases ca@.len() - i,
    {
        if ca[i] != cb[i] {
            return false;
        }
        i += 1;
    }
    proof {
        assert(a@ =~= b@);
    }
    true
}

// ---------------------------------------------------------------------------
// Timestamp formatting and serialization back to LRC
// ---------------------------------------------------------------------------

/// Decimal numeral padded to at least two digits.
pub open spec fn spec_pad2(x: nat) -> Seq<char> {
    if x < 10 {
        seq!['0'] + dec_str(x)
    } else {
        dec_str(x)
    }
}

/// `mm:ss.xx`: minutes, seconds, hundredths, each padded to two digits.
pub open spec fn spec_format_ts(ms: u64) -> Seq<char> {
    spec_pad2((ms as nat / 1000 / 60)) + seq![':'] + spec_pad2((ms as nat / 1000 % 60)) + seq![
        '.',
    ] + spec_pad2((ms as nat % 1000 / 10))
}

fn push_pad2(out: &mut Vec<char>, x: u64)
    ensures
        final (out)@ == old(out)@ + spec_pad2(x as nat),
{
    if x < 10 {
        let ghost base = out@;
        out.push('0');
        push_dec(x, out);
        proof {
            assert(base.push('0') =~= base + seq!['0']);
            assert(base + spec_pad2(x as nat) =~= (base + seq!['0']) + dec_str(x as nat));
        }
    } else {
        push_dec(x, out);
    }
}

/// Format a millisecond time as an LRC timestamp `mm:ss.xx`.
pub fn format_timestamp(ms: u64) -> (r: String)
    ensures
        r@ == spec_format_ts(ms),
{
    let mut out: Vec<char> = Vec::new();
    push_pad2(&mut out, ms / 1000 / 60);
    out.push(':');
    push_pad2(&mut out, ms / 1000 % 60);
    out.push('.');
    push_pad2(&mut out, ms % 1000 / 10);
    proof {
        assert(out@ =~= spec_format_ts(ms));
        assert(Seq::<char>::empty() + spec_pad2((ms as nat / 1000 / 60)) =~= spec_pad2(
            (ms as nat / 1000 / 60),
        ));
    }
    string_from_chars(&out)
}

/// Serialized form of the metadata tags this library writes back: title,
/// artist and album. The offset is never written: the line times below
/// already carry it, and an offset tag beside shifted times would make a
/// re-parse shift them a second time.
pub open spec fn spec_ser_meta(m: MetaModel) -> Seq<char> {
    (match m.title {
        Some(t) => "[ti:"@ + t + "]\n"@,
        None => Seq::<char>::empty(),
    }) + (match m.artist {
        Some(a) => "[ar:"@ + a + "]\n"@,
        None => Seq::<char>::empty(),
    }) + (match m.album {
        Some(a) => "[al:"@ + a + "]\n"@,
        None => Seq::<char>::empty(),
    })
}

pub open spec fn spec_ser_word(w: WordModel) -> Seq<char> {
    " <"@ + spec_format_ts(w.start_time) + "> "@ + w.text
}

pub open spec fn spec_ser_words(ws: Seq<WordModel>) -> Seq<char>
    decreases ws.len(),
{
    if ws.len() == 0 {
        Seq::empty()
    } else {
        spec_ser_words(ws.drop_last()) + spec_ser_word(ws.last())
    }
}

/// One serialized line: plain `[ts]text`, or the enhanced form with each
/// word behind its own `<ts>`.
pub open spec fn spec_ser_line(l: LineModel) -> Seq<char> {
    match l.words {
        Some(ws) => "["@ + spec_format_ts(l.start_time) + "]"@ + spec_ser_words(ws) + "\n"@,
        None => "["@ + spec_format_ts(l.start_time) + "]"@ + l.text + "\n"@,
    }
}

pub open spec fn spec_ser_lines(ls: Seq<LineModel>) -> Seq<char>
    decreases ls.len(),
{
    if ls.len() == 0 {
        Seq::empty()
    } else {
        spec_ser_lines(ls.drop_last()) + spec_ser_line(ls.last())
    }
}

/// The full serialized file: metadata tags then lines.
pub open spec fn spec_serialize(m: MetaModel, ls: Seq<LineModel>) -> Seq<char> {
    spec_ser_meta(m) + spec_ser_lines(ls)
}

/// Serialize a parsed file back to LRC text for storage. The metadata
/// offset is applied once, at parse time; the times written here already
/// carry it, so no offset tag is emitted and re-parsing the output never
/// shifts the times again.
#[verifier::rlimit(60)]
pub fn serialize_lrc(lrc: &LrcFile) -> (r: String)
    ensures
        r@ == spec_serialize(lrc.metadata@, view_lines(lrc.lines@)),
{
    let mut out: Vec<char> = Vec::new();
    match &lrc.metadata.title {
        Some(t) => {
            push_all(&mut out, "[ti:");
            push_all(&mut out, t.as_str());
            push_all(&mut out, "]\n");
        },
        None => {},
    }
    match &lrc.metadata.artist {
        Some(a) => {
            push_all(&mut out, "[ar:");
            push_all(&mut out, a.as_str());
            push_all(&mut out, "]\n");
        },
        None => {},
    }
    match &lrc.metadata.album {
        Some(a) => {
            push_all(&mut out, "[al:");
            push_all(&mut out, a.as_str());
            push_all(&mut out, "]\n");
        },
        None => {},
    }
    proof {
        assert(out@ =~= spec_ser_meta(lrc.metadata@));
    }
    let ghost header = out@;
    let ghost ls = view_lines(lrc.lines@);
    let mut k: usize = 0;
    proof {
        assert(spec_ser_lines(ls.subrange(0, 0)) =~= Seq::<char>::empty());
        assert(header + Seq::<char>::empty() =~= header);
    }
    while k < lrc.lines.len()
        invariant
            0 <= k <= lrc.lines@.len(),
            ls == view_lines(lrc.lines@),
            header == spec_ser_meta(lrc.metadata@),
            out@ == header + spec_ser_lines(ls.subrange(0, k as int)),
        decreases lrc.lines@.len() - k,
    {
        let ghost before = out@;
        let line = &lrc.lines[k];
        proof {
            assert(ls[k as int] == lrc.lines@[k as int]@);
        }
        push_all(&mut out, "[");
        let ts = format_timestamp(line.start_time);
        push_all(&mut out, ts.as_str());
        push_all(&mut out, "]");
        match &line.words {
            Some(ws) => {
                let ghost wvs = crate::lrc::view_words(ws@);
                let ghost mid = out@;
                let mut j: usize = 0;
                proof {
                    assert(spec_ser_words(wvs.subrange(0, 0)) =~= Seq::<char>::empty());
                    assert(mid + Seq::<char>::empty() =~= mid);
                }
                while j < ws.len()
                    invariant
                        0 <= j <= ws@.len(),
                        wvs == crate::lrc::view_words(ws@),
                        out@ == mid + spec_ser_words(wvs.subrange(0, j as int)),
                    decreases ws@.len() - j,
                {
                    push_all(&mut out, " <");
                    let wts = format_timestamp(ws[j].start_time);
                    push_all(&mut out, wts.as_str());
                    push_all(&mut out, "> ");
                    push_all(&mut out, ws[j].text.as_str());
                    proof {
                        let pre = wvs.subrange(0, j as int);
                        let cur = wvs.subrange(0, j + 1 as int);
                        assert(cur.drop_last() =~= pre);
                        assert(wvs[j as int] == ws@[j as int]@);
                        assert(cur.last() == wvs[j as int]);
                        assert(out@ =~= mid + spec_ser_words(cur));
                    }
                    j += 1;
                }
                proof {
                    assert(wvs.subrange(0, wvs.len() as int) =~= wvs);
                }
                push_all(&mut out, "\n");
            },
            None => {
                push_all(&mut out, line.text.as_str());
                push_all(&mut out, "\n");
            },
        }
        proof {
            let pre = ls.subrange(0, k as int);
            let cur = ls.subrange(0, k + 1 as int);
            assert(cur.drop_last() =~= pre);
            assert(cur.last() == ls[k as int]);
            assert(out@ =~= header + spec_ser_lines(cur));
        }
        k += 1;
    }
    proof {
        assert(ls.subrange(0, ls.len() as int) =~= ls);
    }
    string_from_chars(&out)
}

// ---------------------------------------------------------------------------
// Round trip: serialized plain lines parse back to themselves
// ---------------------------------------------------------------------------

/// A plain line the round trip speaks of: no word timing, a start time
/// under a hundred minutes, and text free of line breaks, enhanced
/// markup, a leading bracket and surrounding blanks.
pub open spec fn plain_line_ok(l: LineModel) -> bool {
    &&& l.words is None
    &&& l.start_time < 6000000
    &&& forall|i: int| 0 <= i < l.text.len() ==> l.text[i] != '\n' && l.text[i] != '<'
    &&& (l.text.len() > 0 ==> !crate::text::is_blank_char(l.text[0])
        && !crate::text::is_blank_char(l.text.last()) && l.text[0] != '[')
}

/// A time rounded down to the whole hundredth of a second the timestamp
/// format can carry.
pub open spec fn hundredth_floor(ms: u64) -> u64 {
    ((ms as int) / 10 * 10) as u64
}

/// What one written-and-reread line becomes: the same line, its start
/// truncated to hundredths.
pub open spec fn spec_hundredths_line(l: LineModel) -> LineModel {
    LineModel { start_time: hundredth_floor(l.start_time), ..l }
}

pub open spec fn spec_hundredths(ls: Seq<LineModel>) -> Seq<LineModel> {
    ls.map_values(|l: LineModel| spec_hundredths_line(l))
}

proof fn lemma_pad2_two_digits(x: nat)
    requires
        x < 100,
    ensures
        spec_pad2(x).len() == 2,
        crate::text::is_digit_char(spec_pad2(x)[0]),
        crate::text::is_digit_char(spec_pad2(x)[1]),
        crate::text::digit_val(spec_pad2(x)[0]) * 10 + crate::text::digit_val(spec_pad2(x)[1])
            == x,
{
    if x < 10 {
        assert(dec_str(x) == seq![crate::text::digit_char(x)]);
        assert(spec_pad2(x) =~= seq!['0', crate::text::digit_char(x)]);
        assert(crate::text::digit_val('0') == 0);
        assert(crate::text::digit_val(crate::text::digit_char(x)) == x);
    } else {
        assert(dec_str(x) == dec_str(x / 10).push(crate::text::digit_char(x % 10)));
        assert(x / 10 < 10);
        assert(dec_str(x / 10) == seq![crate::text::digit_char(x / 10)]);
        assert(spec_pad2(x) =~= seq![
            crate::text::digit_char(x / 10),
            crate::text::digit_char(x % 10),
        ]);
        assert(crate::text::digit_val(crate::text::digit_char(x / 10)) == x / 10);
        assert(crate::text::digit_val(crate::text::digit_char(x % 10)) == x % 10);
    }
}

proof fn lemma_format_ts_parts(ms: u64)
    requires
        ms < 6000000,
    ensures
        ({
            let ts = spec_format_ts(ms);
            &&& ts.len() == 8
            &&& crate::text::is_digit_char(ts[0]) && crate::text::is_digit_char(ts[1])
            &&& ts[2] == ':'
            &&& crate::text::is_digit_char(ts[3]) && crate::text::is_digit_char(ts[4])
            &&& ts[5] == '.'
            &&& crate::text::is_digit_char(ts[6]) && crate::text::is_digit_char(ts[7])
            &&& (crate::text::digit_val(ts[0]) * 10 + crate::text::digit_val(ts[1])) * 60000 + (
                crate::text::digit_val(ts[3]) * 10 + crate::text::digit_val(ts[4])) * 1000 + (
                crate::text::digit_val(ts[6]) * 10 + crate::text::digit_val(ts[7])) * 10
                == hundredth_floor(ms)
        }),
{
    let minutes = ms as nat / 1000 / 60;
    let seconds = ms as nat / 1000 % 60;
    let hundredths = ms as nat % 1000 / 10;
    assert(minutes < 100);
    assert(seconds < 60);
    assert(hundredths < 100);
    lemma_pad2_two_digits(minutes);
    lemma_pad2_two_digits(seconds);
    lemma_pad2_two_digits(hundredths);
    let ts = spec_format_ts(ms);
    assert(ts =~= spec_pad2(minutes) + seq![':'] + spec_pad2(seconds) + seq!['.'] + spec_pad2(
        hundredths,
    ));
    assert(ts[0] == spec_pad2(minutes)[0] && ts[1] == spec_pad2(minutes)[1]);
    assert(ts[3] == spec_pad2(seconds)[0] && ts[4] == spec_pad2(seconds)[1]);
    assert(ts[6] == spec_pad2(hundredths)[0] && ts[7] == spec_pad2(hundredths)[1]);
    assert(minutes * 60000 + seconds * 1000 + hundredths * 10 == hundredth_floor(ms)) by {
        assert(ms as nat / 1000 == 60 * (ms as nat / 1000 / 60) + ms as nat / 1000 % 60);
        assert(ms as nat == 1000 * (ms as nat / 1000) + ms as nat % 1000);
        assert(ms as nat % 1000 == 10 * (ms as nat % 1000 / 10) + ms as nat % 1000 % 10);
        assert(ms as nat % 1000 % 10 == ms as nat % 10) by (nonlinear_arith);
        assert(ms as int == 10 * (ms as int / 10) + ms as int % 10);
    }
}

proof fn lemma_serialized_line_parses(l: LineModel)
    requires
        plain_line_ok(l),
    ensures
        ({
            let seg = "["@ + spec_format_ts(l.start_time) + "]"@ + l.text;
            &&& spec_ser_line(l) == seg + seq!['\n']
            &&& forall|i: int| 0 <= i < seg.len() ==> seg[i] != '\n'
            &&& crate::text::spec_trim(seg) == seg
            &&& crate::lrc::spec_id_tag(seg) is None
            &&& crate::lrc::spec_lyric_lines(seg) == Some(seq![spec_hundredths_line(l)])
        }),
{
    let ts = spec_format_ts(l.start_time);
    lemma_format_ts_parts(l.start_time);
    let seg = "["@ + ts + "]"@ + l.text;
    reveal_strlit("[");
    reveal_strlit("]");
    reveal_strlit("\n");
    assert("["@ =~= seq!['[']);
    assert("]"@ =~= seq![']']);
    assert("\n"@ =~= seq!['\n']);
    assert(spec_ser_line(l) =~= seg + seq!['\n']);
    assert(seg =~= seq!['[', ts[0], ts[1], ':', ts[3], ts[4], '.', ts[6], ts[7], ']'] + l.text);
    crate::lrc::lemma_plain_segment(
        seg,
        ts[0],
        ts[1],
        ts[3],
        ts[4],
        ts[6],
        ts[7],
        l.text,
    );
    assert((crate::text::digit_val(ts[0]) * 10 + crate::text::digit_val(ts[1])) * 60000 + (
    crate::text::digit_val(ts[3]) * 10 + crate::text::digit_val(ts[4])) * 1000 + (
    crate::text::digit_val(ts[6]) * 10 + crate::text::digit_val(ts[7])) * 10 == hundredth_floor(
        l.start_time,
    ));
    assert(crate::lrc::spec_lyric_lines(seg) == Some(seq![spec_hundredths_line(l)]));
}

proof fn lemma_ser_lines_cons(ls: Seq<LineModel>)
    requires
        ls.len() > 0,
    ensures
        spec_ser_lines(ls) == spec_ser_line(ls.first()) + spec_ser_lines(ls.drop_first()),
    decreases ls.len(),
{
    if ls.len() == 1 {
        assert(ls.drop_last() =~= Seq::<LineModel>::empty());
        assert(ls.drop_first() =~= Seq::<LineModel>::empty());
        assert(ls.last() == ls.first());
        assert(Seq::<char>::empty() + spec_ser_line(ls.first()) =~= spec_ser_line(ls.first())
            + Seq::<char>::empty());
    } else {
        lemma_ser_lines_cons(ls.drop_last());
        assert(ls.drop_last().first() == ls.first());
        assert(ls.drop_last().drop_first() =~= ls.drop_first().drop_last());
        assert(ls.drop_first().last() == ls.last());
        assert(spec_ser_lines(ls) == spec_ser_lines(ls.drop_last()) + spec_ser_line(ls.last()));
        assert(spec_ser_lines(ls.drop_last()) == spec_ser_line(ls.first()) + spec_ser_lines(
            ls.drop_first().drop_last(),
        ));
        assert(spec_ser_lines(ls.drop_first()) == spec_ser_lines(ls.drop_first().drop_last())
            + spec_ser_line(ls.last()));
        assert((spec_ser_line(ls.first()) + spec_ser_lines(ls.drop_first().drop_last()))
            + spec_ser_line(ls.last()) =~= spec_ser_line(ls.first()) + (spec_ser_lines(
            ls.drop_first().drop_last(),
        ) + spec_ser_line(ls.last())));
    }
}

proof fn lemma_collect_serialized(ls: Seq<LineModel>, m: MetaModel, acc: Seq<LineModel>)
    requires
        forall|i: int| 0 <= i < ls.len() ==> plain_line_ok(#[trigger] ls[i]),
    ensures
        crate::lrc::spec_collect_from(
            m,
            acc,
            crate::lrc::spec_split(spec_ser_lines(ls), '\n'),
        ) == (m, acc + spec_hundredths(ls)),
    decreases ls.len(),
{
    if ls.len() == 0 {
        assert(spec_ser_lines(ls) == Seq::<char>::empty());
        crate::text::lemma_find_none(Seq::<char>::empty(), 0, '\n');
        let parts = crate::lrc::spec_split(Seq::<char>::empty(), '\n');
        assert(parts == seq![Seq::<char>::empty()]);
        assert(parts.first() == Seq::<char>::empty());
        assert(crate::text::spec_trim(Seq::<char>::empty()) == Seq::<char>::empty());
        assert(parts.drop_first() =~= Seq::<Seq<char>>::empty());
        assert(crate::lrc::spec_collect_from(m, acc, parts.drop_first()) == (m, acc));
        assert(crate::lrc::spec_collect_from(m, acc, parts) == (m, acc));
        assert(acc + spec_hundredths(ls) =~= acc);
    } else {
        let first = ls.first();
        let rest = ls.drop_first();
        assert(plain_line_ok(first)) by {
            assert(ls[0] == first);
        }
        assert(forall|i: int| 0 <= i < rest.len() ==> plain_line_ok(#[trigger] rest[i])) by {
            assert(forall|i: int| 0 <= i < rest.len() ==> rest[i] == ls[i + 1]);
        }
        lemma_ser_lines_cons(ls);
        lemma_serialized_line_parses(first);
        let seg = "["@ + spec_format_ts(first.start_time) + "]"@ + first.text;
        assert(spec_ser_lines(ls) =~= seg + seq!['\n'] + spec_ser_lines(rest));
        crate::lrc::lemma_split_concat_line(seg, spec_ser_lines(rest));
        let parts = crate::lrc::spec_split(spec_ser_lines(ls), '\n');
        let rest_parts = crate::lrc::spec_split(spec_ser_lines(rest), '\n');
        assert(parts == seq![seg] + rest_parts);
        assert(parts.first() == seg);
        assert(parts.drop_first() =~= rest_parts);
        assert(seg.len() > 0);
        let tf = spec_hundredths_line(first);
        lemma_collect_serialized(rest, m, acc + seq![tf]);
        assert(crate::lrc::spec_collect_from(m, acc, parts) == crate::lrc::spec_collect_from(
            m,
            acc + seq![tf],
            rest_parts,
        ));
        assert forall|i: int| 0 <= i < acc.len() + ls.len() implies #[trigger] ((acc + seq![tf])
            + spec_hundredths(rest))[i] == (acc + spec_hundredths(ls))[i] by {
            if i >= acc.len() {
                assert(spec_hundredths(ls)[i - acc.len()] == spec_hundredths_line(
                    ls[i - acc.len()],
                ));
                if i > acc.len() {
                    assert(spec_hundredths(rest)[i - acc.len() - 1] == spec_hundredths_line(
                        rest[i - acc.len() - 1],
                    ));
                    assert(rest[i - acc.len() - 1] == ls[i - acc.len()]);
                }
            }
        }
        assert((acc + seq![tf]) + spec_hundredths(rest) =~= acc + spec_hundredths(ls));
    }
}

/// Round trip: a file of plain lines, written out and parsed back,
/// reproduces its lines — count, order and text exactly, each start time
/// truncated to the whole hundredth the format carries, so times already
/// on a hundredth come back unchanged. The metadata may record any
/// offset: it was applied once when the file was first parsed, the
/// serializer writes the already-shifted times without an offset tag,
/// and so the re-parse never applies it a second time.
pub proof fn lemma_roundtrip_plain(meta: MetaModel, ls: Seq<LineModel>)
    requires
        meta.title is None,
        meta.artist is None,
        meta.album is None,
        forall|i: int| 0 <= i < ls.len() ==> plain_line_ok(#[trigger] ls[i]),
        crate::lrc::sorted_by_start(ls),
    ensures
        crate::lrc::spec_parse_meta(spec_serialize(meta, ls)) == crate::lrc::empty_meta(),
        crate::lrc::spec_parse_lines(spec_serialize(meta, ls)) == spec_hundredths(ls),
        (forall|i: int| 0 <= i < ls.len() ==> (#[trigger] ls[i]).start_time % 10 == 0)
            ==> crate::lrc::spec_parse_lines(spec_serialize(meta, ls)) == ls,
{
    let em = crate::lrc::empty_meta();
    assert(spec_ser_meta(meta) =~= Seq::<char>::empty());
    assert(spec_serialize(meta, ls) =~= spec_ser_lines(ls));
    lemma_collect_serialized(ls, em, Seq::empty());
    let input = spec_serialize(meta, ls);
    let truncated = spec_hundredths(ls);
    assert(crate::lrc::spec_collect_from(
        em,
        Seq::empty(),
        crate::lrc::spec_split(input, '\n'),
    ) == (em, Seq::<LineModel>::empty() + truncated));
    assert(Seq::<LineModel>::empty() + truncated =~= truncated);
    assert(crate::lrc::spec_parse_meta(input) == em);
    assert(crate::lrc::spec_collected_lines(input) == truncated);
    // Truncation is monotone, so the truncated lines stay sorted.
    assert forall|i: int, j: int| 0 <= i < j < truncated.len() implies (
    #[trigger] truncated[i]).start_time <= (#[trigger] truncated[j]).start_time by {
        assert(truncated[i] == spec_hundredths_line(ls[i]));
        assert(truncated[j] == spec_hundredths_line(ls[j]));
        assert(ls[i].start_time <= ls[j].start_time);
    }
    crate::lrc::lemma_stable_sort_of_sorted(truncated);
    if forall|i: int| 0 <= i < ls.len() ==> (#[trigger] ls[i]).start_time % 10 == 0 {
        assert forall|i: int| 0 <= i < ls.len() implies #[trigger] truncated[i] == ls[i] by {
            assert(ls[i].start_time % 10 == 0);
            assert(truncated[i] == spec_hundredths_line(ls[i]));
            assert(ls[i].start_time as int == 10 * (ls[i].start_time as int / 10) + ls[i].start_time as int
                % 10);
        }
        assert(truncated =~= ls);
    }
}

// ---------------------------------------------------------------------------
// The cache table
// ---------------------------------------------------------------------------

/// One cached lyrics row.
#[derive(Clone, Debug)]
pub struct CachedLyrics {
    pub id: i64,
    pub artist: String,
    pub track: String,
    pub album: Option<String>,
    pub duration_ms: Option<i64>,
    /// The lyrics provider the content came from.
    pub provider: String,
    /// That provider's own id for the track.
    pub provider_id: String,
    pub lyrics_type: LyricsType,
    pub content: String,
    /// Store time in seconds since the Unix epoch.
    pub fetched_at: i64,
}

/// Mathematical image of a row.
pub ghost struct RowModel {
    pub id: i64,
    pub artist: Seq<char>,
    pub track: Seq<char>,
    pub album: Option<Seq<char>>,
    pub duration_ms: Option<i64>,
    pub provider: Seq<char>,
    pub provider_id: Seq<char>,
    pub lyrics_type: LyricsType,
    pub content: Seq<char>,
    pub fetched_at: i64,
}

impl View for CachedLyrics {
    type V = RowModel;

    open spec fn view(&self) -> RowModel {
        RowModel {
            id: self.id,
            artist: self.artist@,
            track: self.track@,
            album: crate::lrc::view_opt_string(&self.album),
            duration_ms: self.duration_ms,
            provider: self.provider@,
            provider_id: self.provider_id@,
            lyrics_type: self.lyrics_type,
            content: self.content@,
            fetched_at: self.fetched_at,
        }
    }
}

impl CachedLyrics {
    /// Read the stored content back as a result: synced content is
    /// reparsed, plain content returned as is.
    pub fn to_lyrics_result(&self) -> (r: LyricsResult)
        ensures
            match self.lyrics_type {
                LyricsType::Synced => r is Synced && r->Synced_0.metadata@ == spec_parse_meta(
                    self.content@,
                ) && view_lines(r->Synced_0.lines@) == spec_parse_lines(self.content@),
                LyricsType::Unsynced => r == LyricsResult::Unsynced(self.content),
            },
    {
        match self.lyrics_type {
            LyricsType::Synced => {
                match LrcFile::parse(self.content.as_str()) {
                    Ok(lrc) => LyricsResult::Synced(lrc),
                    Err(_) => LyricsResult::Unsynced(self.content.clone()),
                }
            },
            LyricsType::Unsynced => LyricsResult::Unsynced(self.content.clone()),
        }
    }
}

/// One row of the provider-id index.
#[derive(Clone, Debug)]
pub struct IdMapping {
    pub provider: String,
    pub provider_track_id: String,
    pub lyrics_id: i64,
    pub created_at: i64,
}

/// Mathematical image of an index row.
pub ghost struct MapModel {
    pub provider: Seq<char>,
    pub provider_track_id: Seq<char>,
    pub lyrics_id: i64,
    pub created_at: i64,
}

impl View for IdMapping {
    type V = MapModel;

    open spec fn view(&self) -> MapModel {
        MapModel {
            provider: self.provider@,
            provider_track_id: self.provider_track_id@,
            lyrics_id: self.lyrics_id,
            created_at: self.created_at,
        }
    }
}

/// Track metadata handed in on a store.
#[derive(Clone, Debug)]
pub struct TrackMetadata {
    pub artist: String,
    pub track: String,
    pub album: Option<String>,
    pub duration_ms: Option<i64>,
}

/// Mathematical image of the metadata.
pub ghost struct TrackMetaModel {
    pub artist: Seq<char>,
    pub track: Seq<char>,
    pub album: Option<Seq<char>>,
    pub duration_ms: Option<i64>,
}

impl View for TrackMetadata {
    type V = TrackMetaModel;

    open spec fn view(&self) -> TrackMetaModel {
        TrackMetaModel {
            artist: self.artist@,
            track: self.track@,
            album: crate::lrc::view_opt_string(&self.album),
            duration_ms: self.duration_ms,
        }
    }
}

/// Mathematical image of the whole cache.
pub ghost struct CacheModel {
    pub rows: Seq<RowModel>,
    pub mappings: Seq<MapModel>,
    pub next_id: i64,
}

/// Exact match on the unique `(artist, track, album)` key. As in the
/// relational schema, a missing album never matches: such rows are only
/// reachable by provider id or metadata lookup.
pub open spec fn row_key_matches(
    r: RowModel,
    artist: Seq<char>,
    track: Seq<char>,
    album: Option<Seq<char>>,
) -> bool {
    r.artist == artist && r.track == track && match (r.album, album) {
        (Some(a), Some(b)) => a == b,
        _ => false,
    }
}

pub open spec fn find_row_by_key_from(
    rows: Seq<RowModel>,
    artist: Seq<char>,
    track: Seq<char>,
    album: Option<Seq<char>>,
    i: int,
) -> Option<int>
    decreases rows.len() - i,
{
    if i < 0 || i >= rows.len() {
        None
    } else if row_key_matches(rows[i], artist, track, album) {
        Some(i)
    } else {
        find_row_by_key_from(rows, artist, track, album, i + 1)
    }
}

pub open spec fn find_row_by_key(
    rows: Seq<RowModel>,
    artist: Seq<char>,
    track: Seq<char>,
    album: Option<Seq<char>>,
) -> Option<int> {
    find_row_by_key_from(rows, artist, track, album, 0)
}

pub proof fn lemma_find_row_by_key_props(
    rows: Seq<RowModel>,
    artist: Seq<char>,
    track: Seq<char>,
    album: Option<Seq<char>>,
    i: int,
)
    requires
        0 <= i <= rows.len(),
    ensures
        match find_row_by_key_from(rows, artist, track, album, i) {
            Some(j) => i <= j < rows.len() && row_key_matches(rows[j], artist, track, album)
                && forall|k: int|
                i <= k < j ==> !row_key_matches(#[trigger] rows[k], artist, track, album),
            None => forall|k: int|
                i <= k < rows.len() ==> !row_key_matches(#[trigger] rows[k], artist, track, album),
        },
    decreases rows.len() - i,
{
    if i < rows.len() && !row_key_matches(rows[i], artist, track, album) {
        lemma_find_row_by_key_props(rows, artist, track, album, i + 1);
    }
}

pub open spec fn find_row_by_id_from(rows: Seq<RowModel>, id: i64, i: int) -> Option<int>
    decreases rows.len() - i,
{
    if i < 0 || i >= rows.len() {
        None
    } else if rows[i].id == id {
        Some(i)
    } else {
        find_row_by_id_from(rows, id, i + 1)
    }
}

pub open spec fn find_row_by_id(rows: Seq<RowModel>, id: i64) -> Option<int> {
    find_row_by_id_from(rows, id, 0)
}

pub open spec fn find_mapping_from(
    maps: Seq<MapModel>,
    provider: Seq<char>,
    provider_track_id: Seq<char>,
    i: int,
) -> Option<int>
    decreases maps.len() - i,
{
    if i < 0 || i >= maps.len() {
        None
    } else if maps[i].provider == provider && maps[i].provider_track_id == provider_track_id {
        Some(i)
    } else {
        find_mapping_from(maps, provider, provider_track_id, i + 1)
    }
}

pub open spec fn find_mapping(
    maps: Seq<MapModel>,
    provider: Seq<char>,
    provider_track_id: Seq<char>,
) -> Option<int> {
    find_mapping_from(maps, provider, provider_track_id, 0)
}

/// What one store does: upsert the row on the `(artist, track, album)`
/// key (an update replaces provider, provider id, type, content and
/// fetch time, keeping everything else), then upsert the id mapping to
/// point at that row.
pub open spec fn spec_store(
    c: CacheModel,
    source_provider: Seq<char>,
    source_track_id: Seq<char>,
    meta: TrackMetaModel,
    lyrics_provider: Seq<char>,
    lyrics_provider_id: Seq<char>,
    ltype: LyricsType,
    content: Seq<char>,
    now: i64,
) -> (CacheModel, i64) {
    let found = find_row_by_key(c.rows, meta.artist, meta.track, meta.album);
    let id: i64 = match found {
        Some(i) => c.rows[i].id,
        None => c.next_id,
    };
    let rows2 = match found {
        Some(i) => c.rows.update(
            i,
            RowModel {
                provider: lyrics_provider,
                provider_id: lyrics_provider_id,
                lyrics_type: ltype,
                content: content,
                fetched_at: now,
                ..c.rows[i]
            },
        ),
        None => c.rows.push(
            RowModel {
                id: c.next_id,
                artist: meta.artist,
                track: meta.track,
                album: meta.album,
                duration_ms: meta.duration_ms,
                provider: lyrics_provider,
                provider_id: lyrics_provider_id,
                lyrics_type: ltype,
                content: content,
                fetched_at: now,
            },
        ),
    };
    let next2: i64 = match found {
        Some(_) => c.next_id,
        None => (c.next_id + 1) as i64,
    };
    let nm = MapModel {
        provider: source_provider,
        provider_track_id: source_track_id,
        lyrics_id: id,
        created_at: now,
    };
    let maps2 = match find_mapping(c.mappings, source_provider, source_track_id) {
        Some(j) => c.mappings.update(j, nm),
        None => c.mappings.push(nm),
    };
    (CacheModel { rows: rows2, mappings: maps2, next_id: next2 }, id)
}

/// What a lookup by provider track id returns: the row the mapping
/// points at.
pub open spec fn spec_lookup_by_provider_id(
    c: CacheModel,
    provider: Seq<char>,
    provider_track_id: Seq<char>,
) -> Option<RowModel> {
    match find_mapping(c.mappings, provider, provider_track_id) {
        None => None,
        Some(j) => match find_row_by_id(c.rows, c.mappings[j].lyrics_id) {
            None => None,
            Some(i) => Some(c.rows[i]),
        },
    }
}

/// What a metadata lookup must return. With an album: some row matching
/// artist, track and album case-insensitively, or `None` exactly when no
/// row matches. Without: a matching row no other match was fetched after,
/// or `None` exactly when no row matches.
pub open spec fn spec_meta_result(
    c: CacheModel,
    artist: Seq<char>,
    track: Seq<char>,
    album: Option<Seq<char>>,
    r: Option<RowModel>,
) -> bool {
    let la = ascii_lower(artist);
    let lt = ascii_lower(track);
    match album {
        Some(al) => {
            let lal = ascii_lower(al);
            match r {
                Some(row) => exists|i: int|
                    0 <= i < c.rows.len() && c.rows[i] == row && row_meta_album_matches(
                        #[trigger] c.rows[i],
                        la,
                        lt,
                        lal,
                    ),
                None => forall|i: int|
                    0 <= i < c.rows.len() ==> !row_meta_album_matches(
                        #[trigger] c.rows[i],
                        la,
                        lt,
                        lal,
                    ),
            }
        },
        None => match r {
            Some(row) => (exists|i: int|
                0 <= i < c.rows.len() && c.rows[i] == row && row_meta_matches(
                    #[trigger] c.rows[i],
                    la,
                    lt,
                )) && forall|i: int|
                0 <= i < c.rows.len() && row_meta_matches(#[trigger] c.rows[i], la, lt)
                    ==> c.rows[i].fetched_at <= row.fetched_at,
            None => forall|i: int|
                0 <= i < c.rows.len() ==> !row_meta_matches(#[trigger] c.rows[i], la, lt),
        },
    }
}

/// Case-insensitive metadata match (ASCII folding, as the relational
/// store's `LOWER` does).
pub open spec fn row_meta_matches(r: RowModel, la: Seq<char>, lt: Seq<char>) -> bool {
    ascii_lower(r.artist) == la && ascii_lower(r.track) == lt
}

pub open spec fn row_meta_album_matches(
    r: RowModel,
    la: Seq<char>,
    lt: Seq<char>,
    lal: Seq<char>,
) -> bool {
    row_meta_matches(r, la, lt) && match r.album {
        Some(a) => ascii_lower(a) == lal,
        None => false,
    }
}

/// The content a store writes: synced lyrics serialized back to LRC
/// text, plain text as is.
pub open spec fn spec_store_content(lyrics: LyricsResult) -> Seq<char> {
    match lyrics {
        LyricsResult::Synced(f) => spec_serialize(f.metadata@, view_lines(f.lines@)),
        LyricsResult::Unsynced(t) => t@,
        LyricsResult::NotFound => Seq::empty(),
    }
}

pub open spec fn spec_store_type(lyrics: LyricsResult) -> LyricsType {
    match lyrics {
        LyricsResult::Synced(_) => LyricsType::Synced,
        _ => LyricsType::Unsynced,
    }
}

/// The persistent lyrics cache, as a verified table. The surrounding
/// application owns loading it from and writing it back to disk.
pub struct LyricsCache {
    rows: Vec<CachedLyrics>,
    mappings: Vec<IdMapping>,
    next_id: i64,
}

impl View for LyricsCache {
    type V = CacheModel;

    closed spec fn view(&self) -> CacheModel {
        CacheModel {
            rows: self.rows@.map_values(|r: CachedLyrics| r@),
            mappings: self.mappings@.map_values(|m: IdMapping| m@),
            next_id: self.next_id,
        }
    }
}

impl LyricsCache {
    /// An empty cache.
    pub fn new() -> (r: LyricsCache)
        ensures
            r@.rows.len() == 0,
            r@.mappings.len() == 0,
            r@.next_id == 1,
    {
        LyricsCache { rows: Vec::new(), mappings: Vec::new(), next_id: 1 }
    }

    /// How many rows the cache holds.
    pub fn len(&self) -> (r: usize)
        ensures
            r == self@.rows.len(),
    {
        proof {
            assert(self@.rows.len() == self.rows@.len());
        }
        self.rows.len()
    }

    /// Fast lookup by provider track id.
    pub fn get_by_provider_id<'a>(
        &'a self,
        provider: &str,
        provider_track_id: &str,
    ) -> (r: Option<&'a CachedLyrics>)
        ensures
            match r {
                Some(row) => spec_lookup_by_provider_id(self@, provider@, provider_track_id@)
                    == Some(row@),
                None => spec_lookup_by_provider_id(self@, provider@, provider_track_id@) is None,
            },
    {
        let provider_probe: String = provider.to_owned();
        let id_probe: String = provider_track_id.to_owned();
        let ghost maps = self@.mappings;
        let mut j: usize = 0;
        while j < self.mappings.len()
            invariant
                0 <= j <= self.mappings@.len(),
                maps == self@.mappings,
                provider_probe@ == provider@,
                id_probe@ == provider_track_id@,
                find_mapping(maps, provider@, provider_track_id@) == find_mapping_from(
                    maps,
                    provider@,
                    provider_track_id@,
                    j as int,
                ),
            decreases self.mappings@.len() - j,
        {
            proof {
                assert(maps[j as int] == self.mappings@[j as int]@);
            }
            if self.mappings[j].provider == provider_probe && self.mappings[j].provider_track_id
                == id_probe {
                proof {
                    assert(find_mapping_from(maps, provider@, provider_track_id@, j as int)
                        == Some(j as int));
                }
                let target = self.mappings[j].lyrics_id;
                let ghost rows = self@.rows;
                let mut i: usize = 0;
                while i < self.rows.len()
                    invariant
                        0 <= i <= self.rows@.len(),
                        rows == self@.rows,
                        maps == self@.mappings,
                        0 <= j < maps.len(),
                        target == maps[j as int].lyrics_id,
                        find_mapping(maps, provider@, provider_track_id@) == Some(j as int),
                        find_row_by_id(rows, target) == find_row_by_id_from(
                            rows,
                            target,
                            i as int,
                        ),
                    decreases self.rows@.len() - i,
                {
                    proof {
                        assert(rows[i as int] == self.rows@[i as int]@);
                    }
                    if self.rows[i].id == target {
                        proof {
                            assert(find_row_by_id(rows, target) == Some(i as int));
                            assert(spec_lookup_by_provider_id(self@, provider@, provider_track_id@)
                                == Some(rows[i as int]));
                        }
                        return Some(&self.rows[i]);
                    }
                    i += 1;
                }
                return None;
            }
            j += 1;
        }
        None
    }

    /// Fallback lookup by metadata, matching case-insensitively (ASCII).
    /// With an album, the matching row; without, the most recently
    /// fetched among the matches.
    pub fn get_by_metadata<'a>(
        &'a self,
        artist: &str,
        track: &str,
        album: Option<&str>,
    ) -> (r: Option<&'a CachedLyrics>)
        ensures
            spec_meta_result(
                self@,
                artist@,
                track@,
                match album {
                    Some(al) => Some(al@),
                    None => None,
                },
                match r {
                    Some(row) => Some(row@),
                    None => None,
                },
            ),
    {
        let la = lowercase_string(artist);
        let lt = lowercase_string(track);
        match album {
            Some(al) => {
                let lal = lowercase_string(al);
                let mut i: usize = 0;
                while i < self.rows.len()
                    invariant
                        0 <= i <= self.rows@.len(),
                        album == Some(al),
                        la@ == ascii_lower(artist@),
                        lt@ == ascii_lower(track@),
                        lal@ == ascii_lower(al@),
                        forall|k: int|
                            0 <= k < i ==> !row_meta_album_matches(
                                #[trigger] self@.rows[k],
                                la@,
                                lt@,
                                lal@,
                            ),
                    decreases self.rows@.len() - i,
                {
                    proof {
                        assert(self@.rows[i as int] == self.rows@[i as int]@);
                    }
                    let row = &self.rows[i];
                    let row_matches = {
                        let ra = lowercase_string(row.artist.as_str());
                        let rt = lowercase_string(row.track.as_str());
                        if ra == la && rt == lt {
                            match &row.album {
                                Some(a) => {
                                    let raa = lowercase_string(a.as_str());
                                    raa == lal
                                },
                                None => false,
                            }
                        } else {
                            false
                        }
                    };
                    if row_matches {
                        let found = &self.rows[i];
                        proof {
                            let w = i as int;
                            assert(self@.rows[w] == self.rows@[w]@);
                            assert(row_meta_album_matches(self@.rows[w], la@, lt@, lal@));
                            assert(spec_meta_result(
                                self@,
                                artist@,
                                track@,
                                Some(al@),
                                Some(found@),
                            ));
                        }
                        return Some(found);
                    }
                    i += 1;
                }
                None
            },
            None => {
                let mut best: Option<usize> = None;
                let mut i: usize = 0;
                while i < self.rows.len()
                    invariant
                        0 <= i <= self.rows@.len(),
                        album is None,
                        la@ == ascii_lower(artist@),
                        lt@ == ascii_lower(track@),
                        match best {
                            Some(b) => 0 <= b < i && row_meta_matches(self@.rows[b as int], la@, lt@)
                                && forall|k: int|
                                0 <= k < i && row_meta_matches(#[trigger] self@.rows[k], la@, lt@)
                                    ==> self@.rows[k].fetched_at
                                    <= self@.rows[b as int].fetched_at,
                            None => forall|k: int|
                                0 <= k < i ==> !row_meta_matches(#[trigger] self@.rows[k], la@, lt@),
                        },
                    decreases self.rows@.len() - i,
                {
                    proof {
                        assert(self@.rows[i as int] == self.rows@[i as int]@);
                    }
                    let row = &self.rows[i];
                    let ra = lowercase_string(row.artist.as_str());
                    let rt = lowercase_string(row.track.as_str());
                    if ra == la && rt == lt {
                        let take: bool = match best {
                            Some(b) => self.rows[b].fetched_at < self.rows[i].fetched_at,
                            None => true,
                        };
                        if take {
                            best = Some(i);
                        }
                    }
                    i += 1;
                }
                match best {
                    Some(b) => {
                        proof {
                            assert(self@.rows[b as int] == self.rows@[b as int]@);
                        }
                        Some(&self.rows[b])
                    },
                    None => None,
                }
            },
        }
    }

    /// Store lyrics and point the `(provider, provider_track_id)` mapping
    /// at the row. Rejects `NotFound`: negative results are never cached.
    pub fn store(
        &mut self,
        provider: &str,
        provider_track_id: &str,
        lyrics: &LyricsResult,
        metadata: &TrackMetadata,
        lyrics_provider: &str,
        lyrics_provider_id: &str,
        now: i64,
    ) -> (r: Result<i64, CoreError>)
        ensures
            lyrics is NotFound ==> final (self)@ == old(self)@ && r is Err && (r->Err_0 matches
                CoreError::LyricsNotFound { track, artist } && track@ == metadata.track@ && artist@
                == metadata.artist@),
            !(lyrics is NotFound) && find_row_by_key(
                old(self)@.rows,
                metadata.artist@,
                metadata.track@,
                crate::lrc::view_opt_string(&metadata.album),
            ) is None && old(self)@.next_id == i64::MAX ==> final (self)@ == old(self)@ && r is Err
                && r->Err_0 is CacheError,
            !(lyrics is NotFound) && !(find_row_by_key(
                old(self)@.rows,
                metadata.artist@,
                metadata.track@,
                crate::lrc::view_opt_string(&metadata.album),
            ) is None && old(self)@.next_id == i64::MAX) ==> ({
                let sr = spec_store(
                    old(self)@,
                    provider@,
                    provider_track_id@,
                    metadata@,
                    lyrics_provider@,
                    lyrics_provider_id@,
                    spec_store_type(*lyrics),
                    spec_store_content(*lyrics),
                    now,
                );
                r is Ok && final (self)@ == sr.0 && r->Ok_0 == sr.1
            }),
    {
        let (ltype, content): (LyricsType, String) = match lyrics {
            LyricsResult::Synced(f) => (LyricsType::Synced, serialize_lrc(f)),
            LyricsResult::Unsynced(t) => (LyricsType::Unsynced, t.clone()),
            LyricsResult::NotFound => {
                return Err(
                    CoreError::LyricsNotFound {
                        track: metadata.track.clone(),
                        artist: metadata.artist.clone(),
                    },
                );
            },
        };
        let ghost c0 = self@;
        proof {
            assert(content@ == spec_store_content(*lyrics));
            assert(ltype == spec_store_type(*lyrics));
        }
        let ghost sr = spec_store(
            c0,
            provider@,
            provider_track_id@,
            metadata@,
            lyrics_provider@,
            lyrics_provider_id@,
            spec_store_type(*lyrics),
            spec_store_content(*lyrics),
            now,
        );
        let found = find_key_index(&self.rows, metadata);
        let sid: i64;
        match found {
            Some(idx) => {
                proof {
                    assert(find_row_by_key(
                        c0.rows,
                        metadata.artist@,
                        metadata.track@,
                        crate::lrc::view_opt_string(&metadata.album),
                    ) == Some(idx as int));
                }
                sid = self.rows[idx].id;
                proof {
                    assert(c0.rows[idx as int] == self.rows@[idx as int]@);
                    assert(sid == sr.1);
                }
                let updated = CachedLyrics {
                    id: self.rows[idx].id,
                    artist: self.rows[idx].artist.clone(),
                    track: self.rows[idx].track.clone(),
                    album: clone_opt(&self.rows[idx].album),
                    duration_ms: self.rows[idx].duration_ms,
                    provider: lyrics_provider.to_owned(),
                    provider_id: lyrics_provider_id.to_owned(),
                    lyrics_type: ltype,
                    content,
                    fetched_at: now,
                };
                let ghost rows_before = self.rows@;
                self.rows.set(idx, updated);
                proof {
                    let target = c0.rows.update(
                        idx as int,
                        RowModel {
                            provider: lyrics_provider@,
                            provider_id: lyrics_provider_id@,
                            lyrics_type: ltype,
                            content: spec_store_content(*lyrics),
                            fetched_at: now,
                            ..c0.rows[idx as int]
                        },
                    );
                    assert forall|k: int| 0 <= k < self.rows@.len() implies self.rows@.map_values(
                        |r: CachedLyrics| r@,
                    )[k] == #[trigger] target[k] by {
                        assert(self.rows@.map_values(|r: CachedLyrics| r@)[k] == self.rows@[k]@);
                        if k != idx {
                            assert(self.rows@[k] == rows_before[k]);
                            assert(rows_before.map_values(|r: CachedLyrics| r@)[k]
                                == rows_before[k]@);
                        }
                    }
                    assert(self.rows@.map_values(|r: CachedLyrics| r@) =~= target);
                }
            },
            None => {
                if self.next_id == i64::MAX {
                    let msg: &str = "cache row ids exhausted";
                    return Err(CoreError::CacheError { message: msg.to_owned() });
                }
                sid = self.next_id;
                proof {
                    assert(sid == sr.1);
                }
                let fresh = CachedLyrics {
                    id: self.next_id,
                    artist: metadata.artist.clone(),
                    track: metadata.track.clone(),
                    album: clone_opt(&metadata.album),
                    duration_ms: metadata.duration_ms,
                    provider: lyrics_provider.to_owned(),
                    provider_id: lyrics_provider_id.to_owned(),
                    lyrics_type: ltype,
                    content,
                    fetched_at: now,
                };
                let ghost rows_before = self.rows@;
                self.rows.push(fresh);
                self.next_id = self.next_id + 1;
                proof {
                    let target = c0.rows.push(
                        RowModel {
                            id: c0.next_id,
                            artist: metadata.artist@,
                            track: metadata.track@,
                            album: crate::lrc::view_opt_string(&metadata.album),
                            duration_ms: metadata.duration_ms,
                            provider: lyrics_provider@,
                            provider_id: lyrics_provider_id@,
                            lyrics_type: ltype,
                            content: spec_store_content(*lyrics),
                            fetched_at: now,
                        },
                    );
                    assert forall|k: int| 0 <= k < self.rows@.len() implies self.rows@.map_values(
                        |r: CachedLyrics| r@,
                    )[k] == #[trigger] target[k] by {
                        assert(self.rows@.map_values(|r: CachedLyrics| r@)[k] == self.rows@[k]@);
                        if k < rows_before.len() {
                            assert(self.rows@[k] == rows_before[k]);
                            assert(rows_before.map_values(|r: CachedLyrics| r@)[k]
                                == rows_before[k]@);
                        }
                    }
                    assert(self.rows@.map_values(|r: CachedLyrics| r@) =~= target);
                }
            },
        }
        // Upsert the provider-id mapping so future lookups hit directly.
        let nm = IdMapping {
            provider: provider.to_owned(),
            provider_track_id: provider_track_id.to_owned(),
            lyrics_id: sid,
            created_at: now,
        };
        let ghost maps0 = c0.mappings;
        let mut j: usize = 0;
        while j < self.mappings.len()
            invariant
                0 <= j <= self.mappings@.len(),
                maps0 == self.mappings@.map_values(|m: IdMapping| m@),
                maps0 == c0.mappings,
                c0 == old(self)@,
                sr == spec_store(
                    c0,
                    provider@,
                    provider_track_id@,
                    metadata@,
                    lyrics_provider@,
                    lyrics_provider_id@,
                    spec_store_type(*lyrics),
                    spec_store_content(*lyrics),
                    now,
                ),
                !(lyrics is NotFound),
                !(find_row_by_key(
                    c0.rows,
                    metadata.artist@,
                    metadata.track@,
                    crate::lrc::view_opt_string(&metadata.album),
                ) is None && c0.next_id == i64::MAX),
                self.rows@.map_values(|r: CachedLyrics| r@) == sr.0.rows,
                self.next_id == sr.0.next_id,
                sid == sr.1,
                nm.provider@ == provider@,
                nm.provider_track_id@ == provider_track_id@,
                nm.lyrics_id == sid,
                nm.created_at == now,
                find_mapping(maps0, provider@, provider_track_id@) == find_mapping_from(
                    maps0,
                    provider@,
                    provider_track_id@,
                    j as int,
                ),
            decreases self.mappings@.len() - j,
        {
            proof {
                assert(maps0[j as int] == self.mappings@[j as int]@);
            }
            if self.mappings[j].provider == nm.provider && self.mappings[j].provider_track_id
                == nm.provider_track_id {
                proof {
                    assert(find_mapping_from(maps0, provider@, provider_track_id@, j as int)
                        == Some(j as int));
                    assert(find_mapping(maps0, provider@, provider_track_id@) == Some(j as int));
                }
                let ghost maps_before = self.mappings@;
                self.mappings.set(j, nm);
                proof {
                    let target = maps0.update(
                        j as int,
                        MapModel {
                            provider: provider@,
                            provider_track_id: provider_track_id@,
                            lyrics_id: sid,
                            created_at: now,
                        },
                    );
                    assert forall|k: int| 0 <= k < self.mappings@.len() implies self.mappings@.map_values(
                        |m: IdMapping| m@,
                    )[k] == #[trigger] target[k] by {
                        assert(self.mappings@.map_values(|m: IdMapping| m@)[k]
                            == self.mappings@[k]@);
                        if k != j {
                            assert(self.mappings@[k] == maps_before[k]);
                            assert(maps_before.map_values(|m: IdMapping| m@)[k]
                                == maps_before[k]@);
                        }
                    }
                    assert(self.mappings@.map_values(|m: IdMapping| m@) =~= target);
                    assert(maps0 == c0.mappings);
                    assert(sid == sr.1);
                    assert(sr.0.mappings == c0.mappings.update(
                        j as int,
                        MapModel {
                            provider: provider@,
                            provider_track_id: provider_track_id@,
                            lyrics_id: sr.1,
                            created_at: now,
                        },
                    ));
                    assert(target == sr.0.mappings);
                    assert(self@.rows == sr.0.rows);
                    assert(self@.mappings == sr.0.mappings);
                    assert(self@.next_id == sr.0.next_id);
                }
                return Ok(sid);
            }
            j += 1;
        }
        let ghost maps_before = self.mappings@;
        self.mappings.push(nm);
        proof {
            let target = maps0.push(
                MapModel {
                    provider: provider@,
                    provider_track_id: provider_track_id@,
                    lyrics_id: sid,
                    created_at: now,
                },
            );
            assert forall|k: int| 0 <= k < self.mappings@.len() implies self.mappings@.map_values(
                |m: IdMapping| m@,
            )[k] == #[trigger] target[k] by {
                assert(self.mappings@.map_values(|m: IdMapping| m@)[k] == self.mappings@[k]@);
                if k < maps_before.len() {
                    assert(self.mappings@[k] == maps_before[k]);
                    assert(maps_before.map_values(|m: IdMapping| m@)[k] == maps_before[k]@);
                }
            }
            assert(self.mappings@.map_values(|m: IdMapping| m@) =~= target);
            assert(self@.rows == sr.0.rows);
            assert(self@.mappings == sr.0.mappings);
            assert(self@.next_id == sr.0.next_id);
        }
        Ok(sid)
    }

    /// Delete rows older than the TTL, and the mappings that pointed at
    /// them. Returns how many rows were deleted.
    pub fn cleanup(&mut self, ttl_days: u32, now: i64) -> (r: usize)
        ensures
            ({
                let cutoff = spec_cleanup_cutoff(ttl_days, now);
                &&& final (self)@.rows == keep_rows(old(self)@.rows, cutoff)
                &&& final (self)@.mappings == keep_maps(
                    old(self)@.mappings,
                    old(self)@.rows,
                    cutoff,
                )
                &&& final (self)@.next_id == old(self)@.next_id
                &&& r == old(self)@.rows.len() - keep_rows(old(self)@.rows, cutoff).len()
            }),
    {
        let sub: i64 = (ttl_days as i64) * 86400;
        let cutoff: i64 = if now >= i64::MIN + sub {
            now - sub
        } else {
            i64::MIN
        };
        let ghost c0 = self@;
        let ghost rows0 = c0.rows;
        let mut kept: Vec<CachedLyrics> = Vec::new();
        let mut dropped: usize = 0;
        let mut i: usize = 0;
        proof {
            assert(keep_rows(rows0.subrange(0, 0), cutoff) =~= Seq::<RowModel>::empty());
            assert(kept@.map_values(|r: CachedLyrics| r@) =~= Seq::<RowModel>::empty());
        }
        while i < self.rows.len()
            invariant
                0 <= i <= self.rows@.len(),
                self@ == c0,
                rows0 == c0.rows,
                kept@.len() + dropped == i,
                kept@.map_values(|r: CachedLyrics| r@) == keep_rows(
                    rows0.subrange(0, i as int),
                    cutoff,
                ),
            decreases self.rows@.len() - i,
        {
            proof {
                assert(rows0[i as int] == self.rows@[i as int]@);
                let pre = rows0.subrange(0, i as int);
                let cur = rows0.subrange(0, i + 1 as int);
                assert(cur.drop_last() =~= pre);
                assert(cur.last() == rows0[i as int]);
            }
            if self.rows[i].fetched_at >= cutoff {
                let ghost kept_before = kept@;
                let row = clone_row(&self.rows[i]);
                kept.push(row);
                proof {
                    assert forall|k: int| 0 <= k < kept@.len() implies kept@.map_values(
                        |r: CachedLyrics| r@,
                    )[k] == #[trigger] keep_rows(rows0.subrange(0, i + 1 as int), cutoff)[k] by {
                        assert(kept@.map_values(|r: CachedLyrics| r@)[k] == kept@[k]@);
                        if k < kept_before.len() {
                            assert(kept@[k] == kept_before[k]);
                            assert(kept_before.map_values(|r: CachedLyrics| r@)[k]
                                == kept_before[k]@);
                        }
                    }
                    assert(kept@.map_values(|r: CachedLyrics| r@) =~= keep_rows(
                        rows0.subrange(0, i + 1 as int),
                        cutoff,
                    ));
                }
            } else {
                dropped += 1;
                proof {
                    assert(kept@.map_values(|r: CachedLyrics| r@) =~= keep_rows(
                        rows0.subrange(0, i + 1 as int),
                        cutoff,
                    ));
                }
            }
            i += 1;
        }
        proof {
            assert(rows0.subrange(0, rows0.len() as int) =~= rows0);
            assert(keep_rows(rows0, cutoff).len() == kept@.map_values(
                |r: CachedLyrics| r@,
            ).len());
        }
        let deleted = dropped;
        // Cascade: drop mappings whose row is about to be deleted.
        let mut kept_maps: Vec<IdMapping> = Vec::new();
        let ghost maps0 = c0.mappings;
        let mut j: usize = 0;
        proof {
            assert(keep_maps(maps0.subrange(0, 0), rows0, cutoff) =~= Seq::<MapModel>::empty());
            assert(kept_maps@.map_values(|m: IdMapping| m@) =~= Seq::<MapModel>::empty());
        }
        while j < self.mappings.len()
            invariant
                0 <= j <= self.mappings@.len(),
                self@ == c0,
                rows0 == c0.rows,
                maps0 == c0.mappings,
                kept_maps@.map_values(|m: IdMapping| m@) == keep_maps(
                    maps0.subrange(0, j as int),
                    rows0,
                    cutoff,
                ),
            decreases self.mappings@.len() - j,
        {
            proof {
                assert(maps0[j as int] == self.mappings@[j as int]@);
                let pre = maps0.subrange(0, j as int);
                let cur = maps0.subrange(0, j + 1 as int);
                assert(cur.drop_last() =~= pre);
                assert(cur.last() == maps0[j as int]);
            }
            // The mapping survives unless its row existed and fell to the
            // cutoff.
            let target = self.mappings[j].lyrics_id;
            let keep = mapping_survives(&self.rows, target, cutoff);
            if keep {
                let ghost kept_before = kept_maps@;
                let m = IdMapping {
                    provider: self.mappings[j].provider.clone(),
                    provider_track_id: self.mappings[j].provider_track_id.clone(),
                    lyrics_id: self.mappings[j].lyrics_id,
                    created_at: self.mappings[j].created_at,
                };
                kept_maps.push(m);
                proof {
                    assert forall|k: int| 0 <= k < kept_maps@.len() implies kept_maps@.map_values(
                        |m: IdMapping| m@,
                    )[k] == #[trigger] keep_maps(maps0.subrange(0, j + 1 as int), rows0, cutoff)[k] by {
                        assert(kept_maps@.map_values(|m: IdMapping| m@)[k] == kept_maps@[k]@);
                        if k < kept_before.len() {
                            assert(kept_maps@[k] == kept_before[k]);
                            assert(kept_before.map_values(|m: IdMapping| m@)[k]
                                == kept_before[k]@);
                        }
                    }
                    assert(kept_maps@.map_values(|m: IdMapping| m@) =~= keep_maps(
                        maps0.subrange(0, j + 1 as int),
                        rows0,
                        cutoff,
                    ));
                }
            } else {
                proof {
                    assert(kept_maps@.map_values(|m: IdMapping| m@) =~= keep_maps(
                        maps0.subrange(0, j + 1 as int),
                        rows0,
                        cutoff,
                    ));
                }
            }
            j += 1;
        }
        proof {
            assert(maps0.subrange(0, maps0.len() as int) =~= maps0);
        }
        self.rows = kept;
        self.mappings = kept_maps;
        deleted
    }
}

/// Whether a mapping with row id `target` survives a cleanup with
/// `cutoff`: yes when no row carries the id, or the first row that does
/// was fetched at or after the cutoff.
fn mapping_survives(rows: &Vec<CachedLyrics>, target: i64, cutoff: i64) -> (r: bool)
    ensures
        r == match find_row_by_id(rows@.map_values(|x: CachedLyrics| x@), target) {
            Some(x) => rows@.map_values(|x: CachedLyrics| x@)[x].fetched_at >= cutoff,
            None => true,
        },
{
    let ghost rv = rows@.map_values(|x: CachedLyrics| x@);
    let mut i: usize = 0;
    while i < rows.len()
        invariant
            0 <= i <= rows@.len(),
            rv == rows@.map_values(|x: CachedLyrics| x@),
            find_row_by_id(rv, target) == find_row_by_id_from(rv, target, i as int),
        decreases rows@.len() - i,
    {
        proof {
            assert(rv[i as int] == rows@[i as int]@);
        }
        if rows[i].id == target {
            return rows[i].fetched_at >= cutoff;
        }
        i += 1;
    }
    true
}

/// Find the row with this exact `(artist, track, album)` key.
fn find_key_index(rows: &Vec<CachedLyrics>, metadata: &TrackMetadata) -> (r: Option<usize>)
    ensures
        ({
            let rv = rows@.map_values(|x: CachedLyrics| x@);
            let album = crate::lrc::view_opt_string(&metadata.album);
            match r {
                Some(i) => i < rows@.len() && find_row_by_key(
                    rv,
                    metadata.artist@,
                    metadata.track@,
                    album,
                ) == Some(i as int),
                None => find_row_by_key(rv, metadata.artist@, metadata.track@, album) is None,
            }
        }),
{
    let ghost rv = rows@.map_values(|x: CachedLyrics| x@);
    let ghost album = crate::lrc::view_opt_string(&metadata.album);
    let mut i: usize = 0;
    while i < rows.len()
        invariant
            0 <= i <= rows@.len(),
            rv == rows@.map_values(|x: CachedLyrics| x@),
            album == crate::lrc::view_opt_string(&metadata.album),
            find_row_by_key(rv, metadata.artist@, metadata.track@, album)
                == find_row_by_key_from(rv, metadata.artist@, metadata.track@, album, i as int),
        decreases rows@.len() - i,
    {
        proof {
            assert(rv[i as int] == rows@[i as int]@);
        }
        let row = &rows[i];
        let key_match: bool = if row.artist == metadata.artist && row.track == metadata.track {
            match (&row.album, &metadata.album) {
                (Some(a), Some(b)) => string_eq(a.as_str(), b.as_str()),
                _ => false,
            }
        } else {
            false
        };
        proof {
            assert(key_match == row_key_matches(
                rv[i as int],
                metadata.artist@,
                metadata.track@,
                album,
            ));
        }
        if key_match {
            return Some(i);
        }
        i += 1;
    }
    None
}

fn clone_opt(s: &Option<String>) -> (r: Option<String>)
    ensures
        crate::lrc::view_opt_string(&r) == crate::lrc::view_opt_string(s),
{
    match s {
        Some(x) => Some(x.clone()),
        None => None,
    }
}

fn clone_row(r: &CachedLyrics) -> (out: CachedLyrics)
    ensures
        out@ == r@,
{
    CachedLyrics {
        id: r.id,
        artist: r.artist.clone(),
        track: r.track.clone(),
        album: clone_opt(&r.album),
        duration_ms: r.duration_ms,
        provider: r.provider.clone(),
        provider_id: r.provider_id.clone(),
        lyrics_type: r.lyrics_type,
        content: r.content.clone(),
        fetched_at: r.fetched_at,
    }
}

/// The cutoff time of a cleanup.
pub open spec fn spec_cleanup_cutoff(ttl_days: u32, now: i64) -> i64 {
    let sub = (ttl_days as int) * 86400;
    if now - sub >= i64::MIN {
        (now - sub) as i64
    } else {
        i64::MIN
    }
}

/// Rows that survive a cleanup: those fetched at or after the cutoff.
pub open spec fn keep_rows(rows: Seq<RowModel>, cutoff: i64) -> Seq<RowModel>
    decreases rows.len(),
{
    if rows.len() == 0 {
        Seq::empty()
    } else {
        keep_rows(rows.drop_last(), cutoff) + (if rows.last().fetched_at >= cutoff {
            seq![rows.last()]
        } else {
            Seq::empty()
        })
    }
}

/// Mappings that survive a cleanup: a mapping dies only with the row it
/// points at.
pub open spec fn keep_maps(maps: Seq<MapModel>, rows: Seq<RowModel>, cutoff: i64) -> Seq<MapModel>
    decreases maps.len(),
{
    if maps.len() == 0 {
        Seq::empty()
    } else {
        let kept_last = match find_row_by_id(rows, maps.last().lyrics_id) {
            Some(i) => rows[i].fetched_at >= cutoff,
            None => true,
        };
        keep_maps(maps.drop_last(), rows, cutoff) + (if kept_last {
            seq![maps.last()]
        } else {
            Seq::empty()
        })
    }
}

/// A well-formed cache: row ids unique and below the id counter, row
/// keys unique, mapping keys unique. `new` builds one and `store` keeps
/// it so.
pub open spec fn wf_cache(c: CacheModel) -> bool {
    &&& forall|i: int, j: int|
        0 <= i < j < c.rows.len() ==> (#[trigger] c.rows[i]).id != (#[trigger] c.rows[j]).id
    &&& forall|i: int| 0 <= i < c.rows.len() ==> (#[trigger] c.rows[i]).id < c.next_id
    &&& forall|i: int, j: int|
        0 <= i < j < c.rows.len() ==> !row_key_matches(
            #[trigger] c.rows[j],
            (#[trigger] c.rows[i]).artist,
            c.rows[i].track,
            c.rows[i].album,
        )
    &&& forall|i: int, j: int|
        0 <= i < j < c.mappings.len() ==> !((#[trigger] c.mappings[i]).provider == (
        #[trigger] c.mappings[j]).provider && c.mappings[i].provider_track_id
            == c.mappings[j].provider_track_id)
}

proof fn lemma_find_row_by_key_at(
    rows: Seq<RowModel>,
    artist: Seq<char>,
    track: Seq<char>,
    album: Option<Seq<char>>,
    i: int,
    j: int,
)
    requires
        0 <= i <= j < rows.len(),
        row_key_matches(rows[j], artist, track, album),
        forall|k: int| i <= k < j ==> !row_key_matches(#[trigger] rows[k], artist, track, album),
    ensures
        find_row_by_key_from(rows, artist, track, album, i) == Some(j),
    decreases j - i,
{
    if i < j {
        lemma_find_row_by_key_at(rows, artist, track, album, i + 1, j);
    }
}

proof fn lemma_find_row_by_id_at(rows: Seq<RowModel>, id: i64, i: int, j: int)
    requires
        0 <= i <= j < rows.len(),
        rows[j].id == id,
        forall|k: int| i <= k < j ==> (#[trigger] rows[k]).id != id,
    ensures
        find_row_by_id_from(rows, id, i) == Some(j),
    decreases j - i,
{
    if i < j {
        lemma_find_row_by_id_at(rows, id, i + 1, j);
    }
}

proof fn lemma_find_mapping_at(
    maps: Seq<MapModel>,
    provider: Seq<char>,
    ptid: Seq<char>,
    i: int,
    j: int,
)
    requires
        0 <= i <= j < maps.len(),
        maps[j].provider == provider && maps[j].provider_track_id == ptid,
        forall|k: int|
            i <= k < j ==> !((#[trigger] maps[k]).provider == provider && maps[k].provider_track_id
                == ptid),
    ensures
        find_mapping_from(maps, provider, ptid, i) == Some(j),
    decreases j - i,
{
    if i < j {
        lemma_find_mapping_at(maps, provider, ptid, i + 1, j);
    }
}

pub proof fn lemma_find_mapping_props(
    maps: Seq<MapModel>,
    provider: Seq<char>,
    ptid: Seq<char>,
    i: int,
)
    requires
        0 <= i <= maps.len(),
    ensures
        match find_mapping_from(maps, provider, ptid, i) {
            Some(j) => i <= j < maps.len() && maps[j].provider == provider
                && maps[j].provider_track_id == ptid && forall|k: int|
                i <= k < j ==> !((#[trigger] maps[k]).provider == provider
                    && maps[k].provider_track_id == ptid),
            None => forall|k: int|
                i <= k < maps.len() ==> !((#[trigger] maps[k]).provider == provider
                    && maps[k].provider_track_id == ptid),
        },
    decreases maps.len() - i,
{
    if i < maps.len() && !(maps[i].provider == provider && maps[i].provider_track_id == ptid) {
        lemma_find_mapping_props(maps, provider, ptid, i + 1);
    }
}

/// Cache idempotence: storing under the same `(artist, track, album)` key
/// twice, with different content, leaves a single row. The second store
/// adds no row, returns the same id, and a lookup by the provider track
/// id afterwards yields the newer content.
pub proof fn lemma_store_same_key_updates(
    c: CacheModel,
    provider: Seq<char>,
    ptid: Seq<char>,
    meta: TrackMetaModel,
    lp1: Seq<char>,
    lpid1: Seq<char>,
    t1: LyricsType,
    content1: Seq<char>,
    now1: i64,
    lp2: Seq<char>,
    lpid2: Seq<char>,
    t2: LyricsType,
    content2: Seq<char>,
    now2: i64,
)
    requires
        wf_cache(c),
        meta.album is Some,
        c.next_id < i64::MAX,
    ensures
        ({
            let first = spec_store(c, provider, ptid, meta, lp1, lpid1, t1, content1, now1);
            let second = spec_store(
                first.0,
                provider,
                ptid,
                meta,
                lp2,
                lpid2,
                t2,
                content2,
                now2,
            );
            &&& second.0.rows.len() == first.0.rows.len()
            &&& second.1 == first.1
            &&& match spec_lookup_by_provider_id(second.0, provider, ptid) {
                Some(row) => row.content == content2 && row.lyrics_type == t2 && row.id
                    == first.1,
                None => false,
            }
        }),
{
    let first = spec_store(c, provider, ptid, meta, lp1, lpid1, t1, content1, now1);
    let c1 = first.0;
    let id1 = first.1;
    lemma_find_row_by_key_props(c.rows, meta.artist, meta.track, meta.album, 0);
    // Where the row stands in `c1`, and that its key still matches.
    let i1: int = match find_row_by_key(c.rows, meta.artist, meta.track, meta.album) {
        Some(i) => i,
        None => c.rows.len() as int,
    };
    assert(0 <= i1 < c1.rows.len());
    assert(c1.rows[i1].id == id1);
    assert(row_key_matches(c1.rows[i1], meta.artist, meta.track, meta.album));
    assert(forall|k: int|
        0 <= k < i1 ==> !row_key_matches(#[trigger] c1.rows[k], meta.artist, meta.track, meta.album));
    // Row ids below the counter stay unique in `c1`.
    assert(forall|k: int| 0 <= k < i1 ==> c1.rows[k] == c.rows[k]);
    assert(forall|k: int| 0 <= k < c1.rows.len() && k != i1 ==> c1.rows[k] == c.rows[k]);
    assert(forall|k: int|
        0 <= k < c1.rows.len() && k != i1 ==> (#[trigger] c1.rows[k]).id != id1);
    // The second store finds the same row.
    lemma_find_row_by_key_at(c1.rows, meta.artist, meta.track, meta.album, 0, i1);
    let second = spec_store(c1, provider, ptid, meta, lp2, lpid2, t2, content2, now2);
    let c2 = second.0;
    assert(second.1 == id1);
    assert(c2.rows.len() == c1.rows.len());
    assert(c2.rows[i1].content == content2);
    assert(c2.rows[i1].lyrics_type == t2);
    assert(c2.rows[i1].id == id1);
    assert(forall|k: int| 0 <= k < c2.rows.len() && k != i1 ==> c2.rows[k] == c1.rows[k]);
    // Where the mapping stands in `c1`.
    lemma_find_mapping_props(c.mappings, provider, ptid, 0);
    let j1: int = match find_mapping(c.mappings, provider, ptid) {
        Some(j) => j,
        None => c.mappings.len() as int,
    };
    assert(0 <= j1 < c1.mappings.len());
    assert(c1.mappings[j1].provider == provider && c1.mappings[j1].provider_track_id == ptid);
    assert(forall|k: int|
        0 <= k < j1 ==> !((#[trigger] c1.mappings[k]).provider == provider
            && c1.mappings[k].provider_track_id == ptid));
    lemma_find_mapping_at(c1.mappings, provider, ptid, 0, j1);
    assert(find_mapping(c1.mappings, provider, ptid) == Some(j1));
    assert(c2.mappings[j1].provider == provider && c2.mappings[j1].provider_track_id == ptid);
    assert(c2.mappings[j1].lyrics_id == id1);
    assert(forall|k: int| 0 <= k < j1 ==> c2.mappings[k] == c1.mappings[k]);
    lemma_find_mapping_at(c2.mappings, provider, ptid, 0, j1);
    assert(find_mapping(c2.mappings, provider, ptid) == Some(j1));
    // The lookup walks mapping, then row id, and lands on the fresh row.
    assert(forall|k: int|
        0 <= k < i1 ==> (#[trigger] c2.rows[k]).id != id1);
    lemma_find_row_by_id_at(c2.rows, id1, 0, i1);
    assert(find_row_by_id(c2.rows, id1) == Some(i1));
}

} // verus!
