//! Display-side timing: lyrics precomputed into per-line windows, and the
//! local playback timer that interpolates between polls and resyncs only
//! when the drift exceeds a threshold.
//!
//! All times are milliseconds; "now" readings come from the caller's
//! monotonic clock.

use vstd::prelude::*;

use crate::lrc::{view_lines, LineModel, LrcFile};
use crate::text::{spec_trim, string_from_chars};

verus! {

/// Sentinel index for the instrumental intro before the first line.
pub const INTRO_LINE_INDEX: i32 = -1;

/// The note shown for instrumental stretches.
pub open spec fn music_note() -> Seq<char> {
    seq!['\u{266a}']
}

/// One precomputed line: text, start, and the time until the next line.
#[derive(Clone, Debug)]
pub struct TimedLine {
    pub text: String,
    pub start_time_ms: u64,
    pub duration_ms: u64,
}

/// Mathematical image of a precomputed line.
pub ghost struct TimedLineModel {
    pub text: Seq<char>,
    pub start_time_ms: u64,
    pub duration_ms: u64,
}

impl View for TimedLine {
    type V = TimedLineModel;

    open spec fn view(&self) -> TimedLineModel {
        TimedLineModel {
            text: self.text@,
            start_time_ms: self.start_time_ms,
            duration_ms: self.duration_ms,
        }
    }
}

/// What one parsed line becomes: blank text turns into the music note,
/// the duration runs to the next line's start, and the last line gets a
/// fixed five seconds.
pub open spec fn spec_timed_line(ls: Seq<LineModel>, i: int) -> TimedLineModel
    recommends
        0 <= i < ls.len(),
{
    TimedLineModel {
        text: if spec_trim(ls[i].text).len() == 0 {
            music_note()
        } else {
            ls[i].text
        },
        start_time_ms: ls[i].start_time,
        duration_ms: if i + 1 < ls.len() {
            if ls[i + 1].start_time >= ls[i].start_time {
                (ls[i + 1].start_time - ls[i].start_time) as u64
            } else {
                0u64
            }
        } else {
            5000u64
        },
    }
}

/// Precomputed lyrics: every line with its timing, plus the length of the
/// instrumental intro.
#[derive(Clone, Debug)]
pub struct PrecomputedLyrics {
    pub lines: Vec<TimedLine>,
    /// Time before the first line starts; zero when lyrics start at once.
    pub intro_duration_ms: u64,
}

pub open spec fn view_timed(ls: Seq<TimedLine>) -> Seq<TimedLineModel> {
    ls.map_values(|l: TimedLine| l@)
}

impl PrecomputedLyrics {
    /// Precompute the timing of every line of a parsed file.
    pub fn from_lrc(lrc: &LrcFile) -> (r: PrecomputedLyrics)
        ensures
            ({
                let ls = view_lines(lrc.lines@);
                &&& view_timed(r.lines@).len() == ls.len()
                &&& forall|i: int|
                    0 <= i < ls.len() ==> #[trigger] view_timed(r.lines@)[i] == spec_timed_line(
                        ls,
                        i,
                    )
                &&& r.intro_duration_ms == if ls.len() > 0 {
                    ls[0].start_time as int
                } else {
                    0
                }
            }),
    {
        let ghost ls = view_lines(lrc.lines@);
        let mut lines: Vec<TimedLine> = Vec::new();
        let mut i: usize = 0;
        while i < lrc.lines.len()
            invariant
                0 <= i <= lrc.lines@.len(),
                ls == view_lines(lrc.lines@),
                lines@.len() == i,
                forall|k: int|
                    0 <= k < i ==> (#[trigger] lines@[k])@ == spec_timed_line(ls, k),
            decreases lrc.lines@.len() - i,
        {
            proof {
                assert(ls[i as int] == lrc.lines@[i as int]@);
                if i + 1 < lrc.lines@.len() {
                    assert(ls[i + 1] == lrc.lines@[i + 1]@);
                }
            }
            let start = lrc.lines[i].start_time;
            let duration: u64 = if i + 1 < lrc.lines.len() {
                let next = lrc.lines[i + 1].start_time;
                if next >= start {
                    next - start
                } else {
                    0
                }
            } else {
                5000
            };
            let cs = crate::text::chars_of(lrc.lines[i].text.as_str());
            let trimmed = crate::text::trim_chars(&cs);
            let text: String = if trimmed.len() == 0 {
                let mut note: Vec<char> = Vec::new();
                note.push('\u{266a}');
                proof {
                    assert(note@ =~= music_note());
                }
                string_from_chars(&note)
            } else {
                lrc.lines[i].text.clone()
            };
            let l = TimedLine { text, start_time_ms: start, duration_ms: duration };
            lines.push(l);
            i += 1;
        }
        let intro: u64 = if lines.len() > 0 {
            proof {
                assert(lines@[0]@ == spec_timed_line(ls, 0));
            }
            lines[0].start_time_ms
        } else {
            0
        };
        proof {
            assert forall|k: int| 0 <= k < view_timed(lines@).len() implies #[trigger] view_timed(
                lines@,
            )[k] == spec_timed_line(ls, k) by {
                assert(view_timed(lines@)[k] == lines@[k]@);
            }
        }
        PrecomputedLyrics { lines, intro_duration_ms: intro }
    }

    /// The active line index at `position_ms`, or the intro sentinel when
    /// no line has started.
    pub fn line_index_at(&self, position_ms: u64) -> (r: i32)
        requires
            self.lines@.len() < i32::MAX,
        ensures
            ({
                let tl = view_timed(self.lines@);
                match spec_timed_index(tl, position_ms) {
                    Some(i) => r == i,
                    None => r == INTRO_LINE_INDEX,
                }
            }),
    {
        let ghost tl = view_timed(self.lines@);
        proof {
            assert(tl.subrange(0, tl.len() as int) =~= tl);
        }
        let mut k: usize = self.lines.len();
        while k > 0
            invariant
                0 <= k <= self.lines@.len() < i32::MAX,
                tl == view_timed(self.lines@),
                spec_timed_index(tl, position_ms) == spec_timed_index(
                    tl.subrange(0, k as int),
                    position_ms,
                ),
            decreases k,
        {
            proof {
                let pre = tl.subrange(0, k as int);
                assert(tl[k - 1] == self.lines@[k - 1]@);
                assert(pre.last() == tl[k - 1]);
                assert(pre.drop_last() =~= tl.subrange(0, k - 1));
            }
            if self.lines[k - 1].start_time_ms <= position_ms {
                return (k - 1) as i32;
            }
            k -= 1;
        }
        INTRO_LINE_INDEX
    }

    /// The virtual intro line: the music note, running to the first real
    /// line.
    pub fn intro_line(&self) -> (r: TimedLine)
        ensures
            r@.text == music_note(),
            r.start_time_ms == 0,
            r.duration_ms == self.intro_duration_ms,
    {
        let mut note: Vec<char> = Vec::new();
        note.push('\u{266a}');
        proof {
            assert(note@ =~= music_note());
        }
        TimedLine {
            text: string_from_chars(&note),
            start_time_ms: 0,
            duration_ms: self.intro_duration_ms,
        }
    }

    /// Whether the track opens with an instrumental stretch.
    pub fn has_intro(&self) -> (r: bool)
        ensures
            r == (self.intro_duration_ms > 0),
    {
        self.intro_duration_ms > 0
    }
}

/// Last line whose start is at or before `pos`, scanning from the end.
pub open spec fn spec_timed_index(tl: Seq<TimedLineModel>, pos: u64) -> Option<int>
    decreases tl.len(),
{
    if tl.len() == 0 {
        None
    } else if tl.last().start_time_ms <= pos {
        Some(tl.len() - 1)
    } else {
        spec_timed_index(tl.drop_last(), pos)
    }
}

/// Local playback timer: a reference position, the monotonic reading it
/// was taken at, and whether playback runs. Between syncs the position is
/// interpolated; a server position only overrides it when the drift
/// exceeds the threshold.
#[derive(Clone, Debug)]
pub struct LocalPlaybackTimer {
    pub reference_position_ms: u64,
    pub reference_at: u64,
    pub is_playing: bool,
}

/// Drift beyond which the timer hard-syncs to the server position.
pub const DRIFT_THRESHOLD_MS: u64 = 300;

/// The interpolated position: frozen while paused, advancing with the
/// clock while playing.
pub open spec fn spec_timer_position(t: LocalPlaybackTimer, now: u64) -> u64 {
    if t.is_playing {
        let elapsed: int = if now >= t.reference_at {
            now - t.reference_at
        } else {
            0
        };
        if t.reference_position_ms + elapsed <= u64::MAX {
            (t.reference_position_ms + elapsed) as u64
        } else {
            u64::MAX
        }
    } else {
        t.reference_position_ms
    }
}

impl LocalPlaybackTimer {
    /// A paused timer at position zero.
    pub fn new(now: u64) -> (r: LocalPlaybackTimer)
        ensures
            !r.is_playing,
            spec_timer_position(r, now) == 0,
    {
        LocalPlaybackTimer { reference_position_ms: 0, reference_at: now, is_playing: false }
    }

    /// The interpolated position at `now`.
    pub fn interpolated_position_ms(&self, now: u64) -> (r: u64)
        ensures
            r == spec_timer_position(*self, now),
    {
        if self.is_playing {
            let elapsed: u64 = if now >= self.reference_at {
                now - self.reference_at
            } else {
                0
            };
            self.reference_position_ms.saturating_add(elapsed)
        } else {
            self.reference_position_ms
        }
    }

    /// Jump straight to a position, used on play, pause and seek events.
    pub fn hard_sync(&mut self, position_ms: u64, now: u64)
        ensures
            spec_timer_position(*final (self), now) == position_ms,
            final (self).is_playing == old(self).is_playing,
    {
        self.reference_position_ms = position_ms;
        self.reference_at = now;
    }

    /// Adopt the server position only when it disagrees with the local
    /// one by more than the threshold; returns whether it did.
    pub fn drift_correct(&mut self, server_position_ms: u64, now: u64) -> (corrected: bool)
        ensures
            corrected == ({
                let local = spec_timer_position(*old(self), now);
                (if server_position_ms >= local {
                    server_position_ms - local
                } else {
                    local - server_position_ms
                }) > DRIFT_THRESHOLD_MS
            }),
            corrected ==> spec_timer_position(*final (self), now) == server_position_ms,
            !corrected ==> *final (self) == *old(self),
            final (self).is_playing == old(self).is_playing,
    {
        let local = self.interpolated_position_ms(now);
        let drift: u64 = if server_position_ms >= local {
            server_position_ms - local
        } else {
            local - server_position_ms
        };
        if drift > DRIFT_THRESHOLD_MS {
            self.hard_sync(server_position_ms, now);
            true
        } else {
            false
        }
    }

    /// Change the play state: resuming restarts interpolation at `now`,
    /// pausing freezes the position reached.
    pub fn set_playing(&mut self, playing: bool, now: u64)
        ensures
            final (self).is_playing == playing,
            spec_timer_position(*final (self), now) == spec_timer_position(*old(self), now),
    {
        if playing && !self.is_playing {
            self.reference_at = now;
        } else if !playing && self.is_playing {
            self.reference_position_ms = self.interpolated_position_ms(now);
            self.reference_at = now;
        }
        self.is_playing = playing;
    }

    /// Whether playback is running.
    pub fn is_playing(&self) -> (r: bool)
        ensures
            r == self.is_playing,
    {
        self.is_playing
    }
}

/// The window of precomputed lines shown around the current index: in the
/// intro, the note line (when there is an intro) and the first `after`
/// real lines; on a real line, `before` lines above through `after` lines
/// below.
pub fn visible_timed_lines(
    lyrics: &PrecomputedLyrics,
    current_idx: i32,
    before: usize,
    after: usize,
) -> (r: Vec<TimedLine>)
    ensures
        ({
            let tl = view_timed(lyrics.lines@);
            if current_idx < 0 {
                let shown: int = if after as int <= tl.len() {
                    after as int
                } else {
                    tl.len() as int
                };
                if lyrics.intro_duration_ms > 0 {
                    &&& r@.len() == shown + 1
                    &&& r@[0]@.text == music_note()
                    &&& r@[0]@.duration_ms == lyrics.intro_duration_ms
                    &&& forall|i: int| 1 <= i < r@.len() ==> (#[trigger] r@[i])@ == tl[i - 1]
                } else {
                    &&& r@.len() == shown
                    &&& forall|i: int| 0 <= i < r@.len() ==> (#[trigger] r@[i])@ == tl[i]
                }
            } else {
                let idx = current_idx as int;
                let lo: int = if idx - before >= 0 {
                    idx - before
                } else {
                    0
                };
                let hi: int = if idx + after + 1 <= tl.len() {
                    idx + after + 1
                } else {
                    tl.len() as int
                };
                let lo2: int = if lo <= hi {
                    lo
                } else {
                    hi
                };
                &&& r@.len() == hi - lo2
                &&& forall|i: int| 0 <= i < r@.len() ==> (#[trigger] r@[i])@ == tl[lo2 + i]
            }
        }),
{
    let ghost tl = view_timed(lyrics.lines@);
    let mut r: Vec<TimedLine> = Vec::new();
    if current_idx < 0 {
        if lyrics.intro_duration_ms > 0 {
            let il = lyrics.intro_line();
            r.push(il);
        }
        let shown: usize = if after <= lyrics.lines.len() {
            after
        } else {
            lyrics.lines.len()
        };
        let base = r.len();
        let mut i: usize = 0;
        while i < shown
            invariant
                0 <= i <= shown,
                shown <= lyrics.lines@.len(),
                tl == view_timed(lyrics.lines@),
                r@.len() == base + i,
                base <= 1,
                forall|k: int|
                    base <= k < r@.len() ==> (#[trigger] r@[k])@ == tl[k - base],
                base == 1 ==> r@[0]@.text == music_note() && r@[0]@.duration_ms
                    == lyrics.intro_duration_ms,
            decreases shown - i,
        {
            proof {
                assert(tl[i as int] == lyrics.lines@[i as int]@);
            }
            let l = clone_timed(&lyrics.lines[i]);
            r.push(l);
            i += 1;
        }
        r
    } else {
        let idx: usize = current_idx as usize;
        let lo: usize = if idx >= before {
            idx - before
        } else {
            0
        };
        let n = lyrics.lines.len();
        let reach = idx.saturating_add(after).saturating_add(1);
        let hi: usize = if reach <= n {
            reach
        } else {
            n
        };
        let lo2: usize = if lo <= hi {
            lo
        } else {
            hi
        };
        let mut i: usize = lo2;
        while i < hi
            invariant
                lo2 <= i <= hi <= lyrics.lines@.len(),
                tl == view_timed(lyrics.lines@),
                r@.len() == i - lo2,
                forall|k: int|
                    0 <= k < r@.len() ==> (#[trigger] r@[k])@ == tl[lo2 + k],
            decreases hi - i,
        {
            proof {
                assert(tl[i as int] == lyrics.lines@[i as int]@);
            }
            let l = clone_timed(&lyrics.lines[i]);
            r.push(l);
            i += 1;
        }
        r
    }
}

fn clone_timed(l: &TimedLine) -> (r: TimedLine)
    ensures
        r@ == l@,
{
    TimedLine {
        text: l.text.clone(),
        start_time_ms: l.start_time_ms,
        duration_ms: l.duration_ms,
    }
}

} // verus!
