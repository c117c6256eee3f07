//! Charts and notes: a note is a single scheduled event with a target hit
//! time and a lane, and resolves exactly once as a hit or a miss; a chart is
//! an ordered collection of notes with display metadata.

use vstd::prelude::*;

use crate::drawing::{draw_key, key_bottom, key_left, key_right, key_top, paints, pixel_x, pixel_y};
use crate::stats::Stats;
use crate::{HEIGHT, WIDTH};

verus! {

/// Number of lanes, each bound to one player key.
pub const LANES: usize = 4;

/// How long a note is visible before its target time, in milliseconds.
pub const APPROACH_MS: u32 = 1000;

/// Half-width of the hit window around a note's target time, in
/// milliseconds.
pub const HIT_WINDOW_MS: u32 = 100;

/// One scheduled note.
#[derive(Clone, Copy, Debug, PartialEq, Eq, Structural)]
pub struct Note {
    /// Target hit instant, in milliseconds from the start of the chart.
    pub time: u32,
    /// Lane index, `0 .. LANES`.
    pub key: usize,
    /// Whether the note has been resolved (hit or missed).  Starts false,
    /// becomes true at most once, and a resolved note never changes the
    /// scoring state again.
    pub hit: bool,
}

/// An ordered collection of notes plus tempo and duration metadata.  The
/// note order is the insertion order from the chart source, not necessarily
/// sorted by time.
#[derive(Clone, Debug)]
pub struct Chart {
    pub title: String,
    pub artist: String,
    /// Set by the loader after construction; not part of the persisted
    /// definition.
    pub filename: String,
    /// Tempo, informational only.
    pub bpm: u16,
    /// Session length in milliseconds.
    pub duration: u32,
    pub notes: Vec<Note>,
}

/// Whether an elapsed session time of `time` ms falls inside the hit window
/// of a note whose target is `target` ms: the window opens `HIT_WINDOW_MS`
/// before the target (inclusive, clamped at the start of the session) and
/// closes `HIT_WINDOW_MS` after it (exclusive).
pub open spec fn hit_window_contains(time: int, target: int) -> bool {
    &&& (if target >= HIT_WINDOW_MS { target - HIT_WINDOW_MS } else { 0 }) <= time
    &&& time < target + HIT_WINDOW_MS
}

impl Note {
    /// A note's lane index names one of the `LANES` lanes.
    pub open spec fn wf(self) -> bool {
        self.key < LANES
    }

    /// The exact vertical position of the note at elapsed time `time`, in
    /// thousandths of a pixel: the note crosses the hit line (height 0) at
    /// its target time and sits at the top of the playfield (height
    /// `HEIGHT`) `APPROACH_MS` earlier, moving linearly.
    pub open spec fn height_exact(self, time: int) -> int {
        (HEIGHT as int) * (self.time - time)
    }

    /// `height_exact` rounded toward zero to whole pixels: the value
    /// `height_at` returns.
    pub open spec fn spec_height_at(self, time: int) -> int {
        if time <= self.time {
            ((HEIGHT as int) * (self.time - time)) / (APPROACH_MS as int)
        } else {
            -(((HEIGHT as int) * (time - self.time)) / (APPROACH_MS as int))
        }
    }

    /// The instant the note becomes visible, `APPROACH_MS` before its
    /// target.
    pub fn appear_time(&self, _bpm: u16) -> (r: u32)
        requires
            self.time >= APPROACH_MS,
        ensures
            r == self.time - APPROACH_MS,
    {
        self.time - APPROACH_MS
    }

    /// The instant the note reaches the hit line: its target time.
    pub fn bottom_time(&self) -> (r: u32)
        ensures
            r == self.time,
    {
        self.time
    }

    /// The note's vertical pixel position at elapsed time `time`: positive
    /// above the hit line, 0 on it, negative once the note has passed it.
    pub fn height_at(&self, _bpm: u16, time: u32) -> (h: i64)
        ensures
            h == self.spec_height_at(time as int),
    {
        if time <= self.time {
            let num: u64 = (HEIGHT as u64) * ((self.time - time) as u64);
            (num / (APPROACH_MS as u64)) as i64
        } else {
            let num: u64 = (HEIGHT as u64) * ((time - self.time) as u64);
            -((num / (APPROACH_MS as u64)) as i64)
        }
    }

    /// Whether this frame's input resolves the note as a hit: the elapsed
    /// time is inside the note's hit window and the note's lane key was
    /// newly pressed this frame.
    pub open spec fn hit_input(self, time: u32, keys: [bool; 4]) -> bool {
        &&& hit_window_contains(time as int, self.time as int)
        &&& keys[self.key as int]
    }

    /// The resolution step as a value: given the note, the scoring state,
    /// the elapsed time and this frame's newly pressed keys, the note and
    /// state after the check, and whether a hit fired.  An already resolved
    /// note is left alone; a note whose window contains `time` with its key
    /// pressed resolves as a hit with timing error `|time - target|`; an
    /// unresolved note whose target has passed resolves as a miss; anything
    /// else is still pending.
    pub open spec fn step(self, stats: Stats, time: u32, keys: [bool; 4]) -> (Note, Stats, bool) {
        if self.hit {
            (self, stats, false)
        } else if self.hit_input(time, keys) {
            (
                Note { hit: true, ..self },
                stats.after_hit(if time >= self.time { time - self.time } else { self.time - time }),
                true,
            )
        } else if time > self.time {
            (Note { hit: true, ..self }, stats.after_miss(), false)
        } else {
            (self, stats, false)
        }
    }

    /// Runs the resolution check for one frame, mutating the note and the
    /// scoring state exactly as `Note::step` describes, and reports whether
    /// a hit fired (the caller may trigger a hit sound on it).
    pub fn update_stats(&mut self, stats: &mut Stats, time: u32, keys: &[bool; 4]) -> (hit: bool)
        requires
            old(self).wf(),
            old(stats).score + HIT_WINDOW_MS <= u32::MAX,
            old(stats).combo < u32::MAX,
            old(stats).notes < u32::MAX,
            old(stats).hits < u32::MAX,
        ensures
            (*final(self), *final(stats), hit) == old(self).step(*old(stats), time, *keys),
            old(self).hit ==> *final(self) == *old(self) && *final(stats) == *old(stats) && !hit,
            final(self).time == old(self).time && final(self).key == old(self).key,
            old(self).hit ==> final(self).hit,
            final(stats).best_combo >= old(stats).best_combo,
            old(stats).wf() ==> final(stats).wf(),
    {
        if self.hit {
            return false;
        }
        let lower: u32 = if self.time >= HIT_WINDOW_MS {
            self.time - HIT_WINDOW_MS
        } else {
            0
        };
        let in_window = lower <= time && (time as u64) < (self.time as u64) + (
        HIT_WINDOW_MS as u64);
        if in_window && keys[self.key] {
            let delta: u32 = if time >= self.time {
                time - self.time
            } else {
                self.time - time
            };
            stats.score = stats.score + delta;
            stats.combo = stats.combo + 1;
            if stats.combo > stats.best_combo {
                stats.best_combo = stats.combo;
            }
            self.hit = true;
            stats.notes = stats.notes + 1;
            stats.hits = stats.hits + 1;
            true
        } else if time > self.time {
            self.hit = true;
            stats.combo = 0;
            stats.notes = stats.notes + 1;
            false
        } else {
            false
        }
    }

    /// Whether the note is inside the visible window at elapsed time
    /// `time`: between the top of the playfield and the hit line.
    pub open spec fn visible_at(self, time: int) -> bool {
        0 <= self.spec_height_at(time) <= HEIGHT
    }

    /// Draws the note as a filled rectangle in its lane at its current
    /// height, or does nothing when the note is above or below the visible
    /// window (a rendering clip, not a resolution event).
    pub fn draw(&self, buffer: &mut Vec<u32>, bpm: u16, time: u32)
        requires
            old(buffer).len() == WIDTH * HEIGHT,
            self.wf(),
        ensures
            final(buffer).len() == old(buffer).len(),
            self.visible_at(time as int) ==> forall|i: int|
                0 <= i < old(buffer).len() ==> final(buffer)[i] == (if paints(
                    true,
                    (
                        key_left(self.key as int) as u32,
                        key_top(self.spec_height_at(time as int) as u32),
                    ),
                    (
                        key_right(self.key as int) as u32,
                        key_bottom(self.spec_height_at(time as int) as u32),
                    ),
                    pixel_x(i),
                    pixel_y(i),
                ) {
                    0xc5c8c6u32
                } else {
                    old(buffer)[i]
                }),
            !self.visible_at(time as int) ==> final(buffer)@ == old(buffer)@,
    {
        let height = self.height_at(bpm, time);

        if height < 0 {
            return ;
        }
        if height > HEIGHT as i64 {
            return ;
        }

        draw_key(buffer, self.key, height as u32, 0xc5c8c6);
    }
}

/// A note whose target time is exactly the elapsed time is always inside
/// its own hit window.
pub proof fn lemma_exact_time_in_window(t: u32)
    ensures
        hit_window_contains(t as int, t as int),
{
}

/// A resolved note is a strict no-op for every later resolution check:
/// the note, the scoring state and the hit signal come back unchanged,
/// whatever the time and the input.
pub proof fn lemma_resolved_note_is_no_op(n: Note, s: Stats, time: u32, keys: [bool; 4])
    requires
        n.hit,
    ensures
        n.step(s, time, keys) == (n, s, false),
{
}

/// Resolution never reverts: a note's `hit` flag moves false to true at
/// most once.  After a check the flag is either set, or nothing at all has
/// happened.
pub proof fn lemma_hit_at_most_once(n: Note, s: Stats, time: u32, keys: [bool; 4])
    ensures
        n.hit ==> n.step(s, time, keys).0.hit,
        n.step(s, time, keys).0.hit || n.step(s, time, keys) == (n, s, false),
{
}

/// A key press on the note's lane exactly at its target time always
/// resolves the note as a hit.
pub proof fn lemma_press_at_target_hits(n: Note, s: Stats, keys: [bool; 4])
    requires
        !n.hit,
        keys[n.key as int],
    ensures
        n.step(s, n.time, keys).2,
        n.step(s, n.time, keys).0.hit,
{
    lemma_exact_time_in_window(n.time);
}

/// One resolution check never lowers the best streak, and leaves it at or
/// above the current streak.  (A streak already at the counter's ceiling
/// is the one excluded state: its increment would wrap.)
pub proof fn lemma_step_best_combo_monotone(n: Note, s: Stats, time: u32, keys: [bool; 4])
    requires
        s.combo < u32::MAX,
    ensures
        n.step(s, time, keys).1.best_combo >= s.best_combo,
        s.best_combo >= s.combo ==> n.step(s, time, keys).1.best_combo >= n.step(
            s,
            time,
            keys,
        ).1.combo,
{
}

/// A check that resolves the note adds one to the resolved count and the
/// binary outcome to the hit count, so the accuracy fraction
/// `hits / notes` stays the running mean of the outcomes; a check that
/// does not resolve it leaves the scoring state untouched.
pub proof fn lemma_step_counts(n: Note, s: Stats, time: u32, keys: [bool; 4])
    requires
        s.notes < u32::MAX,
        s.hits < u32::MAX,
    ensures
        ({
            let (n1, s1, b) = n.step(s, time, keys);
            &&& (n1.hit != n.hit ==> s1.notes == s.notes + 1 && s1.hits == s.hits + (if b {
                1int
            } else {
                0int
            }))
            &&& (n1.hit == n.hit ==> s1 == s)
        }),
{
}

/// The exact note position falls strictly as time advances: the note only
/// ever moves down the screen.
pub proof fn lemma_height_exact_strictly_decreasing(n: Note, t1: int, t2: int)
    requires
        t1 < t2,
    ensures
        n.height_exact(t2) < n.height_exact(t1),
{
}

/// The whole-pixel position never rises as time advances.  (It is not
/// strictly decreasing: times whose exact positions round to the same
/// pixel row draw at the same height.)
pub proof fn lemma_height_at_nonincreasing(n: Note, t1: int, t2: int)
    requires
        t1 <= t2,
    ensures
        n.spec_height_at(t2) <= n.spec_height_at(t1),
{
    broadcast use vstd::arithmetic::div_mod::lemma_div_is_ordered;

    let h = HEIGHT as int;
    let a = APPROACH_MS as int;
    if t2 <= n.time {
        assert(h * (n.time - t2) <= h * (n.time - t1)) by (nonlinear_arith)
            requires t1 <= t2, h >= 0;
        assert((h * (n.time - t2)) / a <= (h * (n.time - t1)) / a);
    } else if t1 > n.time {
        assert(h * (t1 - n.time) <= h * (t2 - n.time)) by (nonlinear_arith)
            requires t1 <= t2, h >= 0;
        assert((h * (t1 - n.time)) / a <= (h * (t2 - n.time)) / a);
    } else {
        assert(h * (n.time - t1) >= 0) by (nonlinear_arith)
            requires t1 <= n.time, h >= 0;
        assert(h * (t2 - n.time) >= 0) by (nonlinear_arith)
            requires t2 > n.time, h >= 0;
        assert((h * (n.time - t1)) / a >= 0);
        assert((h * (t2 - n.time)) / a >= 0);
    }
}

} // verus!
