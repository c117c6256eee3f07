//! Running scoring state for one play session, and the letter grade computed
//! from it when the session ends.

use vstd::prelude::*;

verus! {

/// Scoring accumulator for a play session.
///
/// Accuracy is the running mean of the binary hit/miss outcomes.  It is kept
/// exactly as the pair `hits / notes` (resolved-with-a-hit count over
/// resolved count) rather than as a floating-point running mean, so every
/// statement about it is exact.  A display layer may divide the two fields
/// when it needs a percentage.
#[derive(Clone, Copy, Debug, PartialEq, Eq, Structural)]
pub struct Stats {
    /// Sum of the timing errors of the hits, in milliseconds (lower is better).
    pub score: u32,
    /// Current consecutive-hit streak.
    pub combo: u32,
    /// Largest streak reached so far this session.
    pub best_combo: u32,
    /// How many notes have been resolved (hit or missed) so far.
    pub notes: u32,
    /// How many of the resolved notes were hits.
    pub hits: u32,
}

impl Stats {
    /// Internal consistency: no more hits than resolved notes, the streak
    /// never exceeds the number of hits, and the best streak is never below
    /// the current one.
    pub open spec fn wf(self) -> bool {
        &&& self.hits <= self.notes
        &&& self.combo <= self.hits
        &&& self.combo <= self.best_combo
    }

    /// The state a session starts from: everything zero.
    pub open spec fn init_spec() -> Stats {
        Stats { score: 0, combo: 0, best_combo: 0, notes: 0, hits: 0 }
    }

    pub fn new() -> (s: Stats)
        ensures
            s == Stats::init_spec(),
            s.wf(),
    {
        Stats { score: 0, combo: 0, best_combo: 0, notes: 0, hits: 0 }
    }

    /// The state after resolving one note as a hit whose timing error was
    /// `delta` milliseconds: the error is added to the score, the streak
    /// grows (raising the best streak if passed), and one more resolved
    /// note with one more hit enters the accuracy fraction.
    pub open spec fn after_hit(self, delta: int) -> Stats {
        Stats {
            score: (self.score + delta) as u32,
            combo: (self.combo + 1) as u32,
            best_combo: if self.combo + 1 > self.best_combo {
                (self.combo + 1) as u32
            } else {
                self.best_combo
            },
            notes: (self.notes + 1) as u32,
            hits: (self.hits + 1) as u32,
        }
    }

    /// The state after resolving one note as a miss: the streak resets and
    /// one more resolved note (with no hit) enters the accuracy fraction.
    pub open spec fn after_miss(self) -> Stats {
        Stats {
            score: self.score,
            combo: 0,
            best_combo: self.best_combo,
            notes: (self.notes + 1) as u32,
            hits: self.hits,
        }
    }
}

/// The best streak never decreases when a note resolves, it always stays at
/// or above the current streak, and resolving keeps the accumulator
/// well-formed.
pub proof fn lemma_best_combo_monotone(s: Stats, delta: int)
    requires
        s.combo < u32::MAX,
        s.notes < u32::MAX,
        s.hits < u32::MAX,
        s.score + delta <= u32::MAX,
        0 <= delta,
    ensures
        s.after_hit(delta).best_combo >= s.best_combo,
        s.after_miss().best_combo >= s.best_combo,
        s.after_hit(delta).best_combo >= s.after_hit(delta).combo,
        s.after_miss().best_combo >= s.after_miss().combo,
        s.wf() ==> s.after_hit(delta).wf(),
        s.wf() ==> s.after_miss().wf(),
{
}

/// Letter grade awarded at the end of a session.
#[derive(Clone, Copy, Debug, PartialEq, Eq, Structural)]
pub enum Grade {
    F,
    D,
    C,
    B,
    A,
    S,
    Ss,
}

impl Grade {
    /// The grade's display letter.
    pub fn letter(&self) -> (r: &'static str)
        ensures
            *self == Grade::F ==> r@ == "f"@,
            *self == Grade::D ==> r@ == "d"@,
            *self == Grade::C ==> r@ == "c"@,
            *self == Grade::B ==> r@ == "b"@,
            *self == Grade::A ==> r@ == "a"@,
            *self == Grade::S ==> r@ == "s"@,
            *self == Grade::Ss ==> r@ == "ss"@,
    {
        match self {
            Grade::F => "f",
            Grade::D => "d",
            Grade::C => "c",
            Grade::B => "b",
            Grade::A => "a",
            Grade::S => "s",
            Grade::Ss => "ss",
        }
    }
}

/// The grade that an accuracy of `hits / notes` earns.  The thresholds are
/// on the accuracy in `[0, 1]`; each range includes its lower bound and
/// excludes its upper bound, so an accuracy sitting exactly on a boundary
/// takes the higher grade (0.9 is an `a`, not a `b`).  An accuracy of 1
/// earns the top grade, and a session with no resolved notes counts as
/// accuracy 0.  The comparisons are written over the pair of counts so they
/// stay exact: `hits / notes < t / 100` exactly when
/// `100 * hits < t * notes`.
pub open spec fn grade_spec(hits: nat, notes: nat) -> Grade {
    if notes == 0 {
        Grade::F
    } else if 100 * hits < 60 * notes {
        Grade::F
    } else if 100 * hits < 70 * notes {
        Grade::D
    } else if 100 * hits < 80 * notes {
        Grade::C
    } else if 100 * hits < 90 * notes {
        Grade::B
    } else if 100 * hits < 95 * notes {
        Grade::A
    } else if 100 * hits < 99 * notes {
        Grade::S
    } else {
        Grade::Ss
    }
}

/// Computes the letter grade for a session that resolved `notes` notes and
/// hit `hits` of them.
pub fn grade_of(hits: u32, notes: u32) -> (g: Grade)
    requires
        hits <= notes,
    ensures
        g == grade_spec(hits as nat, notes as nat),
{
    if notes == 0 {
        return Grade::F;
    }
    let h: u64 = (hits as u64) * 100;
    let n: u64 = notes as u64;
    if h < 60 * n {
        Grade::F
    } else if h < 70 * n {
        Grade::D
    } else if h < 80 * n {
        Grade::C
    } else if h < 90 * n {
        Grade::B
    } else if h < 95 * n {
        Grade::A
    } else if h < 99 * n {
        Grade::S
    } else {
        Grade::Ss
    }
}

/// How many of a run of binary outcomes are hits.
pub open spec fn count_hits(outcomes: Seq<bool>) -> nat
    decreases outcomes.len(),
{
    if outcomes.len() == 0 {
        0
    } else {
        (if outcomes[0] {
            1nat
        } else {
            0nat
        }) + count_hits(outcomes.drop_first())
    }
}

/// The accumulator after resolving a run of outcomes in order, starting
/// from `s` (the timing error of every hit is taken as 0 here; it has no
/// bearing on the accuracy fraction).
pub open spec fn resolve_all(s: Stats, outcomes: Seq<bool>) -> Stats
    decreases outcomes.len(),
{
    if outcomes.len() == 0 {
        s
    } else {
        resolve_all(
            if outcomes[0] {
                s.after_hit(0)
            } else {
                s.after_miss()
            },
            outcomes.drop_first(),
        )
    }
}

proof fn lemma_resolve_all_counts(s: Stats, outcomes: Seq<bool>)
    requires
        s.notes + outcomes.len() <= u32::MAX,
        s.hits + outcomes.len() <= u32::MAX,
    ensures
        resolve_all(s, outcomes).notes == s.notes + outcomes.len(),
        resolve_all(s, outcomes).hits == s.hits + count_hits(outcomes),
    decreases outcomes.len(),
{
    if outcomes.len() > 0 {
        let s1 = if outcomes[0] {
            s.after_hit(0)
        } else {
            s.after_miss()
        };
        lemma_resolve_all_counts(s1, outcomes.drop_first());
    }
}

/// After a session resolves `N` notes with binary outcomes `o_1 .. o_N`,
/// the recorded accuracy fraction `hits / notes` is exactly the arithmetic
/// mean of the outcomes: the resolved count is `N` and the hit count is the
/// number of 1-outcomes, so the fraction is their sum over `N`.
pub proof fn lemma_accuracy_is_mean(outcomes: Seq<bool>)
    requires
        outcomes.len() <= u32::MAX,
    ensures
        resolve_all(Stats::init_spec(), outcomes).notes == outcomes.len(),
        resolve_all(Stats::init_spec(), outcomes).hits == count_hits(outcomes),
{
    lemma_resolve_all_counts(Stats::init_spec(), outcomes);
}

} // verus!

