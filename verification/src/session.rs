//! The decisions of the play loop, separated from the window, clock and
//! audio that drive them: chart-menu navigation and the per-frame pass that
//! resolves every note against this frame's input.

use vstd::prelude::*;

use crate::chart::Note;
use crate::stats::Stats;

verus! {

/// A discrete navigation event in the chart menu.
#[derive(Clone, Copy, Debug, PartialEq, Eq, Structural)]
pub enum MenuInput {
    Up,
    Down,
    Confirm,
}

/// One step of the chart menu: moving the cursor clamps at the ends of the
/// list, and a confirm event commits the current selection.  Returns the
/// new selection and whether it was confirmed.
pub fn menu_step(selected: usize, count: usize, input: MenuInput) -> (r: (usize, bool))
    requires
        0 < count,
        selected < count,
    ensures
        r.0 < count,
        input == MenuInput::Confirm ==> r == (selected, true),
        input == MenuInput::Down ==> r == (
            if selected == count - 1 {
                selected
            } else {
                (selected + 1) as usize
            },
            false,
        ),
        input == MenuInput::Up ==> r == (
            if selected == 0 {
                0usize
            } else {
                (selected - 1) as usize
            },
            false,
        ),
{
    match input {
        MenuInput::Confirm => (selected, true),
        MenuInput::Down => {
            if selected != count - 1 {
                (selected + 1, false)
            } else {
                (selected, false)
            }
        },
        MenuInput::Up => {
            if selected != 0 {
                (selected - 1, false)
            } else {
                (selected, false)
            }
        },
    }
}

/// The whole-frame resolution pass as a value: every note is put through
/// `Note::step` in order, threading the scoring state through, and the
/// hits that fired are counted.  Returns the notes after the pass, the
/// scoring state after it, and the hit count.
pub open spec fn frame_run(notes: Seq<Note>, stats: Stats, time: u32, keys: [bool; 4]) -> (
    Seq<Note>,
    Stats,
    nat,
)
    decreases notes.len(),
{
    if notes.len() == 0 {
        (Seq::<Note>::empty(), stats, 0nat)
    } else {
        let (n1, s1, b) = notes[0].step(stats, time, keys);
        let (rest_notes, rest_stats, rest_hits) = frame_run(notes.drop_first(), s1, time, keys);
        (seq![n1] + rest_notes, rest_stats, (if b { 1nat } else { 0nat }) + rest_hits)
    }
}

/// Processing one more note at the end of a pass is the same as running
/// the pass and then stepping that note with the state the pass produced.
proof fn lemma_frame_run_snoc(notes: Seq<Note>, n: Note, stats: Stats, time: u32, keys: [bool; 4])
    ensures
        frame_run(notes.push(n), stats, time, keys) == ({
            let (pn, ps, ph) = frame_run(notes, stats, time, keys);
            let (n1, s1, b) = n.step(ps, time, keys);
            (pn.push(n1), s1, ph + (if b { 1nat } else { 0nat }))
        }),
    decreases notes.len(),
{
    reveal_with_fuel(frame_run, 3);
    let (pn, ps, ph) = frame_run(notes, stats, time, keys);
    let (n1, s1, b) = n.step(ps, time, keys);
    if notes.len() == 0 {
        assert(notes.push(n) =~= seq![n]);
        assert(seq![n].drop_first() =~= Seq::<Note>::empty());
        assert(frame_run(notes.push(n), stats, time, keys).0 =~= pn.push(n1));
    } else {
        let (h1, hs1, hb) = notes[0].step(stats, time, keys);
        assert(notes.push(n).drop_first() =~= notes.drop_first().push(n));
        lemma_frame_run_snoc(notes.drop_first(), n, hs1, time, keys);
        let (qn, qs, qh) = frame_run(notes.drop_first(), hs1, time, keys);
        assert(frame_run(notes.push(n), stats, time, keys).0 =~= (seq![h1] + qn).push(
            n.step(qs, time, keys).0,
        ));
        assert(pn.push(n1) =~= (seq![h1] + qn).push(n.step(qs, time, keys).0));
    }
}

/// The pass never lowers the score, the resolved count, the hit count or
/// the best streak, and raises each by at most 100 per note, one per note
/// and one per note; the streak grows by at most one per note.  The hit
/// count never exceeds the number of notes.
proof fn lemma_frame_run_bounds(notes: Seq<Note>, stats: Stats, time: u32, keys: [bool; 4])
    requires
        stats.score + 100 * notes.len() <= u32::MAX,
        stats.combo + notes.len() <= u32::MAX,
        stats.notes + notes.len() <= u32::MAX,
        stats.hits + notes.len() <= u32::MAX,
    ensures
        ({
            let (rn, rs, rh) = frame_run(notes, stats, time, keys);
            &&& rn.len() == notes.len()
            &&& stats.score <= rs.score <= stats.score + 100 * notes.len()
            &&& stats.notes <= rs.notes <= stats.notes + notes.len()
            &&& stats.hits <= rs.hits <= stats.hits + notes.len()
            &&& rs.combo <= stats.combo + notes.len()
            &&& rs.best_combo >= stats.best_combo
            &&& rh <= notes.len()
            &&& stats.wf() ==> rs.wf()
        }),
    decreases notes.len(),
{
    if notes.len() > 0 {
        let (n1, s1, b) = notes[0].step(stats, time, keys);
        lemma_frame_run_bounds(notes.drop_first(), s1, time, keys);
    }
}

/// Runs the resolution check of every note, in order, against the elapsed
/// time and this frame's newly pressed keys, mutating the notes and the
/// scoring state exactly as `frame_run` describes.  Returns how many hits
/// fired this frame, so the caller can trigger that many hit sounds.
pub fn frame_advance(
    notes: &mut Vec<Note>,
    stats: &mut Stats,
    time: u32,
    keys: &[bool; 4],
) -> (hits: usize)
    requires
        forall|i: int| 0 <= i < old(notes).len() ==> old(notes)[i].wf(),
        old(stats).score + 100 * old(notes).len() + 100 <= u32::MAX,
        old(stats).combo + old(notes).len() < u32::MAX,
        old(stats).notes + old(notes).len() <= u32::MAX,
        old(stats).hits + old(notes).len() <= u32::MAX,
    ensures
        ({
            let (rn, rs, rh) = frame_run(old(notes)@, *old(stats), time, *keys);
            &&& final(notes)@ == rn
            &&& *final(stats) == rs
            &&& hits == rh
        }),
        final(stats).best_combo >= old(stats).best_combo,
        old(stats).wf() ==> final(stats).wf(),
{
    let ghost orig_notes = notes@;
    let ghost orig_stats = *stats;
    let mut hits: usize = 0;
    let mut idx: usize = 0;
    while idx < notes.len()
        invariant
            notes.len() == orig_notes.len(),
            forall|i: int| idx <= i < orig_notes.len() ==> notes[i] == orig_notes[i],
            forall|i: int| 0 <= i < orig_notes.len() ==> orig_notes[i].wf(),
            idx <= orig_notes.len(),
            hits <= idx,
            orig_stats.score + 100 * orig_notes.len() + 100 <= u32::MAX,
            orig_stats.combo + orig_notes.len() < u32::MAX,
            orig_stats.notes + orig_notes.len() <= u32::MAX,
            orig_stats.hits + orig_notes.len() <= u32::MAX,
            ({
                let (rn, rs, rh) = frame_run(orig_notes.take(idx as int), orig_stats, time, *keys);
                &&& notes@.take(idx as int) == rn
                &&& *stats == rs
                &&& hits == rh
            }),
        decreases notes.len() - idx,
    {
        proof {
            lemma_frame_run_bounds(orig_notes.take(idx as int), orig_stats, time, *keys);
            assert(orig_notes.take(idx as int).len() == idx);
        }
        let ghost stats_before = *stats;
        let ghost notes_before = notes@;
        proof {
            assert(notes@[idx as int] == orig_notes[idx as int]);
            assert(orig_notes[idx as int].wf());
        }
        let n = &mut notes[idx];
        let fired = n.update_stats(stats, time, keys);
        if fired {
            hits = hits + 1;
        }
        proof {
            lemma_frame_run_snoc(
                orig_notes.take(idx as int),
                orig_notes[idx as int],
                orig_stats,
                time,
                *keys,
            );
            assert(orig_notes.take(idx as int + 1) =~= orig_notes.take(idx as int).push(
                orig_notes[idx as int],
            ));
            assert(notes@.take(idx as int + 1) =~= notes_before.take(idx as int).push(
                notes@[idx as int],
            ));
        }
        idx = idx + 1;
    }
    proof {
        assert(orig_notes.take(orig_notes.len() as int) =~= orig_notes);
        assert(notes@.take(orig_notes.len() as int) =~= notes@);
        lemma_frame_run_bounds(orig_notes, orig_stats, time, *keys);
    }
    hits
}

} // verus!
