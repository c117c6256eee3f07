use keys::chart::{Chart, Note};
use keys::session::{frame_advance, menu_step, MenuInput};
use keys::stats::Stats;

#[test]
fn menu_cursor_clamps_at_both_ends() {
    assert_eq!(menu_step(0, 3, MenuInput::Up), (0, false));
    assert_eq!(menu_step(2, 3, MenuInput::Down), (2, false));
    assert_eq!(menu_step(1, 3, MenuInput::Up), (0, false));
    assert_eq!(menu_step(1, 3, MenuInput::Down), (2, false));
}

#[test]
fn menu_confirm_commits_the_selection() {
    assert_eq!(menu_step(1, 3, MenuInput::Confirm), (1, true));
    assert_eq!(menu_step(0, 1, MenuInput::Confirm), (0, true));
}

#[test]
fn a_session_works_on_a_cloned_chart() {
    // The catalog's chart stays reusable: a play session resolves notes in
    // a working copy, and the catalog copy keeps its unresolved notes.
    let chart = Chart {
        title: String::from("one note"),
        artist: String::from("nobody"),
        filename: String::from("one_note"),
        bpm: 120,
        duration: 6000,
        notes: vec![Note { time: 5000, key: 0, hit: false }],
    };
    let working = chart.clone();
    let mut notes = working.notes.clone();
    let mut stats = Stats::new();

    let keys = [true, false, false, false];
    let fired = frame_advance(&mut notes, &mut stats, 5050, &keys);
    assert_eq!(fired, 1);
    assert!(notes[0].hit);
    assert!(!chart.notes[0].hit);
    assert_eq!(stats.score, 50);
    assert_eq!(stats.hits, 1);
    assert_eq!(stats.notes, 1);
}

#[test]
fn frame_advance_leaves_future_notes_pending() {
    let mut notes = vec![
        Note { time: 1000, key: 0, hit: false },
        Note { time: 9000, key: 0, hit: false },
    ];
    let mut stats = Stats::new();
    let keys = [true, false, false, false];
    let fired = frame_advance(&mut notes, &mut stats, 1000, &keys);
    assert_eq!(fired, 1);
    assert!(notes[0].hit);
    assert!(!notes[1].hit);
    assert_eq!(stats.notes, 1);
}
