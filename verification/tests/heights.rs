use keys::chart::Note;

fn note(time: u32) -> Note {
    Note { time, key: 0, hit: false }
}

#[test]
fn height_is_full_at_appear_time_and_zero_at_target() {
    let n = note(5000);
    assert_eq!(n.height_at(120, 4000), 720);
    assert_eq!(n.height_at(120, 5000), 0);
}

#[test]
fn height_moves_linearly() {
    let n = note(5000);
    assert_eq!(n.height_at(120, 4500), 360);
    assert_eq!(n.height_at(120, 4250), 540);
    // 720 * 250 / 1000 = 180
    assert_eq!(n.height_at(120, 4750), 180);
}

#[test]
fn height_is_negative_after_the_target() {
    let n = note(5000);
    assert_eq!(n.height_at(120, 6000), -720);
    assert!(n.height_at(120, 5500) < 0);
}

#[test]
fn height_is_above_the_playfield_before_appearing() {
    let n = note(5000);
    assert!(n.height_at(120, 3000) > 720);
}

#[test]
fn pixel_height_never_increases_with_time() {
    let n = note(5000);
    let mut last = n.height_at(120, 3900);
    for t in 3901..5200u32 {
        let h = n.height_at(120, t);
        assert!(h <= last, "height rose from {} to {} at {}", last, h, t);
        last = h;
    }
}

#[test]
fn pixel_height_can_repeat_between_adjacent_times() {
    // The exact position falls by 0.72 pixels per millisecond, so some
    // adjacent milliseconds land on the same pixel row.
    let n = note(5000);
    assert_eq!(n.height_at(120, 4003), 717);
    assert_eq!(n.height_at(120, 4004), 717);
}

#[test]
fn appear_and_bottom_times() {
    let n = note(5000);
    assert_eq!(n.appear_time(120), 4000);
    assert_eq!(n.bottom_time(), 5000);
}
