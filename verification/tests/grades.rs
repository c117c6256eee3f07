use keys::stats::{grade_of, Grade};

#[test]
fn grade_thresholds_from_the_accuracy_fraction() {
    // acc = 0.9 -> a
    assert_eq!(grade_of(9, 10), Grade::A);
    // acc = 1.0 -> ss
    assert_eq!(grade_of(10, 10), Grade::Ss);
    // acc = 0.595 -> f
    assert_eq!(grade_of(119, 200), Grade::F);
}

#[test]
fn grade_boundaries_take_the_higher_grade() {
    // Each range includes its lower bound: a boundary accuracy earns the
    // better of the two adjacent grades.
    assert_eq!(grade_of(59, 100), Grade::F);
    assert_eq!(grade_of(60, 100), Grade::D);
    assert_eq!(grade_of(70, 100), Grade::C);
    assert_eq!(grade_of(80, 100), Grade::B);
    assert_eq!(grade_of(90, 100), Grade::A);
    assert_eq!(grade_of(95, 100), Grade::S);
    assert_eq!(grade_of(99, 100), Grade::Ss);
}

#[test]
fn grade_of_empty_session_is_f() {
    assert_eq!(grade_of(0, 0), Grade::F);
}

#[test]
fn grade_letters() {
    assert_eq!(Grade::F.letter(), "f");
    assert_eq!(Grade::D.letter(), "d");
    assert_eq!(Grade::C.letter(), "c");
    assert_eq!(Grade::B.letter(), "b");
    assert_eq!(Grade::A.letter(), "a");
    assert_eq!(Grade::S.letter(), "s");
    assert_eq!(Grade::Ss.letter(), "ss");
}

#[test]
fn grades_on_uneven_fractions() {
    assert_eq!(grade_of(2, 3), Grade::D); // 0.666...
    assert_eq!(grade_of(3, 4), Grade::C); // 0.75
    assert_eq!(grade_of(17, 20), Grade::B); // 0.85
    assert_eq!(grade_of(37, 40), Grade::A); // 0.925
    assert_eq!(grade_of(39, 40), Grade::S); // 0.975
    assert_eq!(grade_of(199, 200), Grade::Ss); // 0.995
    assert_eq!(grade_of(1, 2), Grade::F); // 0.5
}
