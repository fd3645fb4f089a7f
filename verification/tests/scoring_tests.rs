use ib45_coach::scoring::{core_points, project_points, subject_points};

#[test]
fn official_core_matrix_examples_are_correct() {
    assert_eq!(core_points("A", "A"), 3);
    assert_eq!(core_points("C", "B"), 2);
    assert_eq!(core_points("D", "C"), 0);
    assert_eq!(core_points("E", "A"), 0);
}

#[test]
fn core_matrix_is_symmetric_and_reads_grades_loosely() {
    assert_eq!(core_points("B", "A"), core_points("A", "B"));
    assert_eq!(core_points("a", " b "), 3);
    assert_eq!(core_points("D", "D"), 0);
    assert_eq!(core_points("C", "C"), 1);
    assert_eq!(core_points("pending", "A"), 0);
}

#[test]
fn subject_points_add_up() {
    assert_eq!(subject_points(&vec![7, 7, 6, 6, 5, 5]), 36);
    assert_eq!(subject_points(&Vec::new()), 0);
}

#[test]
fn projections_stay_within_the_diploma_range() {
    let p = project_points(40, 3, 2, true);
    assert_eq!(p.total_points, 43);
    assert_eq!(p.low, 41);
    assert_eq!(p.high, 45);
    assert_eq!(p.target_gap, 2);
    assert!(!p.cas_risk);
    let q = project_points(1, 0, 5, false);
    assert_eq!(q.low, 0);
    assert_eq!(q.high, 6);
    assert_eq!(q.target_gap, 44);
    assert!(q.cas_risk);
}
