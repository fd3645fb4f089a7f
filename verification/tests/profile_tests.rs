use ib45_coach::models::{CoreProgress, OnboardingInput, SubjectInput};
use ib45_coach::profile::{onboarding_subjects, OnboardingError};

fn subject(name: &str, level: &str, grade: i64) -> SubjectInput {
    SubjectInput {
        name: name.to_string(),
        level: level.to_string(),
        group_number: 1,
        syllabus_version: "2021".to_string(),
        current_grade: grade,
        target_grade: 9,
    }
}

fn form(subjects: Vec<SubjectInput>) -> OnboardingInput {
    OnboardingInput {
        name: "Student".to_string(),
        exam_session: "May 2026".to_string(),
        timezone: "Asia/Bangkok".to_string(),
        weekly_capacity_minutes: 600,
        sleep_start: "23:00".to_string(),
        sleep_end: "07:00".to_string(),
        school_ai_policy: "cite".to_string(),
        subjects,
        tok_grade: "B".to_string(),
        ee_grade: "A".to_string(),
        cas_complete: false,
    }
}

#[test]
fn onboarding_needs_six_subjects_with_three_or_four_at_higher_level() {
    let six = vec![
        subject("Physics", "HL", 0),
        subject("Mathematics", "HL", 6),
        subject("Chemistry", "HL", 5),
        subject("English", "SL", 5),
        subject("French B", "SL", 4),
        subject("History", "SL", 8),
    ];
    let rows = match onboarding_subjects(&form(six)) {
        Ok(rows) => rows,
        Err(_) => panic!("a diploma profile is accepted"),
    };
    assert_eq!(rows.len(), 6);
    assert_eq!(rows[0].current_grade, 1);
    assert_eq!(rows[5].current_grade, 7);
    assert_eq!(rows[1].target_grade, 7);
    assert_eq!(rows[0].accent, "#2f6fed");
    assert_eq!(rows[5].accent, "#1387a3");

    let five: Vec<SubjectInput> = (0..5).map(|_| subject("Physics", "HL", 5)).collect();
    assert!(matches!(onboarding_subjects(&form(five)), Err(OnboardingError::SubjectCount)));
    let two_hl = vec![
        subject("A", "HL", 5),
        subject("B", "HL", 5),
        subject("C", "SL", 5),
        subject("D", "SL", 5),
        subject("E", "SL", 5),
        subject("F", "SL", 5),
    ];
    assert!(matches!(onboarding_subjects(&form(two_hl)), Err(OnboardingError::HigherLevelCount)));
    let five_hl = vec![
        subject("A", "HL", 5),
        subject("B", "HL", 5),
        subject("C", "HL", 5),
        subject("D", "HL", 5),
        subject("E", "HL", 5),
        subject("F", "SL", 5),
    ];
    assert!(matches!(onboarding_subjects(&form(five_hl)), Err(OnboardingError::HigherLevelCount)));
}

#[test]
fn core_progress_defaults_and_stored_points() {
    let initial = CoreProgress::initial();
    assert_eq!(initial.core_points, 1);
    assert_eq!(initial.tok_grade, "C");
    let stored = CoreProgress::from_stored(
        "A".to_string(),
        "B".to_string(),
        true,
        10,
        4,
        3500,
        "draft".to_string(),
        "exhibition".to_string(),
    );
    assert_eq!(stored.core_points, 3);
    assert!(stored.cas_complete);
}
