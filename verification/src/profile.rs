//! Onboarding rules and the core-progress record.
use vstd::prelude::*;
use crate::models::{CoreProgress, OnboardingInput, SubjectInput};
use crate::scoring::{core_points, core_points_for, core_points_of, grade_index};
use crate::text::{copy_text, text_equals};

verus! {

/// Why an onboarding form was refused.
pub enum OnboardingError {
    /// The profile does not hold exactly six subjects.
    SubjectCount,
    /// Fewer than three or more than four subjects are Higher Level.
    HigherLevelCount,
}

pub open spec fn is_higher_level(s: SubjectInput) -> bool {
    s.level@ == "HL"@
}

pub open spec fn higher_level_pred() -> spec_fn(SubjectInput) -> bool {
    |s: SubjectInput| is_higher_level(s)
}

/// Number of Higher Level subjects among `subjects`.
pub open spec fn higher_level_count(subjects: Seq<SubjectInput>) -> nat {
    subjects.filter(higher_level_pred()).len()
}

/// The error, if any, that onboarding reports for these subjects.
pub open spec fn onboarding_error(subjects: Seq<SubjectInput>) -> Option<OnboardingError> {
    if subjects.len() != 6 {
        Some(OnboardingError::SubjectCount)
    } else if !(3 <= higher_level_count(subjects) <= 4) {
        Some(OnboardingError::HigherLevelCount)
    } else {
        None
    }
}

/// Grade clamped into the IB range 1 to 7.
pub open spec fn clamp_grade(g: int) -> int {
    if g < 1 {
        1
    } else if g > 7 {
        7
    } else {
        g
    }
}

/// A subject as onboarding stores it.
pub struct SubjectRow {
    pub name: String,
    pub level: String,
    pub group_number: i64,
    pub syllabus_version: String,
    pub current_grade: i64,
    pub target_grade: i64,
    pub accent: String,
}

/// Accent colour of the subject at position `index` of the onboarding form.
pub open spec fn accent_for(index: int) -> Seq<char> {
    if index == 0 {
        "#2f6fed"@
    } else if index == 1 {
        "#7a5af8"@
    } else if index == 2 {
        "#0f9f75"@
    } else if index == 3 {
        "#d97706"@
    } else if index == 4 {
        "#e5484d"@
    } else {
        "#1387a3"@
    }
}

fn accent(index: usize) -> (r: String)
    requires
        index < 6,
    ensures
        r@ == accent_for(index as int),
{
    let a = if index == 0 {
        "#2f6fed"
    } else if index == 1 {
        "#7a5af8"
    } else if index == 2 {
        "#0f9f75"
    } else if index == 3 {
        "#d97706"
    } else if index == 4 {
        "#e5484d"
    } else {
        "#1387a3"
    };
    a.to_owned()
}

fn clamp(g: i64) -> (r: i64)
    ensures
        r == clamp_grade(g as int),
{
    if g < 1 {
        1
    } else if g > 7 {
        7
    } else {
        g
    }
}

/// `row` stores the subject `s` entered at position `index`.
pub open spec fn stores_subject(row: SubjectRow, s: SubjectInput, index: int) -> bool {
    &&& row.name@ == s.name@
    &&& row.level@ == s.level@
    &&& row.group_number == s.group_number
    &&& row.syllabus_version@ == s.syllabus_version@
    &&& row.current_grade == clamp_grade(s.current_grade as int)
    &&& row.target_grade == clamp_grade(s.target_grade as int)
    &&& row.accent@ == accent_for(index)
}

fn count_higher_level(subjects: &Vec<SubjectInput>) -> (r: usize)
    ensures
        r == higher_level_count(subjects@),
{
    let mut n: usize = 0;
    for i in 0..subjects.len()
        invariant
            n == higher_level_count(subjects@.take(i as int)),
            n <= i,
    {
        assert(subjects@.take(i + 1) == subjects@.take(i as int).push(subjects@[i as int]));
        proof {
            subjects@.take(i as int).lemma_filter_push(subjects@[i as int], higher_level_pred());
        }
        if text_equals(subjects[i].level.as_str(), "HL") {
            n += 1;
        }
    }
    assert(subjects@.take(subjects.len() as int) == subjects@);
    n
}

/// Checks an onboarding form and, when it is accepted, gives the six subject
/// rows to store: grades clamped to 1..7 and one accent colour per position.
pub fn onboarding_subjects(input: &OnboardingInput) -> (r: Result<Vec<SubjectRow>, OnboardingError>)
    ensures
        match onboarding_error(input.subjects@) {
            Some(e) => r == Err::<Vec<SubjectRow>, OnboardingError>(e),
            None => r matches Ok(rows) && rows@.len() == 6 && forall|i: int|
                0 <= i < 6 ==> stores_subject(#[trigger] rows@[i], input.subjects@[i], i),
        },
{
    if input.subjects.len() != 6 {
        return Err(OnboardingError::SubjectCount);
    }
    let hl = count_higher_level(&input.subjects);
    if !(3 <= hl && hl <= 4) {
        return Err(OnboardingError::HigherLevelCount);
    }
    let mut rows: Vec<SubjectRow> = Vec::new();
    for i in 0..input.subjects.len()
        invariant
            input.subjects@.len() == 6,
            rows@.len() == i,
            forall|k: int| 0 <= k < i ==> stores_subject(#[trigger] rows@[k], input.subjects@[k], k),
    {
        let s = &input.subjects[i];
        rows.push(
            SubjectRow {
                name: copy_text(&s.name),
                level: copy_text(&s.level),
                group_number: s.group_number,
                syllabus_version: copy_text(&s.syllabus_version),
                current_grade: clamp(s.current_grade),
                target_grade: clamp(s.target_grade),
                accent: accent(i),
            },
        );
    }
    Ok(rows)
}

/// An onboarding form is accepted exactly when it lists six subjects of which
/// three or four are Higher Level.
pub proof fn onboarding_accepts_exactly_diploma_profiles(subjects: Seq<SubjectInput>)
    ensures
        onboarding_error(subjects) is None <==> (subjects.len() == 6 && 3 <= higher_level_count(
            subjects,
        ) <= 4),
{
}

impl CoreProgress {
    /// The core progress assumed before any has been saved: C in TOK and EE,
    /// CAS not complete, and the one point that C/C earns.
    pub fn initial() -> (r: CoreProgress)
        ensures
            r.tok_grade@ == "C"@,
            r.ee_grade@ == "C"@,
            !r.cas_complete,
            r.cas_experiences == 0,
            r.cas_reflections == 0,
            r.ee_word_count == 0,
            r.ee_next_milestone@ == Seq::<char>::empty(),
            r.tok_next_milestone@ == Seq::<char>::empty(),
            r.core_points == 1,
    {
        CoreProgress {
            tok_grade: "C".to_owned(),
            ee_grade: "C".to_owned(),
            cas_complete: false,
            cas_experiences: 0,
            cas_reflections: 0,
            ee_word_count: 0,
            ee_next_milestone: String::new(),
            tok_next_milestone: String::new(),
            core_points: 1,
        }
    }

    /// The core progress for stored values, with its core points computed
    /// from the TOK and EE grades.
    pub fn from_stored(
        tok_grade: String,
        ee_grade: String,
        cas_complete: bool,
        cas_experiences: i64,
        cas_reflections: i64,
        ee_word_count: i64,
        ee_next_milestone: String,
        tok_next_milestone: String,
    ) -> (r: CoreProgress)
        ensures
            r.tok_grade == tok_grade,
            r.ee_grade == ee_grade,
            r.cas_complete == cas_complete,
            r.cas_experiences == cas_experiences,
            r.cas_reflections == cas_reflections,
            r.ee_word_count == ee_word_count,
            r.ee_next_milestone == ee_next_milestone,
            r.tok_next_milestone == tok_next_milestone,
            r.core_points == core_points_of(tok_grade@, ee_grade@),
    {
        let points = core_points(tok_grade.as_str(), ee_grade.as_str());
        CoreProgress {
            tok_grade,
            ee_grade,
            cas_complete,
            cas_experiences,
            cas_reflections,
            ee_word_count,
            ee_next_milestone,
            tok_next_milestone,
            core_points: points,
        }
    }
}

/// The points of the initial core progress are those that the official matrix
/// gives a C in TOK and a C in EE.
pub proof fn initial_core_points_follow_the_matrix(r: CoreProgress)
    requires
        r.tok_grade@ == "C"@,
        r.ee_grade@ == "C"@,
        r.core_points == 1,
    ensures
        r.core_points == core_points_for(r.tok_grade@, r.ee_grade@),
{
    reveal_strlit("C");
    assert("C"@.len() == 1);
    assert("C"@[0] == 'C');
    assert("C"@ =~= seq!['C']);
    assert(grade_index(r.tok_grade@) == Some(2int));
}

} // verus!
