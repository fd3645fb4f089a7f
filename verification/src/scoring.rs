//! The official TOK/EE core-points matrix and the points projection.
use vstd::prelude::*;
use crate::text::{chars_of, string_of, to_uppercase, trim_chars, trim_text, uppercase};

verus! {

/// Position of a TOK or EE letter grade in the core matrix: A is 0 and E is 4.
pub open spec fn grade_index(upper: Seq<char>) -> Option<int> {
    if upper == seq!['A'] {
        Some(0)
    } else if upper == seq!['B'] {
        Some(1)
    } else if upper == seq!['C'] {
        Some(2)
    } else if upper == seq!['D'] {
        Some(3)
    } else if upper == seq!['E'] {
        Some(4)
    } else {
        None
    }
}

/// The official IB core matrix: rows are the EE grade, columns the TOK grade.
pub open spec fn core_matrix() -> Seq<Seq<int>> {
    seq![
        seq![3, 3, 2, 2, 0],
        seq![3, 2, 2, 1, 0],
        seq![2, 2, 1, 0, 0],
        seq![2, 1, 0, 0, 0],
        seq![0, 0, 0, 0, 0],
    ]
}

/// Core points for TOK and EE grades already in upper case; 0 when either
/// grade is not one of A to E.
pub open spec fn core_points_for(tok_upper: Seq<char>, ee_upper: Seq<char>) -> int {
    match (grade_index(ee_upper), grade_index(tok_upper)) {
        (Some(ee), Some(tok)) => core_matrix()[ee][tok],
        _ => 0,
    }
}

/// Core points as `core_points` computes them from the raw grade texts.
pub open spec fn core_points_of(tok: Seq<char>, ee: Seq<char>) -> int {
    core_points_for(uppercase(trim_text(tok)), uppercase(trim_text(ee)))
}

fn letter_index(upper: &str) -> (r: Option<usize>)
    ensures
        match grade_index(upper@) {
            Some(i) => r == Some(i as usize),
            None => r is None,
        },
{
    let v = chars_of(upper);
    if v.len() != 1 {
        return None;
    }
    assert(v@ =~= seq![v@[0]]);
    let c = v[0];
    if c == 'A' {
        Some(0)
    } else if c == 'B' {
        Some(1)
    } else if c == 'C' {
        Some(2)
    } else if c == 'D' {
        Some(3)
    } else if c == 'E' {
        Some(4)
    } else {
        None
    }
}

fn matrix_points(ee: usize, tok: usize) -> (r: i64)
    requires
        ee < 5,
        tok < 5,
    ensures
        r == core_matrix()[ee as int][tok as int],
{
    let row: [i64; 5] = if ee == 0 {
        [3, 3, 2, 2, 0]
    } else if ee == 1 {
        [3, 2, 2, 1, 0]
    } else if ee == 2 {
        [2, 2, 1, 0, 0]
    } else if ee == 3 {
        [2, 1, 0, 0, 0]
    } else {
        [0, 0, 0, 0, 0]
    };
    row[tok]
}

/// Core points for TOK and EE grades that are already upper-cased.
pub fn core_points_from_letters(tok_upper: &str, ee_upper: &str) -> (r: i64)
    ensures
        r == core_points_for(tok_upper@, ee_upper@),
{
    match (letter_index(ee_upper), letter_index(tok_upper)) {
        (Some(ee), Some(tok)) => matrix_points(ee, tok),
        _ => 0,
    }
}

fn upper_trimmed(value: &str) -> (r: String)
    ensures
        r@ == uppercase(trim_text(value@)),
{
    let trimmed = string_of(&trim_chars(&chars_of(value)));
    to_uppercase(trimmed.as_str())
}

/// Core points earned by a TOK grade and an EE grade (each "A" to "E",
/// surrounding white space and letter case ignored); 0 for anything else.
pub fn core_points(tok: &str, ee: &str) -> (r: i64)
    ensures
        r == core_points_of(tok@, ee@),
{
    let tok_upper = upper_trimmed(tok);
    let ee_upper = upper_trimmed(ee);
    core_points_from_letters(tok_upper.as_str(), ee_upper.as_str())
}

} // verus!

verus! {

/// Swapping the TOK and EE grades never changes the core points: the official
/// matrix is symmetric.
pub proof fn core_points_symmetric(a: Seq<char>, b: Seq<char>)
    ensures
        core_points_for(a, b) == core_points_for(b, a),
        core_points_of(a, b) == core_points_of(b, a),
{
}

/// The core never earns fewer than 0 or more than 3 points.
pub proof fn core_points_bounded(tok: Seq<char>, ee: Seq<char>)
    ensures
        0 <= core_points_for(tok, ee) <= 3,
        0 <= core_points_of(tok, ee) <= 3,
{
}

/// An E in either component, or a grade that is not A to E, earns no core points.
pub proof fn failing_core_component_earns_nothing(tok: Seq<char>, ee: Seq<char>)
    requires
        grade_index(tok) is None || grade_index(ee) is None || grade_index(tok) == Some(4int)
            || grade_index(ee) == Some(4int),
    ensures
        core_points_for(tok, ee) == 0,
{
}

/// Improving either grade never lowers the core points.
pub proof fn core_points_monotone(tok: Seq<char>, ee: Seq<char>, tok2: Seq<char>, ee2: Seq<char>)
    requires
        grade_index(tok) is Some,
        grade_index(ee) is Some,
        grade_index(tok2) is Some,
        grade_index(ee2) is Some,
        grade_index(tok2)->0 <= grade_index(tok)->0,
        grade_index(ee2)->0 <= grade_index(ee)->0,
    ensures
        core_points_for(tok2, ee2) >= core_points_for(tok, ee),
{
}

/// Sum of a list of grades.
pub open spec fn grade_sum(grades: Seq<i64>) -> int
    decreases grades.len(),
{
    if grades.len() == 0 {
        0
    } else {
        grade_sum(grades.drop_last()) + grades.last()
    }
}

/// Every running total of `grades` fits in an `i64`.
pub open spec fn grade_sums_fit(grades: Seq<i64>) -> bool {
    forall|k: int|
        0 <= k <= grades.len() ==> i64::MIN <= #[trigger] grade_sum(grades.take(k)) <= i64::MAX
}

/// The subject points of a profile: the sum of the subjects' current grades.
pub fn subject_points(grades: &Vec<i64>) -> (r: i64)
    requires
        grade_sums_fit(grades@),
    ensures
        r == grade_sum(grades@),
{
    let mut total: i64 = 0;
    for i in 0..grades.len()
        invariant
            total == grade_sum(grades@.take(i as int)),
            grade_sums_fit(grades@),
    {
        assert(grades@.take(i + 1).drop_last() == grades@.take(i as int));
        assert(i64::MIN <= grade_sum(grades@.take(i + 1)) <= i64::MAX);
        total = total + grades[i];
    }
    assert(grades@.take(grades.len() as int) == grades@);
    total
}

/// The whole-number part of the dashboard projection.
pub struct PointsProjection {
    pub subject_points: i64,
    pub core_points: i64,
    pub total_points: i64,
    pub low: i64,
    pub high: i64,
    pub target_gap: i64,
    pub cas_risk: bool,
}

pub open spec fn max_int(a: int, b: int) -> int {
    if a >= b {
        a
    } else {
        b
    }
}

pub open spec fn min_int(a: int, b: int) -> int {
    if a <= b {
        a
    } else {
        b
    }
}

/// Projects a diploma total out of 45 from subject and core points, widened by
/// `spread` points of uncertainty on each side and capped at 0 and 45.
pub fn project_points(subject_points: i64, core_points: i64, spread: i64, cas_complete: bool) -> (p:
    PointsProjection)
    requires
        i64::MIN <= subject_points + core_points <= i64::MAX,
        i64::MIN <= subject_points + core_points - spread <= i64::MAX,
        i64::MIN <= subject_points + core_points + spread <= i64::MAX,
        i64::MIN <= 45 - (subject_points + core_points) <= i64::MAX,
    ensures
        p.subject_points == subject_points,
        p.core_points == core_points,
        p.total_points == subject_points + core_points,
        p.low == max_int(subject_points + core_points - spread, 0),
        p.high == min_int(subject_points + core_points + spread, 45),
        p.target_gap == max_int(45 - (subject_points + core_points), 0),
        p.cas_risk == !cas_complete,
{
    let total_points = subject_points + core_points;
    let low = total_points - spread;
    let high = total_points + spread;
    let gap = 45 - total_points;
    PointsProjection {
        subject_points,
        core_points,
        total_points,
        low: if low >= 0 {
            low
        } else {
            0
        },
        high: if high <= 45 {
            high
        } else {
            45
        },
        target_gap: if gap >= 0 {
            gap
        } else {
            0
        },
        cas_risk: !cas_complete,
    }
}

/// For a total between 0 and 45 and a non-negative spread, the projected range
/// lies within 0 to 45 and contains the total, and the gap to 45 is exact.
pub proof fn projection_range_contains_total(
    subject_points: int,
    core_points: int,
    spread: int,
)
    requires
        0 <= subject_points + core_points <= 45,
        0 <= spread,
    ensures
        0 <= max_int(subject_points + core_points - spread, 0) <= subject_points + core_points,
        subject_points + core_points <= min_int(subject_points + core_points + spread, 45) <= 45,
        max_int(45 - (subject_points + core_points), 0) + subject_points + core_points == 45,
{
}

} // verus!
