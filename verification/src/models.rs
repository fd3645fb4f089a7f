//! The records that the coach exchanges with its user interface.
use vstd::prelude::*;

verus! {

/// The student's profile as stored after onboarding.
pub struct StudentProfile {
    pub id: String,
    pub name: String,
    pub exam_session: String,
    pub timezone: String,
    pub weekly_capacity_minutes: i64,
    pub sleep_start: String,
    pub sleep_end: String,
    pub school_ai_policy: String,
    pub onboarding_complete: bool,
}

/// One of the six subjects entered during onboarding.
pub struct SubjectInput {
    pub name: String,
    pub level: String,
    pub group_number: i64,
    pub syllabus_version: String,
    pub current_grade: i64,
    pub target_grade: i64,
}

/// Everything the onboarding form submits.
pub struct OnboardingInput {
    pub name: String,
    pub exam_session: String,
    pub timezone: String,
    pub weekly_capacity_minutes: i64,
    pub sleep_start: String,
    pub sleep_end: String,
    pub school_ai_policy: String,
    pub subjects: Vec<SubjectInput>,
    pub tok_grade: String,
    pub ee_grade: String,
    pub cas_complete: bool,
}

/// TOK, EE and CAS progress with the core points it earns.
pub struct CoreProgress {
    pub tok_grade: String,
    pub ee_grade: String,
    pub cas_complete: bool,
    pub cas_experiences: i64,
    pub cas_reflections: i64,
    pub ee_word_count: i64,
    pub ee_next_milestone: String,
    pub tok_next_milestone: String,
    pub core_points: i64,
}

/// A change to the core progress.
pub struct CoreUpdate {
    pub tok_grade: String,
    pub ee_grade: String,
    pub cas_complete: bool,
    pub cas_experiences: i64,
    pub cas_reflections: i64,
    pub ee_word_count: i64,
    pub ee_next_milestone: String,
    pub tok_next_milestone: String,
}

/// Progress of the resource indexer.
pub struct IndexStatus {
    pub running: bool,
    pub paused: bool,
    pub scanned: u64,
    pub indexed: u64,
    pub skipped: u64,
    pub failed: u64,
    pub current_file: String,
    pub started_at: Option<String>,
}

/// Which optional integrations are configured.
pub struct SecretStatus {
    pub openai_configured: bool,
    pub google_configured: bool,
    pub google_connected: bool,
    pub ollama_available: bool,
}

/// A Google calendar and what the coach may do with it.
pub struct CalendarBinding {
    pub calendar_id: String,
    pub name: String,
    pub selected: bool,
    pub auto_edit: bool,
    pub is_coach_calendar: bool,
    pub event_count: i64,
}

/// The calendar connection as the settings page shows it.
pub struct CalendarStatus {
    pub connected: bool,
    pub account_email: Option<String>,
    pub last_sync_at: Option<String>,
    pub bindings: Vec<CalendarBinding>,
}

/// A study block to place in a calendar.
pub struct StudyBlockInput {
    pub task_id: String,
    pub calendar_id: String,
    pub title: String,
    pub start_at: String,
    pub end_at: String,
    pub description: String,
}

/// A past paper offered in the exam lab.
pub struct ExamPaperCandidate {
    pub id: String,
    pub title: String,
    pub path: String,
    pub subject_hint: Option<String>,
    pub year_hint: Option<i64>,
    pub detected_mode: String,
    pub suggested_mark_scheme_id: Option<String>,
    pub suggested_mark_scheme_title: Option<String>,
}

/// A mark scheme offered in the exam lab.
pub struct ExamMarkSchemeCandidate {
    pub id: String,
    pub title: String,
    pub path: String,
    pub year_hint: Option<i64>,
}

/// The papers and mark schemes of one subject.
pub struct ExamLibrary {
    pub papers: Vec<ExamPaperCandidate>,
    pub mark_schemes: Vec<ExamMarkSchemeCandidate>,
}

/// A request to start a timed exam attempt.
pub struct ExamAttemptInput {
    pub subject_id: String,
    pub paper_document_id: String,
    pub mark_scheme_document_id: Option<String>,
    pub mode: String,
    pub duration_minutes: i64,
}

/// A PDF handed to the exam viewer.
pub struct ExamPdfPayload {
    pub document_id: String,
    pub title: String,
    pub data_base64: String,
}

} // verus!
