use ib45_coach::exam::library_like_pattern;
use ib45_coach::exam::{
    attempt_uses_answer_key, best_mark_scheme, build_library, check_pdf_resource, detect_mode,
    grade_submission, identity_tokens, is_mark_scheme, matches_subject_document, pairing_score,
    parse_answer_key, pdf_payload, score_mcq, text_eq_ignore_ascii_case, validate_answer,
    validate_attempt_request, AnswerKeyItem, DocumentRow, ExamError, PdfError, Submission,
};

fn document(id: &str, title: &str, path: &str, subject: Option<&str>, year: Option<i64>) -> DocumentRow {
    DocumentRow {
        id: id.to_string(),
        title: title.to_string(),
        path: path.to_string(),
        subject_hint: subject.map(|s| s.to_string()),
        year_hint: year,
    }
}

fn score_value(paper: &DocumentRow, scheme: &DocumentRow) -> f64 {
    let s = pairing_score(paper, scheme);
    if s.union == 0 {
        return 0.0;
    }
    s.shared as f64 / s.union as f64 + if s.year_bonus { 0.18 } else { 0.0 }
}

#[test]
fn parses_dense_mcq_answer_keys() {
    let result = parse_answer_key("1 A  2 B  3 D  4 C  5 A");
    assert_eq!(result.len(), 5);
    assert_eq!(result[2].choice, "D");
}

#[test]
fn rejects_sparse_question_text_as_an_answer_key() {
    assert!(parse_answer_key("Question 1 a student writes. Later 14 B appears.").is_empty());
}

#[test]
fn pairs_question_papers_with_matching_mark_schemes() {
    let paper = document("p", "paper", r"D:\Physics\m24_physics_p1_qp.pdf", None, Some(2024));
    let scheme = document("m", "scheme", r"D:\Physics\m24_physics_p1_ms.pdf", None, Some(2024));
    assert!(score_value(&paper, &scheme) > 0.7);
}

#[test]
fn subject_filter_uses_filename_instead_of_broad_archive_folders() {
    let computer_science = document(
        "cs",
        "Computer_science_paper_1_HL",
        r"D:\Group 5 - Mathematics and Computer Science\Computer_science_paper_1_HL.pdf",
        Some("Mathematics"),
        Some(2010),
    );
    assert!(!matches_subject_document("Math AA", &computer_science));
    assert!(matches_subject_document("Computer Science", &computer_science));
}

#[test]
fn french_filter_excludes_translated_math_papers() {
    let translated_math = document(
        "m",
        "Mathematics_paper_1_HL_French",
        "D:/paper.pdf",
        Some("Mathematics"),
        Some(2010),
    );
    assert!(!matches_subject_document("French B", &translated_math));
}

#[test]
fn answer_key_keeps_question_order_and_upper_cases_choices() {
    let key = parse_answer_key("1. a 2) b 3: c 4 - d 5 A 6 B 7 C 8 D");
    let numbers: Vec<i64> = key.iter().map(|item| item.question_number).collect();
    assert_eq!(numbers, vec![1, 2, 3, 4, 5, 6, 7, 8]);
    let choices: Vec<&str> = key.iter().map(|item| item.choice.as_str()).collect();
    assert_eq!(choices, vec!["A", "B", "C", "D", "A", "B", "C", "D"]);
}

#[test]
fn mark_schemes_and_modes_are_read_from_paths() {
    assert!(is_mark_scheme(r"D:\Physics\m24_physics_p1_ms.pdf"));
    assert!(is_mark_scheme(r"D:\Physics\Mark Scheme\p1.pdf"));
    assert!(!is_mark_scheme(r"D:\Physics\m24_physics_p1_qp.pdf"));
    assert_eq!(detect_mode(r"D:\Chemistry\Paper 1A.pdf"), "mcq");
    assert_eq!(detect_mode(r"D:\Chemistry\MCQ practice.pdf"), "mcq");
    assert_eq!(detect_mode(r"D:\Chemistry\paper 2.pdf"), "theory");
}

#[test]
fn identity_tokens_drop_generic_words() {
    let mut tokens = identity_tokens(r"D:\Physics\m24_physics_p1_qp.pdf");
    tokens.sort();
    assert_eq!(tokens, vec!["m24".to_string(), "p1".to_string(), "physics".to_string()]);
}

#[test]
fn unrelated_scheme_scores_zero_overlap() {
    let paper = document("p", "paper", r"D:\Physics\m24_physics_p1_qp.pdf", None, Some(2024));
    let scheme = document("m", "scheme", r"D:\Biology\n19_biology_p3_ms.pdf", None, Some(2019));
    let s = pairing_score(&paper, &scheme);
    assert_eq!(s.shared, 0);
    assert!(!s.year_bonus);
}

#[test]
fn best_scheme_is_the_closest_match() {
    let paper = document("p", "paper", r"D:\Physics\m24_physics_p1_qp.pdf", None, Some(2024));
    let schemes = vec![
        document("far", "far", r"D:\Biology\n19_biology_p3_ms.pdf", None, Some(2019)),
        document("near", "near", r"D:\Physics\m24_physics_p1_ms.pdf", None, Some(2024)),
    ];
    let best = best_mark_scheme(&paper, &schemes);
    assert_eq!(best.map(|d| d.id.as_str()), Some("near"));
    let only_far = vec![document("far", "far", r"D:\Biology\n19_biology_p3_ms.pdf", None, Some(2019))];
    assert!(best_mark_scheme(&paper, &only_far).is_none());
}

#[test]
fn library_separates_papers_from_schemes_and_suggests_a_pairing() {
    let documents = vec![
        document("p", "m24_physics_p1_qp", r"D:\Physics\m24_physics_p1_qp.pdf", Some("Physics"), Some(2024)),
        document("m", "m24_physics_p1_ms", r"D:\Physics\m24_physics_p1_ms.pdf", Some("Physics"), Some(2024)),
        document("b", "biology_paper_2", r"D:\Biology\biology_paper_2.pdf", Some("Biology"), Some(2024)),
    ];
    let library = build_library("Physics", &documents);
    assert_eq!(library.papers.len(), 1);
    assert_eq!(library.papers[0].id, "p");
    assert_eq!(library.papers[0].suggested_mark_scheme_id.as_deref(), Some("m"));
    assert_eq!(library.mark_schemes.len(), 1);
    assert_eq!(library.mark_schemes[0].id, "m");
}

#[test]
fn attempt_requests_are_checked() {
    assert!(validate_attempt_request("mcq", 60).is_ok());
    assert!(matches!(validate_attempt_request("essay", 60), Err(ExamError::InvalidMode)));
    assert!(matches!(validate_attempt_request("theory", 0), Err(ExamError::InvalidDuration)));
    assert!(matches!(validate_attempt_request("theory", 301), Err(ExamError::InvalidDuration)));
    assert!(validate_attempt_request("theory", 300).is_ok());
    assert!(attempt_uses_answer_key("mcq", &Some("m".to_string())));
    assert!(!attempt_uses_answer_key("theory", &Some("m".to_string())));
    assert!(!attempt_uses_answer_key("mcq", &None));
}

#[test]
fn answers_are_checked() {
    assert!(validate_answer("active", "mcq", Some(3)).is_ok());
    assert!(matches!(validate_answer("submitted", "mcq", Some(3)), Err(ExamError::AlreadySubmitted)));
    assert!(matches!(validate_answer("active", "mcq", None), Err(ExamError::MissingQuestionNumber)));
    assert!(validate_answer("active", "theory", None).is_ok());
}

#[test]
fn mcq_score_counts_matching_choices_ignoring_case() {
    let key = vec![
        AnswerKeyItem { question_number: 1, choice: "A".to_string() },
        AnswerKeyItem { question_number: 2, choice: "B".to_string() },
        AnswerKeyItem { question_number: 3, choice: "C".to_string() },
    ];
    let answers = vec![(1, "a".to_string()), (2, "C".to_string()), (3, "C".to_string())];
    assert_eq!(score_mcq(&key, &answers), 2);
    assert!(score_mcq(&key, &answers) <= key.len());
    assert!(text_eq_ignore_ascii_case("Mark", "mARK"));
    assert!(!text_eq_ignore_ascii_case("Mark", "Marks"));
}

#[test]
fn submissions_are_graded_by_mode() {
    let key = vec![
        AnswerKeyItem { question_number: 1, choice: "A".to_string() },
        AnswerKeyItem { question_number: 2, choice: "B".to_string() },
    ];
    let answers = vec![(1, "A".to_string())];
    match grade_submission("active", "mcq", &key, &answers) {
        Submission::Graded { score, max_score } => {
            assert_eq!(score, 1);
            assert_eq!(max_score, 2);
        }
        _ => panic!("a keyed multiple-choice attempt is graded at once"),
    }
    assert!(matches!(grade_submission("active", "theory", &key, &answers), Submission::AwaitingManual));
    assert!(matches!(grade_submission("active", "mcq", &Vec::new(), &answers), Submission::AwaitingManual));
    assert!(matches!(grade_submission("submitted", "mcq", &key, &answers), Submission::Unchanged));
}

#[test]
fn pdf_resources_are_checked_in_order() {
    assert!(check_pdf_resource("PDF", r"D:\Papers\p1.pdf", 1024).is_ok());
    assert!(matches!(check_pdf_resource("docx", r"D:\Papers\p1.docx", 10), Err(PdfError::NotAPdf)));
    assert!(matches!(check_pdf_resource("pdf", r"C:\Papers\p1.pdf", 10), Err(PdfError::OffDriveD)));
    assert!(matches!(
        check_pdf_resource("pdf", r"D:\Papers\p1.pdf", 80 * 1024 * 1024 + 1),
        Err(PdfError::TooLarge)
    ));
    assert!(check_pdf_resource("pdf", r"D:\Papers\p1.pdf", 80 * 1024 * 1024).is_ok());
}

#[test]
fn pdf_payload_encodes_bytes_in_standard_base64() {
    let payload = pdf_payload("doc".to_string(), "Paper".to_string(), b"%PDF-1.4\xff");
    assert_eq!(payload.document_id, "doc");
    assert_eq!(payload.title, "Paper");
    assert_eq!(payload.data_base64, "JVBERi0xLjT/");
}

#[test]
fn library_queries_are_trimmed_and_lower_cased() {
    assert_eq!(library_like_pattern("  Paper 1 "), "%paper 1%");
    assert_eq!(library_like_pattern("   "), "%%");
}

#[test]
fn answer_keys_must_be_dense_and_start_at_one() {
    let key = parse_answer_key("1 A 2 B 3 C 5 D");
    let numbers: Vec<i64> = key.iter().map(|item| item.question_number).collect();
    assert_eq!(numbers, vec![1, 2, 3, 5]);
    assert!(parse_answer_key("1 A 2 B 5 C 6 D").is_empty());
    assert!(parse_answer_key("2 A 3 B 4 C").is_empty());
    assert!(parse_answer_key("1 A 2 B").is_empty());
    let repeated = parse_answer_key("1 A 2 B 3 C 1 D");
    assert_eq!(repeated[0].choice, "A");
}
