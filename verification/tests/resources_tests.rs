use ib45_coach::resources::docx_text;
use ib45_coach::resources::fallback_like_pattern;
use ib45_coach::models::IndexStatus;
use ib45_coach::resources::{
    chunk_text, classify_extraction, extraction_method, file_digest, file_type, fts_query,
    index_roots, infer_metadata, resource_title, search_limit, sort_newest_first, strip_markup,
    supported, ExtractionMethod, IndexOutcome, ResourceIndexer, WorkerStep,
};

#[test]
fn chunks_overlap_without_losing_text() {
    let value = "a".repeat(5000);
    let chunks = chunk_text(&value, 1800, 180);
    assert_eq!(chunks.len(), 3);
    assert!(chunks.iter().all(|chunk| !chunk.is_empty()));
}

#[test]
fn metadata_is_inferred_conservatively() {
    let (subject, year) = infer_metadata(r"D:\IB Past Papers\Physics\2024.pdf");
    assert_eq!(subject.as_deref(), Some("Physics"));
    assert_eq!(year, Some(2024));
}

#[test]
fn extraction_queue_prioritizes_newest_exam_sessions() {
    let mut files = vec![
        r"D:\IB Past Papers\2010 Examination Session\old.pdf".to_string(),
        r"D:\IB Past Papers\2025 Examination Session\new.pdf".to_string(),
        r"D:\IB Past Papers\2023 Examination Session\middle.pdf".to_string(),
    ];
    sort_newest_first(&mut files);
    assert!(files[0].contains("2025"));
    assert!(files[2].contains("2010"));
}

#[test]
fn chunks_cover_the_text_with_the_stated_overlap() {
    let value: String = (0..4000).map(|i| char::from(b'a' + (i % 26) as u8)).collect();
    let chunks = chunk_text(&value, 1800, 180);
    assert_eq!(chunks.len(), 3);
    assert_eq!(chunks[0].chars().count(), 1800);
    assert_eq!(chunks[1].chars().count(), 1800);
    assert_eq!(chunks[2].chars().count(), 4000 - 2 * 1620);
    let mut rejoined = chunks[0].clone();
    for chunk in &chunks[1..] {
        rejoined.extend(chunk.chars().skip(180));
    }
    assert_eq!(rejoined, value);
    assert!(chunk_text("", 1800, 180).is_empty());
    assert_eq!(chunk_text("short", 1800, 180), vec!["short".to_string()]);
}

#[test]
fn metadata_needs_a_plausible_four_digit_year() {
    assert_eq!(infer_metadata(r"D:\Biology\paper 1999.pdf"), (Some("Biology".to_string()), None));
    assert_eq!(infer_metadata(r"D:\Misc\20245 notes.pdf"), (None, None));
    assert_eq!(infer_metadata(r"D:\Econ\economics_2019_2021.pdf"), (Some("Economics".to_string()), Some(2019)));
    assert_eq!(infer_metadata(r"D:\TOK\essay.pdf").0.as_deref(), Some("Theory of Knowledge"));
    assert_eq!(infer_metadata(r"D:\Maths\Mathematics physics 2100.pdf"), (Some("Mathematics".to_string()), Some(2100)));
}

#[test]
fn newest_first_breaks_ties_by_descending_path() {
    let mut files = vec![
        r"D:\P\2024\a.pdf".to_string(),
        r"D:\P\notes.pdf".to_string(),
        r"D:\P\2024\c.pdf".to_string(),
        r"D:\P\2024\b.pdf".to_string(),
    ];
    sort_newest_first(&mut files);
    assert_eq!(
        files,
        vec![
            r"D:\P\2024\c.pdf".to_string(),
            r"D:\P\2024\b.pdf".to_string(),
            r"D:\P\2024\a.pdf".to_string(),
            r"D:\P\notes.pdf".to_string(),
        ]
    );
}

#[test]
fn supported_types_and_titles() {
    assert!(supported(r"D:\Papers\P1.PDF"));
    assert!(supported(r"D:\Papers\notes.md"));
    assert!(!supported(r"D:\Papers\movie.mp4"));
    assert!(!supported(r"D:\Papers\README"));
    assert_eq!(file_type(r"D:\Papers\P1.PDF"), "pdf");
    assert_eq!(file_type(r"D:\Papers\README"), "");
    assert_eq!(resource_title(r"D:\Papers\physics_p1.pdf"), "physics_p1");
    assert_eq!(resource_title(r"D:\Papers\.."), "Untitled resource");
}

#[test]
fn markup_is_stripped_to_text() {
    assert_eq!(strip_markup("<p>Hello <b>IB</b></p>"), " Hello  IB  ");
    assert_eq!(strip_markup("no tags"), "no tags");
    assert!(!strip_markup("a <b c> d >").contains('<'));
}

#[test]
fn extraction_results_are_classified() {
    let long = "x".repeat(40);
    let ready = classify_extraction(Ok(format!("  {long}  ")), "txt");
    assert_eq!(ready.state, "ready");
    assert_eq!(ready.text, format!("  {long}  "));
    let ocr = classify_extraction(Ok("short".to_string()), "png");
    assert_eq!(ocr.state, "ocr_pending");
    assert!(ocr.text.is_empty());
    let meta = classify_extraction(Ok("short".to_string()), "txt");
    assert_eq!(meta.state, "metadata");
    let failed = classify_extraction(Err("broken".to_string()), "pdf");
    assert_eq!(failed.state, "failed");
    assert_eq!(failed.error.as_deref(), Some("broken"));
}

#[test]
fn extraction_methods_follow_the_file_type() {
    assert_eq!(extraction_method("pdf"), ExtractionMethod::Pdf);
    assert_eq!(extraction_method("docx"), ExtractionMethod::Docx);
    assert_eq!(extraction_method("tsv"), ExtractionMethod::PlainText);
    assert_eq!(extraction_method("htm"), ExtractionMethod::Markup);
    assert_eq!(extraction_method("webp"), ExtractionMethod::Ocr);
    assert_eq!(extraction_method("mp4"), ExtractionMethod::NoText);
}

#[test]
fn identical_bytes_share_a_fingerprint() {
    assert_eq!(
        file_digest(b"abc"),
        "ba7816bf8f01cfea414140de5dae2223b00361a396177a9cb410ff61f20015ad"
    );
    assert_eq!(file_digest(b"same"), file_digest(b"same"));
    assert_ne!(file_digest(b"same"), file_digest(b"other"));
}

#[test]
fn search_queries_and_limits() {
    assert_eq!(fts_query("cell \"membrane\"  transport"), "\"cell\" OR \"membrane\" OR \"transport\"");
    assert_eq!(fts_query("   "), "");
    assert_eq!(search_limit(None), 50);
    assert_eq!(search_limit(Some(0)), 1);
    assert_eq!(search_limit(Some(500)), 200);
    assert_eq!(search_limit(Some(20)), 20);
}

#[test]
fn default_roots_are_the_library_folders() {
    assert_eq!(index_roots(vec![r"D:\Mine".to_string()]), vec![r"D:\Mine".to_string()]);
    assert_eq!(index_roots(Vec::new()).len(), 4);
    assert_eq!(index_roots(Vec::new())[0], r"D:\IB Past Papers");
}

fn status_of(indexer: &ResourceIndexer) -> IndexStatus {
    indexer.status()
}

#[test]
fn indexer_runs_count_outcomes_and_start_only_once() {
    let mut indexer = ResourceIndexer::default();
    assert!(!status_of(&indexer).running);
    assert!(indexer.begin("2025-01-01T00:00:00Z".to_string()));
    assert!(!indexer.begin("2025-01-02T00:00:00Z".to_string()));
    assert_eq!(status_of(&indexer).started_at.as_deref(), Some("2025-01-01T00:00:00Z"));
    indexer.files_found(3);
    assert_eq!(status_of(&indexer).current_file, "Registering metadata for 3 files");
    indexer.metadata_progress(200, 450);
    assert_eq!(status_of(&indexer).current_file, "Registering paper metadata · 200 / 450");
    indexer.metadata_progress(201, 450);
    assert_eq!(status_of(&indexer).current_file, "Registering paper metadata · 200 / 450");
    assert_eq!(indexer.next_file_step(), WorkerStep::Proceed);
    assert!(indexer.begin_file("a.pdf".to_string()));
    assert_eq!(status_of(&indexer).current_file, "a.pdf");
    assert!(!indexer.begin_file("b.pdf".to_string()));
    indexer.record(IndexOutcome::Indexed);
    indexer.record(IndexOutcome::Indexed);
    assert!(indexer.begin_file("b.pdf".to_string()));
    indexer.record(IndexOutcome::Skipped);
    indexer.record_catalog_failure();
    indexer.record_catalog_failure();
    let status = status_of(&indexer);
    assert_eq!((status.scanned, status.indexed, status.skipped, status.failed), (3, 1, 1, 1));
    assert!(!indexer.files_found(10));
    assert_eq!(status_of(&indexer).scanned, 3);
    indexer.set_paused(true);
    assert!(indexer.is_paused());
    indexer.set_paused(false);
    assert!(!indexer.pause_if_low_on_space(None));
    assert!(!indexer.pause_if_low_on_space(Some(20 * 1024 * 1024 * 1024)));
    assert!(indexer.pause_if_low_on_space(Some(1024)));
    assert!(indexer.is_paused());
    indexer.cancel();
    assert!(indexer.is_cancelled());
    indexer.finish();
    let status = status_of(&indexer);
    assert!(!status.running);
    assert_eq!(status.current_file, "");
    assert!(indexer.begin("2025-02-01T00:00:00Z".to_string()));
    assert!(!indexer.is_cancelled());
    assert!(!indexer.is_paused());
    assert_eq!(status_of(&indexer).indexed, 0);
}

#[test]
fn files_of_equal_rank_keep_their_order() {
    let mut files = vec![
        r"D:\P\2024\x.pdf".to_string(),
        r"D:/P/2024/x.pdf".to_string(),
        r"D:\P\2023\y.pdf".to_string(),
    ];
    sort_newest_first(&mut files);
    assert_eq!(
        files,
        vec![
            r"D:\P\2024\x.pdf".to_string(),
            r"D:/P/2024/x.pdf".to_string(),
            r"D:\P\2023\y.pdf".to_string(),
        ]
    );
    let mut swapped = vec![r"D:/P/2024/x.pdf".to_string(), r"D:\P\2024\x.pdf".to_string()];
    sort_newest_first(&mut swapped);
    assert_eq!(swapped, vec![r"D:/P/2024/x.pdf".to_string(), r"D:\P\2024\x.pdf".to_string()]);
}

#[test]
fn title_search_falls_back_to_a_like_pattern() {
    assert_eq!(fallback_like_pattern("Paper 1"), "%Paper 1%");
}

#[test]
fn quotes_inside_search_words_are_dropped() {
    let query = fts_query("a\"b \"\"\" c");
    assert_eq!(query, "\"ab\" OR \"\" OR \"c\"");
    assert_eq!(query.matches('"').count(), 2 * 3);
}

#[test]
fn a_cancelled_run_indexes_at_most_the_awaited_file() {
    let mut indexer = ResourceIndexer::default();
    assert!(indexer.begin("2025-03-01T00:00:00Z".to_string()));
    assert!(indexer.files_found(5));
    indexer.set_paused(true);
    assert_eq!(indexer.next_file_step(), WorkerStep::Wait);
    assert_eq!(indexer.next_batch_step(), WorkerStep::Wait);
    assert_eq!(indexer.file_step_after_wait(), WorkerStep::Wait);
    indexer.cancel();
    assert_eq!(indexer.batch_step_after_wait(), WorkerStep::Stop);
    assert_eq!(indexer.file_step_after_wait(), WorkerStep::Proceed);
    assert!(indexer.begin_file("awaited.pdf".to_string()));
    indexer.record(IndexOutcome::Failed);
    assert_eq!(indexer.next_file_step(), WorkerStep::Stop);
    indexer.finish();
    let status = status_of(&indexer);
    assert_eq!(status.indexed + status.skipped + status.failed, 1);
    assert!(!status.running);
    assert_eq!(status.current_file, "");
}

#[test]
fn a_run_stops_when_every_found_file_is_done() {
    let mut indexer = ResourceIndexer::default();
    assert!(indexer.begin("2025-03-01T00:00:00Z".to_string()));
    assert!(indexer.files_found(1));
    assert!(indexer.begin_file("only.pdf".to_string()));
    indexer.record(IndexOutcome::Indexed);
    assert_eq!(indexer.next_file_step(), WorkerStep::Stop);
    assert!(!indexer.begin_file("extra.pdf".to_string()));
}

#[test]
fn docx_text_joins_text_runs_with_spaces() {
    let xml = "<w:document>\n  <w:body><w:p><w:r><w:t>Hello</w:t></w:r><w:r><w:t>IB</w:t></w:r></w:p></w:body>\n</w:document>";
    assert_eq!(docx_text(xml).as_deref(), Ok("Hello IB "));
    assert_eq!(docx_text("<w:document/>").as_deref(), Ok(""));
    assert!(docx_text("<a><b></a>").is_err());
}

#[test]
fn same_year_paths_follow_windows_path_order() {
    let mut files = vec![r"d:\a".to_string(), r"D:\b".to_string()];
    sort_newest_first(&mut files);
    assert_eq!(files, vec![r"D:\b".to_string(), r"d:\a".to_string()]);

    let mut files = vec![r"D:\-x".to_string(), r"D:\..\b".to_string()];
    sort_newest_first(&mut files);
    assert_eq!(files, vec![r"D:\-x".to_string(), r"D:\..\b".to_string()]);

    let mut files = vec![r"D:\x".to_string(), r"\\server\share\x".to_string(), r"D:/x/y".to_string()];
    sort_newest_first(&mut files);
    assert_eq!(
        files,
        vec![r"D:/x/y".to_string(), r"D:\x".to_string(), r"\\server\share\x".to_string()]
    );
}

#[test]
fn titles_follow_windows_file_names() {
    assert_eq!(resource_title(r"D:foo.pdf"), "foo");
    assert_eq!(resource_title(r"\\server\share"), "Untitled resource");
    assert_eq!(resource_title(r"\\?\D:\Papers\m24.pdf"), "m24");
}
