use ib45_coach::calendar::event_row;
use ib45_coach::calendar::calendar_name;
use ib45_coach::calendar::is_coach_calendar_name;
use ib45_coach::calendar::study_block_event_id;
use ib45_coach::calendar::{
    binding_flags, may_schedule, pkce_challenge, pkce_verifier, read_redirect, redirect_outcome,
    redirect_page_text, request_target, token_expires_at, token_is_fresh, EventSync,
    RedirectError, RedirectOutcome, SyncStep,
};

#[test]
fn coach_calendar_stays_selected_and_editable() {
    assert_eq!(binding_flags(false, false, true), (true, true));
    assert_eq!(binding_flags(true, false, false), (true, false));
    assert!(may_schedule(Some(binding_flags(false, false, true))));
    assert!(!may_schedule(Some((true, false))));
    assert!(!may_schedule(Some((false, true))));
    assert!(may_schedule(Some((true, true))));
    assert!(!may_schedule(None));
}

#[test]
fn tokens_expire_a_minute_early() {
    assert_eq!(token_expires_at(1000, None), 1000 + 3600 - 60);
    assert_eq!(token_expires_at(1000, Some(100)), 1040);
    assert!(token_is_fresh(1031, 1000));
    assert!(!token_is_fresh(1030, 1000));
}

#[test]
fn event_sync_restarts_once_after_an_expired_token() {
    let mut sync = EventSync::new(Some("stored".to_string()));
    let first = sync.next_request();
    assert_eq!(first.sync_token.as_deref(), Some("stored"));
    assert!(!first.full_window);
    assert!(first.page_token.is_none());

    assert!(matches!(sync.on_response(true, false, None, None), SyncStep::RestartFull));
    let second = sync.next_request();
    assert!(second.sync_token.is_none());
    assert!(second.full_window);

    assert!(matches!(sync.on_response(true, false, None, None), SyncStep::Failed));
    assert!(matches!(
        sync.on_response(false, true, Some("page2".to_string()), Some("s1".to_string())),
        SyncStep::StoreAndContinue
    ));
    assert_eq!(sync.next_request().page_token.as_deref(), Some("page2"));
    assert!(matches!(sync.on_response(false, true, None, None), SyncStep::StoreAndFinish));
    assert_eq!(sync.final_sync_token.as_deref(), Some("s1"));
}

#[test]
fn first_read_without_a_token_uses_the_full_window() {
    let sync = EventSync::new(None);
    let request = sync.next_request();
    assert!(request.full_window);
    assert!(request.sync_token.is_none());
}

#[test]
fn request_targets_come_from_the_first_line() {
    assert_eq!(
        request_target("GET /?code=1 HTTP/1.1\r\nHost: 127.0.0.1\r\n\r\n").as_deref(),
        Some("/?code=1")
    );
    assert_eq!(request_target("GET\r\n"), None);
    assert_eq!(request_target(""), None);
    assert_eq!(request_target("  GET   /x  ").as_deref(), Some("/x"));
}

#[test]
fn redirects_are_judged_by_state_error_and_code() {
    let ok = read_redirect("GET /?state=abc&code=xyz HTTP/1.1\r\n\r\n", "abc");
    assert!(matches!(ok, Ok(RedirectOutcome::Authorized(ref c)) if c == "xyz"));
    let mismatch = read_redirect("GET /?state=zzz&code=xyz HTTP/1.1\r\n\r\n", "abc");
    assert!(matches!(mismatch, Ok(RedirectOutcome::StateMismatch)));
    let missing_state = read_redirect("GET /?code=xyz HTTP/1.1\r\n\r\n", "abc");
    assert!(matches!(missing_state, Ok(RedirectOutcome::StateMismatch)));
    let cancelled = read_redirect("GET /?state=abc&error=access_denied HTTP/1.1\r\n\r\n", "abc");
    assert!(matches!(cancelled, Ok(RedirectOutcome::Cancelled(ref e)) if e == "access_denied"));
    let no_code = read_redirect("GET /?state=abc HTTP/1.1\r\n\r\n", "abc");
    assert!(matches!(no_code, Ok(RedirectOutcome::NoCode)));
    assert!(matches!(read_redirect("", "abc"), Err(RedirectError::InvalidRequest)));
    let decoded = read_redirect("GET /?state=a%20b&code=x%2By HTTP/1.1\r\n\r\n", "a b");
    assert!(matches!(decoded, Ok(RedirectOutcome::Authorized(ref c)) if c == "x+y"));
}

#[test]
fn later_parameters_replace_earlier_ones() {
    let pairs = vec![
        ("state".to_string(), "old".to_string()),
        ("code".to_string(), "1".to_string()),
        ("state".to_string(), "new".to_string()),
    ];
    assert!(matches!(redirect_outcome(&pairs, "new"), RedirectOutcome::Authorized(ref c) if c == "1"));
    assert!(matches!(redirect_outcome(&pairs, "old"), RedirectOutcome::StateMismatch));
}

#[test]
fn redirect_pages_name_the_outcome() {
    assert_eq!(
        redirect_page_text(&RedirectOutcome::StateMismatch),
        Some("Authorization was rejected because the security state did not match.")
    );
    assert_eq!(redirect_page_text(&RedirectOutcome::NoCode), None);
    assert!(redirect_page_text(&RedirectOutcome::Authorized("c".to_string())).is_some());
}

#[test]
fn pkce_values_follow_rfc_7636() {
    assert_eq!(
        pkce_challenge("dBjftJeZ4CVP-mB92K27uhbUJU1p1r_wW1gFWFOEjXk"),
        "E9Melhoa2OwvFrEMTJguCHaoeK1t8URWbuGJSstw-cM"
    );
    assert_eq!(pkce_verifier(&[0xfb, 0xff, 0x01]), "-_8B");
    assert_eq!(pkce_verifier(&[0u8; 48]).len(), 64);
}

#[test]
fn calendar_names_and_study_block_ids() {
    assert_eq!(calendar_name(None), "Untitled calendar");
    assert_eq!(calendar_name(Some("Work".to_string())), "Work");
    assert!(is_coach_calendar_name("IB 45 Coach"));
    assert!(!is_coach_calendar_name("ib 45 coach"));
    assert_eq!(study_block_event_id("0a1b"), "ib450a1b");
}

#[test]
fn event_rows_take_defaults_and_prefer_date_times() {
    let row = event_row(None, Some(Some("2025-05-01T09:00:00Z".to_string())), Some("2025-05-01".to_string()), None, Some("2025-05-02".to_string()), Some(0), None);
    assert_eq!(row.summary, "Busy");
    assert_eq!(row.start_at.as_deref(), Some("2025-05-01T09:00:00Z"));
    assert_eq!(row.end_at.as_deref(), Some("2025-05-02"));
    assert!(!row.has_attendees);
    assert_eq!(row.status, "confirmed");
    let other = event_row(Some("Exam".to_string()), Some(None), Some("2025-05-01".to_string()), None, None, Some(2), Some("cancelled".to_string()));
    assert_eq!(other.summary, "Exam");
    assert_eq!(other.start_at, None);
    assert_eq!(other.end_at, None);
    assert!(other.has_attendees);
    assert_eq!(other.status, "cancelled");
}
