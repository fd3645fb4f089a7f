use ib45_coach::ai::first_output_text;
use ib45_coach::ai::text_or;
use ib45_coach::ai::DEFAULT_SUMMARY;
use ib45_coach::ai::{
    cloud_timeout_secs, cloud_user_text, fallback_after_failure, fallback_failure_message,
    first_provider, integrity_warning, local_prompt, model_for_mode, profile_safety_id,
    safety_identifier, system_prompt, Provider, INTEGRITY_REMINDER, INTEGRITY_WARNING,
    LOCAL_PREAMBLE, SYSTEM_PREAMBLE,
};

#[test]
fn modes_choose_model_and_effort() {
    assert_eq!(model_for_mode("classify"), ("gpt-5.6-luna", "low"));
    assert_eq!(model_for_mode("extract"), ("gpt-5.6-luna", "low"));
    assert_eq!(model_for_mode("deep"), ("gpt-5.6-sol", "high"));
    assert_eq!(model_for_mode("plan"), ("gpt-5.6-terra", "medium"));
    assert_eq!(cloud_timeout_secs("deep"), 180);
    assert_eq!(cloud_timeout_secs("plan"), 90);
}

#[test]
fn the_local_model_takes_over_once() {
    assert_eq!(first_provider(true), Provider::OpenAi);
    assert_eq!(first_provider(false), Provider::Ollama);
    assert_eq!(fallback_after_failure(Provider::OpenAi, true), Some(Provider::Ollama));
    assert_eq!(fallback_after_failure(Provider::Ollama, true), None);
    assert_eq!(fallback_after_failure(Provider::Ollama, false), None);
    assert_eq!(
        fallback_failure_message("timeout", "refused"),
        "Cloud analysis failed: timeout. Local fallback failed: refused"
    );
}

#[test]
fn assessed_work_carries_the_integrity_warning() {
    assert_eq!(integrity_warning(true).as_deref(), Some(INTEGRITY_WARNING));
    assert_eq!(integrity_warning(false), None);
    assert_eq!(system_prompt(true), format!("{SYSTEM_PREAMBLE}{INTEGRITY_WARNING}"));
    assert_eq!(system_prompt(false), format!("{SYSTEM_PREAMBLE}{INTEGRITY_REMINDER}"));
    assert!(local_prompt("p", "{}", true).ends_with(INTEGRITY_WARNING));
    assert_eq!(local_prompt("p", "{}", false), format!("{LOCAL_PREAMBLE}p\nContext: {{}}\n"));
    assert_eq!(cloud_user_text("p", "{}"), "Request:\np\n\nVerified local context:\n{}");
}

#[test]
fn profile_identifier_defaults_to_a_fixed_digest() {
    let (id, store) = profile_safety_id(None);
    assert!(store);
    assert_eq!(id, "bbb12f4d91e82bbde23f5d799e364d41d0d7426331b306b1489fc3af0ce0ca59");
    let (kept, store_again) = profile_safety_id(Some("mine".to_string()));
    assert_eq!(kept, "mine");
    assert!(!store_again);
    assert_eq!(safety_identifier(&id), id.as_str());
    assert_eq!(safety_identifier(&"x".repeat(70)).len(), 64);
}

#[test]
fn answer_text_is_the_first_output_text_item() {
    let contents = vec![
        (false, Some("reasoning".to_string())),
        (true, Some("{\"summary\":\"ok\"}".to_string())),
        (true, Some("later".to_string())),
    ];
    assert_eq!(first_output_text(&contents).as_deref(), Some("{\"summary\":\"ok\"}"));
    assert_eq!(first_output_text(&vec![(true, None), (true, Some("x".to_string()))]), None);
    assert_eq!(first_output_text(&Vec::new()), None);
}

#[test]
fn missing_fields_get_their_defaults() {
    assert_eq!(text_or(None, DEFAULT_SUMMARY), "Analysis completed.");
    assert_eq!(text_or(Some("given".to_string()), DEFAULT_SUMMARY), "given");
}
