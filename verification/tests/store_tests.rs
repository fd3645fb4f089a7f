use ib45_coach::store::{
    connection_pragmas, credential_key, credential_value, keyring_key_usable,
    migration_statements, task_effort_minutes, usable_secret,
};

#[test]
fn provider_credentials_have_fixed_keyring_names() {
    assert_eq!(credential_key("openai"), Some("openai-api-key"));
    assert_eq!(credential_key("googleClientId"), Some("google-client-id"));
    assert_eq!(credential_key("googleClientSecret"), Some("google-client-secret"));
    assert_eq!(credential_key("github"), None);
    assert_eq!(credential_value("  sk-123 \n"), "sk-123");
}

#[test]
fn blank_secrets_do_not_count() {
    assert_eq!(usable_secret(Some("  \t".to_string())), None);
    assert_eq!(usable_secret(Some(" k ".to_string())), Some(" k ".to_string()));
    assert_eq!(usable_secret(None), None);
}

#[test]
fn short_keyring_keys_are_replaced() {
    assert!(keyring_key_usable(&"a".repeat(32)));
    assert!(!keyring_key_usable(&"a".repeat(31)));
}

#[test]
fn connections_start_with_the_key_and_settings() {
    assert_eq!(
        connection_pragmas("00ff"),
        "PRAGMA key = \"x'00ff'\";PRAGMA cipher_compatibility = 4;PRAGMA foreign_keys = ON;PRAGMA secure_delete = ON;PRAGMA synchronous = NORMAL;PRAGMA wal_autocheckpoint = 1000;"
    );
}

#[test]
fn schemas_are_cut_into_statements() {
    assert_eq!(
        migration_statements("\n CREATE TABLE a (x);\n ;  CREATE INDEX b ON a(x);\n   "),
        vec!["CREATE TABLE a (x);".to_string(), "CREATE INDEX b ON a(x);".to_string()]
    );
    assert!(migration_statements("  ;  ; ").is_empty());
}

#[test]
fn tasks_take_at_least_a_quarter_hour() {
    assert_eq!(task_effort_minutes(5), 15);
    assert_eq!(task_effort_minutes(15), 15);
    assert_eq!(task_effort_minutes(90), 90);
}
