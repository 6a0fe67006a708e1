use coast_daemon::secret_listing::{
    instance_secret_scope, list_instance_secrets, manual_override_row, secret_list_message, secret_set_message,
    SecretInfo, StoredSecret,
};

fn stored(name: &str, extractor: &str, kind: &str, target: &str) -> StoredSecret {
    StoredSecret {
        secret_name: name.to_string(),
        extractor: extractor.to_string(),
        inject_type: kind.to_string(),
        inject_target: target.to_string(),
    }
}

fn row(r: &SecretInfo) -> (String, String, String, bool) {
    (r.name.clone(), r.extractor.clone(), r.inject.clone(), r.is_override)
}

#[test]
fn listing_without_secrets_is_empty() {
    assert!(list_instance_secrets(&[], None, &[]).is_empty());
}

#[test]
fn listing_formats_injection() {
    let base = [stored("DB_PASS", "env", "file", "/run/secrets/db")];
    let rows = list_instance_secrets(&base, None, &[]);
    assert_eq!(rows.len(), 1);
    assert_eq!(
        row(&rows[0]),
        ("DB_PASS".to_string(), "env".to_string(), "file:/run/secrets/db".to_string(), false)
    );
}

#[test]
fn listing_hides_undeclared_secrets() {
    let base = [stored("A", "env", "env", "A"), stored("B", "env", "env", "B")];
    let declared = vec!["B".to_string()];
    let rows = list_instance_secrets(&base, Some(&declared), &[]);
    assert_eq!(rows.len(), 1);
    assert_eq!(rows[0].name, "B");
}

#[test]
fn override_replaces_base_secret() {
    let base = [stored("A", "env", "env", "A"), stored("B", "file", "env", "B")];
    let overrides = [stored("A", "manual", "env", "A")];
    let rows = list_instance_secrets(&base, None, &overrides);
    let got: Vec<_> = rows.iter().map(row).collect();
    assert_eq!(
        got,
        vec![
            ("B".to_string(), "file".to_string(), "env:B".to_string(), false),
            ("A".to_string(), "manual".to_string(), "env:A".to_string(), true),
        ]
    );
}

#[test]
fn override_listed_even_when_undeclared() {
    let base = [stored("A", "env", "env", "A")];
    let declared: Vec<String> = Vec::new();
    let overrides = [stored("X", "manual", "env", "X")];
    let rows = list_instance_secrets(&base, Some(&declared), &overrides);
    assert_eq!(rows.len(), 1);
    assert_eq!(rows[0].name, "X");
    assert!(rows[0].is_override);
}

#[test]
fn later_override_wins() {
    let overrides = [stored("K", "manual", "env", "one"), stored("K", "manual", "env", "two")];
    let rows = list_instance_secrets(&[], None, &overrides);
    assert_eq!(rows.len(), 1);
    assert_eq!(rows[0].inject, "env:two");
}

#[test]
fn secret_scope_and_messages() {
    assert_eq!(instance_secret_scope("my-app", "feat-a"), "my-app/feat-a");
    let msg = secret_set_message("API_KEY", "feat-a", "my-app");
    assert_eq!(msg, "Secret 'API_KEY' set for instance 'feat-a' in project 'my-app'.");
    assert!(msg.contains("API_KEY") && msg.contains("feat-a"));
    assert_eq!(secret_list_message("feat-a", "my-app"), "Secrets for instance 'feat-a' in project 'my-app'.");
    let r = manual_override_row("API_KEY".to_string());
    assert_eq!(row(&r), ("API_KEY".to_string(), "manual".to_string(), "env".to_string(), true));
}
