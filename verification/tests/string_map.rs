use coast_daemon::string_map::StringMap;
use coast_daemon::user_settings::{analytics_enabled_from, analytics_flag_value, language_or_default};

#[test]
fn string_map_reads_back_what_was_written() {
    let mut m = StringMap::new();
    assert!(m.is_empty());
    assert_eq!(m.insert("a".to_string(), "1".to_string()), None);
    assert_eq!(m.insert("b".to_string(), "2".to_string()), None);
    assert_eq!(m.insert("a".to_string(), "3".to_string()), Some("1".to_string()));
    assert_eq!(m.get("a"), Some(&"3".to_string()));
    assert_eq!(m.get("b"), Some(&"2".to_string()));
    assert!(m.contains_key("b"));
    assert!(!m.contains_key("c"));
    assert_eq!(m.len(), 2);
    let order: Vec<&str> = m.entries().iter().map(|(k, _)| k.as_str()).collect();
    assert_eq!(order, vec!["a", "b"]);
}

#[test]
fn user_settings_defaults_and_round_trip() {
    assert_eq!(language_or_default(None), "en");
    assert_eq!(language_or_default(Some("ja")), "ja");
    assert!(analytics_enabled_from(None));
    assert!(!analytics_enabled_from(Some("yes")));
    for b in [true, false] {
        assert_eq!(analytics_enabled_from(Some(analytics_flag_value(b))), b);
    }
}
