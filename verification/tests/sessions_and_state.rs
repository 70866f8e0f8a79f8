use tablebase::error::AppError;
use tablebase::query_session::{admit_work, SessionRegistry};
use tablebase::state::{normalized_page_size, AppConfig, WindowLabels};

#[test]
fn sessions_persist_until_cancelled() {
    let mut registry: SessionRegistry<String> = SessionRegistry::new();
    assert_eq!(registry.peek_next_id(), 1);
    let first = registry.create("main", "first".to_string());
    assert_eq!(first, 1);
    for n in 0..12 {
        registry.create("main", format!("later {n}"));
    }
    assert_eq!(registry.get("main", first).unwrap(), "first");
    assert_eq!(registry.cancel("main", first), Some("first".to_string()));
    match registry.get("main", first) {
        Err(AppError::QuerySession(m)) => {
            assert_eq!(m, "This result is no longer available. Run the query again.")
        }
        other => panic!("{other:?}"),
    }
    assert_eq!(registry.cancel("main", first), None);
    assert_eq!(registry.get("main", 2).unwrap(), "later 0");
}

#[test]
fn cancelled_sessions_refuse_new_work() {
    assert!(admit_work(false).is_ok());
    match admit_work(true) {
        Err(AppError::QuerySession(m)) => assert_eq!(m, "The query was cancelled."),
        other => panic!("{other:?}"),
    }
}

#[test]
fn sessions_belong_to_their_window() {
    let mut registry: SessionRegistry<&str> = SessionRegistry::new();
    let a = registry.create("win-1", "a");
    let b = registry.create("win-2", "b");
    let c = registry.create("win-1", "c");
    assert!(registry.get("win-2", a).is_err());
    let mut removed = registry.remove_window("win-1");
    removed.sort();
    assert_eq!(removed, vec![(a, "a"), (c, "c")]);
    assert!(registry.get("win-1", a).is_err());
    assert!(registry.get("win-1", c).is_err());
    assert_eq!(*registry.get("win-2", b).unwrap(), "b");
    assert_eq!(registry.peek_next_id(), 4);
}

#[test]
fn config_defaults_and_page_sizes() {
    let config = AppConfig::default();
    assert_eq!(config.default_page_size, 2000);
    assert_eq!(config.cache_cap_bytes, 8 * 1024 * 1024 * 1024);
    assert_eq!(normalized_page_size(&config, None), 2000);
    assert_eq!(normalized_page_size(&config, Some(0)), 1);
    assert_eq!(normalized_page_size(&config, Some(50)), 50);
    assert_eq!(normalized_page_size(&config, Some(1_000_000)), 100_000);
}

#[test]
fn window_labels_count_up() {
    let mut labels = WindowLabels::new();
    assert_eq!(labels.next_label(), "win-1");
    assert_eq!(labels.next_label(), "win-2");
}

#[test]
fn error_display_and_constructors() {
    assert_eq!(
        AppError::Guardrail("blocked".into()).to_display_string(),
        "[guardrail] blocked"
    );
    assert_eq!(
        AppError::lock_poisoned().to_display_string(),
        "[internal] internal state lock was poisoned"
    );
    assert_eq!(AppError::no_data().kind(), "no_data");
    assert_eq!(AppError::QuerySession("x".into()).kind(), "query_session");
}
