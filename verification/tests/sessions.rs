use ctxone_hub::memory::SessionStats;
use ctxone_hub::sessions::{SessionCounts, SessionRegistry, MAX_SESSIONS_DEFAULT};

fn record(reg: &mut SessionRegistry, id: &str, sent: usize, flat: usize) {
    let mut s = reg.get_or_create(id);
    s.record(sent, flat);
    assert!(reg.update(id, s));
}

#[test]
fn registry_new_pre_seeds_default_session() {
    let registry = SessionRegistry::new(None);
    assert_eq!(registry.list_ids(), vec!["default".to_string()]);
}

#[test]
fn registry_get_or_create_returns_same_arc_for_same_id() {
    let mut registry = SessionRegistry::new(None);
    record(&mut registry, "alice", 400, 4000);
    let again = registry.get_or_create("alice");
    assert_eq!(again.tokens_sent, 100);
    assert_eq!(registry.len(), 2);
}

#[test]
fn registry_creates_distinct_sessions_for_distinct_ids() {
    let mut registry = SessionRegistry::new(None);
    record(&mut registry, "alice", 400, 4000);
    record(&mut registry, "bob", 800, 4000);
    assert_eq!(registry.snapshot("alice").unwrap().session_tokens_used, 100);
    assert_eq!(registry.snapshot("bob").unwrap().session_tokens_used, 200);
}

#[test]
fn registry_snapshot_missing_returns_none() {
    let registry = SessionRegistry::new(None);
    assert!(registry.snapshot("never-created").is_none());
}

#[test]
fn registry_aggregate_sums_across_sessions() {
    let mut registry = SessionRegistry::new(None);
    record(&mut registry, "alice", 400, 4000);
    record(&mut registry, "bob", 800, 4000);
    let agg = registry.aggregate();
    assert_eq!(agg.session_id, "_aggregate");
    assert_eq!(agg.session_tokens_used, 300);
    assert_eq!(agg.session_tokens_saved, 1700);
}

#[test]
fn registry_aggregate_graph_size_is_max_not_sum() {
    let mut registry = SessionRegistry::new(None);
    let mut alice = registry.get_or_create("alice");
    let mut bob = registry.get_or_create("bob");
    alice.total_graph_size_chars = 1000;
    bob.total_graph_size_chars = 5000;
    registry.update("alice", alice);
    registry.update("bob", bob);
    assert_eq!(registry.aggregate().total_graph_size_chars, 5000);
    assert_eq!(registry.aggregate().total_graph_size_tokens, 1250);
}

#[test]
fn registry_aggregate_sums_llm_fields() {
    let mut registry = SessionRegistry::new(None);
    let mut alice = registry.get_or_create("alice");
    let mut bob = registry.get_or_create("bob");
    alice.record_llm_usage(100, 50, 20, 5, None, None);
    bob.record_llm_usage(200, 75, 40, 10, None, None);
    registry.update("alice", alice);
    registry.update("bob", bob);
    let agg = registry.aggregate();
    assert_eq!(agg.llm_input_tokens, 300);
    assert_eq!(agg.llm_output_tokens, 125);
    assert_eq!(agg.llm_cache_read_tokens, 60);
    assert_eq!(agg.llm_cache_create_tokens, 15);
    assert_eq!(agg.llm_call_count, 2);
    assert!(agg.last_model.is_none());
    assert!(agg.last_provider.is_none());
}

#[test]
fn registry_mark_all_dirty_invalidates_every_session() {
    let mut registry = SessionRegistry::new(None);
    for id in ["alice", "bob"] {
        let mut s = registry.get_or_create(id);
        s.set_graph_size(10);
        registry.update(id, s);
    }
    registry.mark_all_dirty();
    assert!(registry.get_or_create("alice").graph_size_dirty);
    assert!(registry.get_or_create("bob").graph_size_dirty);
}

#[test]
fn registry_list_ids_is_sorted() {
    let mut registry = SessionRegistry::new(None);
    registry.get_or_create("charlie");
    registry.get_or_create("alice");
    registry.get_or_create("bob");
    assert_eq!(registry.list_ids(), vec!["alice", "bob", "charlie", "default"]);
}

#[test]
fn registry_snapshot_all_is_sorted_by_id() {
    let mut registry = SessionRegistry::new(None);
    registry.get_or_create("zebra");
    registry.get_or_create("apple");
    let snaps = registry.snapshot_all();
    let ids: Vec<&str> = snaps.iter().map(|s| s.session_id.as_str()).collect();
    assert_eq!(ids, vec!["apple", "default", "zebra"]);
}

#[test]
fn session_snapshot_includes_llm_fields() {
    let mut session = SessionStats::new();
    session.record_llm_usage(2400, 450, 1800, 600, Some("sonnet-4.5".to_string()), Some("anthropic".to_string()));
    let snap = SessionCounts::from_session("alice", &session);
    assert_eq!(snap.llm_input_tokens, 2400);
    assert_eq!(snap.llm_output_tokens, 450);
    assert_eq!(snap.llm_cache_read_tokens, 1800);
    assert_eq!(snap.llm_cache_create_tokens, 600);
    assert_eq!(snap.llm_call_count, 1);
    assert_eq!(snap.last_model.as_deref(), Some("sonnet-4.5"));
    assert_eq!(snap.last_provider.as_deref(), Some("anthropic"));
}

#[test]
fn session_registry_evicts_beyond_capacity() {
    let mut registry = SessionRegistry::with_capacity(4);
    registry.get_or_create("a");
    registry.get_or_create("b");
    registry.get_or_create("c");
    registry.get_or_create("d");
    assert_eq!(registry.len(), 4, "capacity must hold");
    assert!(registry.snapshot("default").is_none());
    registry.get_or_create("e");
    assert_eq!(registry.len(), 4);
    assert!(registry.snapshot("a").is_none());
    for id in ["b", "c", "d", "e"] {
        assert!(registry.snapshot(id).is_some(), "expected {id} to still be live");
    }
}

#[test]
fn session_registry_spray_stays_bounded() {
    let mut registry = SessionRegistry::with_capacity(64);
    for i in 0..10_000 {
        registry.get_or_create(&format!("spray-{i}"));
    }
    assert_eq!(registry.len(), 64, "LRU must not let the map grow past capacity under a spray attack");
}

#[test]
fn session_registry_get_or_create_promotes_on_reuse() {
    let mut registry = SessionRegistry::with_capacity(3);
    registry.get_or_create("a");
    registry.get_or_create("b");
    registry.get_or_create("c");
    assert_eq!(registry.len(), 3);
    let _ = registry.get_or_create("a");
    registry.get_or_create("d");
    assert!(registry.snapshot("a").is_some(), "promoted 'a' must survive");
    assert!(registry.snapshot("b").is_none(), "expected 'b' to be evicted");
}

#[test]
fn session_registry_default_capacity_from_env() {
    assert_eq!(SessionRegistry::new(None).capacity(), MAX_SESSIONS_DEFAULT);
    assert_eq!(SessionRegistry::new(Some(0)).capacity(), MAX_SESSIONS_DEFAULT);
    assert_eq!(SessionRegistry::new(Some(7)).capacity(), 7);
    assert_eq!(SessionRegistry::with_capacity(0).capacity(), 1);
}

#[test]
fn update_of_unknown_session_is_refused() {
    let mut registry = SessionRegistry::new(None);
    assert!(!registry.update("ghost", SessionStats::new()));
    assert_eq!(registry.len(), 1);
    assert!(!registry.is_empty());
}

#[test]
fn load_rows_restores_stored_sessions() {
    let mut reg = SessionRegistry::with_capacity(2);
    let rows = vec![
        ("a".to_string(), SessionStats::with_values(10, 20, 1, 2, 3, 4, 5, Some("m".to_string()), None)),
        ("b".to_string(), SessionStats::with_values(7, 0, 0, 0, 0, 0, 0, None, Some("p".to_string()))),
    ];
    reg.load_rows(rows);
    // Capacity 2: the seeded default session was the least recently used.
    assert_eq!(reg.len(), 2);
    assert!(reg.snapshot("default").is_none());
    let a = reg.snapshot("a").unwrap();
    assert_eq!((a.session_tokens_used, a.session_tokens_saved, a.llm_call_count), (10, 20, 5));
    assert_eq!(a.last_model.as_deref(), Some("m"));
    assert_eq!(reg.snapshot("b").unwrap().last_provider.as_deref(), Some("p"));
}
