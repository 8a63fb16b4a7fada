use ctxone_hub::memory::{
    default_budget, importance_level, slugify, timestamp_id, tokenize_query, truncate_utf8,
    validate_remember_params, RememberParams, SessionStats, MAX_CONTEXT_LEN, MAX_TAGS, MAX_TAG_LEN,
};

fn confidence(importance: &str) -> f64 {
    importance_level(importance).confidence_hundredths() as f64 / 100.0
}

fn remember_params(context: Option<String>, tags: Option<Vec<String>>) -> RememberParams {
    RememberParams {
        fact: "a fact".to_string(),
        importance: "medium".to_string(),
        context,
        tags,
        ref_name: "main".to_string(),
    }
}

// -------- slugify --------

#[test]
fn slugify_lowercases_and_dashes() {
    assert_eq!(slugify("The Insight"), "the-insight");
}

#[test]
fn slugify_collapses_punctuation_and_whitespace() {
    assert_eq!(slugify("Hello, World!  Again"), "hello-world-again");
}

#[test]
fn slugify_trims_trailing_dashes() {
    assert_eq!(slugify("Title!"), "title");
}

#[test]
fn slugify_handles_unicode_by_dropping_it() {
    assert_eq!(slugify("résumé project"), "r-sum-project");
}

#[test]
fn slugify_empty_input() {
    assert_eq!(slugify(""), "");
}

#[test]
fn slugify_is_idempotent_on_examples() {
    for s in ["The Insight", "--a--b--", "résumé project", "x", "Title!"] {
        let once = slugify(s);
        assert_eq!(slugify(&once), once);
    }
}

#[test]
fn slugify_drops_leading_separators() {
    assert_eq!(slugify("  --Hello"), "hello");
}

// -------- tokenize_query --------

#[test]
fn tokenize_query_splits_on_whitespace() {
    assert_eq!(tokenize_query("licensing decisions"), vec!["licensing", "decisions"]);
}

#[test]
fn tokenize_query_drops_stopwords() {
    assert_eq!(tokenize_query("the licensing and decisions"), vec!["licensing", "decisions"]);
}

#[test]
fn tokenize_query_drops_short_tokens() {
    assert_eq!(tokenize_query("a is of big"), vec!["big"]);
}

#[test]
fn tokenize_query_lowercases() {
    assert_eq!(tokenize_query("BSL Licensing"), vec!["bsl", "licensing"]);
}

#[test]
fn tokenize_query_handles_punctuation() {
    assert_eq!(
        tokenize_query("licensing,decisions  token-savings"),
        vec!["licensing", "decisions", "token", "savings"]
    );
}

#[test]
fn tokenize_query_tokens_are_lowercase_alphanumeric_and_long() {
    for t in tokenize_query("The QUICK, brown-fox; jumps over 42 lazy dogs!") {
        assert!(t.len() >= 3);
        assert!(t.chars().all(|c| c.is_ascii_lowercase() || c.is_ascii_digit()));
    }
}

// -------- SessionStats --------

#[test]
fn session_stats_record_updates_counters() {
    let mut session = SessionStats::new();
    session.record(100, 400);
    assert_eq!(session.tokens_sent, 25);
    assert_eq!(session.tokens_saved, 75);
}

#[test]
fn session_stats_record_never_saves_negative() {
    let mut session = SessionStats::new();
    session.record(400, 100);
    assert_eq!(session.tokens_sent, 100);
    assert_eq!(session.tokens_saved, 0);
}

#[test]
fn session_stats_llm_fields_default_to_zero() {
    let session = SessionStats::new();
    assert_eq!(session.llm_input_tokens, 0);
    assert_eq!(session.llm_output_tokens, 0);
    assert_eq!(session.llm_cache_read_tokens, 0);
    assert_eq!(session.llm_cache_create_tokens, 0);
    assert_eq!(session.llm_call_count, 0);
    assert!(session.last_model().is_none());
    assert!(session.last_provider().is_none());
}

#[test]
fn session_stats_record_llm_usage_accumulates() {
    let mut session = SessionStats::new();
    session.record_llm_usage(
        100,
        50,
        20,
        5,
        Some("sonnet-4.5".to_string()),
        Some("anthropic".to_string()),
    );
    assert_eq!(session.llm_input_tokens, 100);
    assert_eq!(session.llm_output_tokens, 50);
    assert_eq!(session.llm_cache_read_tokens, 20);
    assert_eq!(session.llm_cache_create_tokens, 5);
    assert_eq!(session.llm_call_count, 1);
    assert_eq!(session.last_model().as_deref(), Some("sonnet-4.5"));
    assert_eq!(session.last_provider().as_deref(), Some("anthropic"));

    session.record_llm_usage(10, 5, 0, 0, None, None);
    assert_eq!(session.llm_input_tokens, 110);
    assert_eq!(session.llm_output_tokens, 55);
    assert_eq!(session.llm_call_count, 2);
    assert_eq!(session.last_model().as_deref(), Some("sonnet-4.5"));
    assert_eq!(session.last_provider().as_deref(), Some("anthropic"));
}

#[test]
fn session_stats_mark_dirty_flags_refresh() {
    let mut session = SessionStats::new();
    assert!(session.graph_size_dirty);
    session.graph_size_dirty = false;
    assert!(!session.graph_size_dirty);
    session.mark_dirty();
    assert!(session.graph_size_dirty);
}

#[test]
fn session_stats_set_graph_size_clears_dirty() {
    let mut session = SessionStats::new();
    session.set_graph_size(4000);
    assert_eq!(session.total_graph_size_chars, 4000);
    assert!(!session.graph_size_dirty());
}

// -------- importance / timestamp ids / defaults --------

#[test]
fn importance_to_confidence_in_memory_tools() {
    assert_eq!(confidence("high"), 0.95);
    assert_eq!(confidence("medium"), 0.7);
    assert_eq!(confidence("low"), 0.4);
    assert_eq!(confidence("unknown"), 0.7);
}

#[test]
fn importance_high_maps_to_high_confidence() {
    assert_eq!(confidence("high"), 0.95);
}

#[test]
fn importance_medium_maps_to_default_confidence() {
    assert_eq!(confidence("medium"), 0.7);
}

#[test]
fn importance_low_maps_to_low_confidence() {
    assert_eq!(confidence("low"), 0.4);
}

#[test]
fn importance_unknown_falls_back_to_medium() {
    assert_eq!(confidence("super-critical"), 0.7);
    assert_eq!(confidence(""), 0.7);
}

#[test]
fn timestamp_id_in_memory_tools_is_hex_and_unique() {
    let a = timestamp_id();
    for _ in 0..1000 {
        std::hint::black_box(());
    }
    let b = timestamp_id();
    assert!(a.chars().all(|c| c.is_ascii_hexdigit()));
    assert_ne!(a, b);
}

#[test]
fn default_budget_is_reasonable() {
    assert_eq!(default_budget(), 1500);
}

// -------- truncate_utf8 --------

#[test]
fn truncate_utf8_preserves_codepoints() {
    let s = "ok 🦀🦀🦀🦀🦀🦀🦀🦀";
    let out = truncate_utf8(s, 8);
    assert!(out.starts_with("ok "), "got {out:?}");
    assert!(out.contains("truncated"), "got {out:?}");
    for c in out.chars() {
        let _ = c;
    }
}

#[test]
fn truncate_utf8_returns_original_when_short() {
    assert_eq!(truncate_utf8("short", 1024), "short");
}

#[test]
fn truncate_utf8_exact_output() {
    assert_eq!(
        truncate_utf8("ok 🦀🦀", 8),
        "ok 🦀… [truncated: original was 11 bytes]"
    );
}

// -------- remember validation --------

#[test]
fn remember_rejects_overlong_context() {
    let p = remember_params(Some("x".repeat(200)), None);
    let err = validate_remember_params(&p).unwrap_err();
    assert!(err.contains("context"), "got {err:?}");
}

#[test]
fn remember_rejects_slash_in_context() {
    let p = remember_params(Some("../_meta/schema_version".to_string()), None);
    let err = validate_remember_params(&p).unwrap_err();
    assert!(err.contains("'/'"), "got {err:?}");
}

#[test]
fn remember_rejects_too_many_tags() {
    let tags: Vec<String> = (0..(MAX_TAGS + 1)).map(|i| format!("t{i}")).collect();
    let p = remember_params(None, Some(tags));
    let err = validate_remember_params(&p).unwrap_err();
    assert!(err.contains("tags"), "got {err:?}");
}

#[test]
fn remember_rejects_overlong_tag() {
    let p = remember_params(None, Some(vec!["x".repeat(MAX_TAG_LEN + 1)]));
    let err = validate_remember_params(&p).unwrap_err();
    assert!(err.contains("tag"), "got {err:?}");
}

#[test]
fn remember_accepts_at_limit_context_and_tags() {
    let ctx = "x".repeat(MAX_CONTEXT_LEN);
    let tags: Vec<String> = (0..MAX_TAGS).map(|_| "y".repeat(MAX_TAG_LEN)).collect();
    let p = remember_params(Some(ctx), Some(tags));
    assert!(validate_remember_params(&p).is_ok());
}

#[test]
fn remember_rejects_control_characters_in_tag() {
    let p = remember_params(None, Some(vec!["ok\ntag".to_string()]));
    assert_eq!(
        validate_remember_params(&p).unwrap_err(),
        "tag contains control characters"
    );
}
