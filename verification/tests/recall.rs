use ctxone_hub::memory::{account_response, tokenize_query, SessionStats};
use ctxone_hub::pinned::{collect_pinned, PinnedRead};
use ctxone_hub::recall::{normalize_scope, recall_select, account_recall, PinnedEntry, RecallItem, MEMORY_REPLAY_GUIDANCE};
use ctxone_hub::requests::{prime_plan, PrimeSectionParam};

fn hit(p: &str, v: &str) -> (String, String) {
    (p.to_string(), v.to_string())
}

fn topic_paths(items: &[RecallItem]) -> Vec<String> {
    items
        .iter()
        .filter_map(|i| match i {
            RecallItem::Topic { path, .. } => Some(path.clone()),
            _ => None,
        })
        .collect()
}

#[test]
fn scopes_are_normalized() {
    assert_eq!(normalize_scope(Some(" memory/projects/app/ ")).as_deref(), Some("/memory/projects/app"));
    assert_eq!(normalize_scope(Some("/")).as_deref(), Some("/"));
    assert_eq!(normalize_scope(Some("   ")), None);
    assert_eq!(normalize_scope(None), None);
}

#[test]
fn phrase_hits_rank_first_then_token_counts_then_path() {
    let phrase = vec![hit("/memory/facts/c", "alpha beta")];
    let tokens = vec![
        vec![hit("/memory/facts/b", "alpha"), hit("/memory/facts/a", "alpha"), hit("/memory/facts/d", "alpha beta")],
        vec![hit("/memory/facts/d", "alpha beta")],
    ];
    let r = recall_select(&vec![], &phrase, &tokens, 1500, None);
    assert_eq!(
        topic_paths(&r.results),
        vec!["/memory/facts/c", "/memory/facts/d", "/memory/facts/a", "/memory/facts/b"]
    );
    assert_eq!(r.topic_matches, 4);
    assert_eq!(r.pinned_count, 0);
}

#[test]
fn pinned_come_first_and_scope_filters() {
    let pinned = vec![PinnedEntry {
        path: "/memory/pinned/src/rules".to_string(),
        title: "Rules".to_string(),
        body: "Use BSL".to_string(),
    }];
    let tokens = vec![vec![hit("/memory/projects/app/x", "v"), hit("/memory/facts/y", "v")]];
    let r = recall_select(&pinned, &vec![], &tokens, 1500, Some("/memory/projects/app"));
    assert_eq!(r.scope.as_deref(), Some("/memory/projects/app"));
    assert_eq!(topic_paths(&r.results), vec!["/memory/projects/app/x"]);
    assert_eq!(r.pinned_count, 1);
    assert!(matches!(r.results[0], RecallItem::Topic { .. }));

    let r = recall_select(&pinned, &vec![], &tokens, 1500, None);
    assert!(matches!(&r.results[0], RecallItem::Pinned { title, .. } if title == "Rules"));
    assert_eq!(r.results.len(), 3);
}

#[test]
fn budget_caps_the_results() {
    let big = "x".repeat(100);
    let tokens = vec![vec![hit("/m/a", &big), hit("/m/b", &big), hit("/m/c", &big)]];
    let r = recall_select(&vec![], &vec![], &tokens, 60, None);
    assert_eq!(r.topic_matches, 2);
    assert!(r.total <= 240);
}

/// A graph of string facts, searched as the graph searches values: a
/// case-insensitive substring match.
fn search(facts: &[(&str, &str)], needle: &str) -> Vec<(String, String)> {
    let n = needle.to_lowercase();
    facts
        .iter()
        .filter(|(_, v)| v.to_lowercase().contains(&n))
        .map(|(p, v)| hit(p, v))
        .collect()
}

/// Recall over a graph of facts: the phrase search and one search per
/// query token, as the hub runs them.
fn recall_over(
    facts: &[(&str, &str)],
    pinned: &Vec<PinnedEntry>,
    topic: &str,
    budget: usize,
    scope: Option<&str>,
) -> ctxone_hub::recall::RecallSelection {
    let phrase = search(facts, topic.trim());
    let tokens: Vec<Vec<(String, String)>> =
        tokenize_query(topic).iter().map(|t| search(facts, t)).collect();
    recall_select(pinned, &phrase, &tokens, budget, scope)
}

#[test]
fn run_recall_finds_by_topic() {
    let facts = [("/memory/test/one", "CtxOne uses BSL-1.1 licensing")];
    let result = recall_over(&facts, &vec![], "licensing", 1500, None);
    assert!(!result.results.is_empty(), "expected at least one match");
    assert_eq!(result.pinned_count, 0);
    assert!(result.topic_matches >= 1);
}

#[test]
fn run_recall_includes_pinned_regardless_of_topic() {
    let plan = prime_plan(
        "test-agent",
        "src",
        true,
        &vec![PrimeSectionParam { title: "Vision".to_string(), body: "critical context".to_string() }],
    );
    let mut reads = Vec::new();
    for w in &plan.writes {
        reads.push(PinnedRead { path: format!("{}/title", w.path), text: Some(w.title.clone()) });
        reads.push(PinnedRead { path: format!("{}/body", w.path), text: Some(w.body.clone()) });
    }
    let pinned = collect_pinned(&reads);
    let result = recall_over(&[], &pinned, "unrelated-topic-xyz", 1500, None);
    assert!(
        result.results.iter().any(|r| matches!(r, RecallItem::Pinned { .. })),
        "pinned section should always be included"
    );
}

#[test]
fn run_recall_respects_budget() {
    let owned: Vec<(String, String)> = (0..20)
        .map(|i| (format!("/memory/test/fact{}", i), format!("matching fact number {} with BSL content", i)))
        .collect();
    let facts: Vec<(&str, &str)> = owned.iter().map(|(p, v)| (p.as_str(), v.as_str())).collect();
    // Budget of 100 tokens = 400 chars.
    let result = recall_over(&facts, &vec![], "BSL", 100, None);
    let sent = (result.total / 4) as u64;
    assert!(sent <= 200, "tokens sent {} exceeds reasonable budget", sent);
}

#[test]
fn run_recall_tokenizes_multiword_query() {
    let facts = [("/memory/test/licensing", "Important licensing fact")];
    let result = recall_over(&facts, &vec![], "licensing decisions", 1500, None);
    assert!(result.topic_matches >= 1, "tokenized recall should match on 'licensing'");
}

#[test]
fn run_recall_scoped_filters_out_of_scope_results() {
    let facts = [
        ("/memory/projects/app-a/fact-widgets", "widgets are blue"),
        ("/memory/projects/app-b/fact-widgets", "widgets are red"),
    ];
    let scoped = recall_over(&facts, &vec![], "widgets", 1500, Some("/memory/projects/app-a"));
    for path in topic_paths(&scoped.results) {
        assert!(path.starts_with("/memory/projects/app-a"), "unexpected out-of-scope result {path}");
    }
    assert!(MEMORY_REPLAY_GUIDANCE.contains("data"));
    assert_eq!(scoped.scope.as_deref(), Some("/memory/projects/app-a"));
}

#[test]
fn run_recall_unscoped_sees_all_and_still_envelopes() {
    let facts = [("/memory/facts/f1", "alpha beta")];
    let r = recall_over(&facts, &vec![], "alpha", 1500, None);
    assert!(MEMORY_REPLAY_GUIDANCE.contains("data"));
    assert!(r.scope.is_none());
}

#[test]
fn run_recall_includes_session_llm_stats_after_report() {
    let facts = [("/memory/test/one", "BSL licensing")];
    let mut session = SessionStats::new();
    let pre = recall_over(&facts, &vec![], "licensing", 1500, None);
    let (_, llm) = account_response(&mut session, pre.total as usize, 0);
    assert!(llm.is_none());
    session.record_llm_usage(2400, 450, 1800, 600, Some("model-x".to_string()), Some("vendor-y".to_string()));
    let post = recall_over(&facts, &vec![], "licensing", 1500, None);
    let (counts, llm) = account_response(&mut session, post.total as usize, 4000);
    let llm_stats = llm.expect("recall should include session_llm_stats after usage report");
    assert_eq!(llm_stats.input_tokens_total, 2400);
    assert_eq!(llm_stats.output_tokens_total, 450);
    assert_eq!(llm_stats.cache_read_tokens_total, 1800);
    assert_eq!(llm_stats.cache_create_tokens_total, 600);
    assert_eq!(llm_stats.call_count, 1);
    assert_eq!(counts.ctx_tokens_estimated_flat, 1000);
    assert_eq!(counts.ctx_tokens_sent, (post.total / 4) as u64);
}

#[test]
fn recall_accounting_records_the_selection() {
    let facts = [("/memory/test/one", "BSL licensing")];
    let sel = recall_over(&facts, &vec![], "licensing", 1500, None);
    let mut session = SessionStats::new();
    let (counts, llm) = account_recall(&mut session, &sel, 400);
    assert_eq!(counts.ctx_tokens_sent, (sel.total / 4) as u64);
    assert_eq!(counts.ctx_tokens_estimated_flat, 100);
    assert_eq!(session.tokens_sent, (sel.total / 4) as u64);
    assert!(llm.is_none());
}
