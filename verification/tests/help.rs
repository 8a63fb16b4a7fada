use ctxone_hub::help::{proxy_calls, proxy_topic,
    est_tokens, json_invocation, respond, score, version, HelpAnswer, HelpDoc, HelpParam, OWNER,
};

const NO_PARAMS: &[HelpParam] = &[];
const RECALL_PARAMS: &[HelpParam] = &[HelpParam { name: "topic", required: true, desc: "what to recall" }];

fn doc(feature: &'static str, synopsis: &'static str) -> HelpDoc {
    HelpDoc {
        feature,
        group: "memory",
        synopsis,
        syntax: "ctx x",
        params: NO_PARAMS,
        examples: &[],
        gotchas: &[],
        related: &[],
    }
}

fn registry() -> Vec<HelpDoc> {
    vec![
        doc("recall", "Load ranked memories for a topic."),
        doc("remember", "Store a fact in memory."),
        doc("plan_start", "Start a pending task."),
        doc("plan_new", "Create a plan."),
    ]
}

#[test]
fn owner_and_version() {
    assert_eq!(OWNER, "ctx");
    assert_eq!(version(), "0.1.0");
}

#[test]
fn exact_feature_name_wins() {
    match respond(&registry(), Some("Remember")) {
        HelpAnswer::Doc { feature, also } => {
            assert_eq!(feature, "remember");
            assert!(!also.contains(&"remember".to_string()));
        }
        other => panic!("expected a doc, got {other:?}"),
    }
}

#[test]
fn strong_name_match_returns_single_doc() {
    match respond(&registry(), Some("plan start")) {
        HelpAnswer::Doc { feature, also } => {
            assert_eq!(feature, "plan_start");
            assert_eq!(also, vec!["plan_new".to_string()]);
        }
        other => panic!("expected a doc, got {other:?}"),
    }
}

#[test]
fn weak_phrase_disambiguates_not_guesses() {
    match respond(&registry(), Some("save a memory")) {
        HelpAnswer::Matches { query, features } => {
            assert_eq!(query, "save a memory");
            assert_eq!(features, vec!["remember".to_string()]);
        }
        other => panic!("expected candidates, got {other:?}"),
    }
}

#[test]
fn empty_topic_returns_catalog() {
    assert_eq!(respond(&registry(), None), HelpAnswer::Catalog);
    assert_eq!(respond(&registry(), Some("   ")), HelpAnswer::Catalog);
}

#[test]
fn unknown_topic_suggests() {
    assert_eq!(
        respond(&registry(), Some("zzzzznope")),
        HelpAnswer::NotFound { query: "zzzzznope".to_string() }
    );
}

#[test]
fn scores() {
    let d = doc("plan_start", "Start a pending task.");
    assert_eq!(score(&d, "plan_start"), 1000);
    assert_eq!(score(&d, "plan"), 300);
    assert_eq!(score(&d, "pending"), 20);
    assert_eq!(score(&d, "zzz"), 0);
}

#[test]
fn token_estimate() {
    let d = HelpDoc {
        feature: "recall",
        group: "memory",
        synopsis: "12345678",
        syntax: "1234",
        params: RECALL_PARAMS,
        examples: &["abcd"],
        gotchas: &[],
        related: &["remember"],
    };
    assert_eq!(est_tokens(&d), (8 + 4 + 5 + 14 + 4 + 8) / 4);
}

#[test]
fn proxy_invocations() {
    let (bin, args) = json_invocation("asd", "graph").unwrap();
    assert_eq!(bin, "asd");
    assert_eq!(args, vec!["help", "graph", "--agent", "--no-proxy"]);
    let (bin, args) = json_invocation("ctx", "recall").unwrap();
    assert_eq!(bin, "ctx");
    assert_eq!(args, vec!["help", "recall", "--format", "json", "--no-proxy"]);
    assert!(json_invocation("other", "x").is_none());
}

#[test]
fn proxy_only_for_unmatched_nonblank_topics() {
    let nf = HelpAnswer::NotFound { query: "zzz".to_string() };
    assert_eq!(proxy_topic(&nf, Some("  Zzz "), true), Some("Zzz".to_string()));
    assert_eq!(proxy_topic(&nf, Some("  Zzz "), false), None);
    assert_eq!(proxy_topic(&nf, Some("   "), true), None);
    assert_eq!(proxy_topic(&HelpAnswer::Catalog, Some("x"), true), None);
}

#[test]
fn proxy_calls_skip_this_tool_and_unknown_ones() {
    let tools = vec!["asd".to_string(), "ctx".to_string(), "other".to_string()];
    let calls = proxy_calls(&tools, "graph");
    assert_eq!(calls.len(), 1);
    assert_eq!(calls[0].tool, "asd");
    assert_eq!(calls[0].program, "asd");
    assert_eq!(calls[0].args, vec!["help", "graph", "--agent", "--no-proxy"]);
}
