use ctxone_hub::hub::{
    auth_allows, constant_time_eq, default_forget_reason, default_merge_description, default_ref,
    default_true, origin_authority, origin_is_allowed, plan_link_path, session_meta_path,
    session_title_path, session_turn_path, sync_command, sync_counts, sync_failure_message,
    sync_not_found_message, sync_summary, sync_timeout_message, HubConfig, activity, doc_register_write, doc_slugs,
};
use ctxone_hub::memory::{timestamp_id, timestamp_id_of};

#[test]
fn timestamp_id_is_nonempty_hex() {
    let id = timestamp_id();
    assert!(!id.is_empty());
    assert!(id.chars().all(|c| c.is_ascii_hexdigit()), "timestamp_id should be hex, got: {}", id);
}

#[test]
fn timestamp_id_is_unique_across_calls() {
    let a = timestamp_id();
    for _ in 0..1000 {
        std::hint::black_box(());
    }
    let b = timestamp_id();
    assert_ne!(a, b, "two calls produced the same id: {}", a);
}

#[test]
fn default_ref_is_main() {
    assert_eq!(default_ref(), "main");
}

#[test]
fn default_merge_description_is_stable() {
    assert_eq!(default_merge_description(), "Merge");
}

#[test]
fn default_forget_reason_is_human_readable() {
    let r = default_forget_reason();
    assert!(!r.is_empty());
    assert!(r.contains("forgotten") || r.contains("forget"));
}

#[test]
fn default_true_is_true() {
    assert!(default_true());
}

#[test]
fn hub_config_default_is_permissive_and_empty() {
    let c = HubConfig::default();
    assert_eq!(c.rate_limit_rpm, 0);
    assert!(c.asd_repos.is_empty());
    assert!(!c.mcp_http);
    assert!(c.auth_token.is_none());
    assert!(c.allowed_origins.is_empty());
    assert!(c.self_base_url.is_none());
}

// -------- origins --------

#[test]
fn origin_authority_strips_scheme_and_lowercases() {
    assert_eq!(origin_authority("HTTP://LocalHost:3001").as_deref(), Some("localhost:3001"));
    assert_eq!(origin_authority("null"), None);
    assert_eq!(origin_authority(""), None);
}

#[test]
fn same_origin_is_always_allowed() {
    assert!(origin_is_allowed("http://localhost:3001", Some("localhost:3001"), &vec![]));
}

#[test]
fn foreign_origin_needs_the_allow_list() {
    let allow = vec!["https://lens.example.com".to_string()];
    assert!(!origin_is_allowed("https://evil.example", Some("localhost:3001"), &allow));
    assert!(origin_is_allowed("https://LENS.example.com", Some("localhost:3001"), &allow));
    assert!(!origin_is_allowed("null", Some("null"), &allow));
}

// -------- bearer auth --------

#[test]
fn constant_time_eq_is_equality_on_examples() {
    assert!(constant_time_eq("secret", "secret"));
    assert!(!constant_time_eq("secret", "secreT"));
    assert!(!constant_time_eq("short", "longer-token"));
}

#[test]
fn auth_gate_decisions() {
    assert!(auth_allows(None, false, None));
    assert!(auth_allows(Some("tok"), true, None));
    assert!(!auth_allows(Some("tok"), false, None));
    assert!(auth_allows(Some("tok"), false, Some("Bearer tok")));
    assert!(!auth_allows(Some("tok"), false, Some("Bearer nope")));
    assert!(!auth_allows(Some("tok"), false, Some("Basic tok")));
}

// -------- graph paths --------

#[test]
fn graph_paths_are_exact() {
    assert_eq!(plan_link_path("p", "t-001"), "/plan_links/p/t-001");
    assert_eq!(session_turn_path("abc", 7), "/sessions/abc/turns/t0007");
    assert_eq!(session_turn_path("abc", 12345), "/sessions/abc/turns/t12345");
    assert_eq!(session_title_path("abc"), "/sessions/abc/title");
    assert_eq!(session_meta_path("abc"), "/sessions/abc/meta");
}

// -------- session sync --------

#[test]
fn sync_command_defaults() {
    let c = sync_command(None, None, "ns1");
    assert_eq!(c.program, "ctx");
    assert_eq!(
        c.args,
        vec![
            "ingest-session",
            "--all",
            "--full-turn",
            "--server",
            "http://127.0.0.1:3001",
            "--namespace",
            "ns1",
            "--branch",
            "main"
        ]
    );
    let c = sync_command(Some("/bin/ctx"), Some("http://127.0.0.1:9000"), "x");
    assert_eq!(c.program, "/bin/ctx");
    assert_eq!(c.args[4], "http://127.0.0.1:9000");
}

#[test]
fn sync_messages() {
    assert_eq!(
        sync_not_found_message("ctx"),
        "ctx binary not found ('ctx'); set --ctx-binary. Session sync runs the local CLI and requires a co-located hub."
    );
    assert_eq!(
        sync_timeout_message(300),
        "session sync timed out after 300s (ctx ingest-session --all still running)"
    );
    assert_eq!(
        sync_failure_message(Some(2), "a\nb\nc\nd\ne\nf\ng"),
        "ctx ingest-session exited 2: g | f | e | d | c"
    );
    assert_eq!(sync_failure_message(None, "boom"), "ctx ingest-session exited signal: boom");
    assert_eq!(sync_failure_message(Some(-1), ""), "ctx ingest-session exited -1: ");
}

#[test]
fn sync_counts_takes_last_summary_line() {
    let lines = vec![
        Some((Some(1), Some(2), Some(3))),
        None,
        Some((Some(4), None, Some(6))),
        None,
    ];
    assert_eq!(sync_counts(&lines), (4, 0, 6));
    assert_eq!(sync_counts(&vec![None, None]), (0, 0, 0));
}

#[test]
fn sync_summary_reads_the_cli_json_line() {
    let out = "ingesting...\n{\"sessions\":3,\"turns\":40,\"tokens\":1234}\ndone\n";
    assert_eq!(sync_summary(out), (3, 40, 1234));
    assert_eq!(sync_summary("  {\"sessions\": 2}  \n"), (2, 0, 0));
    assert_eq!(sync_summary("{\"turns\": 5}\nno json"), (0, 0, 0));
}

#[test]
fn activity_is_zero_filled_over_the_window() {
    let commits = vec![100, 100, 98, 50, 101];
    let a = activity(&commits, 100, Some(3));
    assert_eq!(a.requested_days, 3);
    assert_eq!(a.days, vec![(98, 1), (99, 0), (100, 2)]);
    assert_eq!(a.active_days, 2);
    assert_eq!(a.scanned, 5);
    assert!(!a.truncated);
    let a = activity(&vec![], 1000, None);
    assert_eq!(a.days.len(), 120);
    assert_eq!(a.days[0].0, 881);
    assert_eq!(activity(&vec![], 1000, Some(0)).days.len(), 1);
    assert_eq!(activity(&vec![], 1000, Some(5000)).days.len(), 730);
}

#[test]
fn doc_register_writes_under_the_slug() {
    let (at, intent) = doc_register_write("docs/Architecture.md").unwrap();
    assert_eq!(at, "/docs/docs-architecture-md");
    assert_eq!(intent, "register doc docs/Architecture.md");
    assert_eq!(doc_register_write("///").unwrap_err(), (400, "path is required".to_string()));
}

#[test]
fn doc_slugs_lists_each_registered_doc_once() {
    let leaves = vec![
        "/docs/readme-md/status".to_string(),
        "/docs/arch-md/path".to_string(),
        "/docs/readme-md/path".to_string(),
        "/docs//stray".to_string(),
        "/other/x".to_string(),
    ];
    assert_eq!(doc_slugs(&leaves), vec!["arch-md".to_string(), "readme-md".to_string()]);
}

#[test]
fn constant_time_eq_refuses_lengths_that_differ_by_256() {
    let long = "x".repeat(256);
    assert!(!constant_time_eq("", &long));
    assert!(!constant_time_eq(&long, ""));
    assert!(!auth_allows(Some(&long), false, Some("Bearer ")));
    assert!(auth_allows(Some(&long), false, Some(&format!("Bearer {}", long))));
}

#[test]
fn timestamp_ids_follow_the_clock_reading() {
    assert_eq!(timestamp_id_of(Some((1, 5))), "3b9aca05");
    assert_eq!(timestamp_id_of(None), "0");
    // Readings within one second still give different ids.
    assert_ne!(timestamp_id_of(Some((1_700_000_000, 1))), timestamp_id_of(Some((1_700_000_000, 2))));
}
