use ctxone_hub::memory::RememberParams;
use ctxone_hub::requests::{
    meta_capture_write, prime_plan, remember_write, session_summary_plan, title_capture_write, turn_capture_write,
    turn_roots, PrimeSectionParam, SummarizeSessionParams, TitleBody,
};

fn section(title: &str, body: &str) -> PrimeSectionParam {
    PrimeSectionParam { title: title.to_string(), body: body.to_string() }
}

#[test]
fn prime_writes_pinned_sections_by_slug() {
    let sections = vec![section("Licensing Rules", "BSL"), section("!!!", "skipped"), section("Style", "rustfmt")];
    let plan = prime_plan("ctxone", "readme", true, &sections);
    assert_eq!(plan.agent, "ctxone-prime");
    assert_eq!(plan.tags, vec!["pinned", "readme", "prime"]);
    assert_eq!(plan.writes.len(), 2);
    assert_eq!(plan.writes[0].path, "/memory/pinned/readme/licensing-rules");
    assert_eq!(plan.writes[0].message, "Prime: Licensing Rules");
    assert_eq!(plan.writes[1].path, "/memory/pinned/readme/style");
    assert_eq!(plan.writes[1].body, "rustfmt");
    let primed = prime_plan("a", "s", false, &sections);
    assert_eq!(primed.writes[0].path, "/memory/primed/s/licensing-rules");
}

#[test]
fn remember_paths_and_truncation() {
    let p = RememberParams {
        fact: "x".repeat(70_000),
        importance: "high".into(),
        context: Some("licensing".into()),
        tags: None,
        ref_name: "main".into(),
    };
    let w = remember_write(&p, "abc");
    assert_eq!(w.path, "/memory/licensing/abc");
    assert!(w.truncated);
    assert_eq!(w.original_bytes, 70_000);
    assert!(w.fact.contains("truncated: original was 70000 bytes"));
    let p = RememberParams { fact: "short".into(), importance: "low".into(), context: None, tags: None, ref_name: "main".into() };
    let w = remember_write(&p, "id1");
    assert_eq!(w.path, "/memory/facts/id1");
    assert_eq!(w.fact, "short");
    assert_eq!(w.message, "short");
    assert!(!w.truncated);
}

#[test]
fn session_summary_writes() {
    let p = SummarizeSessionParams {
        session_id: "s1".into(),
        key_points: vec!["a".into(), "b".into()],
        decisions: vec![],
    };
    let plan = session_summary_plan(&p);
    assert_eq!(plan.summary, "a. b");
    assert_eq!(plan.summary_write.path, "/sessions/s1/summary");
    assert_eq!(plan.summary_write.message, "Session s1 summary");
    assert!(plan.decisions_write.is_none());
    assert_eq!(plan.details_write.path, "/sessions/s1/details");
    assert_eq!(plan.reply, "Session 's1' saved: 2 key points, 0 decisions");
    let p = SummarizeSessionParams { session_id: "s2".into(), key_points: vec![], decisions: vec!["d".into()] };
    let plan = session_summary_plan(&p);
    assert_eq!(plan.decisions_write.unwrap().path, "/sessions/s2/decisions");
    assert_eq!(plan.summary, "");
}

#[test]
fn turn_capture_writes_padded_turn_paths_with_tags() {
    let w = turn_capture_write("s1", 7, 10).unwrap();
    assert_eq!(w.path, "/sessions/s1/turns/t0007");
    assert_eq!(w.intent, "capture session s1 turn 0007");
    assert_eq!(w.tags, vec!["session:s1".to_string(), "turn:7".to_string(), "kind:full-turn".to_string()]);
    assert!(turn_capture_write("s1", 12345, 1048576).is_ok());
}

#[test]
fn turn_capture_refuses_payloads_over_a_mebibyte() {
    let e = turn_capture_write("s1", 0, 1048577).unwrap_err();
    assert_eq!(e.status, 413);
    assert_eq!(e.message, "turn payload 1048577 bytes exceeds 1048576 byte cap");
}

#[test]
fn title_capture_accepts_a_string_or_a_title_field() {
    let (t, w) = title_capture_write("abc", TitleBody::Text("Fix the bug".to_string())).unwrap();
    assert_eq!(t, "Fix the bug");
    assert_eq!(w.path, "/sessions/abc/title");
    assert_eq!(w.intent, "name session abc");
    assert_eq!(w.tags, vec!["session:abc".to_string(), "kind:session-title".to_string()]);
    let (t2, _) = title_capture_write("abc", TitleBody::Object(Some("T".to_string()))).unwrap();
    assert_eq!(t2, "T");
    let e = title_capture_write("abc", TitleBody::Object(None)).unwrap_err();
    assert_eq!((e.status, e.message.as_str()), (400, "title object must carry a string `title` field"));
    let e2 = title_capture_write("abc", TitleBody::Other).unwrap_err();
    assert_eq!(e2.message, "title body must be a JSON string or {\"title\": \"…\"}");
}

#[test]
fn meta_capture_needs_an_object() {
    let w = meta_capture_write("s", true).unwrap();
    assert_eq!(w.path, "/sessions/s/meta");
    assert_eq!(w.intent, "session meta s");
    assert_eq!(w.tags, vec!["session:s".to_string(), "kind:session-meta".to_string()]);
    let e = meta_capture_write("s", false).unwrap_err();
    assert_eq!(e.status, 400);
    assert_eq!(e.message, "meta body must be a JSON object {source?, started_at?, updated_at?}");
}

#[test]
fn turn_roots_collapse_leaf_paths_to_turns() {
    let paths = vec![
        "/sessions/x/turns/t0001/response".to_string(),
        "/sessions/x/turns/t0000/request/text".to_string(),
        "/sessions/x/turns/t0001/request".to_string(),
        "/sessions/x/turns/t0002".to_string(),
        "/sessions/y/turns/t0009/request".to_string(),
        "/sessions/x/title".to_string(),
    ];
    assert_eq!(
        turn_roots("x", &paths),
        vec![
            "/sessions/x/turns/t0000".to_string(),
            "/sessions/x/turns/t0001".to_string(),
            "/sessions/x/turns/t0002".to_string(),
        ]
    );
}

#[test]
fn run_prime_writes_pinned_sections() {
    let sections = vec![section("Licensing", "BSL-1.1"), section("Architecture", "SQLite default")];
    let plan = prime_plan("test-agent", "test", true, &sections);
    assert_eq!(plan.writes.len(), 2);
    assert_eq!(plan.tags, vec!["pinned".to_string(), "test".to_string(), "prime".to_string()]);
    assert_eq!(plan.writes[0].path, "/memory/pinned/test/licensing");
}

#[test]
fn run_prime_is_idempotent_on_source() {
    let sections = vec![section("Title", "body")];
    let first = prime_plan("test-agent", "src", false, &sections);
    let second = prime_plan("test-agent", "src", false, &sections);
    let paths = |p: &ctxone_hub::requests::PrimePlan| p.writes.iter().map(|w| w.path.clone()).collect::<Vec<_>>();
    // The same source and titles write the same single slug.
    assert_eq!(paths(&first), paths(&second));
    assert!(paths(&second).iter().any(|p| p.contains("/memory/primed/src/title")));
}
