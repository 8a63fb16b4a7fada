use ctxone_hub::segments::{
    label_hint_of, metas_from_records, minutes_between, segment_turns, tokens_fit, TurnMeta,
    TurnRecord,
};

fn t(index: usize, branch: &str, cwd: &str, ts: &str) -> TurnMeta {
    TurnMeta {
        index,
        cwd: Some(cwd.to_string()),
        branch: Some(branch.to_string()),
        timestamp: Some(ts.to_string()),
        label_hint: None,
        tokens: 10,
    }
}

#[test]
fn splits_on_branch_change() {
    let turns = vec![
        t(0, "main", "/repo", "2026-08-01T10:00:00Z"),
        t(1, "main", "/repo", "2026-08-01T10:05:00Z"),
        t(2, "plan/auth", "/repo", "2026-08-01T10:10:00Z"),
        t(3, "plan/auth", "/repo", "2026-08-01T10:12:00Z"),
    ];
    let segs = segment_turns(&turns, 0);
    assert_eq!(segs.len(), 2);
    assert_eq!(segs[0].start, 0);
    assert_eq!(segs[0].end, 1);
    assert_eq!(segs[0].turn_count, 2);
    assert_eq!(segs[1].reason, "branch");
    assert_eq!(segs[1].label, "auth");
    assert_eq!(segs[1].tokens, 20);
}

#[test]
fn splits_on_idle_gap() {
    let turns = vec![
        t(0, "main", "/repo", "2026-08-01T10:00:00Z"),
        t(1, "main", "/repo", "2026-08-01T10:05:00Z"),
        t(2, "main", "/repo", "2026-08-01T11:35:00Z"),
    ];
    let segs = segment_turns(&turns, 30);
    assert_eq!(segs.len(), 2);
    assert_eq!(segs[1].reason, "gap");
}

#[test]
fn gap_rule_disabled_when_zero() {
    let turns = vec![
        t(0, "main", "/repo", "2026-08-01T10:00:00Z"),
        t(1, "main", "/repo", "2026-08-01T14:00:00Z"),
    ];
    assert_eq!(segment_turns(&turns, 0).len(), 1);
}

#[test]
fn splits_on_cwd_change() {
    let turns = vec![
        t(0, "main", "/repo-a", "2026-08-01T10:00:00Z"),
        t(1, "main", "/repo-b", "2026-08-01T10:01:00Z"),
    ];
    let segs = segment_turns(&turns, 0);
    assert_eq!(segs.len(), 2);
    assert_eq!(segs[1].reason, "cwd");
    assert_eq!(segs[1].cwd.as_deref(), Some("/repo-b"));
    assert_eq!(segs[1].label, "main");
}

#[test]
fn empty_input_no_segments() {
    assert!(segment_turns(&[], 30).is_empty());
}

#[test]
fn extracts_metas_from_tree() {
    let records = vec![
        TurnRecord {
            turn_index: Some(0),
            first_branch: Some("main".to_string()),
            cwd: Some("/r".to_string()),
            timestamp: Some("2026-08-01T10:00:00Z".to_string()),
            token_counts: vec![5, 3],
            user_text: Some("  \nfix the bug".to_string()),
        },
        TurnRecord {
            turn_index: Some(1),
            first_branch: Some("plan/x".to_string()),
            cwd: Some("/r".to_string()),
            timestamp: Some("2026-08-01T10:05:00Z".to_string()),
            token_counts: vec![2],
            user_text: None,
        },
    ];
    let metas = metas_from_records(&records);
    assert_eq!(metas.len(), 2);
    assert_eq!(metas[0].branch.as_deref(), Some("main"));
    assert_eq!(metas[0].tokens, 8);
    assert_eq!(metas[0].label_hint.as_deref(), Some("fix the bug"));
    let segs = segment_turns(&metas, 0);
    assert_eq!(segs.len(), 2);
}

#[test]
fn arcs_cover_every_turn_once() {
    let turns = vec![
        t(0, "main", "/a", "2026-08-01T10:00:00Z"),
        t(1, "b", "/a", "2026-08-01T10:01:00Z"),
        t(2, "b", "/c", "2026-08-01T10:02:00Z"),
        t(3, "b", "/c", "2026-08-01T15:02:00Z"),
    ];
    let segs = segment_turns(&turns, 60);
    assert_eq!(segs.len(), 4);
    assert_eq!(segs.iter().map(|s| s.turn_count).sum::<usize>(), 4);
    assert_eq!(segs.iter().map(|s| s.tokens).sum::<u64>(), 40);
    assert_eq!(segs[0].reason, "start");
    for w in segs.windows(2) {
        assert_eq!(w[0].end + 1, w[1].start);
    }
}

#[test]
fn minutes_between_instants() {
    assert_eq!(minutes_between((0, 0), (5400, 0)), 90);
    assert_eq!(minutes_between((0, 0), (59, 999_999_999)), 0);
    assert_eq!(minutes_between((120, 0), (0, 0)), 2);
}

#[test]
fn label_hints() {
    assert_eq!(label_hint_of("\n   \n  first real line \nsecond").as_deref(), Some("first real line"));
    assert_eq!(label_hint_of("   "), None);
    assert_eq!(label_hint_of(&"y".repeat(100)).map(|s| s.chars().count()), Some(80));
}

#[test]
fn token_totals_fit_check() {
    let mut turns = vec![t(0, "main", "/r", "2026-08-01T10:00:00Z")];
    assert!(tokens_fit(&turns));
    turns[0].tokens = u64::MAX;
    turns.push(t(1, "main", "/r", "2026-08-01T10:00:00Z"));
    assert!(!tokens_fit(&turns));
}

#[test]
fn arc_without_branch_or_cwd_is_labelled_by_its_first_message() {
    let turns = vec![TurnMeta {
        index: 0,
        cwd: None,
        branch: None,
        timestamp: None,
        label_hint: Some("fix the bug".into()),
        tokens: 0,
    }];
    let r = segment_turns(&turns, 0);
    assert_eq!(r.len(), 1);
    assert_eq!(r[0].reason, "start");
    assert_eq!(r[0].label, "fix the bug");
}
