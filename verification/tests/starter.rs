use ctxone_hub::segments::TurnRecord;
use ctxone_hub::starter::{build_starter, distill, is_noise_line};

fn turn(idx: u64, branch: &str, ts: &str, user_text: &str) -> TurnRecord {
    TurnRecord {
        turn_index: Some(idx),
        first_branch: Some(branch.to_string()),
        cwd: Some("/repo".to_string()),
        timestamp: Some(ts.to_string()),
        token_counts: vec![],
        user_text: Some(user_text.to_string()),
    }
}

#[test]
fn pulls_user_words_verbatim_in_order() {
    let t = vec![
        turn(0, "main", "2026-08-01T10:00:00Z", "Add a rate limiter to the API"),
        turn(1, "main", "2026-08-01T10:05:00Z", "Use a token bucket, not a fixed window"),
    ];
    let s = build_starter(&t, Some("API work"));
    assert!(s.markdown.contains("Add a rate limiter to the API"));
    assert!(s.markdown.contains("Use a token bucket, not a fixed window"));
    let a = s.markdown.find("rate limiter").unwrap();
    let b = s.markdown.find("token bucket").unwrap();
    assert!(a < b);
    assert_eq!(s.user_turn_count, 2);
    assert_eq!(s.source_turns, vec![0, 1]);
    assert!(s.markdown.contains("not an agent summary"));
}

#[test]
fn drops_noise_and_tool_only_turns() {
    let t = vec![
        turn(
            0,
            "main",
            "2026-08-01T10:00:00Z",
            "<system-reminder>ignore me</system-reminder>\nKeep this line",
        ),
        turn(1, "main", "2026-08-01T10:05:00Z", "<command-name>/foo</command-name>\n```\ntool output\n```"),
    ];
    let s = build_starter(&t, None);
    assert!(s.markdown.contains("Keep this line"));
    assert!(!s.markdown.contains("ignore me"));
    assert_eq!(s.user_turn_count, 1);
    assert_eq!(s.source_turns, vec![0]);
}

#[test]
fn groups_by_arc_on_branch_change() {
    let t = vec![
        turn(0, "main", "2026-08-01T10:00:00Z", "Fix the login bug"),
        turn(1, "plan/auth", "2026-08-01T10:05:00Z", "Now add OAuth"),
    ];
    let s = build_starter(&t, None);
    assert_eq!(s.arc_count, 2);
    assert!(s.markdown.contains("## auth"));
}

#[test]
fn long_message_is_capped() {
    let long = "x".repeat(1000);
    let t = vec![turn(0, "main", "2026-08-01T10:00:00Z", &long)];
    let s = build_starter(&t, None);
    assert!(s.markdown.contains('…'));
    assert!(!s.markdown.contains(&"x".repeat(400)));
}

#[test]
fn empty_session_is_safe() {
    let s = build_starter(&vec![], None);
    assert_eq!(s.user_turn_count, 0);
    assert!(s.markdown.contains("No user messages"));
}

#[test]
fn distill_keeps_three_clean_lines() {
    assert_eq!(distill("a\nb\nc\nd").as_deref(), Some("a b c"));
    assert_eq!(distill("<system-reminder>x</system-reminder>"), None);
    assert!(is_noise_line("```"));
    assert!(!is_noise_line("plain words"));
}
