use ctxone_hub::links::{commit_messages, parse_ref, task_refs, Candidate};

fn cand(i: usize, cmd: &str) -> Candidate<'_> {
    Candidate { turn_index: i, command: cmd }
}

#[test]
fn extracts_and_normalizes_a_task_ref() {
    let links = ctxone_hub::links::derive(&[cand(3, r#"git commit -m "feat: lens board (ctxone t-4)""#)], |_, _| true);
    assert_eq!(links.len(), 1);
    assert_eq!(links[0].plan, "ctxone");
    assert_eq!(links[0].task, "t-004");
    assert_eq!(links[0].turn_index, 3);
    assert!(links[0].validated);
}

#[test]
fn handles_single_quotes_and_skips_dry_runs() {
    let a = ctxone_hub::links::derive(&[cand(0, "git commit -m 'fix: thing (plan t-012)'")], |_, _| true);
    assert_eq!(a.len(), 1);
    assert_eq!(a[0].task, "t-012");

    let b = ctxone_hub::links::derive(&[cand(0, r#"git commit --dry-run -m "nope (plan t-001)""#)], |_, _| true);
    assert!(b.is_empty());

    let c = ctxone_hub::links::derive(&[cand(0, r#"echo "run git commit -m foo (plan t-001)""#)], |_, _| true);
    assert!(c.is_empty());
}

#[test]
fn records_unvalidated_refs_rather_than_dropping_them() {
    let links = ctxone_hub::links::derive(&[cand(1, r#"git commit -m "chore (ghost-plan t-999)""#)], |plan, _| {
        plan != "ghost-plan"
    });
    assert_eq!(links.len(), 1);
    assert!(!links[0].validated);
}

#[test]
fn dedupes_a_task_worked_on_across_commits() {
    let links = ctxone_hub::links::derive(
        &[
            cand(1, r#"git commit -m "feat: part 1 (p t-001)""#),
            cand(4, r#"git commit -m "feat: part 2 (p t-001)""#),
        ],
        |_, _| true,
    );
    assert_eq!(links.len(), 1);
    assert_eq!(links[0].turn_index, 1);
}

#[test]
fn multiple_refs_and_multiple_m_flags() {
    let links = ctxone_hub::links::derive(
        &[cand(0, r#"git commit -m "feat: two things (plan-a t-001)" -m "body (plan-b t-2)""#)],
        |_, _| true,
    );
    assert_eq!(links.len(), 2);
    assert_eq!(links[1].task, "t-002");
}

#[test]
fn ignores_garbage_in_parens() {
    let links = ctxone_hub::links::derive(
        &[cand(0, r#"git commit -m "wip (see the other thing) and (t-1 extra bad)""#)],
        |_, _| true,
    );
    assert!(links.is_empty());
}

#[test]
fn evidence_is_the_commit_subject() {
    let links = ctxone_hub::links::derive(&[cand(2, "git commit -m 'feat: x (p t-7)'")], |_, _| true);
    assert_eq!(links[0].evidence, "feat: x (p t-7)");
}

#[test]
fn refs_and_messages() {
    assert_eq!(parse_ref("plan-a t-12"), Some(("plan-a".to_string(), "t-012".to_string())));
    assert_eq!(parse_ref("t-12"), None);
    assert_eq!(
        task_refs("a (p t-1) b (q t-0002)"),
        vec![("p".to_string(), "t-001".to_string()), ("q".to_string(), "t-002".to_string())]
    );
    assert_eq!(commit_messages("git commit -m \"one\" -m 'two'"), vec!["one", "two"]);
    assert!(commit_messages("git status").is_empty());
}

#[test]
fn a_quoted_mention_of_git_commit_is_not_a_commit() {
    let links = ctxone_hub::links::derive(
        &[cand(0, r#"echo "run git commit -m 'fix (plan t-001)'""#)],
        |_, _| true,
    );
    assert!(links.is_empty());
    assert_eq!(commit_messages("cd repo && git commit -m 'x (p t-1)'"), vec!["x (p t-1)"]);
    assert!(commit_messages("git commitx -m 'x'").is_empty());
}
