use ctxone_hub::project::{
    branch_from_outputs, ctxproject_id, detect_project, longest_local_path, normalize_remote_url,
    remote_from_output, sanitize_branch_name, DetectResult, Project,
};

fn project(id: &str, ns: &str) -> Project {
    Project {
        id: id.to_string(),
        remote_url: Some("https://github.com/u/r".to_string()),
        namespace_id: ns.to_string(),
        display_name: None,
        created_at: "2026-01-01T00:00:00Z".to_string(),
        local_paths: vec![],
    }
}

#[test]
fn sanitize_branch_name_handles_common_patterns() {
    assert_eq!(sanitize_branch_name("main"), "main");
    assert_eq!(sanitize_branch_name("feature/my-feature"), "feature-my-feature");
    assert_eq!(sanitize_branch_name("refs/heads/fix/bug-42"), "fix-bug-42");
    assert_eq!(sanitize_branch_name("user@branch"), "user-branch");
    assert_eq!(sanitize_branch_name("---"), "work");
}

#[test]
fn sanitize_branch_name_is_idempotent_on_examples() {
    for b in ["refs/heads/fix/bug-42", "user@branch", "---", "a//b"] {
        let once = sanitize_branch_name(b);
        assert_eq!(sanitize_branch_name(&once), once);
    }
}

#[test]
fn normalize_remote_url_strips_git_suffix() {
    assert_eq!(normalize_remote_url("https://github.com/user/repo.git"), "https://github.com/user/repo");
    assert_eq!(normalize_remote_url("https://github.com/user/repo"), "https://github.com/user/repo");
    assert_eq!(normalize_remote_url("https://github.com/user/repo/"), "https://github.com/user/repo");
}

#[test]
fn detect_project_returns_not_found_when_empty() {
    let result = detect_project(true, None, None, Ok(None));
    assert!(matches!(result, DetectResult::NotFound));
}

#[test]
fn detect_project_finds_by_ctxproject_file() {
    let result = detect_project(true, Some(Ok(Some(project("test-proj", "test-ns")))), None, Ok(None));
    assert!(
        matches!(result, DetectResult::FoundByFile { ref namespace_id, .. } if namespace_id == "test-ns")
    );
}

#[test]
fn detect_project_without_registry_is_unavailable() {
    let result = detect_project(false, None, None, Ok(None));
    assert!(matches!(result, DetectResult::RegistryUnavailable));
    let result = detect_project(true, Some(Err(())), None, Ok(None));
    assert!(matches!(result, DetectResult::RegistryUnavailable));
}

#[test]
fn detect_project_falls_through_to_remote_then_path() {
    let by_remote = Some(("https://github.com/u/r".to_string(), Ok(Some(project("p2", "ns2")))));
    let result = detect_project(true, Some(Ok(None)), by_remote, Ok(None));
    assert!(matches!(result, DetectResult::FoundByRemote { ref project_id, .. } if project_id == "p2"));

    let by_path = Ok(Some((project("p3", "ns3"), "/work/p3".to_string())));
    let result = detect_project(true, None, Some(("u".to_string(), Ok(None))), by_path);
    assert!(
        matches!(result, DetectResult::FoundByPath { ref local_path, .. } if local_path == "/work/p3")
    );
}

#[test]
fn ctxproject_file_content() {
    assert_eq!(ctxproject_id("\n  my-project-id  \nother\n").as_deref(), Some("my-project-id"));
    assert_eq!(ctxproject_id("  \n\n"), None);
}

#[test]
fn git_outputs() {
    assert_eq!(remote_from_output(" https://x/y.git\n", false).as_deref(), Some("https://x/y"));
    assert_eq!(remote_from_output("origin\n", true), None);
    assert_eq!(remote_from_output("   ", false), None);
    assert_eq!(branch_from_outputs(Some("main\n"), None).as_deref(), Some("main"));
    assert_eq!(branch_from_outputs(Some(" "), Some("abc123\n")).as_deref(), Some("detached-abc123"));
    assert_eq!(branch_from_outputs(None, None), None);
}

#[test]
fn longest_registered_path_wins() {
    let cwd = vec!["home".to_string(), "me".to_string(), "proj".to_string(), "src".to_string()];
    let cands = vec![
        vec!["home".to_string()],
        vec!["home".to_string(), "me".to_string(), "proj".to_string()],
        vec!["other".to_string()],
    ];
    assert_eq!(longest_local_path(&cwd, &cands), Some(1));
    assert_eq!(longest_local_path(&cwd, &vec![vec!["x".to_string()]]), None);
}
