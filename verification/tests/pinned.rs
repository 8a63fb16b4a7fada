use ctxone_hub::pinned::{collect_pinned, PinnedRead};
use ctxone_hub::requests::{prime_plan, PrimeSectionParam};

fn read(path: &str, text: Option<&str>) -> PinnedRead {
    PinnedRead { path: path.to_string(), text: text.map(|t| t.to_string()) }
}

/// The reads a graph gives back after a prime: each section's title and
/// body under its path, listed in reverse.
fn reads_after_prime(sections: &[(&str, &str)]) -> Vec<PinnedRead> {
    let params: Vec<PrimeSectionParam> = sections
        .iter()
        .map(|(t, b)| PrimeSectionParam { title: t.to_string(), body: b.to_string() })
        .collect();
    let plan = prime_plan("test-agent", "src", true, &params);
    let mut reads = Vec::new();
    for w in plan.writes.iter().rev() {
        reads.push(PinnedRead { path: format!("{}/body", w.path), text: Some(w.body.clone()) });
        reads.push(PinnedRead { path: format!("{}/title", w.path), text: Some(w.title.clone()) });
    }
    reads
}

#[test]
fn collect_pinned_returns_empty_when_no_pinned() {
    let pinned = collect_pinned(&Vec::new());
    assert!(pinned.is_empty());
}

#[test]
fn collect_pinned_groups_title_and_body() {
    let reads = reads_after_prime(&[("First Section", "first body"), ("Second Section", "second body")]);
    let pinned = collect_pinned(&reads);
    assert_eq!(pinned.len(), 2);
    // Sections come in path order, so "first-section" < "second-section".
    assert_eq!(pinned[0].title, "First Section");
    assert_eq!(pinned[0].body, "first body");
    assert_eq!(pinned[1].title, "Second Section");
    assert_eq!(pinned[1].body, "second body");
    assert_eq!(pinned[0].path, "/memory/pinned/src/first-section");
}

#[test]
fn collect_pinned_drops_sections_missing_a_field() {
    let reads = vec![
        read("/memory/pinned/a/title", Some("A")),
        read("/memory/pinned/b/title", Some("B")),
        read("/memory/pinned/b/body", None),
        read("/memory/pinned/c/body", Some("only body")),
        read("/memory/pinned/d/notes", Some("ignored")),
        read("/memory/pinned/a/body", Some("alpha")),
    ];
    let pinned = collect_pinned(&reads);
    assert_eq!(pinned.len(), 1);
    assert_eq!(pinned[0].path, "/memory/pinned/a");
    assert_eq!(pinned[0].title, "A");
    assert_eq!(pinned[0].body, "alpha");
}

#[test]
fn collect_pinned_keeps_the_last_read_of_a_field() {
    let reads = vec![
        read("/memory/pinned/z/title", Some("old")),
        read("/memory/pinned/z/body", Some("body")),
        read("/memory/pinned/z/title", Some("new")),
        read("/memory/pinned/m/body", Some("mb")),
        read("/memory/pinned/m/title", Some("mt")),
    ];
    let pinned = collect_pinned(&reads);
    assert_eq!(pinned.len(), 2);
    assert_eq!(pinned[0].path, "/memory/pinned/m");
    assert_eq!(pinned[1].path, "/memory/pinned/z");
    assert_eq!(pinned[1].title, "new");
}
