use ctxone_hub::asd::{
    asd_url, canonicalize_lenient, discovered_from, extract_listening_addr, resolve_base,
};

fn repos(names: &[(&str, &str)]) -> Vec<(String, String)> {
    names.iter().map(|(n, u)| (n.to_string(), u.to_string())).collect()
}

#[test]
fn resolve_base_by_name_or_sole_repo() {
    let one = repos(&[("app", "http://127.0.0.1:7001")]);
    assert_eq!(resolve_base(&one, None).unwrap(), "http://127.0.0.1:7001");
    assert_eq!(resolve_base(&one, Some("")).unwrap(), "http://127.0.0.1:7001");
    assert_eq!(resolve_base(&one, Some("app")).unwrap(), "http://127.0.0.1:7001");
    let two = repos(&[("app", "u1"), ("sdk", "u2")]);
    assert_eq!(resolve_base(&two, Some("sdk")).unwrap(), "u2");
    assert_eq!(
        resolve_base(&two, None).unwrap_err(),
        "Multiple repos registered; specify repo name. Known repos: app, sdk"
    );
    assert_eq!(resolve_base(&two, Some("web")).unwrap_err(), "unknown repo \"web\". Known repos: app, sdk");
    assert_eq!(
        resolve_base(&[], Some("x")).unwrap_err(),
        "No ASD repos registered. Start ctxone-hub with --asd-url name=http://... to enable code tools."
    );
}

#[test]
fn asd_urls() {
    assert_eq!(asd_url("http://h:1//", "symbols?q=x"), "http://h:1/api/v1/symbols?q=x");
    assert_eq!(asd_url("http://h:1", "status"), "http://h:1/api/v1/status");
}

#[test]
fn tolerates_tilde_paths_via_canonicalize() {
    assert_eq!(canonicalize_lenient("/abs/path", Some("/home/me")), "/abs/path");
    assert_eq!(canonicalize_lenient("~/x/db", Some("/home/me")), "/home/me/x/db");
    assert_eq!(canonicalize_lenient("~/x/db", Some("/home/me/")), "/home/me/x/db");
    assert_eq!(canonicalize_lenient("~", Some("/home/me")), "/home/me");
    assert_eq!(canonicalize_lenient("~/x", None), "~/x");
}

#[test]
fn registry_contents() {
    let d = discovered_from(
        Some(1),
        Some(Some("myapp".to_string())),
        repos(&[("myapp", "/tmp/myapp/.asd-state.db"), ("sdk", "~/sdk.db")]),
        Some("/h"),
    )
    .unwrap();
    assert_eq!(d.repos.len(), 2);
    assert_eq!(d.repos[1].path, "/h/sdk.db");
    assert_eq!(d.active.as_deref(), Some("myapp"));
    let d = discovered_from(None, Some(Some(String::new())), vec![], None).unwrap();
    assert!(d.active.is_none());
    assert!(discovered_from(Some(2), None, vec![], None).is_none());
}

#[test]
fn listening_addresses() {
    assert_eq!(
        extract_listening_addr("INFO asd: listening on 127.0.0.1:54321 (ready)").as_deref(),
        Some("127.0.0.1:54321")
    );
    assert_eq!(extract_listening_addr("listening on localhost"), None);
    assert_eq!(extract_listening_addr("starting up"), None);
}
