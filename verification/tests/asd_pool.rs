use ctxone_hub::asd_pool::{list_asd_repos, resolve_asd_base, AsdProcessPool, AsdRoute, PoolStep, DEFAULT_IDLE_TIMEOUT_NS};

fn pool() -> AsdProcessPool {
    AsdProcessPool::new(
        vec![
            ("alpha".to_string(), "/db/alpha".to_string()),
            ("beta".to_string(), "/db/beta".to_string()),
            ("alpha".to_string(), "/db/alpha2".to_string()),
        ],
        None,
        Some(1_000),
    )
}

#[test]
fn pool_registers_each_repo_once_with_the_last_path() {
    let p = pool();
    assert_eq!(p.repo_names(), vec!["alpha".to_string(), "beta".to_string()]);
    assert!(!p.is_running("alpha"));
}

#[test]
fn pool_asks_to_spawn_a_registered_repo_with_the_default_binary() {
    let mut p = pool();
    match p.base_url("alpha", 5) {
        PoolStep::Spawn { binary, db_path } => {
            assert_eq!(binary, "asd-serve");
            assert_eq!(db_path, "/db/alpha2");
        }
        _ => panic!("expected a spawn"),
    }
}

#[test]
fn pool_refuses_an_unknown_repo() {
    let mut p = pool();
    match p.base_url("gamma", 5) {
        PoolStep::NotRegistered(m) => assert_eq!(m, "repo 'gamma' is not registered in the pool"),
        _ => panic!("expected a refusal"),
    }
}

#[test]
fn pool_answers_from_a_recorded_process() {
    let mut p = AsdProcessPool::new(vec![("r".to_string(), "/db/r".to_string())], Some("/bin/asd".to_string()), None);
    p.record_spawn("r", "http://127.0.0.1:5000".to_string(), 10);
    assert!(p.is_running("r"));
    match p.base_url("r", 20) {
        PoolStep::Ready(u) => assert_eq!(u, "http://127.0.0.1:5000"),
        _ => panic!("expected the live address"),
    }
    // Used at 20: not idle at 20 + the default timeout.
    assert!(p.evict_idle(20 + DEFAULT_IDLE_TIMEOUT_NS).is_empty());
    assert_eq!(p.evict_idle(21 + DEFAULT_IDLE_TIMEOUT_NS), vec!["r".to_string()]);
    assert!(!p.is_running("r"));
}

#[test]
fn pool_retires_only_idle_processes() {
    let mut p = pool();
    p.record_spawn("alpha", "http://127.0.0.1:1".to_string(), 100);
    p.record_spawn("beta", "http://127.0.0.1:2".to_string(), 900);
    let gone = p.evict_idle(1_500);
    assert_eq!(gone, vec!["alpha".to_string()]);
    assert!(!p.is_running("alpha"));
    assert!(p.is_running("beta"));
}

#[test]
fn pool_upsert_restarts_and_remove_forgets() {
    let mut p = pool();
    p.record_spawn("beta", "http://127.0.0.1:2".to_string(), 0);
    p.upsert("beta".to_string(), "/db/beta-new".to_string());
    assert!(!p.is_running("beta"));
    match p.base_url("beta", 1) {
        PoolStep::Spawn { db_path, .. } => assert_eq!(db_path, "/db/beta-new"),
        _ => panic!("expected a spawn"),
    }
    p.remove("alpha");
    assert_eq!(p.repo_names(), vec!["beta".to_string()]);
    p.record_spawn("alpha", "http://127.0.0.1:9".to_string(), 3);
    assert!(!p.is_running("alpha"));
}

#[test]
fn fixed_repos_win_over_the_pool() {
    let statics = vec![("web".to_string(), "http://10.0.0.2:7000//".to_string())];
    match resolve_asd_base(&statics, true, "web") {
        AsdRoute::Static(u) => assert_eq!(u, "http://10.0.0.2:7000"),
        _ => panic!("expected the fixed URL"),
    }
    assert!(matches!(resolve_asd_base(&statics, true, "api"), AsdRoute::AskPool));
    match resolve_asd_base(&statics, false, "api") {
        AsdRoute::Unknown(m) => assert_eq!(m, "unknown ASD repo: api"),
        _ => panic!("expected an unknown repo"),
    }
}

#[test]
fn listing_shows_fixed_repos_then_pool_repos() {
    let statics = vec![("web".to_string(), "http://h:1".to_string())];
    let mut p = AsdProcessPool::new(
        vec![("web".to_string(), "/db/web".to_string()), ("api".to_string(), "/db/api".to_string()), ("core".to_string(), "/db/core".to_string())],
        None,
        None,
    );
    p.record_spawn("core", "http://127.0.0.1:9".to_string(), 1);
    let rows = list_asd_repos(&statics, Some(&p));
    let flat: Vec<(String, String, String, String)> =
        rows.into_iter().map(|r| (r.name, r.url, r.source, r.status)).collect();
    assert_eq!(
        flat,
        vec![
            ("web".to_string(), "http://h:1".to_string(), "static".to_string(), "running".to_string()),
            ("api".to_string(), "pool:api".to_string(), "pool".to_string(), "idle".to_string()),
            ("core".to_string(), "pool:core".to_string(), "pool".to_string(), "running".to_string()),
        ]
    );
    assert_eq!(list_asd_repos(&statics, None).len(), 1);
}
