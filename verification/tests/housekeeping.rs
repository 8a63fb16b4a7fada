use ctxone_hub::backup::{
    iso_compact_of, iso_compact_of_reading, iso_utc_compact, prune_victims, snapshot_and_prune, snapshot_candidates, snapshot_collision_error,
    snapshot_now, snapshot_path, SnapshotFile,
};
use ctxone_hub::lockfile::{
    acquire_decision, lock_body, lock_path, read_pid, watch_step, DbFingerprint, DriftEvent,
    LockDecision, LockGuard,
};
use ctxone_hub::migrations::{
    current_schema_version, run_migrations, schema_commit_message, MigrationError, MigrationStep,
    CTXONE_SCHEMA_VERSION,
};

// -------- backups --------

#[test]
fn iso_compact_timestamps() {
    assert_eq!(iso_compact_of(0), "19700101T000000Z");
    assert_eq!(iso_compact_of(1_700_000_000), "20231114T221320Z");
    assert_eq!(iso_compact_of(951_782_400), "20000229T000000Z");
    let now = iso_utc_compact();
    assert_eq!(now.len(), 16);
    assert!(now.ends_with('Z'));
}

#[test]
fn snapshot_names() {
    assert_eq!(snapshot_path("/d/ctx.db", "20260101T000000Z"), "/d/ctx.db.bak.20260101T000000Z");
    let c = snapshot_candidates("/d/a.db", "S");
    assert_eq!(c.len(), 100);
    assert_eq!(c[0], "/d/a.db.bak.S");
    assert_eq!(c[1], "/d/a.db.bak.S_1");
    assert_eq!(c[99], "/d/a.db.bak.S_99");
}

#[test]
fn snapshot_collision_appends_counter() {
    let taken = ["/d/a.db.bak.S".to_string(), "/d/a.db.bak.S_1".to_string()];
    let r = snapshot_now("/d/a.db", "S", |p: &str| taken.iter().any(|t| t == p));
    assert_eq!(r.unwrap(), "/d/a.db.bak.S_2");
    assert_eq!(snapshot_now("/d/a.db", "S", |_: &str| false).unwrap(), "/d/a.db.bak.S");
}

#[test]
fn snapshot_gives_up_after_ninety_nine_retries() {
    let r = snapshot_now("/d/a.db", "S", |_: &str| true);
    assert_eq!(r.unwrap_err(), snapshot_collision_error("/d/a.db", "S"));
    assert_eq!(
        snapshot_collision_error("/d/a.db", "S"),
        "snapshot collision: /d/a.db.bak.S already exists with 99 retries"
    );
}

#[test]
fn prune_keeps_only_newest_k() {
    let f = |n: &str, m: u128| SnapshotFile { name: n.to_string(), mtime: m };
    let files = vec![
        f("ctx.db.bak.1", 10),
        f("other.txt", 99),
        f("ctx.db.bak.2", 30),
        f("ctx.db.bak.3", 20),
        f("ctx.db", 50),
    ];
    let mut victims = prune_victims(&files, "ctx.db", 2);
    victims.sort();
    assert_eq!(victims, vec![0]);
    assert!(prune_victims(&files, "ctx.db", 5).is_empty());
    assert_eq!(prune_victims(&files, "ctx.db", 0).len(), 3);
}

// -------- lockfile --------

#[test]
fn lock_body_round_trips_pid() {
    let body = lock_body(4242, 1_700_000_000, "0.1.0");
    assert_eq!(body, "{\"pid\":4242,\"started_at_unix\":1700000000,\"hub_version\":\"0.1.0\"}\n");
    assert_eq!(read_pid(&body), Some(4242));
    assert_eq!(read_pid("garbage"), None);
    assert_eq!(lock_path("/d/ctx.db"), "/d/ctx.db.lock");
}

#[test]
fn acquire_decisions() {
    assert_eq!(acquire_decision("/l", false, None, false), LockDecision::Take);
    assert_eq!(acquire_decision("/l", true, None, false), LockDecision::ReclaimUnreadable);
    assert_eq!(acquire_decision("/l", true, Some(7), false), LockDecision::ReclaimStale(7));
    match acquire_decision("/l", true, Some(7), true) {
        LockDecision::Refuse(m) => assert_eq!(
            m,
            "database is already locked by ctxone-hub pid 7 (lockfile: /l); refusing to start a second hub against the same db"
        ),
        other => panic!("expected refusal, got {other:?}"),
    }
}

#[test]
fn watchdog_steps() {
    let a = DbFingerprint { dev: 1, ino: 2 };
    let b = DbFingerprint { dev: 1, ino: 3 };
    assert_eq!(watch_step(a, None), (DriftEvent::Missing, a));
    assert_eq!(watch_step(a, Some(a)), (DriftEvent::Unchanged, a));
    assert_eq!(watch_step(a, Some(b)), (DriftEvent::Replaced { old: a, new: b }, b));
}

#[test]
fn lock_guard_releases_once() {
    let mut g = LockGuard::new("/d/ctx.db.lock".to_string());
    assert_eq!(g.path(), "/d/ctx.db.lock");
    assert!(g.release());
    assert!(!g.release());
}

// -------- migrations --------

#[test]
fn fresh_repo_has_version_zero() {
    assert_eq!(current_schema_version(None), 0);
    assert_eq!(current_schema_version(Some(None)), 0);
}

#[test]
fn run_migrations_initializes_fresh_repo_to_current_version() {
    assert_eq!(
        run_migrations(current_schema_version(None)),
        Ok(MigrationStep::Migrate { from: 0, to: CTXONE_SCHEMA_VERSION })
    );
}

#[test]
fn run_migrations_is_idempotent() {
    match run_migrations(0) {
        Ok(MigrationStep::Migrate { to, .. }) => {
            let recorded = current_schema_version(Some(Some(to as u64)));
            assert_eq!(run_migrations(recorded), Ok(MigrationStep::UpToDate));
        }
        other => panic!("expected a migration, got {other:?}"),
    }
}

#[test]
fn run_migrations_refuses_newer_graph() {
    let current = current_schema_version(Some(Some(CTXONE_SCHEMA_VERSION as u64 + 1)));
    match run_migrations(current) {
        Err(MigrationError::NewerGraph { graph, hub }) => {
            assert_eq!(graph, CTXONE_SCHEMA_VERSION + 1);
            assert_eq!(hub, CTXONE_SCHEMA_VERSION);
        }
        other => panic!("expected NewerGraph error, got {:?}", other),
    }
}

#[test]
fn migration_messages() {
    assert_eq!(schema_commit_message(1), "ctxone schema -> v1");
    assert_eq!(
        MigrationError::NewerGraph { graph: 2, hub: 1 }.message(),
        "graph schema version 2 is newer than this Hub (v1). Upgrade ctxone-hub or use an older graph."
    );
    assert_eq!(MigrationError::Repo("boom".to_string()).message(), "repository error: boom");
}

#[test]
fn prune_only_after_a_successful_snapshot() {
    let f = |n: &str, m: u128| SnapshotFile { name: n.to_string(), mtime: m };
    let files = vec![f("ctx.db.bak.1", 10), f("ctx.db.bak.2", 30), f("ctx.db.bak.3", 20)];
    assert!(snapshot_and_prune(&Err("disk full".to_string()), &files, "ctx.db", 1).is_empty());
    let mut v = snapshot_and_prune(&Ok("ctx.db.bak.3".to_string()), &files, "ctx.db", 1);
    v.sort();
    assert_eq!(v, vec![0, 2]);
}

#[test]
fn snapshot_timestamp_follows_the_clock_reading() {
    assert_eq!(iso_compact_of_reading(Some((1_700_000_000, 999))), "20231114T221320Z");
    assert_eq!(iso_compact_of_reading(None), "19700101T000000Z");
}
