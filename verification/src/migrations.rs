//! Schema versioning of what the hub stores in the graph: which version a
//! graph records, and what starting up against it must do.

use vstd::prelude::*;

use crate::text::{decimal, decimal_exec, owned, push_chars, push_str};

verus! {

/// Current schema version of what the hub writes to the graph.
pub const CTXONE_SCHEMA_VERSION: u32 = 1;

/// Where the schema version is stored (on `main`).
pub const SCHEMA_VERSION_PATH: &'static str = "/ctxone/schema_version";

/// Why migrating a graph failed.
#[derive(Debug, Clone, PartialEq, Eq)]
pub enum MigrationError {
    /// The graph was written by a newer hub than this one.
    NewerGraph { graph: u32, hub: u32 },
    /// A repository operation failed, by its message.
    Repo(String),
}

/// The message of a migration error.
pub open spec fn migration_error_text(e: MigrationError) -> Seq<char> {
    match e {
        MigrationError::NewerGraph { graph, hub } => "graph schema version "@ + decimal(graph as nat)
            + " is newer than this Hub (v"@ + decimal(hub as nat)
            + "). Upgrade ctxone-hub or use an older graph."@,
        MigrationError::Repo(m) => "repository error: "@ + m@,
    }
}

impl MigrationError {
    /// The error's message.
    pub fn message(&self) -> (r: String)
        ensures
            r@ == migration_error_text(*self),
    {
        match self {
            MigrationError::NewerGraph { graph, hub } => {
                let mut s = owned("graph schema version ");
                push_chars(&mut s, &decimal_exec(*graph as u64));
                push_str(&mut s, " is newer than this Hub (v");
                push_chars(&mut s, &decimal_exec(*hub as u64));
                push_str(&mut s, "). Upgrade ctxone-hub or use an older graph.");
                s
            },
            MigrationError::Repo(m) => {
                let mut s = owned("repository error: ");
                push_str(&mut s, m.as_str());
                s
            },
        }
    }
}

/// The version a graph records, from what reading the version path gave:
/// `None` when the read failed (nothing recorded), else the stored value
/// as an unsigned integer if it is one. A missing or non-integer value
/// counts as 0; a value past `u32` keeps its low 32 bits.
pub open spec fn recorded_version(read: Option<Option<u64>>) -> u32 {
    match read {
        Some(Some(v)) => v as u32,
        _ => 0,
    }
}

/// The schema version recorded in a graph, from what reading the version
/// path gave.
pub fn current_schema_version(read: Option<Option<u64>>) -> (r: u32)
    ensures
        r == recorded_version(read),
{
    match read {
        Some(Some(v)) => v as u32,
        _ => 0,
    }
}

/// What starting up against a graph must do.
#[derive(Debug, Clone, Copy, PartialEq, Eq, Structural)]
pub enum MigrationStep {
    /// The graph is at the current version: nothing to do.
    UpToDate,
    /// Run the migrations from `from + 1` through `to`, then record `to`.
    Migrate { from: u32, to: u32 },
}

/// What starting up against a graph at `current` does: a newer graph is
/// refused, the current one left alone, an older one (0: fresh) migrated
/// to the current version.
pub open spec fn migration_of(current: u32) -> Result<MigrationStep, MigrationError> {
    if current > CTXONE_SCHEMA_VERSION {
        Err(MigrationError::NewerGraph { graph: current, hub: CTXONE_SCHEMA_VERSION })
    } else if current == CTXONE_SCHEMA_VERSION {
        Ok(MigrationStep::UpToDate)
    } else {
        Ok(MigrationStep::Migrate { from: current, to: CTXONE_SCHEMA_VERSION })
    }
}

/// Decides what to do with a graph at schema version `current`. Every
/// version from `current + 1` through the current one has a registered
/// migration, so an older graph is always migrated.
pub fn run_migrations(current: u32) -> (r: Result<MigrationStep, MigrationError>)
    ensures
        r == migration_of(current),
{
    if current > CTXONE_SCHEMA_VERSION {
        return Err(MigrationError::NewerGraph { graph: current, hub: CTXONE_SCHEMA_VERSION });
    }
    if current == CTXONE_SCHEMA_VERSION {
        return Ok(MigrationStep::UpToDate);
    }
    Ok(MigrationStep::Migrate { from: current, to: CTXONE_SCHEMA_VERSION })
}

/// The commit message recording a schema version.
pub fn schema_commit_message(version: u32) -> (r: String)
    ensures
        r@ == "ctxone schema -> v"@ + decimal(version as nat),
{
    let mut s = owned("ctxone schema -> v");
    push_chars(&mut s, &decimal_exec(version as u64));
    s
}

/// Migrating is idempotent: once a graph has been migrated and the target
/// version recorded, starting up again finds it up to date.
pub proof fn law_migration_idempotent(current: u32)
    ensures
        migration_of(current) matches Ok(MigrationStep::Migrate { from, to }) ==> migration_of(to)
            == Ok::<MigrationStep, MigrationError>(MigrationStep::UpToDate),
        migration_of(current) matches Ok(MigrationStep::Migrate { from, to }) ==> recorded_version(
            Some(Some(to as u64)),
        ) == to,
{
}

/// A graph newer than the hub is always refused, naming both versions.
pub proof fn law_newer_graph_refused(current: u32)
    requires
        current > CTXONE_SCHEMA_VERSION,
    ensures
        migration_of(current) == Err::<MigrationStep, MigrationError>(
            MigrationError::NewerGraph { graph: current, hub: CTXONE_SCHEMA_VERSION },
        ),
{
}

} // verus!
