//! The pool of code-intelligence (`asd-serve`) processes, one per
//! registered repo: which repos are registered, which have a live process
//! and where it listens, and when an idle one is retired.
//!
//! The pool decides; its caller acts. Asked for a repo's base URL, the pool
//! either answers from a live process, or tells the caller to start one
//! (and the caller reports the address it came up on), or refuses a repo
//! it does not know. Times are nanoseconds on the caller's monotonic clock.

use vstd::prelude::*;

use crate::memory::strip_trailing;
use crate::text::{chars_of, copy_string, owned, push_str, str_eq, string_of, views};

verus! {

/// Idle time after which a process is retired when the caller names none:
/// ten minutes.
pub const DEFAULT_IDLE_TIMEOUT_NS: u64 = 600_000_000_000;

/// How often the caller should let the pool retire idle processes: every
/// minute.
pub const EVICTION_INTERVAL_NS: u64 = 60_000_000_000;

/// The program started for a repo when no binary is configured.
pub const DEFAULT_BINARY: &'static str = "asd-serve";

/// A live process: where it listens and when it was last used.
pub struct RunningAsd {
    pub base_url: String,
    pub last_used_ns: u64,
}

/// One registered repo: its name, its database, and its process if one is
/// live.
pub struct PoolEntry {
    pub name: String,
    pub db_path: String,
    pub running: Option<RunningAsd>,
}

/// An entry as the contracts see it: name, database, and the live
/// process's base URL and last use.
pub open spec fn entry_view(e: PoolEntry) -> (Seq<char>, Seq<char>, Option<(Seq<char>, u64)>) {
    (
        e.name@,
        e.db_path@,
        match e.running {
            Some(r) => Some((r.base_url@, r.last_used_ns)),
            None => None,
        },
    )
}

pub open spec fn entries_view(s: Seq<PoolEntry>) -> Seq<(Seq<char>, Seq<char>, Option<(Seq<char>, u64)>)> {
    s.map_values(|e: PoolEntry| entry_view(e))
}

/// No two entries share a name.
pub open spec fn distinct_names(es: Seq<(Seq<char>, Seq<char>, Option<(Seq<char>, u64)>)>) -> bool {
    forall|i: int, j: int| 0 <= i < j < es.len() ==> (#[trigger] es[i]).0 != (#[trigger] es[j]).0
}

/// The position of the first entry at or after `i` named `name`; the
/// length when there is none.
pub open spec fn index_from(
    es: Seq<(Seq<char>, Seq<char>, Option<(Seq<char>, u64)>)>,
    name: Seq<char>,
    i: int,
) -> int
    decreases es.len() - i,
{
    if i < 0 || i >= es.len() {
        es.len() as int
    } else if es[i].0 == name {
        i
    } else {
        index_from(es, name, i + 1)
    }
}

/// The database and live process registered under `name`, if any.
pub open spec fn slot_of(es: Seq<(Seq<char>, Seq<char>, Option<(Seq<char>, u64)>)>, name: Seq<char>) -> Option<
    (Seq<char>, Option<(Seq<char>, u64)>),
> {
    let k = index_from(es, name, 0);
    if k < es.len() {
        Some((es[k].1, es[k].2))
    } else {
        None
    }
}

/// Registers `name` at `db`, with no live process; an entry of that name
/// keeps its place.
pub open spec fn upsert_spec(
    es: Seq<(Seq<char>, Seq<char>, Option<(Seq<char>, u64)>)>,
    name: Seq<char>,
    db: Seq<char>,
) -> Seq<(Seq<char>, Seq<char>, Option<(Seq<char>, u64)>)> {
    let k = index_from(es, name, 0);
    if k < es.len() {
        es.update(k, (name, db, None))
    } else {
        es.push((name, db, None))
    }
}

/// The repos of a configuration registered in turn.
pub open spec fn from_repos(repos: Seq<(String, String)>) -> Seq<
    (Seq<char>, Seq<char>, Option<(Seq<char>, u64)>),
>
    decreases repos.len(),
{
    if repos.len() == 0 {
        Seq::empty()
    } else {
        upsert_spec(from_repos(repos.drop_last()), repos.last().0@, repos.last().1@)
    }
}

/// Forgets the entry named `name`.
pub open spec fn remove_spec(es: Seq<(Seq<char>, Seq<char>, Option<(Seq<char>, u64)>)>, name: Seq<char>) -> Seq<
    (Seq<char>, Seq<char>, Option<(Seq<char>, u64)>),
> {
    let k = index_from(es, name, 0);
    if k < es.len() {
        es.remove(k)
    } else {
        es
    }
}

/// Marks the live process of `name` as used at `now`.
pub open spec fn touch_spec(
    es: Seq<(Seq<char>, Seq<char>, Option<(Seq<char>, u64)>)>,
    name: Seq<char>,
    now: u64,
) -> Seq<(Seq<char>, Seq<char>, Option<(Seq<char>, u64)>)> {
    let k = index_from(es, name, 0);
    if k < es.len() && es[k].2 is Some {
        es.update(k, (es[k].0, es[k].1, Some(((es[k].2->0).0, now))))
    } else {
        es
    }
}

/// Records a process started for `name`, listening at `url`, used at `now`.
pub open spec fn record_spec(
    es: Seq<(Seq<char>, Seq<char>, Option<(Seq<char>, u64)>)>,
    name: Seq<char>,
    url: Seq<char>,
    now: u64,
) -> Seq<(Seq<char>, Seq<char>, Option<(Seq<char>, u64)>)> {
    let k = index_from(es, name, 0);
    if k < es.len() {
        es.update(k, (es[k].0, es[k].1, Some((url, now))))
    } else {
        es
    }
}

/// A live process unused for longer than `timeout` at `now`.
pub open spec fn idle(e: (Seq<char>, Seq<char>, Option<(Seq<char>, u64)>), now: u64, timeout: u64) -> bool {
    e.2 matches Some((_, last)) && now - last > timeout
}

/// Retires every idle process.
pub open spec fn evict_spec(
    es: Seq<(Seq<char>, Seq<char>, Option<(Seq<char>, u64)>)>,
    now: u64,
    timeout: u64,
) -> Seq<(Seq<char>, Seq<char>, Option<(Seq<char>, u64)>)> {
    es.map_values(
        |e: (Seq<char>, Seq<char>, Option<(Seq<char>, u64)>)|
            if idle(e, now, timeout) {
                (e.0, e.1, None)
            } else {
                e
            },
    )
}

/// The names of the entries with an idle process, in order.
pub open spec fn idle_names(
    es: Seq<(Seq<char>, Seq<char>, Option<(Seq<char>, u64)>)>,
    now: u64,
    timeout: u64,
) -> Seq<Seq<char>>
    decreases es.len(),
{
    if es.len() == 0 {
        Seq::empty()
    } else if idle(es.last(), now, timeout) {
        idle_names(es.drop_last(), now, timeout).push(es.last().0)
    } else {
        idle_names(es.drop_last(), now, timeout)
    }
}

proof fn lemma_index_from(es: Seq<(Seq<char>, Seq<char>, Option<(Seq<char>, u64)>)>, name: Seq<char>, i: int)
    requires
        0 <= i <= es.len(),
    ensures
        i <= index_from(es, name, i) <= es.len(),
        forall|t: int| i <= t < index_from(es, name, i) ==> (#[trigger] es[t]).0 != name,
        index_from(es, name, i) < es.len() ==> es[index_from(es, name, i)].0 == name,
    decreases es.len() - i,
{
    if i < es.len() && es[i].0 != name {
        lemma_index_from(es, name, i + 1);
    }
}

/// The first entry named `name` is at `j`.
proof fn lemma_index_is(es: Seq<(Seq<char>, Seq<char>, Option<(Seq<char>, u64)>)>, name: Seq<char>, j: int)
    requires
        0 <= j <= es.len(),
        forall|t: int| 0 <= t < j ==> (#[trigger] es[t]).0 != name,
        j < es.len() ==> es[j].0 == name,
    ensures
        index_from(es, name, 0) == j,
{
    lemma_index_from(es, name, 0);
}

/// With distinct names, the slot of a name is that of its one entry.
proof fn lemma_slot_at(es: Seq<(Seq<char>, Seq<char>, Option<(Seq<char>, u64)>)>, name: Seq<char>, j: int)
    requires
        distinct_names(es),
        0 <= j < es.len(),
        es[j].0 == name,
    ensures
        slot_of(es, name) == Some((es[j].1, es[j].2)),
{
    lemma_index_from(es, name, 0);
    let k = index_from(es, name, 0);
    if k < j {
        assert(es[k].0 == es[j].0);
    }
}

/// A name no entry carries has no slot.
proof fn lemma_slot_none(es: Seq<(Seq<char>, Seq<char>, Option<(Seq<char>, u64)>)>, name: Seq<char>)
    requires
        forall|t: int| 0 <= t < es.len() ==> (#[trigger] es[t]).0 != name,
    ensures
        slot_of(es, name) is None,
{
    lemma_index_from(es, name, 0);
}

/// Registering a name gives it a fresh slot and leaves the others.
pub proof fn law_upsert_slot(
    es: Seq<(Seq<char>, Seq<char>, Option<(Seq<char>, u64)>)>,
    name: Seq<char>,
    db: Seq<char>,
    other: Seq<char>,
)
    requires
        distinct_names(es),
    ensures
        distinct_names(upsert_spec(es, name, db)),
        slot_of(upsert_spec(es, name, db), name) == Some((db, None::<(Seq<char>, u64)>)),
        other != name ==> slot_of(upsert_spec(es, name, db), other) == slot_of(es, other),
{
    lemma_index_from(es, name, 0);
    let k = index_from(es, name, 0);
    let r = upsert_spec(es, name, db);
    if k < es.len() {
        assert forall|i: int, j: int| 0 <= i < j < r.len() implies (#[trigger] r[i]).0 != (#[trigger] r[j]).0 by {
            assert(r[i].0 == es[i].0 && r[j].0 == es[j].0);
        }
        lemma_slot_at(r, name, k);
    } else {
        assert forall|i: int, j: int| 0 <= i < j < r.len() implies (#[trigger] r[i]).0 != (#[trigger] r[j]).0 by {
            if j < es.len() {
                assert(r[i] == es[i] && r[j] == es[j]);
            } else {
                assert(r[i] == es[i]);
            }
        }
        lemma_slot_at(r, name, es.len() as int);
    }
    if other != name {
        lemma_index_from(es, other, 0);
        let j = index_from(es, other, 0);
        if j < es.len() {
            lemma_slot_at(r, other, j);
        } else {
            assert forall|t: int| 0 <= t < r.len() implies (#[trigger] r[t]).0 != other by {
                if t < es.len() && t != k {
                    assert(r[t] == es[t]);
                }
            }
            lemma_slot_none(r, other);
        }
    }
}

/// Forgetting a name takes its slot away and leaves the others.
pub proof fn law_remove_slot(
    es: Seq<(Seq<char>, Seq<char>, Option<(Seq<char>, u64)>)>,
    name: Seq<char>,
    other: Seq<char>,
)
    requires
        distinct_names(es),
    ensures
        distinct_names(remove_spec(es, name)),
        slot_of(remove_spec(es, name), name) is None,
        other != name ==> slot_of(remove_spec(es, name), other) == slot_of(es, other),
{
    lemma_index_from(es, name, 0);
    let k = index_from(es, name, 0);
    let r = remove_spec(es, name);
    if k < es.len() {
        assert forall|t: int| 0 <= t < r.len() implies #[trigger] r[t] == (if t < k {
            es[t]
        } else {
            es[t + 1]
        }) by {}
        assert forall|i: int, j: int| 0 <= i < j < r.len() implies (#[trigger] r[i]).0 != (#[trigger] r[j]).0 by {
            let a = if i < k {
                i
            } else {
                i + 1
            };
            let b = if j < k {
                j
            } else {
                j + 1
            };
            assert(r[i] == es[a] && r[j] == es[b]);
        }
        assert forall|t: int| 0 <= t < r.len() implies (#[trigger] r[t]).0 != name by {
            let a = if t < k {
                t
            } else {
                t + 1
            };
            assert(r[t] == es[a]);
        }
        lemma_slot_none(r, name);
        if other != name {
            lemma_index_from(es, other, 0);
            let j = index_from(es, other, 0);
            if j < es.len() {
                let jr = if j < k {
                    j
                } else {
                    j - 1
                };
                assert(r[jr] == es[j]);
                lemma_slot_at(r, other, jr);
            } else {
                assert forall|t: int| 0 <= t < r.len() implies (#[trigger] r[t]).0 != other by {
                    let a = if t < k {
                        t
                    } else {
                        t + 1
                    };
                    assert(r[t] == es[a]);
                }
                lemma_slot_none(r, other);
            }
        }
    } else {
        lemma_slot_none(r, name);
    }
}

/// Recording a started process makes a registered name live at that
/// address, used now; the other names keep their slots.
pub proof fn law_record_slot(
    es: Seq<(Seq<char>, Seq<char>, Option<(Seq<char>, u64)>)>,
    name: Seq<char>,
    url: Seq<char>,
    now: u64,
    other: Seq<char>,
)
    requires
        distinct_names(es),
    ensures
        distinct_names(record_spec(es, name, url, now)),
        slot_of(record_spec(es, name, url, now), name) == match slot_of(es, name) {
            Some((db, _)) => Some((db, Some((url, now)))),
            None => None,
        },
        other != name ==> slot_of(record_spec(es, name, url, now), other) == slot_of(es, other),
{
    lemma_index_from(es, name, 0);
    let k = index_from(es, name, 0);
    let r = record_spec(es, name, url, now);
    if k < es.len() {
        assert forall|i: int, j: int| 0 <= i < j < r.len() implies (#[trigger] r[i]).0 != (#[trigger] r[j]).0 by {
            assert(r[i].0 == es[i].0 && r[j].0 == es[j].0);
        }
        lemma_slot_at(r, name, k);
        if other != name {
            lemma_index_from(es, other, 0);
            let j = index_from(es, other, 0);
            if j < es.len() {
                lemma_slot_at(r, other, j);
            } else {
                assert forall|t: int| 0 <= t < r.len() implies (#[trigger] r[t]).0 != other by {
                    assert(r[t].0 == es[t].0);
                }
                lemma_slot_none(r, other);
            }
        }
    }
}

/// Using a live process keeps every slot but its last-use time.
pub proof fn law_touch_slot(
    es: Seq<(Seq<char>, Seq<char>, Option<(Seq<char>, u64)>)>,
    name: Seq<char>,
    now: u64,
    other: Seq<char>,
)
    requires
        distinct_names(es),
    ensures
        distinct_names(touch_spec(es, name, now)),
        slot_of(touch_spec(es, name, now), name) == match slot_of(es, name) {
            Some((db, Some((url, _)))) => Some((db, Some((url, now)))),
            s => s,
        },
        other != name ==> slot_of(touch_spec(es, name, now), other) == slot_of(es, other),
{
    lemma_index_from(es, name, 0);
    let k = index_from(es, name, 0);
    if k < es.len() && es[k].2 is Some {
        law_record_slot(es, name, (es[k].2->0).0, now, other);
        assert(touch_spec(es, name, now) == record_spec(es, name, (es[k].2->0).0, now));
    }
}

/// Retiring idle processes keeps every registration and every process
/// that is not idle; an idle one is gone.
pub proof fn law_evict_slot(
    es: Seq<(Seq<char>, Seq<char>, Option<(Seq<char>, u64)>)>,
    now: u64,
    timeout: u64,
    name: Seq<char>,
)
    requires
        distinct_names(es),
    ensures
        distinct_names(evict_spec(es, now, timeout)),
        slot_of(evict_spec(es, now, timeout), name) == match slot_of(es, name) {
            Some((db, Some((url, last)))) => if now - last > timeout {
                Some((db, None))
            } else {
                Some((db, Some((url, last))))
            },
            s => s,
        },
        forall|t: int|
            0 <= t < evict_spec(es, now, timeout).len() ==> !idle(
                #[trigger] evict_spec(es, now, timeout)[t],
                now,
                timeout,
            ),
{
    let r = evict_spec(es, now, timeout);
    assert forall|t: int| 0 <= t < r.len() implies (#[trigger] r[t]).0 == es[t].0 by {}
    assert forall|i: int, j: int| 0 <= i < j < r.len() implies (#[trigger] r[i]).0 != (#[trigger] r[j]).0 by {
        assert(r[i].0 == es[i].0 && r[j].0 == es[j].0);
    }
    lemma_index_from(es, name, 0);
    let k = index_from(es, name, 0);
    if k < es.len() {
        lemma_slot_at(r, name, k);
    } else {
        assert forall|t: int| 0 <= t < r.len() implies (#[trigger] r[t]).0 != name by {
            assert(r[t].0 == es[t].0);
        }
        lemma_slot_none(r, name);
    }
}

/// The step the pool tells its caller to take for a base-URL request.
pub enum PoolStep {
    /// A live process serves the repo here.
    Ready(String),
    /// No process is live: start `binary` on `db_path`, then report its
    /// address with `record_spawn`.
    Spawn { binary: String, db_path: String },
    /// The repo is not registered; the message says so.
    NotRegistered(String),
}

/// Pool of `asd-serve` processes, keyed by repo name.
pub struct AsdProcessPool {
    entries: Vec<PoolEntry>,
    binary: String,
    idle_timeout_ns: u64,
}

impl View for AsdProcessPool {
    type V = (Seq<(Seq<char>, Seq<char>, Option<(Seq<char>, u64)>)>, Seq<char>, u64);

    closed spec fn view(&self) -> Self::V {
        (entries_view(self.entries@), self.binary@, self.idle_timeout_ns)
    }
}

fn copy_entry(e: &PoolEntry) -> (r: PoolEntry)
    ensures
        entry_view(r) == entry_view(*e),
{
    PoolEntry {
        name: copy_string(&e.name),
        db_path: copy_string(&e.db_path),
        running: match &e.running {
            Some(r) => Some(RunningAsd { base_url: copy_string(&r.base_url), last_used_ns: r.last_used_ns }),
            None => None,
        },
    }
}

impl AsdProcessPool {
    /// The entries have distinct names.
    pub open spec fn wf(&self) -> bool {
        distinct_names(self@.0)
    }

    /// No two registered repos share a name.
    #[verifier::type_invariant]
    spec fn names_distinct(&self) -> bool {
        distinct_names(entries_view(self.entries@))
    }

    /// Takes the entries out, leaving none (so the pool stays well formed
    /// while they are changed).
    fn take_entries(&mut self) -> (r: Vec<PoolEntry>)
        ensures
            r@ == old(self).entries@,
            final(self).entries@.len() == 0,
            final(self).binary == old(self).binary,
            final(self).idle_timeout_ns == old(self).idle_timeout_ns,
    {
        let mut e: Vec<PoolEntry> = Vec::new();
        std::mem::swap(&mut e, &mut self.entries);
        e
    }

    /// The position of the entry named `name`, or the number of entries.
    fn find(&self, name: &str) -> (k: usize)
        ensures
            k == index_from(self@.0, name@, 0),
    {
        let n: usize = self.entries.len();
        let mut j: usize = 0;
        proof {
            assert(entries_view(self.entries@).len() == n);
        }
        while j < n && !str_eq(self.entries[j].name.as_str(), name)
            invariant
                n == self.entries@.len(),
                n == self@.0.len(),
                self@.0 == entries_view(self.entries@),
                j <= n,
                forall|t: int| 0 <= t < j ==> (#[trigger] self@.0[t]).0 != name@,
            decreases n - j,
        {
            proof {
                assert(self@.0[j as int] == entry_view(self.entries@[j as int]));
            }
            j = j + 1;
        }
        proof {
            if j < n {
                assert(self@.0[j as int] == entry_view(self.entries@[j as int]));
            }
            lemma_index_is(self@.0, name@, j as int);
        }
        j
    }

    /// Registers `name` at `db_path`, with no live process; a process
    /// running for that name is no longer the pool's.
    pub fn upsert(&mut self, name: String, db_path: String)
        ensures
            final(self).wf(),
            final(self)@ == (upsert_spec(old(self)@.0, name@, db_path@), old(self)@.1, old(self)@.2),
    {
        proof {
            use_type_invariant(&*self);
        }
        let k = self.find(name.as_str());
        let ghost es = self@.0;
        let ghost nm = name@;
        let ghost db = db_path@;
        let e = PoolEntry { name, db_path, running: None };
        let mut entries = self.take_entries();
        proof {
            law_upsert_slot(es, nm, db, nm);
        }
        if k < entries.len() {
            entries.set(k, e);
            proof {
                assert(entries_view(entries@) =~= es.update(k as int, (nm, db, None)));
            }
        } else {
            entries.push(e);
            proof {
                assert(entries_view(entries@) =~= es.push((nm, db, None)));
            }
        }
        self.entries = entries;
    }

    /// A pool of the given repos (a later one of the same name wins), the
    /// given binary (`asd-serve` when none), and idle timeout (ten minutes
    /// when none). No process is live.
    pub fn new(repos: Vec<(String, String)>, binary: Option<String>, idle_timeout_ns: Option<u64>) -> (r: Self)
        ensures
            r.wf(),
            r@.0 == from_repos(repos@),
            r@.1 == match binary {
                Some(b) => b@,
                None => DEFAULT_BINARY@,
            },
            r@.2 == match idle_timeout_ns {
                Some(t) => t,
                None => DEFAULT_IDLE_TIMEOUT_NS,
            },
    {
        let ghost b = if binary is Some {
            binary->0@
        } else {
            DEFAULT_BINARY@
        };
        let mut pool = AsdProcessPool {
            entries: Vec::new(),
            binary: match binary {
                Some(b) => b,
                None => owned(DEFAULT_BINARY),
            },
            idle_timeout_ns: match idle_timeout_ns {
                Some(t) => t,
                None => DEFAULT_IDLE_TIMEOUT_NS,
            },
        };
        proof {
            assert(entries_view(pool.entries@) =~= from_repos(repos@.take(0)));
        }
        let n: usize = repos.len();
        let mut i: usize = 0;
        while i < n
            invariant
                n == repos@.len(),
                i <= n,
                pool.wf(),
                pool@.0 == from_repos(repos@.take(i as int)),
                pool@.1 == b,
                pool@.2 == match idle_timeout_ns {
                    Some(t) => t,
                    None => DEFAULT_IDLE_TIMEOUT_NS,
                },
            decreases n - i,
        {
            proof {
                assert(repos@.take(i + 1).drop_last() =~= repos@.take(i as int));
            }
            pool.upsert(copy_string(&repos[i].0), copy_string(&repos[i].1));
            i = i + 1;
        }
        proof {
            assert(repos@.take(n as int) =~= repos@);
        }
        pool
    }

    /// Forgets `name`; a process running for it is no longer the pool's.
    pub fn remove(&mut self, name: &str)
        ensures
            final(self).wf(),
            final(self)@ == (remove_spec(old(self)@.0, name@), old(self)@.1, old(self)@.2),
    {
        proof {
            use_type_invariant(&*self);
        }
        let ghost es = self@.0;
        let k = self.find(name);
        let mut entries = self.take_entries();
        proof {
            law_remove_slot(es, name@, name@);
        }
        if k < entries.len() {
            entries.remove(k);
            proof {
                assert(entries_view(entries@) =~= es.remove(k as int));
            }
        }
        self.entries = entries;
    }

    /// The names of all registered repos, running or idle.
    pub fn repo_names(&self) -> (r: Vec<String>)
        ensures
            views(r@) == self@.0.map_values(|e: (Seq<char>, Seq<char>, Option<(Seq<char>, u64)>)| e.0),
    {
        let mut r: Vec<String> = Vec::new();
        let n: usize = self.entries.len();
        let mut i: usize = 0;
        while i < n
            invariant
                n == self.entries@.len(),
                i <= n,
                views(r@) == self@.0.take(i as int).map_values(
                    |e: (Seq<char>, Seq<char>, Option<(Seq<char>, u64)>)| e.0,
                ),
            decreases n - i,
        {
            let ghost before = r@;
            r.push(copy_string(&self.entries[i].name));
            proof {
                assert(self@.0[i as int] == entry_view(self.entries@[i as int]));
                assert(views(r@) =~= views(before).push(self@.0[i as int].0));
                assert(self@.0.take(i + 1) =~= self@.0.take(i as int).push(self@.0[i as int]));
                assert(self@.0.take(i + 1).map_values(
                    |e: (Seq<char>, Seq<char>, Option<(Seq<char>, u64)>)| e.0,
                ) =~= self@.0.take(i as int).map_values(
                    |e: (Seq<char>, Seq<char>, Option<(Seq<char>, u64)>)| e.0,
                ).push(self@.0[i as int].0));
            }
            i = i + 1;
        }
        proof {
            assert(self@.0.take(n as int) =~= self@.0);
        }
        r
    }

    /// A process is live for `name`.
    pub fn is_running(&self, name: &str) -> (r: bool)
        ensures
            r == (slot_of(self@.0, name@) matches Some((_, Some(_)))),
    {
        let k = self.find(name);
        if k < self.entries.len() {
            proof {
                assert(self@.0[k as int] == entry_view(self.entries@[k as int]));
            }
            self.entries[k].running.is_some()
        } else {
            false
        }
    }

    /// What to do for a request for `name`'s base URL at `now_ns`: a live
    /// process answers (and counts as used now); a registered repo without
    /// one is to be started; any other name is refused.
    pub fn base_url(&mut self, name: &str, now_ns: u64) -> (r: PoolStep)
        ensures
            final(self).wf(),
            final(self)@ == (touch_spec(old(self)@.0, name@, now_ns), old(self)@.1, old(self)@.2),
            match slot_of(old(self)@.0, name@) {
                Some((_, Some((url, _)))) => r matches PoolStep::Ready(u) && u@ == url,
                Some((db, None)) => r matches PoolStep::Spawn { binary, db_path } && binary@ == old(
                    self,
                )@.1 && db_path@ == db,
                None => r matches PoolStep::NotRegistered(m) && m@ == "repo '"@ + name@
                    + "' is not registered in the pool"@,
            },
    {
        proof {
            use_type_invariant(&*self);
        }
        let ghost es = self@.0;
        let k = self.find(name);
        proof {
            law_touch_slot(es, name@, now_ns, name@);
        }
        if k < self.entries.len() {
            proof {
                assert(es[k as int] == entry_view(self.entries@[k as int]));
                lemma_index_from(es, name@, 0);
                lemma_slot_at(es, name@, k as int);
            }
            let e = copy_entry(&self.entries[k]);
            match e.running {
                Some(run) => {
                    let url = copy_string(&run.base_url);
                    let touched = PoolEntry {
                        name: e.name,
                        db_path: e.db_path,
                        running: Some(RunningAsd { base_url: run.base_url, last_used_ns: now_ns }),
                    };
                    let mut entries = self.take_entries();
                    entries.set(k, touched);
                    proof {
                        assert(entries_view(entries@) =~= touch_spec(es, name@, now_ns));
                    }
                    self.entries = entries;
                    PoolStep::Ready(url)
                },
                None => PoolStep::Spawn { binary: copy_string(&self.binary), db_path: e.db_path },
            }
        } else {
            let mut m = owned("repo '");
            push_str(&mut m, name);
            push_str(&mut m, "' is not registered in the pool");
            PoolStep::NotRegistered(m)
        }
    }

    /// Records that a process started for `name` listens at `base_url`,
    /// used at `now_ns`; nothing changes if the repo was forgotten
    /// meanwhile.
    pub fn record_spawn(&mut self, name: &str, base_url: String, now_ns: u64)
        ensures
            final(self).wf(),
            final(self)@ == (record_spec(old(self)@.0, name@, base_url@, now_ns), old(self)@.1, old(self)@.2),
    {
        proof {
            use_type_invariant(&*self);
        }
        let ghost es = self@.0;
        let ghost url = base_url@;
        let k = self.find(name);
        proof {
            law_record_slot(es, name@, url, now_ns, name@);
        }
        if k < self.entries.len() {
            let e = copy_entry(&self.entries[k]);
            let started = PoolEntry {
                name: e.name,
                db_path: e.db_path,
                running: Some(RunningAsd { base_url, last_used_ns: now_ns }),
            };
            let mut entries = self.take_entries();
            entries.set(k, started);
            proof {
                assert(es[k as int] == entry_view(old(self).entries@[k as int]));
                assert(entries_view(entries@) =~= record_spec(es, name@, url, now_ns));
            }
            self.entries = entries;
        }
    }

    /// Retires every process unused for longer than the idle timeout at
    /// `now_ns`, and names their repos, in order, so the caller can stop
    /// them.
    pub fn evict_idle(&mut self, now_ns: u64) -> (r: Vec<String>)
        ensures
            final(self).wf(),
            final(self)@ == (evict_spec(old(self)@.0, now_ns, old(self)@.2), old(self)@.1, old(self)@.2),
            views(r@) == idle_names(old(self)@.0, now_ns, old(self)@.2),
    {
        proof {
            use_type_invariant(&*self);
        }
        let ghost es = self@.0;
        let timeout = self.idle_timeout_ns;
        let mut entries = self.take_entries();
        let n: usize = entries.len();
        let mut r: Vec<String> = Vec::new();
        let mut i: usize = 0;
        proof {
            assert(views(r@) =~= idle_names(es.take(0), now_ns, timeout));
        }
        while i < n
            invariant
                n == entries@.len(),
                n == es.len(),
                i <= n,
                timeout == old(self)@.2,
                self.binary == old(self).binary,
                self.idle_timeout_ns == timeout,
                self.entries@.len() == 0,
                es == entries_view(old(self).entries@),
                forall|t: int| 0 <= t < i ==> entry_view(#[trigger] entries@[t]) == evict_spec(es, now_ns, timeout)[t],
                forall|t: int| i <= t < n ==> entry_view(#[trigger] entries@[t]) == es[t],
                views(r@) == idle_names(es.take(i as int), now_ns, timeout),
            decreases n - i,
        {
            let ghost ev = es[i as int];
            proof {
                assert(entry_view(entries@[i as int]) == ev);
                assert(es.take(i + 1).drop_last() =~= es.take(i as int));
                assert(es.take(i + 1).last() == ev);
            }
            let e = copy_entry(&entries[i]);
            match e.running {
                Some(run) => {
                    if now_ns >= run.last_used_ns && now_ns - run.last_used_ns > timeout {
                        r.push(copy_string(&e.name));
                        entries.set(i, PoolEntry { name: e.name, db_path: e.db_path, running: None });
                    }
                },
                None => {},
            }
            i = i + 1;
        }
        proof {
            assert(es.take(n as int) =~= es);
            assert(entries_view(entries@) =~= evict_spec(es, now_ns, timeout));
            law_evict_slot(es, now_ns, timeout, Seq::empty());
        }
        self.entries = entries;
        r
    }
}


// ---------------------------------------------------------------------------
// Static repos beside the pool
// ---------------------------------------------------------------------------

/// How a request for an ASD repo is served.
pub enum AsdRoute {
    /// A repo configured with a fixed URL: this base (trailing `/`s
    /// dropped).
    Static(String),
    /// Not a fixed repo: ask the pool with `base_url`.
    AskPool,
    /// Neither a fixed repo nor a pool: the message says so.
    Unknown(String),
}

/// Where a request for `repo` goes: a repo configured with a fixed URL
/// wins; otherwise the pool decides, when there is one.
pub fn resolve_asd_base(statics: &Vec<(String, String)>, has_pool: bool, repo: &str) -> (r: AsdRoute)
    ensures
        match crate::asd::repo_index(statics@, repo@, 0) {
            Some(i) => r matches AsdRoute::Static(u) && u@ == strip_trailing(statics@[i].1@, '/'),
            None => if has_pool {
                r is AskPool
            } else {
                r matches AsdRoute::Unknown(m) && m@ == "unknown ASD repo: "@ + repo@
            },
        },
{
    let n: usize = statics.len();
    let mut i: usize = 0;
    while i < n
        invariant
            n == statics@.len(),
            i <= n,
            crate::asd::repo_index(statics@, repo@, 0) == crate::asd::repo_index(statics@, repo@, i as int),
        decreases n - i,
    {
        if str_eq(statics[i].0.as_str(), repo) {
            let u = crate::lens::strip_trailing_exec(&chars_of(statics[i].1.as_str()), '/');
            return AsdRoute::Static(string_of(&u));
        }
        i = i + 1;
    }
    if has_pool {
        AsdRoute::AskPool
    } else {
        let mut m = owned("unknown ASD repo: ");
        push_str(&mut m, repo);
        AsdRoute::Unknown(m)
    }
}

/// One repo in the ASD listing.
#[derive(Debug)]
pub struct AsdRepoInfo {
    pub name: String,
    pub url: String,
    /// `static` for a fixed URL; `pool` for a pool-managed process.
    pub source: String,
    /// `running`, or `idle` for a pool repo without a live process.
    pub status: String,
}

/// A listing row as the contracts see it.
pub open spec fn info_view(i: AsdRepoInfo) -> (Seq<char>, Seq<char>, Seq<char>, Seq<char>) {
    (i.name@, i.url@, i.source@, i.status@)
}

/// The pool's rows: its repos that are not fixed ones, in pool order.
pub open spec fn pool_rows(
    statics: Seq<(String, String)>,
    es: Seq<(Seq<char>, Seq<char>, Option<(Seq<char>, u64)>)>,
) -> Seq<(Seq<char>, Seq<char>, Seq<char>, Seq<char>)>
    decreases es.len(),
{
    if es.len() == 0 {
        Seq::empty()
    } else {
        let r = pool_rows(statics, es.drop_last());
        let e = es.last();
        if crate::asd::repo_index(statics, e.0, 0) is Some {
            r
        } else {
            r.push(
                (
                    e.0,
                    "pool:"@ + e.0,
                    "pool"@,
                    if e.2 is Some {
                        "running"@
                    } else {
                        "idle"@
                    },
                ),
            )
        }
    }
}

/// The ASD listing: every fixed repo (always running), then the pool's
/// other repos, running or idle.
pub open spec fn asd_listing(
    statics: Seq<(String, String)>,
    pool: Option<Seq<(Seq<char>, Seq<char>, Option<(Seq<char>, u64)>)>>,
) -> Seq<(Seq<char>, Seq<char>, Seq<char>, Seq<char>)> {
    statics.map_values(|s: (String, String)| (s.0@, s.1@, "static"@, "running"@)) + match pool {
        Some(es) => pool_rows(statics, es),
        None => Seq::empty(),
    }
}

/// Whether `name` is a fixed repo.
fn is_static(statics: &Vec<(String, String)>, name: &String) -> (r: bool)
    ensures
        r == crate::asd::repo_index(statics@, name@, 0) is Some,
{
    let n: usize = statics.len();
    let mut i: usize = 0;
    while i < n
        invariant
            n == statics@.len(),
            i <= n,
            crate::asd::repo_index(statics@, name@, 0) == crate::asd::repo_index(statics@, name@, i as int),
        decreases n - i,
    {
        if str_eq(statics[i].0.as_str(), name.as_str()) {
            return true;
        }
        i = i + 1;
    }
    false
}

/// Lists the ASD repos: the fixed ones, then those of the pool (if any)
/// that are not fixed.
pub fn list_asd_repos(statics: &Vec<(String, String)>, pool: Option<&AsdProcessPool>) -> (r: Vec<AsdRepoInfo>)
    ensures
        r@.map_values(|i: AsdRepoInfo| info_view(i)) == asd_listing(
            statics@,
            match pool {
                Some(p) => Some(p@.0),
                None => None,
            },
        ),
{
    let mut out: Vec<AsdRepoInfo> = Vec::new();
    let n: usize = statics.len();
    let mut i: usize = 0;
    while i < n
        invariant
            n == statics@.len(),
            i <= n,
            out@.map_values(|i: AsdRepoInfo| info_view(i)) == statics@.take(i as int).map_values(
                |s: (String, String)| (s.0@, s.1@, "static"@, "running"@),
            ),
        decreases n - i,
    {
        let ghost before = out@;
        out.push(
            AsdRepoInfo {
                name: copy_string(&statics[i].0),
                url: copy_string(&statics[i].1),
                source: owned("static"),
                status: owned("running"),
            },
        );
        proof {
            reveal_strlit("static");
            reveal_strlit("running");
            assert(out@.map_values(|i: AsdRepoInfo| info_view(i)) =~= before.map_values(
                |i: AsdRepoInfo| info_view(i),
            ).push((statics@[i as int].0@, statics@[i as int].1@, "static"@, "running"@)));
            assert(statics@.take(i + 1) =~= statics@.take(i as int).push(statics@[i as int]));
            assert(statics@.take(i + 1).map_values(|s: (String, String)| (s.0@, s.1@, "static"@, "running"@))
                =~= statics@.take(i as int).map_values(
                |s: (String, String)| (s.0@, s.1@, "static"@, "running"@),
            ).push((statics@[i as int].0@, statics@[i as int].1@, "static"@, "running"@)));
        }
        i = i + 1;
    }
    proof {
        assert(statics@.take(n as int) =~= statics@);
    }
    let ghost head = out@.map_values(|i: AsdRepoInfo| info_view(i));
    match pool {
        None => {
            proof {
                assert(head + Seq::<(Seq<char>, Seq<char>, Seq<char>, Seq<char>)>::empty() =~= head);
            }
        },
        Some(p) => {
            let m: usize = p.entries.len();
            let ghost es = p@.0;
            let mut k: usize = 0;
            proof {
                assert(es.take(0) =~= Seq::<(Seq<char>, Seq<char>, Option<(Seq<char>, u64)>)>::empty());
                assert(head + pool_rows(statics@, es.take(0)) =~= head);
            }
            while k < m
                invariant
                    m == p.entries@.len(),
                    es == p@.0,
                    es == entries_view(p.entries@),
                    k <= m,
                    out@.map_values(|i: AsdRepoInfo| info_view(i)) == head + pool_rows(statics@, es.take(k as int)),
                decreases m - k,
            {
                let ghost before = out@;
                proof {
                    assert(es.take(k + 1).drop_last() =~= es.take(k as int));
                    assert(es.take(k + 1).last() == es[k as int]);
                    assert(es[k as int] == entry_view(p.entries@[k as int]));
                }
                let e = &p.entries[k];
                if !is_static(statics, &e.name) {
                    let mut url = owned("pool:");
                    push_str(&mut url, e.name.as_str());
                    let status = if e.running.is_some() {
                        owned("running")
                    } else {
                        owned("idle")
                    };
                    out.push(
                        AsdRepoInfo { name: copy_string(&e.name), url, source: owned("pool"), status },
                    );
                    proof {
                        reveal_strlit("pool");
                        reveal_strlit("running");
                        reveal_strlit("idle");
                        assert(out@.map_values(|i: AsdRepoInfo| info_view(i)) =~= before.map_values(
                            |i: AsdRepoInfo| info_view(i),
                        ).push(info_view(out@[out@.len() - 1])));
                    }
                }
                k = k + 1;
            }
            proof {
                assert(es.take(m as int) =~= es);
            }
        },
    }
    out
}

} // verus!
