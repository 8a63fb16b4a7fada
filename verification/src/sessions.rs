//! The registry of per-session statistics: a least-recently-used cache
//! keyed by session id, bounded so that a caller spraying fresh ids cannot
//! grow it without limit, and the views the stats endpoints read from it.

use vstd::prelude::*;

use crate::memory::{wrap_add, SessionStats, DEFAULT_SESSION_ID};
use crate::recall::{lemma_seq_lt_transitive, seq_lt};
use crate::text::{chars_of, copy_string, owned, views};

verus! {

/// Default bound on the sessions held in memory.
pub const MAX_SESSIONS_DEFAULT: usize = 1024;

// ---------------------------------------------------------------------------
// The LRU cache
// ---------------------------------------------------------------------------

#[verifier::external_type_specification]
#[verifier::external_body]
#[verifier::reject_recursive_types(K)]
#[verifier::reject_recursive_types(V)]
#[verifier::reject_recursive_types(S)]
pub struct ExLruCache<K, V, S>(lru::LruCache<K, V, S>);

#[verifier::external_type_specification]
#[verifier::external_body]
pub struct ExDefaultHasher(lru::DefaultHasher);

/// What an LRU cache of sessions holds, most recently used first: each
/// session id with its statistics.
pub uninterp spec fn lru_entries(c: lru::LruCache<String, SessionStats>) -> Seq<(Seq<char>, SessionStats)>;

/// The capacity an LRU cache of sessions was made with.
pub uninterp spec fn lru_cap(c: lru::LruCache<String, SessionStats>) -> nat;

/// The position of the first entry for `k`, if any.
pub open spec fn key_index(es: Seq<(Seq<char>, SessionStats)>, k: Seq<char>) -> Option<int>
    decreases es.len(),
{
    if es.len() == 0 {
        None
    } else if es[0].0 == k {
        Some(0)
    } else {
        match key_index(es.drop_first(), k) {
            Some(j) => Some(j + 1),
            None => None,
        }
    }
}

/// No id occurs twice.
pub open spec fn keys_distinct(es: Seq<(Seq<char>, SessionStats)>) -> bool {
    forall|i: int, j: int| 0 <= i < j < es.len() ==> #[trigger] es[i].0 != #[trigger] es[j].0
}

/// The entries with entry `i` moved to the front (most recently used).
pub open spec fn promote(es: Seq<(Seq<char>, SessionStats)>, i: int) -> Seq<(Seq<char>, SessionStats)> {
    seq![es[i]] + es.remove(i)
}

/// The entries after putting `(k, v)` into a cache of capacity `cap`: an
/// existing entry for `k` takes the value and moves to the front; a new one
/// goes to the front, evicting the least recently used entry (the last)
/// when the cache is full.
pub open spec fn put_entries(
    es: Seq<(Seq<char>, SessionStats)>,
    cap: nat,
    k: Seq<char>,
    v: SessionStats,
) -> Seq<(Seq<char>, SessionStats)> {
    match key_index(es, k) {
        Some(i) => seq![(k, v)] + es.remove(i),
        None => if es.len() == cap {
            seq![(k, v)] + es.drop_last()
        } else {
            seq![(k, v)] + es
        },
    }
}

/// Stored rows as the contracts see them: id and statistics.
pub open spec fn rows_view(rows: Seq<(String, SessionStats)>) -> Seq<(Seq<char>, SessionStats)> {
    rows.map_values(|r: (String, SessionStats)| (r.0@, r.1))
}

/// The entries after putting each row in turn.
pub open spec fn put_all(
    es: Seq<(Seq<char>, SessionStats)>,
    cap: nat,
    rows: Seq<(Seq<char>, SessionStats)>,
) -> Seq<(Seq<char>, SessionStats)>
    decreases rows.len(),
{
    if rows.len() == 0 {
        es
    } else {
        put_entries(put_all(es, cap, rows.drop_last()), cap, rows.last().0, rows.last().1)
    }
}

/// An empty cache holding at most `cap` sessions (`LruCache::new`).
#[verifier::external_body]
fn lru_new(cap: usize) -> (c: lru::LruCache<String, SessionStats>)
    requires
        cap >= 1,
    ensures
        lru_entries(c) == Seq::<(Seq<char>, SessionStats)>::empty(),
        lru_cap(c) == cap,
{
    lru::LruCache::new(std::num::NonZeroUsize::new(cap).unwrap())
}

/// Puts a session into the cache (`LruCache::put`), as [`put_entries`]
/// says.
#[verifier::external_body]
fn lru_put(c: &mut lru::LruCache<String, SessionStats>, k: String, v: SessionStats)
    requires
        lru_entries(*old(c)).len() <= lru_cap(*old(c)),
    ensures
        lru_entries(*final(c)) == put_entries(lru_entries(*old(c)), lru_cap(*old(c)), k@, v),
        lru_cap(*final(c)) == lru_cap(*old(c)),
{
    c.put(k, v);
}

/// A copy of a session's statistics, marking it most recently used
/// (`LruCache::get`).
#[verifier::external_body]
fn lru_get(c: &mut lru::LruCache<String, SessionStats>, k: &str) -> (r: Option<SessionStats>)
    ensures
        lru_cap(*final(c)) == lru_cap(*old(c)),
        match key_index(lru_entries(*old(c)), k@) {
            Some(i) => r == Some(lru_entries(*old(c))[i].1) && lru_entries(*final(c)) == promote(
                lru_entries(*old(c)),
                i,
            ),
            None => r is None && lru_entries(*final(c)) == lru_entries(*old(c)),
        },
{
    c.get(k).cloned()
}

/// A copy of a session's statistics, without touching the order
/// (`LruCache::peek`).
#[verifier::external_body]
fn lru_peek(c: &lru::LruCache<String, SessionStats>, k: &str) -> (r: Option<SessionStats>)
    ensures
        match key_index(lru_entries(*c), k@) {
            Some(i) => r == Some(lru_entries(*c)[i].1),
            None => r is None,
        },
{
    c.peek(k).cloned()
}

/// Replaces a session's statistics in place, without touching the order
/// (`LruCache::peek_mut`); whether the session was there.
#[verifier::external_body]
fn lru_replace(c: &mut lru::LruCache<String, SessionStats>, k: &str, v: SessionStats) -> (found: bool)
    ensures
        lru_cap(*final(c)) == lru_cap(*old(c)),
        match key_index(lru_entries(*old(c)), k@) {
            Some(i) => found && lru_entries(*final(c)) == lru_entries(*old(c)).update(
                i,
                (lru_entries(*old(c))[i].0, v),
            ),
            None => !found && lru_entries(*final(c)) == lru_entries(*old(c)),
        },
{
    match c.peek_mut(k) {
        Some(slot) => {
            *slot = v;
            true
        },
        None => false,
    }
}

/// How many sessions the cache holds (`LruCache::len`).
#[verifier::external_body]
fn lru_len(c: &lru::LruCache<String, SessionStats>) -> (r: usize)
    ensures
        r == lru_entries(*c).len(),
{
    c.len()
}

/// The cache's capacity (`LruCache::cap`).
#[verifier::external_body]
fn lru_capacity(c: &lru::LruCache<String, SessionStats>) -> (r: usize)
    ensures
        r == lru_cap(*c),
{
    c.cap().get()
}

/// The session ids, most recently used first (`LruCache::iter`).
#[verifier::external_body]
fn lru_keys(c: &lru::LruCache<String, SessionStats>) -> (r: Vec<String>)
    ensures
        views(r@) == lru_entries(*c).map_values(|e: (Seq<char>, SessionStats)| e.0),
{
    c.iter().map(|(k, _)| k.clone()).collect()
}

// ---------------------------------------------------------------------------
// Facts about the entries
// ---------------------------------------------------------------------------

proof fn lemma_key_index(es: Seq<(Seq<char>, SessionStats)>, k: Seq<char>)
    ensures
        key_index(es, k) matches Some(i) ==> 0 <= i < es.len() && es[i].0 == k && forall|j: int|
            0 <= j < i ==> es[j].0 != k,
        key_index(es, k) is None ==> forall|j: int| 0 <= j < es.len() ==> es[j].0 != k,
    decreases es.len(),
{
    if es.len() > 0 && es[0].0 != k {
        let t = es.drop_first();
        lemma_key_index(t, k);
        assert forall|j: int| 1 <= j < es.len() implies es[j] == t[j - 1] by {}
    }
}

proof fn lemma_put_keeps_distinct(es: Seq<(Seq<char>, SessionStats)>, cap: nat, k: Seq<char>, v: SessionStats)
    requires
        keys_distinct(es),
        es.len() <= cap,
        cap >= 1,
    ensures
        keys_distinct(put_entries(es, cap, k, v)),
        put_entries(es, cap, k, v).len() <= cap,
{
    lemma_key_index(es, k);
    let r = put_entries(es, cap, k, v);
    match key_index(es, k) {
        Some(i) => {
            let t = es.remove(i);
            assert forall|a: int, b: int| 0 <= a < b < r.len() implies #[trigger] r[a].0 != #[trigger] r[b].0 by {
                if a == 0 {
                    assert(r[b] == t[b - 1]);
                    if b - 1 < i {
                        assert(t[b - 1] == es[b - 1]);
                    } else {
                        assert(t[b - 1] == es[b]);
                    }
                } else {
                    let ia = if a - 1 < i { a - 1 } else { a };
                    let ib = if b - 1 < i { b - 1 } else { b };
                    assert(r[a] == es[ia]);
                    assert(r[b] == es[ib]);
                }
            }
        },
        None => {
            let t = if es.len() == cap { es.drop_last() } else { es };
            assert(r == seq![(k, v)] + t);
            assert forall|a: int, b: int| 0 <= a < b < r.len() implies #[trigger] r[a].0 != #[trigger] r[b].0 by {
                assert(r[b] == es[b - 1]);
                if a > 0 {
                    assert(r[a] == es[a - 1]);
                }
            }
        },
    }
}

proof fn lemma_promote_keeps_distinct(es: Seq<(Seq<char>, SessionStats)>, i: int)
    requires
        keys_distinct(es),
        0 <= i < es.len(),
    ensures
        keys_distinct(promote(es, i)),
        promote(es, i).len() == es.len(),
{
    let r = promote(es, i);
    let t = es.remove(i);
    assert forall|a: int, b: int| 0 <= a < b < r.len() implies #[trigger] r[a].0 != #[trigger] r[b].0 by {
        let ib = if b - 1 < i { b - 1 } else { b };
        assert(r[b] == es[ib]);
        if a == 0 {
            assert(r[a] == es[i]);
        } else {
            let ia = if a - 1 < i { a - 1 } else { a };
            assert(r[a] == es[ia]);
        }
    }
}

// ---------------------------------------------------------------------------
// The registry
// ---------------------------------------------------------------------------

/// Per-session statistics, least recently used evicted first once the
/// capacity is reached.
pub struct SessionRegistry {
    sessions: lru::LruCache<String, SessionStats>,
}

impl SessionRegistry {
    /// The sessions, most recently used first.
    pub closed spec fn entries(self) -> Seq<(Seq<char>, SessionStats)> {
        lru_entries(self.sessions)
    }

    /// The capacity.
    pub closed spec fn cap(self) -> nat {
        lru_cap(self.sessions)
    }

    /// Well-formed: distinct ids, at most `cap` of them, `cap` at least 1.
    pub open spec fn wf(self) -> bool {
        &&& keys_distinct(self.entries())
        &&& self.entries().len() <= self.cap()
        &&& 1 <= self.cap() <= usize::MAX
    }

    /// Every registry is well formed.
    #[verifier::type_invariant]
    spec fn registry_inv(self) -> bool {
        self.wf()
    }

    /// Takes the cache out, leaving an empty one of capacity 1 (so the
    /// registry stays well formed while the cache is changed).
    fn take_cache(&mut self) -> (c: lru::LruCache<String, SessionStats>)
        ensures
            lru_entries(c) == old(self).entries(),
            lru_cap(c) == old(self).cap(),
    {
        let mut c = lru_new(1);
        std::mem::swap(&mut c, &mut self.sessions);
        c
    }

    /// A registry holding at most `cap` sessions (at least 1), seeded with
    /// a fresh `default` session.
    pub fn with_capacity(cap: usize) -> (r: Self)
        ensures
            r.wf(),
            r.cap() == if cap >= 1 { cap as nat } else { 1 },
            r.entries().len() == 1,
            r.entries()[0].0 == DEFAULT_SESSION_ID@,
            r.entries()[0].1 == SessionStats::new_spec(),
    {
        let c: usize = if cap >= 1 {
            cap
        } else {
            1
        };
        let mut sessions = lru_new(c);
        let s = SessionStats::new();
        lru_put(&mut sessions, owned(DEFAULT_SESSION_ID), s);
        let r = SessionRegistry { sessions };
        proof {
            let es = lru_entries(r.sessions);
            assert(es.len() == 1);
        }
        r
    }

    /// A registry with the configured capacity (a positive one), else
    /// `MAX_SESSIONS_DEFAULT`.
    pub fn new(configured: Option<usize>) -> (r: Self)
        ensures
            r.wf(),
            r.cap() == match configured {
                Some(n) => if n > 0 { n as nat } else { MAX_SESSIONS_DEFAULT as nat },
                None => MAX_SESSIONS_DEFAULT as nat,
            },
            r.entries().len() == 1,
            r.entries()[0].0 == DEFAULT_SESSION_ID@,
    {
        let cap = match configured {
            Some(n) => if n > 0 {
                n
            } else {
                MAX_SESSIONS_DEFAULT
            },
            None => MAX_SESSIONS_DEFAULT,
        };
        Self::with_capacity(cap)
    }

    /// The capacity (not the current number of sessions).
    pub fn capacity(&self) -> (r: usize)
        ensures
            r == self.cap(),
    {
        lru_capacity(&self.sessions)
    }

    /// How many sessions are held.
    pub fn len(&self) -> (r: usize)
        ensures
            r == self.entries().len(),
    {
        lru_len(&self.sessions)
    }

    /// Whether no session is held.
    pub fn is_empty(&self) -> (r: bool)
        ensures
            r == (self.entries().len() == 0),
    {
        lru_len(&self.sessions) == 0
    }

    /// The statistics of session `id`, created fresh when it is unknown;
    /// either way it becomes the most recently used session, and a new one
    /// evicts the least recently used when the registry is full.
    pub fn get_or_create(&mut self, id: &str) -> (r: SessionStats)
        ensures
            final(self).wf(),
            final(self).cap() == old(self).cap(),
            final(self).entries() == access(old(self).entries(), old(self).cap(), id@),
            match key_index(old(self).entries(), id@) {
                Some(i) => r == old(self).entries()[i].1 && final(self).entries() == promote(
                    old(self).entries(),
                    i,
                ),
                None => r == SessionStats::new_spec() && final(self).entries() == put_entries(
                    old(self).entries(),
                    old(self).cap(),
                    id@,
                    SessionStats::new_spec(),
                ),
            },
    {
        proof {
            use_type_invariant(&*self);
            lemma_key_index(lru_entries(self.sessions), id@);
        }
        let mut c = self.take_cache();
        match lru_get(&mut c, id) {
            Some(s) => {
                proof {
                    let i = key_index(old(self).entries(), id@)->0;
                    lemma_promote_keeps_distinct(old(self).entries(), i);
                }
                self.sessions = c;
                s
            },
            None => {
                let fresh = SessionStats::new();
                let keep = SessionStats::new();
                proof {
                    lemma_put_keeps_distinct(old(self).entries(), old(self).cap(), id@, fresh);
                }
                lru_put(&mut c, owned(id), fresh);
                self.sessions = c;
                keep
            },
        }
    }

    /// Puts stored sessions into the registry, in order, as `put` does:
    /// each row's id takes its statistics and becomes the most recently
    /// used, the least recently used session leaving when the registry is
    /// full.
    pub fn load_rows(&mut self, rows: Vec<(String, SessionStats)>)
        ensures
            final(self).wf(),
            final(self).cap() == old(self).cap(),
            final(self).entries() == put_all(old(self).entries(), old(self).cap(), rows_view(rows@)),
    {
        proof {
            use_type_invariant(&*self);
        }
        let ghost all = rows_view(rows@);
        let ghost start = self.entries();
        let ghost cap = self.cap();
        let mut c = self.take_cache();
        let mut rest = rows;
        let ghost mut i: int = 0;
        proof {
            assert(all.take(0) =~= Seq::<(Seq<char>, SessionStats)>::empty());
            assert(rows_view(rest@) =~= all.skip(0));
        }
        while rest.len() > 0
            invariant
                keys_distinct(lru_entries(c)),
                lru_entries(c).len() <= lru_cap(c),
                1 <= lru_cap(c) <= usize::MAX,
                lru_cap(c) == cap,
                cap == old(self).cap(),
                0 <= i <= all.len(),
                rows_view(rest@) == all.skip(i as int),
                lru_entries(c) == put_all(start, cap, all.take(i as int)),
            decreases rest.len(),
        {
            let ghost before = rest@;
            let row = rest.remove(0);
            proof {
                assert(rows_view(before).len() == before.len());
                assert(before.len() == all.len() - i);
                assert(all.skip(i as int)[0] == all[i as int]);
                assert(all[i as int] == (row.0@, row.1)) by {
                    assert(row == before[0]);
                    assert(rows_view(before)[0] == (before[0].0@, before[0].1));
                    assert(rows_view(before)[0] == all.skip(i as int)[0]);
                }
                assert(rows_view(rest@) =~= all.skip(i + 1)) by {
                    assert forall|t: int| 0 <= t < rest@.len() implies rows_view(rest@)[t] == all.skip(i + 1)[t] by {
                        assert(rest@[t] == before[t + 1]);
                        assert(rows_view(rest@)[t] == (rest@[t].0@, rest@[t].1));
                        assert(rows_view(before)[t + 1] == (before[t + 1].0@, before[t + 1].1));
                        assert(rows_view(before)[t + 1] == all.skip(i as int)[t + 1]);
                        assert(all.skip(i as int)[t + 1] == all[i + 1 + t]);
                        assert(all.skip(i + 1)[t] == all[i + 1 + t]);
                    }
                }
                assert(all.take(i + 1).drop_last() =~= all.take(i as int));
                lemma_put_keeps_distinct(lru_entries(c), cap, row.0@, row.1);
            }
            lru_put(&mut c, row.0, row.1);
            proof {
                i = i + 1;
            }
        }
        proof {
            assert(all.take(i as int) =~= all);
        }
        self.sessions = c;
    }

    /// Stores new statistics for session `id` without changing which
    /// sessions are most recently used; whether the session was held.
    pub fn update(&mut self, id: &str, stats: SessionStats) -> (found: bool)
        ensures
            final(self).wf(),
            final(self).cap() == old(self).cap(),
            match key_index(old(self).entries(), id@) {
                Some(i) => found && final(self).entries() == old(self).entries().update(
                    i,
                    (old(self).entries()[i].0, stats),
                ),
                None => !found && final(self).entries() == old(self).entries(),
            },
    {
        proof {
            use_type_invariant(&*self);
            lemma_key_index(lru_entries(self.sessions), id@);
        }
        let mut c = self.take_cache();
        let found = lru_replace(&mut c, id, stats);
        proof {
            let es = old(self).entries();
            let fs = lru_entries(c);
            if key_index(es, id@) is Some {
                let i = key_index(es, id@)->0;
                assert forall|a: int, b: int| 0 <= a < b < fs.len() implies #[trigger] fs[a].0
                    != #[trigger] fs[b].0 by {
                    assert(fs[a].0 == es[a].0);
                    assert(fs[b].0 == es[b].0);
                }
            }
        }
        self.sessions = c;
        found
    }

    /// Marks every session's cached graph size stale, keeping the order.
    pub fn mark_all_dirty(&mut self)
        ensures
            final(self).wf(),
            final(self).cap() == old(self).cap(),
            final(self).entries().len() == old(self).entries().len(),
            forall|i: int|
                0 <= i < final(self).entries().len() ==> (#[trigger] final(self).entries()[i]).0 == old(
                    self,
                ).entries()[i].0 && final(self).entries()[i].1 == dirtied(old(self).entries()[i].1),
    {
        proof {
            use_type_invariant(&*self);
        }
        let keys = lru_keys(&self.sessions);
        let n: usize = keys.len();
        let ghost es = self.entries();
        assert(views(keys@).len() == keys@.len());
        let mut i: usize = 0;
        while i < n
            invariant
                n == es.len(),
                views(keys@) == es.map_values(|e: (Seq<char>, SessionStats)| e.0),
                keys@.len() == n,
                keys_distinct(es),
                self.wf(),
                self.cap() == old(self).cap(),
                es == old(self).entries(),
                i <= n,
                self.entries().len() == n,
                forall|j: int|
                    0 <= j < n ==> (#[trigger] self.entries()[j]).0 == es[j].0,
                forall|j: int| 0 <= j < i ==> #[trigger] self.entries()[j].1 == dirtied(es[j].1),
                forall|j: int| i <= j < n ==> #[trigger] self.entries()[j].1 == es[j].1,
            decreases n - i,
        {
            assert(views(keys@)[i as int] == keys@[i as int]@);
            assert(keys@[i as int]@ == es[i as int].0);
            assert(keys@.len() == n);
            proof {
                lemma_key_index(self.entries(), es[i as int].0);
                assert(self.entries()[i as int].0 == es[i as int].0);
                if key_index(self.entries(), es[i as int].0) is Some {
                    let k = key_index(self.entries(), es[i as int].0)->0;
                    if k != i {
                        assert(self.entries()[k].0 == es[k].0);
                    }
                }
            }
            let cur = lru_peek(&self.sessions, keys[i].as_str());
            match cur {
                Some(mut s) => {
                    s.mark_dirty();
                    let ghost before = self.entries();
                    let _ = self.update(keys[i].as_str(), s);
                    assert(self.entries() == before.update(i as int, (before[i as int].0, s)));
                },
                None => {},
            }
            i = i + 1;
        }
    }
}

/// A session's statistics with the cached graph size marked stale.
pub open spec fn dirtied(s: SessionStats) -> SessionStats {
    SessionStats { graph_size_dirty: true, ..s }
}


// ---------------------------------------------------------------------------
// Sorted ids
// ---------------------------------------------------------------------------

/// The first position at or after `i` whose id sorts after `x`, or the end.
pub open spec fn first_after(x: Seq<char>, t: Seq<Seq<char>>, i: int) -> int
    decreases t.len() - i,
{
    if i < 0 || i >= t.len() {
        t.len() as int
    } else if seq_lt(x, t[i]) {
        i
    } else {
        first_after(x, t, i + 1)
    }
}

/// `x` inserted into `t` before the first id that sorts after it.
pub open spec fn insert_sorted(x: Seq<char>, t: Seq<Seq<char>>) -> Seq<Seq<char>> {
    let k = first_after(x, t, 0);
    t.take(k) + seq![x] + t.skip(k)
}

/// The ids in ascending order (insertion sort).
pub open spec fn sort_ids(s: Seq<Seq<char>>) -> Seq<Seq<char>>
    decreases s.len(),
{
    if s.len() == 0 {
        s
    } else {
        insert_sorted(s.last(), sort_ids(s.drop_last()))
    }
}

/// No id sorts before one that precedes it.
pub open spec fn ascending(s: Seq<Seq<char>>) -> bool {
    forall|i: int, j: int| 0 <= i < j < s.len() ==> !seq_lt(#[trigger] s[j], #[trigger] s[i])
}

proof fn lemma_first_after(x: Seq<char>, t: Seq<Seq<char>>, i: int)
    requires
        0 <= i <= t.len(),
    ensures
        i <= first_after(x, t, i) <= t.len(),
        forall|j: int| i <= j < first_after(x, t, i) ==> !seq_lt(x, #[trigger] t[j]),
        first_after(x, t, i) < t.len() ==> seq_lt(x, t[first_after(x, t, i)]),
    decreases t.len() - i,
{
    if i < t.len() && !seq_lt(x, t[i]) {
        lemma_first_after(x, t, i + 1);
    }
}

proof fn lemma_insert_sorted(x: Seq<char>, t: Seq<Seq<char>>)
    requires
        ascending(t),
    ensures
        ascending(insert_sorted(x, t)),
        insert_sorted(x, t).to_multiset() == t.to_multiset().insert(x),
{
    broadcast use vstd::seq_lib::group_to_multiset_ensures;

    lemma_first_after(x, t, 0);
    let k = first_after(x, t, 0);
    let r = insert_sorted(x, t);
    assert forall|i: int, j: int| 0 <= i < j < r.len() implies !seq_lt(#[trigger] r[j], #[trigger] r[i]) by {
        if j < k {
            assert(r[i] == t[i] && r[j] == t[j]);
        } else if j == k {
            assert(r[j] == x && r[i] == t[i]);
        } else if i > k {
            assert(r[i] == t[i - 1] && r[j] == t[j - 1]);
        } else if i == k {
            assert(r[i] == x && r[j] == t[j - 1]);
            if seq_lt(t[j - 1], x) {
                lemma_seq_lt_transitive(t[j - 1], x, t[k]);
                if j - 1 > k {
                    assert(!seq_lt(t[j - 1], t[k]));
                } else {
                    crate::recall::lemma_seq_lt_irreflexive(t[k]);
                }
            }
        } else {
            assert(r[i] == t[i] && r[j] == t[j - 1]);
        }
    }
    assert(t =~= t.take(k) + t.skip(k));
    vstd::seq_lib::lemma_multiset_commutative(t.take(k), t.skip(k));
    vstd::seq_lib::lemma_multiset_commutative(t.take(k) + seq![x], t.skip(k));
    vstd::seq_lib::lemma_multiset_commutative(t.take(k), seq![x]);
}

/// Listing ids sorts them: the result is in ascending order and holds
/// exactly the ids given.
pub proof fn law_sorted_ids(s: Seq<Seq<char>>)
    ensures
        ascending(sort_ids(s)),
        sort_ids(s).to_multiset() == s.to_multiset(),
    decreases s.len(),
{
    broadcast use vstd::seq_lib::group_to_multiset_ensures;

    if s.len() > 0 {
        law_sorted_ids(s.drop_last());
        lemma_insert_sorted(s.last(), sort_ids(s.drop_last()));
        assert(s =~= s.drop_last().push(s.last()));
    }
}

fn str_lt(a: &String, b: &String) -> (r: bool)
    ensures
        r == seq_lt(a@, b@),
{
    let av = chars_of(a.as_str());
    let bv = chars_of(b.as_str());
    let mut i: usize = 0;
    assert(av@.skip(0) =~= av@ && bv@.skip(0) =~= bv@);
    while i < av.len() && i < bv.len() && av[i] == bv[i]
        invariant
            av@ == a@,
            bv@ == b@,
            i <= av@.len(),
            i <= bv@.len(),
            seq_lt(a@, b@) == seq_lt(av@.skip(i as int), bv@.skip(i as int)),
        decreases av@.len() - i,
    {
        assert(av@.skip(i as int).drop_first() =~= av@.skip(i + 1));
        assert(bv@.skip(i as int).drop_first() =~= bv@.skip(i + 1));
        i = i + 1;
    }
    if i == bv.len() {
        false
    } else if i == av.len() {
        true
    } else {
        (av[i] as u32) < (bv[i] as u32)
    }
}

fn sort_strings(v: Vec<String>) -> (r: Vec<String>)
    ensures
        views(r@) == sort_ids(views(v@)),
{
    let ghost sv = views(v@);
    let n: usize = v.len();
    let mut out: Vec<String> = Vec::new();
    let mut i: usize = 0;
    while i < n
        invariant
            n == v@.len(),
            sv == views(v@),
            i <= n,
            views(out@) == sort_ids(sv.take(i as int)),
        decreases n - i,
    {
        assert(sv.take(i + 1).drop_last() =~= sv.take(i as int));
        let x = copy_string(&v[i]);
        let ghost ov = views(out@);
        let m: usize = out.len();
        let mut k: usize = 0;
        while k < m && !str_lt(&x, &out[k])
            invariant
                m == out@.len(),
                ov == views(out@),
                x@ == sv[i as int],
                k <= m,
                first_after(x@, ov, 0) == first_after(x@, ov, k as int),
            decreases m - k,
        {
            k = k + 1;
        }
        out.insert(k, x);
        assert(views(out@) =~= ov.take(k as int) + seq![sv[i as int]] + ov.skip(k as int));
        i = i + 1;
    }
    assert(sv.take(n as int) =~= sv);
    out
}

/// The ids of some entries, in order.
pub open spec fn ids_of(es: Seq<(Seq<char>, SessionStats)>) -> Seq<Seq<char>> {
    es.map_values(|e: (Seq<char>, SessionStats)| e.0)
}

// ---------------------------------------------------------------------------
// What the stats endpoints read
// ---------------------------------------------------------------------------

/// A session's counters as the stats endpoints report them (the savings
/// ratio aside).
#[derive(Debug, Clone, PartialEq, Eq)]
pub struct SessionCounts {
    pub session_id: String,
    pub session_tokens_used: u64,
    pub session_tokens_saved: u64,
    pub total_graph_size_chars: u64,
    /// The graph size in tokens (4 characters each).
    pub total_graph_size_tokens: u64,
    pub llm_input_tokens: u64,
    pub llm_output_tokens: u64,
    pub llm_cache_read_tokens: u64,
    pub llm_cache_create_tokens: u64,
    pub llm_call_count: u64,
    pub last_model: Option<String>,
    pub last_provider: Option<String>,
}

/// `c` reports session `id` with statistics `s`.
pub open spec fn counts_of(c: SessionCounts, id: Seq<char>, s: SessionStats) -> bool {
    &&& c.session_id@ == id
    &&& c.session_tokens_used == s.tokens_sent
    &&& c.session_tokens_saved == s.tokens_saved
    &&& c.total_graph_size_chars == s.total_graph_size_chars
    &&& c.total_graph_size_tokens == s.total_graph_size_chars / 4
    &&& c.llm_input_tokens == s.llm_input_tokens
    &&& c.llm_output_tokens == s.llm_output_tokens
    &&& c.llm_cache_read_tokens == s.llm_cache_read_tokens
    &&& c.llm_cache_create_tokens == s.llm_cache_create_tokens
    &&& c.llm_call_count == s.llm_call_count
    &&& c.last_model == s.last_model
    &&& c.last_provider == s.last_provider
}

impl SessionCounts {
    /// The counters of session `session_id` with statistics `stats`.
    pub fn from_session(session_id: &str, stats: &SessionStats) -> (r: Self)
        ensures
            counts_of(r, session_id@, *stats),
    {
        SessionCounts {
            session_id: owned(session_id),
            session_tokens_used: stats.tokens_sent,
            session_tokens_saved: stats.tokens_saved,
            total_graph_size_chars: stats.total_graph_size_chars,
            total_graph_size_tokens: stats.total_graph_size_chars / 4,
            llm_input_tokens: stats.llm_input_tokens,
            llm_output_tokens: stats.llm_output_tokens,
            llm_cache_read_tokens: stats.llm_cache_read_tokens,
            llm_cache_create_tokens: stats.llm_cache_create_tokens,
            llm_call_count: stats.llm_call_count,
            last_model: stats.last_model(),
            last_provider: stats.last_provider(),
        }
    }
}

/// The roll-up of some sessions: counters summed (wrapping at 2^64), the
/// graph size their largest (it is one graph).
pub open spec fn rollup(es: Seq<(Seq<char>, SessionStats)>) -> (u64, u64, u64, u64, u64, u64, u64, u64)
    decreases es.len(),
{
    if es.len() == 0 {
        (0, 0, 0, 0, 0, 0, 0, 0)
    } else {
        let r = rollup(es.drop_last());
        let s = es.last().1;
        (
            wrap_add(r.0, s.tokens_sent),
            wrap_add(r.1, s.tokens_saved),
            if s.total_graph_size_chars > r.2 { s.total_graph_size_chars } else { r.2 },
            wrap_add(r.3, s.llm_input_tokens),
            wrap_add(r.4, s.llm_output_tokens),
            wrap_add(r.5, s.llm_cache_read_tokens),
            wrap_add(r.6, s.llm_cache_create_tokens),
            wrap_add(r.7, s.llm_call_count),
        )
    }
}

/// The entries after asking the registry for session `id`
/// (`get_or_create`): a held session moves to the front; a new one is put
/// in fresh.
pub open spec fn access(es: Seq<(Seq<char>, SessionStats)>, cap: nat, id: Seq<char>) -> Seq<
    (Seq<char>, SessionStats),
> {
    match key_index(es, id) {
        Some(i) => promote(es, i),
        None => put_entries(es, cap, id, SessionStats::new_spec()),
    }
}

/// The entries after asking for each id of `ids` in turn.
pub open spec fn accesses(es: Seq<(Seq<char>, SessionStats)>, cap: nat, ids: Seq<Seq<char>>) -> Seq<
    (Seq<char>, SessionStats),
>
    decreases ids.len(),
{
    if ids.len() == 0 {
        es
    } else {
        access(accesses(es, cap, ids.drop_last()), cap, ids.last())
    }
}

/// Putting a new session into a full registry evicts exactly the least
/// recently used one (the last) and keeps the rest in order; any other put
/// or access keeps every other session, in order.
pub proof fn law_lru_eviction(es: Seq<(Seq<char>, SessionStats)>, cap: nat, id: Seq<char>)
    requires
        keys_distinct(es),
        es.len() <= cap,
        cap >= 1,
    ensures
        access(es, cap, id)[0].0 == id,
        key_index(es, id) is None && es.len() == cap ==> access(es, cap, id) == seq![
            (id, SessionStats::new_spec()),
        ] + es.drop_last(),
        key_index(es, id) is None && es.len() < cap ==> access(es, cap, id) == seq![
            (id, SessionStats::new_spec()),
        ] + es,
        key_index(es, id) matches Some(i) ==> access(es, cap, id) == seq![es[i]] + es.remove(i),
{
    lemma_key_index(es, id);
}

/// Over any run of requests the registry stays within its capacity, no
/// session is held twice, and the session asked for last is the most
/// recently used.
pub proof fn law_lru_accesses(es: Seq<(Seq<char>, SessionStats)>, cap: nat, ids: Seq<Seq<char>>)
    requires
        keys_distinct(es),
        es.len() <= cap,
        cap >= 1,
    ensures
        keys_distinct(accesses(es, cap, ids)),
        accesses(es, cap, ids).len() <= cap,
        ids.len() > 0 ==> accesses(es, cap, ids).len() > 0 && accesses(es, cap, ids)[0].0 == ids.last(),
    decreases ids.len(),
{
    if ids.len() > 0 {
        let prev = accesses(es, cap, ids.drop_last());
        law_lru_accesses(es, cap, ids.drop_last());
        lemma_key_index(prev, ids.last());
        match key_index(prev, ids.last()) {
            Some(i) => lemma_promote_keeps_distinct(prev, i),
            None => lemma_put_keeps_distinct(prev, cap, ids.last(), SessionStats::new_spec()),
        }
    }
}

/// The roll-up's graph size is the largest any session saw: no session
/// saw more, and (when there is a session) one saw exactly that.
pub proof fn law_rollup_graph_is_max(es: Seq<(Seq<char>, SessionStats)>)
    ensures
        forall|i: int| 0 <= i < es.len() ==> (#[trigger] es[i]).1.total_graph_size_chars <= rollup(es).2,
        es.len() > 0 ==> exists|i: int| 0 <= i < es.len() && (#[trigger] es[i]).1.total_graph_size_chars == rollup(es).2,
        es.len() == 0 ==> rollup(es).2 == 0,
    decreases es.len(),
{
    if es.len() > 0 {
        let p = es.drop_last();
        law_rollup_graph_is_max(p);
        assert forall|i: int| 0 <= i < es.len() implies (#[trigger] es[i]).1.total_graph_size_chars <= rollup(es).2 by {
            if i < p.len() {
                assert(es[i] == p[i]);
            }
        }
        if es.last().1.total_graph_size_chars > rollup(p).2 || p.len() == 0 {
            assert(es[es.len() - 1].1.total_graph_size_chars == rollup(es).2);
        } else {
            let i = choose|i: int| 0 <= i < p.len() && (#[trigger] p[i]).1.total_graph_size_chars == rollup(p).2;
            assert(es[i] == p[i]);
        }
    }
}

impl SessionRegistry {
    /// The session ids, sorted.
    pub fn list_ids(&self) -> (r: Vec<String>)
        ensures
            views(r@) == sort_ids(ids_of(self.entries())),
    {
        let keys = lru_keys(&self.sessions);
        assert(views(keys@) =~= ids_of(self.entries()));
        sort_strings(keys)
    }

    /// The counters of session `id`, without touching the order.
    pub fn snapshot(&self, id: &str) -> (r: Option<SessionCounts>)
        ensures
            match key_index(self.entries(), id@) {
                Some(i) => r matches Some(c) && counts_of(c, id@, self.entries()[i].1),
                None => r is None,
            },
    {
        match lru_peek(&self.sessions, id) {
            Some(s) => Some(SessionCounts::from_session(id, &s)),
            None => None,
        }
    }

    /// The counters of every session, sorted by id.
    pub fn snapshot_all(&self) -> (r: Vec<SessionCounts>)
        ensures
            r@.len() == self.entries().len(),
            forall|k: int|
                0 <= k < r@.len() ==> {
                    let id = sort_ids(ids_of(self.entries()))[k];
                    &&& key_index(self.entries(), id) is Some
                    &&& counts_of(#[trigger] r@[k], id, self.entries()[key_index(self.entries(), id)->0].1)
                },
    {
        proof {
            use_type_invariant(self);
        }
        let ids = self.list_ids();
        let ghost sorted = sort_ids(ids_of(self.entries()));
        proof {
            law_sorted_ids(ids_of(self.entries()));
            lemma_ids_present(self.entries(), sorted);
        }
        let n: usize = ids.len();
        let mut out: Vec<SessionCounts> = Vec::new();
        let mut i: usize = 0;
        while i < n
            invariant
                n == ids@.len(),
                views(ids@) == sorted,
                sorted == sort_ids(ids_of(self.entries())),
                forall|k: int| 0 <= k < sorted.len() ==> key_index(self.entries(), #[trigger] sorted[k]) is Some,
                i <= n,
                out@.len() == i,
                forall|k: int|
                    0 <= k < i ==> counts_of(
                        #[trigger] out@[k],
                        sorted[k],
                        self.entries()[key_index(self.entries(), sorted[k])->0].1,
                    ),
            decreases n - i,
        {
            assert(views(ids@)[i as int] == ids@[i as int]@);
            match lru_peek(&self.sessions, ids[i].as_str()) {
                Some(s) => {
                    out.push(SessionCounts::from_session(ids[i].as_str(), &s));
                },
                None => {
                    assert(false);
                },
            }
            i = i + 1;
        }
        proof {
            assert(sorted.to_multiset().len() == ids_of(self.entries()).to_multiset().len());
            broadcast use vstd::seq_lib::group_to_multiset_ensures;
        }
        out
    }

    /// The roll-up of every session under the id `_aggregate`: counters
    /// summed, the graph size the largest, no model or provider.
    pub fn aggregate(&self) -> (r: SessionCounts)
        ensures
            r.session_id@ == "_aggregate"@,
            ({
                let t = rollup(self.entries());
                &&& r.session_tokens_used == t.0
                &&& r.session_tokens_saved == t.1
                &&& r.total_graph_size_chars == t.2
                &&& r.total_graph_size_tokens == t.2 / 4
                &&& r.llm_input_tokens == t.3
                &&& r.llm_output_tokens == t.4
                &&& r.llm_cache_read_tokens == t.5
                &&& r.llm_cache_create_tokens == t.6
                &&& r.llm_call_count == t.7
            }),
            r.last_model is None,
            r.last_provider is None,
    {
        proof {
            use_type_invariant(self);
        }
        let keys = lru_keys(&self.sessions);
        let ghost es = self.entries();
        assert(views(keys@) =~= ids_of(es));
        assert(views(keys@).len() == keys@.len());
        let n: usize = keys.len();
        let mut t: (u64, u64, u64, u64, u64, u64, u64, u64) = (0, 0, 0, 0, 0, 0, 0, 0);
        let mut i: usize = 0;
        while i < n
            invariant
                es == self.entries(),
                keys_distinct(es),
                n == es.len(),
                keys@.len() == n,
                views(keys@) == ids_of(es),
                i <= n,
                t == rollup(es.take(i as int)),
            decreases n - i,
        {
            assert(es.take(i + 1).drop_last() =~= es.take(i as int));
            assert(views(keys@)[i as int] == keys@[i as int]@);
            proof {
                lemma_key_index(es, es[i as int].0);
                if key_index(es, es[i as int].0) is Some {
                    let k = key_index(es, es[i as int].0)->0;
                    if k != i {
                        assert(es[k].0 == es[i as int].0);
                    }
                }
            }
            match lru_peek(&self.sessions, keys[i].as_str()) {
                Some(s) => {
                    t = (
                        t.0.wrapping_add(s.tokens_sent),
                        t.1.wrapping_add(s.tokens_saved),
                        if s.total_graph_size_chars > t.2 { s.total_graph_size_chars } else { t.2 },
                        t.3.wrapping_add(s.llm_input_tokens),
                        t.4.wrapping_add(s.llm_output_tokens),
                        t.5.wrapping_add(s.llm_cache_read_tokens),
                        t.6.wrapping_add(s.llm_cache_create_tokens),
                        t.7.wrapping_add(s.llm_call_count),
                    );
                },
                None => {},
            }
            i = i + 1;
        }
        assert(es.take(n as int) =~= es);
        SessionCounts {
            session_id: owned("_aggregate"),
            session_tokens_used: t.0,
            session_tokens_saved: t.1,
            total_graph_size_chars: t.2,
            total_graph_size_tokens: t.2 / 4,
            llm_input_tokens: t.3,
            llm_output_tokens: t.4,
            llm_cache_read_tokens: t.5,
            llm_cache_create_tokens: t.6,
            llm_call_count: t.7,
            last_model: None,
            last_provider: None,
        }
    }
}

proof fn lemma_ids_present(es: Seq<(Seq<char>, SessionStats)>, sorted: Seq<Seq<char>>)
    requires
        sorted.to_multiset() == ids_of(es).to_multiset(),
    ensures
        forall|k: int| 0 <= k < sorted.len() ==> key_index(es, #[trigger] sorted[k]) is Some,
{
    broadcast use vstd::seq_lib::group_to_multiset_ensures;

    assert forall|k: int| 0 <= k < sorted.len() implies key_index(es, #[trigger] sorted[k]) is Some by {
        assert(sorted.to_multiset().count(sorted[k]) > 0);
        assert(ids_of(es).contains(sorted[k]));
        let j = choose|j: int| 0 <= j < ids_of(es).len() && ids_of(es)[j] == sorted[k];
        lemma_key_index(es, sorted[k]);
        assert(es[j].0 == sorted[k]);
    }
}

} // verus!
