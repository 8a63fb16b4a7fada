//! The hub's database lock and inode watchdog: the lockfile's name and body,
//! what a lockfile found at startup means, and what a changed fingerprint of
//! the database file means.

use vstd::prelude::*;

use crate::links::{all_digits, digits_value};
use crate::text::{
    chars_of, decimal, digit_char, find_from, find_from_exec, is_digit, is_digit_exec, occurs_at,
    owned, push_decimal, push_str, slice_chars,
};

verus! {

/// `<db>.lock`.
pub open spec fn lock_name(db_path: Seq<char>) -> Seq<char> {
    db_path + ".lock"@
}

/// The lockfile for a db path: `<db>.lock`.
pub fn lock_path(db_path: &str) -> (r: String)
    ensures
        r@ == lock_name(db_path@),
{
    let mut s = owned(db_path);
    push_str(&mut s, ".lock");
    s
}

/// The body a hub writes into its lockfile.
pub open spec fn lock_body_spec(pid: u32, started_at: u64, hub_version: Seq<char>) -> Seq<char> {
    "{\"pid\":"@ + decimal(pid as nat) + ",\"started_at_unix\":"@ + decimal(started_at as nat)
        + ",\"hub_version\":\""@ + hub_version + "\"}\n"@
}

/// The lockfile body: `{"pid":N,"started_at_unix":T,"hub_version":"V"}` and
/// a newline.
pub fn lock_body(pid: u32, started_at: u64, hub_version: &str) -> (r: String)
    ensures
        r@ == lock_body_spec(pid, started_at, hub_version@),
{
    let mut s = owned("{\"pid\":");
    push_decimal(&mut s, pid as u64);
    push_str(&mut s, ",\"started_at_unix\":");
    push_decimal(&mut s, started_at);
    push_str(&mut s, ",\"hub_version\":\"");
    push_str(&mut s, hub_version);
    push_str(&mut s, "\"}\n");
    s
}

/// The leading ASCII digits of `s`.
pub open spec fn digit_prefix(s: Seq<char>) -> Seq<char>
    decreases s.len(),
{
    if s.len() > 0 && is_digit(s[0]) {
        seq![s[0]] + digit_prefix(s.drop_first())
    } else {
        Seq::empty()
    }
}

/// The pid a lockfile body records: the digits right after the first
/// `"pid":`, when there are some and they fit in 32 bits.
pub open spec fn lock_pid(body: Seq<char>) -> Option<nat> {
    match find_from(body, "\"pid\":"@, 0) {
        None => None,
        Some(k) => {
            let ds = digit_prefix(body.skip(k + "\"pid\":"@.len()));
            if ds.len() == 0 || digits_value(ds) > u32::MAX {
                None
            } else {
                Some(digits_value(ds))
            }
        },
    }
}

proof fn lemma_digit_prefix(s: Seq<char>, i: int)
    requires
        0 <= i <= s.len(),
        forall|k: int| 0 <= k < i ==> is_digit(#[trigger] s[k]),
        i == s.len() || !is_digit(s[i]),
    ensures
        digit_prefix(s) == s.take(i),
    decreases i,
{
    if i > 0 {
        assert forall|k: int| 0 <= k < i - 1 implies is_digit(#[trigger] s.drop_first()[k]) by {
            assert(s.drop_first()[k] == s[k + 1]);
        }
        lemma_digit_prefix(s.drop_first(), i - 1);
        assert(s.take(i) =~= seq![s[0]] + s.drop_first().take(i - 1));
    } else {
        if s.len() > 0 {
            assert(!is_digit(s[0]));
        }
        assert(s.take(0) =~= Seq::<char>::empty());
    }
}

/// Reads the pid a lockfile body records.
pub fn read_pid(body: &str) -> (r: Option<u32>)
    ensures
        match r {
            Some(p) => lock_pid(body@) == Some(p as nat),
            None => lock_pid(body@) is None,
        },
{
    let cs = chars_of(body);
    let pat = chars_of("\"pid\":");
    match find_from_exec(&cs, &pat, 0) {
        None => None,
        Some(k) => {
            proof {
                crate::text::lemma_find_from(cs@, pat@, 0);
                assert(occurs_at(cs@, pat@, k as int));
                assert(k + pat@.len() <= cs@.len());
                assert(pat@.len() == pat.len());
            }
            let n: usize = cs.len();
            let plen: usize = pat.len();
            let start: usize = k + plen;
            let mut j: usize = start;
            while j < n && is_digit_exec(cs[j])
                invariant
                    start <= j <= n,
                    n == cs@.len(),
                    forall|m: int| start <= m < j ==> is_digit(#[trigger] cs@[m]),
                decreases n - j,
            {
                j = j + 1;
            }
            let ds = slice_chars(&cs, start, j);
            proof {
                let rest = cs@.skip(start as int);
                assert forall|m: int| 0 <= m < j - start implies is_digit(#[trigger] rest[m]) by {
                    assert(rest[m] == cs@[start + m]);
                }
                if j < n {
                    assert(rest[j - start] == cs@[j as int]);
                }
                lemma_digit_prefix(rest, j - start);
                assert(ds@ =~= rest.take(j - start));
                assert forall|m: int| 0 <= m < ds@.len() implies is_digit(#[trigger] ds@[m]) by {
                    assert(ds@[m] == cs@[start + m]);
                }
            }
            if ds.len() == 0 {
                return None;
            }
            crate::links::digits_value_exec(&ds)
        },
    }
}

proof fn lemma_decimal_digits(n: nat)
    ensures
        decimal(n).len() >= 1,
        forall|i: int| 0 <= i < decimal(n).len() ==> is_digit(#[trigger] decimal(n)[i]),
        digits_value(decimal(n)) == n,
    decreases n,
{
    assert(('0' as u32) == 48);
    if n < 10 {
        assert(decimal(n).drop_last() =~= Seq::<char>::empty());
        assert((digit_char(n) as u32) == 48 + n);
        assert(decimal(n).last() == digit_char(n));
        assert(digits_value(decimal(n)) == digits_value(Seq::<char>::empty()) * 10 + n);
    } else {
        lemma_decimal_digits(n / 10);
        let d = decimal(n);
        assert(d.drop_last() == decimal(n / 10));
        assert(d.last() == digit_char(n % 10));
        assert((digit_char(n % 10) as u32) == 48 + n % 10);
        assert(digits_value(d) == digits_value(decimal(n / 10)) * 10 + n % 10);
        assert(n / 10 * 10 + n % 10 == n) by (nonlinear_arith);
        assert forall|i: int| 0 <= i < d.len() implies is_digit(#[trigger] d[i]) by {
            if i < d.len() - 1 {
                assert(d[i] == decimal(n / 10)[i]);
            }
        }
    }
}

/// A lockfile a hub writes names that hub's pid when read back, whatever
/// its start time and version.
pub proof fn law_lock_body_round_trip(pid: u32, started_at: u64, hub_version: Seq<char>)
    ensures
        lock_pid(lock_body_spec(pid, started_at, hub_version)) == Some(pid as nat),
{
    reveal_strlit("{\"pid\":");
    reveal_strlit("\"pid\":");
    reveal_strlit(",\"started_at_unix\":");
    let body = lock_body_spec(pid, started_at, hub_version);
    let pat = "\"pid\":"@;
    let dp = decimal(pid as nat);
    lemma_decimal_digits(pid as nat);
    assert(body[0] == '{');
    assert(pat[0] == '"');
    if occurs_at(body, pat, 0) {
        assert(body.subrange(0, 6)[0] == pat[0]);
    }
    assert(!occurs_at(body, pat, 0));
    assert(body.subrange(1, 7) =~= pat);
    assert(occurs_at(body, pat, 1));
    assert(find_from(body, pat, 1) == Some(1int));
    assert(find_from(body, pat, 0) == Some(1int));
    let rest = body.skip(7);
    assert forall|m: int| 0 <= m < dp.len() implies is_digit(#[trigger] rest[m]) by {
        assert(rest[m] == dp[m]);
    }
    assert(rest[dp.len() as int] == ',');
    lemma_digit_prefix(rest, dp.len() as int);
    assert(rest.take(dp.len() as int) =~= dp);
}

// ---------------------------------------------------------------------------
// Startup decision
// ---------------------------------------------------------------------------

/// What a hub does about the lockfile it finds at startup.
#[derive(Debug, Clone, PartialEq, Eq)]
pub enum LockDecision {
    /// No lockfile: take the lock.
    Take,
    /// Another live hub holds the lock: refuse to start, with this message.
    Refuse(String),
    /// The recorded owner is not running: remove the stale lockfile, then
    /// take the lock.
    ReclaimStale(u32),
    /// The lockfile names no pid: remove it, then take the lock.
    ReclaimUnreadable,
}

/// The refusal message when `pid` holds `lock`.
pub open spec fn refusal_text(pid: u32, lock: Seq<char>) -> Seq<char> {
    "database is already locked by ctxone-hub pid "@ + decimal(pid as nat) + " (lockfile: "@ + lock
        + "); refusing to start a second hub against the same db"@
}

/// Decides what to do about the lockfile `lock`: whether it exists, the pid
/// it records (if it can be read) and whether that process is alive.
pub fn acquire_decision(lock: &str, exists: bool, pid: Option<u32>, alive: bool) -> (r: LockDecision)
    ensures
        !exists ==> r == LockDecision::Take,
        exists && pid is None ==> r == LockDecision::ReclaimUnreadable,
        exists && pid is Some && !alive ==> r == LockDecision::ReclaimStale(pid->0),
        exists && pid is Some && alive ==> (r matches LockDecision::Refuse(m) && m@ == refusal_text(
            pid->0,
            lock@,
        )),
{
    if !exists {
        return LockDecision::Take;
    }
    match pid {
        None => LockDecision::ReclaimUnreadable,
        Some(p) => if alive {
            let mut m = owned("database is already locked by ctxone-hub pid ");
            push_decimal(&mut m, p as u64);
            push_str(&mut m, " (lockfile: ");
            push_str(&mut m, lock);
            push_str(&mut m, "); refusing to start a second hub against the same db");
            LockDecision::Refuse(m)
        } else {
            LockDecision::ReclaimStale(p)
        },
    }
}

// ---------------------------------------------------------------------------
// Inode watchdog
// ---------------------------------------------------------------------------

/// (device, inode) of the database file.
#[derive(Clone, Copy, Debug, PartialEq, Eq, Structural)]
pub struct DbFingerprint {
    pub dev: u64,
    pub ino: u64,
}

/// What one watchdog check finds.
#[derive(Clone, Copy, Debug, PartialEq, Eq, Structural)]
pub enum DriftEvent {
    /// The file is gone (the baseline is kept).
    Missing,
    /// The file was replaced (the new fingerprint becomes the baseline).
    Replaced { old: DbFingerprint, new: DbFingerprint },
    /// Nothing changed.
    Unchanged,
}

/// One watchdog check against the baseline `last`, given the file's current
/// fingerprint (`None` when it is missing): the event and the next baseline.
pub fn watch_step(last: DbFingerprint, now: Option<DbFingerprint>) -> (r: (DriftEvent, DbFingerprint))
    ensures
        now is None ==> r == (DriftEvent::Missing, last),
        now is Some && now->0 != last ==> r == (
            DriftEvent::Replaced { old: last, new: now->0 },
            now->0,
        ),
        now == Some(last) ==> r == (DriftEvent::Unchanged, last),
{
    match now {
        None => (DriftEvent::Missing, last),
        Some(n) => if n.dev != last.dev || n.ino != last.ino {
            (DriftEvent::Replaced { old: last, new: n }, n)
        } else {
            (DriftEvent::Unchanged, last)
        },
    }
}


// ---------------------------------------------------------------------------
// The held lock
// ---------------------------------------------------------------------------

/// A held lockfile: its path, and whether it was already released (the
/// file is removed once, by whichever of an explicit release, a signal
/// handler or the drop comes first).
#[derive(Debug)]
pub struct LockGuard {
    path: String,
    released: bool,
}

impl LockGuard {
    /// The lockfile's path.
    pub closed spec fn path_view(self) -> Seq<char> {
        self.path@
    }

    /// Whether the lock was released.
    pub closed spec fn is_released(self) -> bool {
        self.released
    }

    /// The guard of a freshly written lockfile.
    pub fn new(path: String) -> (r: Self)
        ensures
            r.path_view() == path@,
            !r.is_released(),
    {
        LockGuard { path, released: false }
    }

    /// The lockfile's path.
    pub fn path(&self) -> (r: &str)
        ensures
            r@ == self.path_view(),
    {
        self.path.as_str()
    }

    /// Marks the lock released. Returns whether the caller must remove the
    /// file now: only the first release does; later ones (and the drop
    /// after one) are no-ops.
    pub fn release(&mut self) -> (remove: bool)
        ensures
            remove == !old(self).is_released(),
            final(self).is_released(),
            final(self).path_view() == old(self).path_view(),
    {
        let remove = !self.released;
        self.released = true;
        remove
    }
}

} // verus!
