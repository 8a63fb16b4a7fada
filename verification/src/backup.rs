//! Rolling snapshots of the hub's database: snapshot names, where a new
//! snapshot goes when its name is taken, and which old ones pruning drops.

use vstd::prelude::*;

use crate::text::{chars_of, decimal, has_prefix, owned, padded, push_decimal, push_str, string_of};

verus! {

// ---------------------------------------------------------------------------
// Timestamps
// ---------------------------------------------------------------------------

/// The proleptic Gregorian date of a day count since 1970-01-01, as
/// `(year, month, day)` (civil-from-days).
pub open spec fn civil_from_days(days: int) -> (int, int, int) {
    let z = days + 719468;
    let era = (if z >= 0 {
        z
    } else {
        z - 146096
    }) / 146097;
    let doe = z - era * 146097;
    let yoe = (doe - doe / 1460 + doe / 36524 - doe / 146096) / 365;
    let y = yoe + era * 400;
    let doy = doe - (365 * yoe + yoe / 4 - yoe / 100);
    let mp = (5 * doy + 2) / 153;
    let d = doy - (153 * mp + 2) / 5 + 1;
    let m = if mp < 10 {
        mp + 3
    } else {
        mp - 9
    };
    (if m <= 2 {
        y + 1
    } else {
        y
    }, m, d)
}

/// `YYYYMMDDTHHMMSSZ` for `secs` seconds after the Unix epoch.
pub open spec fn iso_compact(secs: nat) -> Seq<char> {
    let days = secs / 86400;
    let sod = secs % 86400;
    let c = civil_from_days(days as int);
    padded(c.0 as nat, 4) + padded(c.1 as nat, 2) + padded(c.2 as nat, 2) + seq!['T'] + padded(
        sod / 3600,
        2,
    ) + padded((sod % 3600) / 60, 2) + padded(sod % 60, 2) + seq!['Z']
}

proof fn lemma_civil_ranges(days: int)
    requires
        days >= 0,
    ensures
        civil_from_days(days).0 >= 1970,
        1 <= civil_from_days(days).1 <= 12,
        1 <= civil_from_days(days).2 <= 31,
{
    let z = days + 719468;
    let era = z / 146097;
    let doe = z - era * 146097;
    assert(0 <= doe < 146097) by (nonlinear_arith)
        requires
            z >= 0,
            era == z / 146097,
            doe == z - era * 146097,
    ;
    assert(era >= 4) by (nonlinear_arith)
        requires
            z >= 719468,
            era == z / 146097,
    ;
    let yoe = (doe - doe / 1460 + doe / 36524 - doe / 146096) / 365;
    assert(0 <= yoe <= 399) by (nonlinear_arith)
        requires
            0 <= doe < 146097,
            yoe == (doe - doe / 1460 + doe / 36524 - doe / 146096) / 365,
    ;
    let doy = doe - (365 * yoe + yoe / 4 - yoe / 100);
    assert(0 <= doy <= 365) by (nonlinear_arith)
        requires
            0 <= doe < 146097,
            yoe == (doe - doe / 1460 + doe / 36524 - doe / 146096) / 365,
            doy == doe - (365 * yoe + yoe / 4 - yoe / 100),
    ;
    let mp = (5 * doy + 2) / 153;
    assert(0 <= mp <= 11);
    let d = doy - (153 * mp + 2) / 5 + 1;
    assert(1 <= d <= 31) by (nonlinear_arith)
        requires
            0 <= doy <= 365,
            mp == (5 * doy + 2) / 153,
            d == doy - (153 * mp + 2) / 5 + 1,
    ;
}

/// The largest second a four-digit year holds: 9999-12-31T23:59:59Z is one
/// second before this.
pub const MAX_COMPACT_SECS: u64 = 253_402_300_800;

proof fn lemma_decimal_short(n: nat)
    ensures
        n < 10 ==> decimal(n).len() == 1,
        n < 100 ==> decimal(n).len() <= 2,
        n < 1000 ==> decimal(n).len() <= 3,
        n < 10000 ==> decimal(n).len() <= 4,
    decreases n,
{
    if n >= 10 {
        lemma_decimal_short(n / 10);
    }
}

proof fn lemma_padded_len(n: nat, w: nat)
    requires
        decimal(n).len() <= w,
    ensures
        padded(n, w).len() == w,
{
}

/// Every day up to 9999-12-31 falls in a four-digit year.
proof fn lemma_civil_year_bound(days: int)
    requires
        0 <= days < 2_932_897,
    ensures
        civil_from_days(days).0 <= 9999,
{
    let z = days + 719468;
    let era = z / 146097;
    let doe = z - era * 146097;
    assert(0 <= doe < 146097 && 4 <= era <= 24 && (era == 24 ==> doe <= 146036)) by (nonlinear_arith)
        requires
            719468 <= z < 3_652_365,
            era == z / 146097,
            doe == z - era * 146097,
    ;
    let yoe = (doe - doe / 1460 + doe / 36524 - doe / 146096) / 365;
    assert(0 <= yoe <= 399);
    let doy = doe - (365 * yoe + yoe / 4 - yoe / 100);
    let mp = (5 * doy + 2) / 153;
    if era == 24 && yoe == 399 {
        assert(doy <= 305);
        assert(mp <= 9);
    }
}

/// Backup timestamps have a fixed width: for any clock reading up to the
/// end of year 9999, `YYYYMMDDTHHMMSSZ` is 16 characters.
pub proof fn law_compact_timestamp_width(secs: nat)
    requires
        secs < MAX_COMPACT_SECS,
    ensures
        iso_compact(secs).len() == 16,
{
    let days = secs / 86400;
    let sod = secs % 86400;
    lemma_civil_ranges(days as int);
    lemma_civil_year_bound(days as int);
    let c = civil_from_days(days as int);
    lemma_decimal_short(c.0 as nat);
    lemma_decimal_short(c.1 as nat);
    lemma_decimal_short(c.2 as nat);
    lemma_decimal_short(sod / 3600);
    lemma_decimal_short((sod % 3600) / 60);
    lemma_decimal_short(sod % 60);
    lemma_padded_len(c.0 as nat, 4);
    lemma_padded_len(c.1 as nat, 2);
    lemma_padded_len(c.2 as nat, 2);
    lemma_padded_len(sod / 3600, 2);
    lemma_padded_len((sod % 3600) / 60, 2);
    lemma_padded_len(sod % 60, 2);
}

fn civil_exec(days: u64) -> (r: (u64, u64, u64))
    requires
        days <= 0xFFFF_FFFF_FFFF,
    ensures
        r.0 as int == civil_from_days(days as int).0,
        r.1 as int == civil_from_days(days as int).1,
        r.2 as int == civil_from_days(days as int).2,
        1 <= r.1 <= 12,
        1 <= r.2 <= 31,
{
    proof {
        lemma_civil_ranges(days as int);
    }
    let z: u64 = days + 719468;
    let era: u64 = z / 146097;
    assert(era * 146097 <= z) by (nonlinear_arith)
        requires
            era == z / 146097,
    ;
    let doe: u64 = z - era * 146097;
    let yoe: u64 = (doe - doe / 1460 + doe / 36524 - doe / 146096) / 365;
    let y: u64 = yoe + era * 400;
    let doy: u64 = doe - (365 * yoe + yoe / 4 - yoe / 100);
    let mp: u64 = (5 * doy + 2) / 153;
    let d: u64 = doy - (153 * mp + 2) / 5 + 1;
    let m: u64 = if mp < 10 {
        mp + 3
    } else {
        mp - 9
    };
    let y2: u64 = if m <= 2 {
        y + 1
    } else {
        y
    };
    (y2, m, d)
}

/// `YYYYMMDDTHHMMSSZ` for `secs` seconds after the Unix epoch.
pub fn iso_compact_of(secs: u64) -> (r: String)
    ensures
        r@ == iso_compact(secs as nat),
{
    let days: u64 = secs / 86400;
    let sod: u64 = secs % 86400;
    let (y, m, d) = civil_exec(days);
    let mut s = String::new();
    crate::text::push_chars(&mut s, &crate::text::padded_exec(y, 4));
    crate::text::push_chars(&mut s, &crate::text::padded_exec(m, 2));
    crate::text::push_chars(&mut s, &crate::text::padded_exec(d, 2));
    push_str(&mut s, "T");
    crate::text::push_chars(&mut s, &crate::text::padded_exec(sod / 3600, 2));
    crate::text::push_chars(&mut s, &crate::text::padded_exec((sod % 3600) / 60, 2));
    crate::text::push_chars(&mut s, &crate::text::padded_exec(sod % 60, 2));
    push_str(&mut s, "Z");
    proof {
        reveal_strlit("T");
        reveal_strlit("Z");
    }
    assert(s@ =~= iso_compact(secs as nat));
    s
}


/// The whole seconds after the Unix epoch of a clock reading; 0 for a
/// reading earlier than the epoch.
pub open spec fn reading_secs(reading: Option<(u64, u32)>) -> nat {
    match reading {
        Some(v) => v.0 as nat,
        None => 0,
    }
}

/// `YYYYMMDDTHHMMSSZ` of a clock reading (the epoch for a reading before
/// it).
pub fn iso_compact_of_reading(reading: Option<(u64, u32)>) -> (r: String)
    ensures
        r@ == iso_compact(reading_secs(reading)),
{
    let secs: u64 = match reading {
        Some((s, _)) => s,
        None => 0,
    };
    iso_compact_of(secs)
}

/// The current UTC time as `YYYYMMDDTHHMMSSZ`, as `iso_compact_of_reading`
/// makes it from the clock's reading.
pub fn iso_utc_compact() -> (r: String)
    ensures
        exists|reading: Option<(u64, u32)>| r@ == #[trigger] iso_compact(reading_secs(reading)),
{
    let reading = crate::memory::clock_reading();
    iso_compact_of_reading(reading)
}

// ---------------------------------------------------------------------------
// Snapshot names
// ---------------------------------------------------------------------------

/// `<src>.bak.<suffix>`.
pub open spec fn snapshot_name(src: Seq<char>, suffix: Seq<char>) -> Seq<char> {
    src + ".bak."@ + suffix
}

/// The snapshot path for a source db and a timestamp suffix.
pub fn snapshot_path(src: &str, suffix: &str) -> (r: String)
    ensures
        r@ == snapshot_name(src@, suffix@),
{
    let mut s = owned(src);
    push_str(&mut s, ".bak.");
    push_str(&mut s, suffix);
    s
}

/// The paths a snapshot may take, in the order they are tried: the plain
/// name, then `<suffix>_1` to `<suffix>_99` when the earlier ones exist.
pub fn snapshot_candidates(src: &str, suffix: &str) -> (r: Vec<String>)
    ensures
        r@.len() == 100,
        r@[0]@ == snapshot_name(src@, suffix@),
        forall|n: int|
            1 <= n < 100 ==> #[trigger] r@[n]@ == snapshot_name(src@, suffix@ + seq!['_'] + decimal(n as nat)),
{
    let mut out: Vec<String> = Vec::new();
    out.push(snapshot_path(src, suffix));
    let mut n: u64 = 1;
    while n < 100
        invariant
            1 <= n <= 100,
            out@.len() == n,
            out@[0]@ == snapshot_name(src@, suffix@),
            forall|k: int|
                1 <= k < n ==> #[trigger] out@[k]@ == snapshot_name(src@, suffix@ + seq!['_'] + decimal(k as nat)),
        decreases 100 - n,
    {
        let mut sfx = owned(suffix);
        push_str(&mut sfx, "_");
        push_decimal(&mut sfx, n);
        proof {
            reveal_strlit("_");
        }
        assert(sfx@ =~= suffix@ + seq!['_'] + decimal(n as nat));
        out.push(snapshot_path(src, sfx.as_str()));
        n = n + 1;
    }
    out
}

/// The error when every candidate name is taken.
pub fn snapshot_collision_error(src: &str, suffix: &str) -> (r: String)
    ensures
        r@ == "snapshot collision: "@ + snapshot_name(src@, suffix@) + " already exists with 99 retries"@,
{
    let mut s = owned("snapshot collision: ");
    push_str(&mut s, snapshot_path(src, suffix).as_str());
    push_str(&mut s, " already exists with 99 retries");
    s
}

/// The `k`-th candidate name of a snapshot.
pub open spec fn candidate_name(src: Seq<char>, suffix: Seq<char>, k: int) -> Seq<char> {
    if k == 0 {
        snapshot_name(src, suffix)
    } else {
        snapshot_name(src, suffix + seq!['_'] + decimal(k as nat))
    }
}

/// `is_taken` answered `b` when asked about `path`.
pub open spec fn answered<F: Fn(&str) -> bool>(is_taken: F, path: Seq<char>, b: bool) -> bool {
    exists|p: &str| p@ == path && #[trigger] is_taken.ensures((p,), b)
}

/// Picks where a snapshot of `src` taken at `suffix` goes: the first
/// candidate name (the plain one, then `<suffix>_1` to `<suffix>_99`) that
/// `is_taken` reports free, so an existing snapshot is never overwritten;
/// the collision error when all are taken.
pub fn snapshot_now<F: Fn(&str) -> bool>(src: &str, suffix: &str, is_taken: F) -> (r: Result<
    String,
    String,
>)
    requires
        forall|p: &str| #[trigger] is_taken.requires((p,)),
    ensures
        match r {
            Ok(path) => exists|k: int|
                0 <= k < 100 && path@ == candidate_name(src@, suffix@, k) && answered(
                    is_taken,
                    path@,
                    false,
                ) && forall|j: int|
                    0 <= j < k ==> #[trigger] answered(
                        is_taken,
                        candidate_name(src@, suffix@, j),
                        true,
                    ),
            Err(m) => m@ == "snapshot collision: "@ + snapshot_name(src@, suffix@)
                + " already exists with 99 retries"@ && forall|j: int|
                0 <= j < 100 ==> #[trigger] answered(is_taken, candidate_name(src@, suffix@, j), true),
        },
{
    let cands = snapshot_candidates(src, suffix);
    let mut i: usize = 0;
    while i < 100
        invariant
            cands@.len() == 100,
            forall|k: int| 0 <= k < 100 ==> #[trigger] cands@[k]@ == candidate_name(src@, suffix@, k),
            forall|p: &str| #[trigger] is_taken.requires((p,)),
            i <= 100,
            forall|j: int|
                0 <= j < i ==> #[trigger] answered(is_taken, candidate_name(src@, suffix@, j), true),
        decreases 100 - i,
    {
        let c = cands[i].as_str();
        let taken = is_taken(c);
        assert(is_taken.ensures((c,), taken));
        assert(answered(is_taken, candidate_name(src@, suffix@, i as int), taken));
        if !taken {
            return Ok(owned(c));
        }
        i = i + 1;
    }
    Err(snapshot_collision_error(src, suffix))
}

// ---------------------------------------------------------------------------
// Pruning
// ---------------------------------------------------------------------------

/// A file beside the db: its name and modification time (nanoseconds since
/// the epoch; 0 when unknown).
pub struct SnapshotFile {
    pub name: String,
    pub mtime: u128,
}

/// The snapshot files among `files`, in order: those named
/// `<basename>.bak.`-something. Each is (position, mtime).
pub open spec fn snapshots_of(files: Seq<SnapshotFile>, basename: Seq<char>) -> Seq<(int, u128)>
    decreases files.len(),
{
    if files.len() == 0 {
        Seq::empty()
    } else {
        let prev = snapshots_of(files.drop_last(), basename);
        if has_prefix(files.last().name@, basename + ".bak."@) {
            prev.push((files.len() - 1, files.last().mtime))
        } else {
            prev
        }
    }
}

/// `x` placed after every entry at least as new (stable, newest first).
pub open spec fn insert_newest(x: (int, u128), s: Seq<(int, u128)>) -> Seq<(int, u128)>
    decreases s.len(),
{
    if s.len() == 0 {
        seq![x]
    } else if x.1 > s[0].1 {
        seq![x] + s
    } else {
        seq![s[0]] + insert_newest(x, s.drop_first())
    }
}

/// The entries newest first, in their order among equally new ones.
pub open spec fn newest_first(s: Seq<(int, u128)>) -> Seq<(int, u128)>
    decreases s.len(),
{
    if s.len() == 0 {
        s
    } else {
        insert_newest(s.last(), newest_first(s.drop_last()))
    }
}

/// The positions of the snapshot files pruning deletes, in deletion order:
/// none when at most `keep` exist; else all but the `keep` newest.
pub open spec fn prune_victims_spec(files: Seq<SnapshotFile>, basename: Seq<char>, keep: nat) -> Seq<
    int,
> {
    let snaps = snapshots_of(files, basename);
    if snaps.len() <= keep {
        Seq::empty()
    } else {
        newest_first(snaps).skip(keep as int).map_values(|e: (int, u128)| e.0)
    }
}

/// The first position, from `i` on, of an entry older than `t`.
pub open spec fn first_older(t: u128, s: Seq<(int, u128)>, i: int) -> int
    decreases s.len() - i,
{
    if i < 0 || i >= s.len() {
        s.len() as int
    } else if t > s[i].1 {
        i
    } else {
        first_older(t, s, i + 1)
    }
}

proof fn lemma_insert_newest(x: (int, u128), s: Seq<(int, u128)>)
    ensures
        0 <= first_older(x.1, s, 0) <= s.len(),
        insert_newest(x, s) == s.take(first_older(x.1, s, 0)) + seq![x] + s.skip(
            first_older(x.1, s, 0),
        ),
    decreases s.len(),
{
    if s.len() == 0 || x.1 > s[0].1 {
        assert(insert_newest(x, s) =~= s.take(0) + seq![x] + s.skip(0));
    } else {
        let t = s.drop_first();
        lemma_insert_newest(x, t);
        lemma_first_older_shift(x.1, s, 0);
        let k = first_older(x.1, t, 0);
        assert(insert_newest(x, s) =~= s.take(k + 1) + seq![x] + s.skip(k + 1));
    }
}

proof fn lemma_first_older_shift(t: u128, s: Seq<(int, u128)>, i: int)
    requires
        0 <= i < s.len(),
        forall|j: int| 0 <= j <= i ==> !(t > #[trigger] s[j].1),
    ensures
        first_older(t, s, i + 1) == first_older(t, s.drop_first(), i) + 1,
        first_older(t, s, 0) == first_older(t, s, i + 1),
    decreases s.len() - i,
{
    if i + 1 < s.len() {
        assert(s.drop_first()[i] == s[i + 1]);
        if !(t > s[i + 1].1) {
            lemma_first_older_shift(t, s, i + 1);
        }
    }
    lemma_first_older_prefix(t, s, i + 1);
}

proof fn lemma_first_older_prefix(t: u128, s: Seq<(int, u128)>, i: int)
    requires
        0 <= i <= s.len(),
        forall|j: int| 0 <= j < i ==> !(t > #[trigger] s[j].1),
    ensures
        first_older(t, s, 0) == first_older(t, s, i),
    decreases i,
{
    if i > 0 {
        lemma_first_older_prefix(t, s, i - 1);
    }
}

/// Which of the files beside the db pruning deletes so that only the `keep`
/// newest snapshots of `basename` remain: their positions, newest first.
pub fn prune_victims(files: &Vec<SnapshotFile>, basename: &str, keep: usize) -> (r: Vec<usize>)
    ensures
        r@.map_values(|i: usize| i as int) == prune_victims_spec(files@, basename@, keep as nat),
{
    let mut pre = owned(basename);
    push_str(&mut pre, ".bak.");
    let pc = chars_of(pre.as_str());
    let n: usize = files.len();
    let mut snaps: Vec<(usize, u128)> = Vec::new();
    let ghost mut found: Seq<(int, u128)> = Seq::empty();
    let mut i: usize = 0;
    while i < n
        invariant
            n == files@.len(),
            i <= n,
            pc@ == basename@ + ".bak."@,
            found == snapshots_of(files@.take(i as int), basename@),
            snaps@.len() == found.len(),
            snaps@.map_values(|e: (usize, u128)| (e.0 as int, e.1)) == newest_first(found),
            forall|k: int| 0 <= k < snaps@.len() ==> #[trigger] snaps@[k].0 < i,
        decreases n - i,
    {
        assert(files@.take(i + 1).drop_last() =~= files@.take(i as int));
        assert(files@.take(i + 1).last() == files@[i as int]);
        if crate::text::starts_with(&chars_of(files[i].name.as_str()), &pc) {
            let x: (usize, u128) = (i, files[i].mtime);
            let ghost xv: (int, u128) = (i as int, x.1);
            let ghost ov = snaps@.map_values(|e: (usize, u128)| (e.0 as int, e.1));
            let m: usize = snaps.len();
            let mut k: usize = 0;
            while k < m && !(x.1 > snaps[k].1)
                invariant
                    m == snaps@.len(),
                    ov == snaps@.map_values(|e: (usize, u128)| (e.0 as int, e.1)),
                    k <= m,
                    xv.1 == x.1,
                    first_older(xv.1, ov, 0) == first_older(xv.1, ov, k as int),
                decreases m - k,
            {
                k = k + 1;
            }
            proof {
                lemma_insert_newest(xv, ov);
                found = found.push(xv);
                assert(found.drop_last() =~= snapshots_of(files@.take(i as int), basename@));
            }
            let ghost before = snaps@;
            snaps.insert(k, x);
            assert(snaps@.map_values(|e: (usize, u128)| (e.0 as int, e.1)) =~= ov.take(k as int) + seq![xv] + ov.skip(k as int));
            assert forall|j: int| 0 <= j < snaps@.len() implies #[trigger] snaps@[j].0 < i + 1 by {
                if j < k {
                    assert(snaps@[j] == before[j]);
                } else if j > k {
                    assert(snaps@[j] == before[j - 1]);
                }
            }
        }
        i = i + 1;
    }
    assert(files@.take(n as int) =~= files@);
    let mut out: Vec<usize> = Vec::new();
    if snaps.len() <= keep {
        assert(out@.map_values(|i: usize| i as int) =~= prune_victims_spec(files@, basename@, keep as nat));
        return out;
    }
    let ghost sv = snaps@.map_values(|e: (usize, u128)| (e.0 as int, e.1));
    let mut j: usize = keep;
    while j < snaps.len()
        invariant
            keep <= j <= snaps@.len(),
            sv == snaps@.map_values(|e: (usize, u128)| (e.0 as int, e.1)),
            out@.map_values(|i: usize| i as int) == sv.skip(keep as int).take(j - keep).map_values(
                |e: (int, u128)| e.0,
            ),
        decreases snaps@.len() - j,
    {
        let ghost before = out@;
        assert(sv[j as int].0 == snaps@[j as int].0 as int);
        out.push(snaps[j].0);
        assert(out@.map_values(|i: usize| i as int) =~= before.map_values(|i: usize| i as int).push(sv[j as int].0));
        assert(sv.skip(keep as int).take(j + 1 - keep) =~= sv.skip(keep as int).take(j - keep).push(sv[j as int]));
        assert(out@.map_values(|i: usize| i as int) =~= sv.skip(keep as int).take(j + 1 - keep).map_values(
            |e: (int, u128)| e.0,
        ));
        j = j + 1;
    }
    assert(sv.skip(keep as int).take(j - keep) =~= sv.skip(keep as int));
    out
}


/// The snapshot-then-prune step, once the snapshot was attempted: when it
/// failed nothing is pruned (a backup mishap never costs an older backup);
/// when it succeeded, the snapshots among `files` beyond the `keep` newest
/// go, as `prune_victims` says.
pub fn snapshot_and_prune(
    snapshot: &Result<String, String>,
    files: &Vec<SnapshotFile>,
    basename: &str,
    keep: usize,
) -> (r: Vec<usize>)
    ensures
        snapshot is Err ==> r@.len() == 0,
        snapshot is Ok ==> r@.map_values(|i: usize| i as int) == prune_victims_spec(
            files@,
            basename@,
            keep as nat,
        ),
{
    match snapshot {
        Err(_) => Vec::new(),
        Ok(_) => prune_victims(files, basename, keep),
    }
}

} // verus!
