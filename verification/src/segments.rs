//! Topic-arc segmentation of a session's turns.
//!
//! A session is rarely one topic. Turns are stored with their provenance
//! (`cwd`, git branch, timestamp), so a session splits into topic arcs
//! cheaply: a new arc starts when the git branch changes, the working
//! directory changes, or a long idle gap elapses.

use vstd::prelude::*;
use vstd::arithmetic::div_mod::{
    lemma_fundamental_div_mod, lemma_fundamental_div_mod_converse_div,
    lemma_fundamental_div_mod_converse_mod,
};

use crate::text::{
    chars_of, copy_string, decimal, has_prefix, lines, next_line, push_decimal, push_str,
    slice_chars, str_eq, string_of, trim, trim_exec,
};

verus! {

// ---------------------------------------------------------------------------
// Timestamps
// ---------------------------------------------------------------------------

/// What `chrono::DateTime::parse_from_rfc3339` makes of `s`: `None` when it
/// rejects the text, else the instant as whole seconds since the Unix epoch
/// (UTC) and the nanosecond within that second (at least one billion inside a
/// leap second).
pub uninterp spec fn rfc3339_instant(s: Seq<char>) -> Option<(i64, u32)>;

/// Parses an RFC 3339 timestamp with `chrono::DateTime::parse_from_rfc3339`
/// and reads the instant back with `timestamp` and
/// `timestamp_subsec_nanos`. The result is what [`rfc3339_instant`] names.
#[verifier::external_body]
fn parse_rfc3339(s: &str) -> (r: Option<(i64, u32)>)
    ensures
        r == rfc3339_instant(s@),
{
    match chrono::DateTime::parse_from_rfc3339(s) {
        Ok(d) => Some((d.timestamp(), d.timestamp_subsec_nanos())),
        Err(_) => None,
    }
}

/// The span from instant `a` to instant `b` as whole seconds plus a
/// nanosecond part in `[0, 10^9)`: the difference of the epoch seconds and of
/// the nanoseconds, where a leap second of the earlier-in-the-day instant
/// still counts as one second.
pub open spec fn span_parts(a: (i64, u32), b: (i64, u32)) -> (int, int) {
    let at = a.0 % 86400;
    let bt = b.0 % 86400;
    let secs0 = b.0 - a.0;
    let secs = if bt > at && a.1 >= 1_000_000_000 {
        secs0 + 1
    } else if bt < at && b.1 >= 1_000_000_000 {
        secs0 - 1
    } else {
        secs0
    };
    let frac = b.1 - a.1;
    (secs + frac / 1_000_000_000, frac % 1_000_000_000)
}

/// The whole seconds of a span, rounded toward zero.
pub open spec fn whole_seconds(d: (int, int)) -> int {
    if d.0 < 0 && d.1 > 0 {
        d.0 + 1
    } else {
        d.0
    }
}

/// Division rounding toward zero, for `d > 0`.
pub open spec fn trunc_div(x: int, d: int) -> int {
    if x >= 0 {
        x / d
    } else {
        -((-x) / d)
    }
}

/// The whole minutes between two instants, without sign.
pub open spec fn minutes_between_spec(a: (i64, u32), b: (i64, u32)) -> int {
    let m = trunc_div(whole_seconds(span_parts(a, b)), 60);
    if m < 0 {
        -m
    } else {
        m
    }
}

/// `x` modulo 86400 (the second within the day of an epoch timestamp).
fn second_of_day(x: i64) -> (r: i128)
    ensures
        r == x % 86400,
        0 <= r < 86400,
{
    let k: i128 = 86400 * 0x8000_0000_0000;
    let y: u128 = (x as i128 + k) as u128;
    let q: u128 = y / 86400;
    let r: u128 = y % 86400;
    proof {
        lemma_fundamental_div_mod(y as int, 86400);
        assert(x as int == (q as int - 0x8000_0000_0000) * 86400 + r as int);
        lemma_fundamental_div_mod_converse_mod(
            x as int,
            86400,
            q as int - 0x8000_0000_0000,
            r as int,
        );
    }
    r as i128
}

/// The whole seconds from instant `a` to instant `b`, rounded toward zero,
/// as chrono's `(b - a).num_seconds()` computes them.
pub fn whole_seconds_between(a: (i64, u32), b: (i64, u32)) -> (w: i128)
    ensures
        w == whole_seconds(span_parts(a, b)),
        -0x2_0000_0000_0000_0000 <= w <= 0x2_0000_0000_0000_0000,
{
    let at = second_of_day(a.0);
    let bt = second_of_day(b.0);
    let secs0: i128 = b.0 as i128 - a.0 as i128;
    let secs: i128 = if bt > at && a.1 >= 1_000_000_000 {
        secs0 + 1
    } else if bt < at && b.1 >= 1_000_000_000 {
        secs0 - 1
    } else {
        secs0
    };
    let frac0: i128 = b.1 as i128 - a.1 as i128;
    let y: u128 = (frac0 + 8_000_000_000) as u128;
    let qq: u128 = y / 1_000_000_000;
    let r: i128 = (y % 1_000_000_000) as i128;
    let q: i128 = qq as i128 - 8;
    proof {
        lemma_fundamental_div_mod(y as int, 1_000_000_000);
        assert(frac0 == q * 1_000_000_000 + r);
        lemma_fundamental_div_mod_converse_div(frac0 as int, 1_000_000_000, q as int, r as int);
        lemma_fundamental_div_mod_converse_mod(frac0 as int, 1_000_000_000, q as int, r as int);
    }
    let total: i128 = secs + q;
    if total < 0 && r > 0 {
        total + 1
    } else {
        total
    }
}

/// The whole minutes between instants `a` and `b`, without sign, as
/// `(b - a).num_minutes().abs()` computes them with chrono.
pub fn minutes_between(a: (i64, u32), b: (i64, u32)) -> (m: i64)
    ensures
        m == minutes_between_spec(a, b),
{
    let whole = whole_seconds_between(a, b);
    let mag: u128 = if whole >= 0 {
        whole as u128
    } else {
        (-whole) as u128
    };
    let mins: u128 = mag / 60;
    proof {
        lemma_fundamental_div_mod(mag as int, 60);
    }
    assert(mins <= 0x1_0000_0000_0000_0000);
    mins as i64
}

/// Whole minutes between two timestamps, if both parse.
fn gap_minutes(a: &Option<String>, b: &Option<String>) -> (r: Option<i64>)
    ensures
        r == gap_spec(opt_view(*a), opt_view(*b)),
{
    match (a, b) {
        (Some(x), Some(y)) => {
            let ta = parse_rfc3339(x.as_str());
            let tb = parse_rfc3339(y.as_str());
            match (ta, tb) {
                (Some(p), Some(q)) => Some(minutes_between(p, q)),
                _ => None,
            }
        },
        _ => None,
    }
}

/// The gap in minutes between two optional timestamps, when both are
/// present and parse.
pub open spec fn gap_spec(a: Option<Seq<char>>, b: Option<Seq<char>>) -> Option<i64> {
    match (a, b) {
        (Some(x), Some(y)) => match (rfc3339_instant(x), rfc3339_instant(y)) {
            (Some(p), Some(q)) => Some(minutes_between_spec(p, q) as i64),
            _ => None,
        },
        _ => None,
    }
}

// ---------------------------------------------------------------------------
// Optional strings
// ---------------------------------------------------------------------------

/// The characters of an optional string.
pub open spec fn opt_view(o: Option<String>) -> Option<Seq<char>> {
    match o {
        Some(s) => Some(s@),
        None => None,
    }
}

fn opt_eq(a: &Option<String>, b: &Option<String>) -> (r: bool)
    ensures
        r == (opt_view(*a) == opt_view(*b)),
{
    match (a, b) {
        (Some(x), Some(y)) => str_eq(x.as_str(), y.as_str()),
        (None, None) => true,
        _ => false,
    }
}

fn opt_copy(o: &Option<String>) -> (r: Option<String>)
    ensures
        opt_view(r) == opt_view(*o),
{
    match o {
        Some(s) => Some(copy_string(s)),
        None => None,
    }
}


// ---------------------------------------------------------------------------
// Labels
// ---------------------------------------------------------------------------

/// Position just past the last `/` among the first `j` characters of `c`
/// (0 when there is none).
pub open spec fn last_cut(c: Seq<char>, j: int) -> int
    decreases j,
{
    if j <= 0 {
        0
    } else if c[j - 1] == '/' {
        j
    } else {
        last_cut(c, j - 1)
    }
}

/// What follows the last `/` of a path (`rsplit('/').next()`).
pub open spec fn basename(c: Seq<char>) -> Seq<char> {
    c.subrange(last_cut(c, c.len() as int), c.len() as int)
}

/// `turns {start}-{end}`.
pub open spec fn turns_label(start: nat, end: nat) -> Seq<char> {
    "turns "@ + decimal(start) + "-"@ + decimal(end)
}

/// A readable arc label: the branch (minus a `plan/` prefix), else the cwd's
/// basename, else the hint, else the turn range.
pub open spec fn label_spec(
    branch: Option<Seq<char>>,
    cwd: Option<Seq<char>>,
    hint: Option<Seq<char>>,
    start: nat,
    end: nat,
) -> Seq<char> {
    if branch is Some && branch->0.len() > 0 && branch->0 != "HEAD"@ {
        let b = branch->0;
        if has_prefix(b, "plan/"@) {
            b.skip("plan/"@.len() as int)
        } else {
            b
        }
    } else if cwd is Some && cwd->0.len() > 0 && basename(cwd->0).len() > 0 {
        basename(cwd->0)
    } else if hint is Some && hint->0.len() > 0 {
        hint->0
    } else {
        turns_label(start, end)
    }
}

/// The label of a finished arc: from its branch, else its cwd, else the
/// first turn's hint, else its turn range (a single-turn range label
/// widened to the arc's range).
pub open spec fn arc_label(
    branch: Option<Seq<char>>,
    cwd: Option<Seq<char>>,
    hint: Option<Seq<char>>,
    start: nat,
    end: nat,
) -> Seq<char> {
    let l = label_spec(branch, cwd, hint, start, end);
    if l == turns_label(start, start) {
        turns_label(start, end)
    } else {
        l
    }
}

fn basename_exec(c: &Vec<char>) -> (r: Vec<char>)
    ensures
        r@ == basename(c@),
{
    let n: usize = c.len();
    let mut j: usize = n;
    while j > 0 && c[j - 1] != '/'
        invariant
            n == c@.len(),
            j <= n,
            last_cut(c@, j as int) == last_cut(c@, n as int),
        decreases j,
    {
        j = j - 1;
    }
    slice_chars(c, j, n)
}

fn turns_label_exec(start: usize, end: usize) -> (r: String)
    ensures
        r@ == turns_label(start as nat, end as nat),
{
    let mut s = String::new();
    push_str(&mut s, "turns ");
    push_decimal(&mut s, start as u64);
    push_str(&mut s, "-");
    push_decimal(&mut s, end as u64);
    assert(s@ =~= turns_label(start as nat, end as nat));
    s
}

/// A readable arc label: the branch (minus a `plan/` prefix), else the cwd's
/// basename, else a snippet of the first user message, else the turn range.
fn label_for(
    branch: &Option<String>,
    cwd: &Option<String>,
    hint: &Option<String>,
    start: usize,
    end: usize,
) -> (r: String)
    ensures
        r@ == label_spec(opt_view(*branch), opt_view(*cwd), opt_view(*hint), start as nat, end as nat),
{
    if let Some(b) = branch {
        let bc = chars_of(b.as_str());
        if bc.len() > 0 && !str_eq(b.as_str(), "HEAD") {
            let pfx = chars_of("plan/");
            if crate::text::starts_with(&bc, &pfx) {
                let rest = slice_chars(&bc, pfx.len(), bc.len());
                assert(rest@ =~= b@.skip("plan/"@.len() as int));
                return string_of(&rest);
            }
            return copy_string(b);
        }
    }
    if let Some(c) = cwd {
        let cc = chars_of(c.as_str());
        if cc.len() > 0 {
            let base = basename_exec(&cc);
            if base.len() > 0 {
                return string_of(&base);
            }
        }
    }
    if let Some(h) = hint {
        let hc = chars_of(h.as_str());
        if hc.len() > 0 {
            return copy_string(h);
        }
    }
    turns_label_exec(start, end)
}

/// The label an arc gets once its range is known.
fn arc_label_exec(
    branch: &Option<String>,
    cwd: &Option<String>,
    hint: &Option<String>,
    start: usize,
    end: usize,
) -> (r: String)
    ensures
        r@ == arc_label(opt_view(*branch), opt_view(*cwd), opt_view(*hint), start as nat, end as nat),
{
    let l = label_for(branch, cwd, hint, start, end);
    let single = turns_label_exec(start, start);
    if str_eq(l.as_str(), single.as_str()) {
        turns_label_exec(start, end)
    } else {
        l
    }
}

// ---------------------------------------------------------------------------
// Segmentation
// ---------------------------------------------------------------------------

/// The minimal per-turn signal segmentation needs.
#[derive(Debug, Clone)]
pub struct TurnMeta {
    pub index: usize,
    pub cwd: Option<String>,
    /// Primary branch for the turn (first recorded), if any.
    pub branch: Option<String>,
    pub timestamp: Option<String>,
    /// First non-empty line of the user's message, for a human label.
    pub label_hint: Option<String>,
    pub tokens: u64,
}

/// One contiguous topic arc.
#[derive(Debug, Clone)]
pub struct Segment {
    pub start: usize,
    pub end: usize,
    pub turn_count: usize,
    pub branch: Option<String>,
    pub cwd: Option<String>,
    pub started_at: Option<String>,
    pub ended_at: Option<String>,
    pub tokens: u64,
    pub label: String,
    /// Why this arc started: "start" | "branch" | "cwd" | "gap".
    pub reason: &'static str,
}

/// What segmentation reads of a turn.
pub struct TurnView {
    pub index: nat,
    pub branch: Option<Seq<char>>,
    pub cwd: Option<Seq<char>>,
    pub timestamp: Option<Seq<char>>,
    /// The label hint of the turn's user message.
    pub hint: Option<Seq<char>>,
    pub tokens: nat,
}

/// What segmentation reads of `t`.
pub open spec fn turn_view(t: TurnMeta) -> TurnView {
    TurnView {
        index: t.index as nat,
        branch: opt_view(t.branch),
        cwd: opt_view(t.cwd),
        timestamp: opt_view(t.timestamp),
        hint: opt_view(t.label_hint),
        tokens: t.tokens as nat,
    }
}

/// What segmentation reads of a run of turns.
pub open spec fn turn_views(ts: Seq<TurnMeta>) -> Seq<TurnView> {
    ts.map_values(|t: TurnMeta| turn_view(t))
}

/// An arc as the segmentation rules build it, label aside.
pub struct ArcSpec {
    pub start: nat,
    pub end: nat,
    pub turn_count: nat,
    pub branch: Option<Seq<char>>,
    pub cwd: Option<Seq<char>>,
    pub started_at: Option<Seq<char>>,
    pub ended_at: Option<Seq<char>>,
    /// The label hint of the arc's first turn.
    pub hint: Option<Seq<char>>,
    pub tokens: nat,
    pub reason: Seq<char>,
}

/// A new arc holding just turn `t`.
pub open spec fn open_arc(t: TurnView, reason: Seq<char>) -> ArcSpec {
    ArcSpec {
        start: t.index,
        end: t.index,
        turn_count: 1,
        branch: t.branch,
        cwd: t.cwd,
        started_at: t.timestamp,
        ended_at: t.timestamp,
        hint: t.hint,
        tokens: t.tokens,
        reason,
    }
}

/// Arc `a` extended by turn `t`.
pub open spec fn extend_arc(a: ArcSpec, t: TurnView) -> ArcSpec {
    ArcSpec {
        end: t.index,
        turn_count: a.turn_count + 1,
        ended_at: if t.timestamp is Some {
            t.timestamp
        } else {
            a.ended_at
        },
        tokens: a.tokens + t.tokens,
        ..a
    }
}

/// Why turn `t` starts a new arc after `arcs`, if it does.
pub open spec fn boundary(arcs: Seq<ArcSpec>, t: TurnView, gap_min: i64) -> Option<Seq<char>> {
    if arcs.len() == 0 {
        Some("start"@)
    } else {
        let cur = arcs.last();
        if t.branch != cur.branch {
            Some("branch"@)
        } else if t.cwd != cur.cwd {
            Some("cwd"@)
        } else if gap_min > 0 && (gap_spec(cur.ended_at, t.timestamp) matches Some(g)
            && g > gap_min) {
            Some("gap"@)
        } else {
            None
        }
    }
}

/// The arcs of a run of turns.
pub open spec fn arcs_of(turns: Seq<TurnView>, gap_min: i64) -> Seq<ArcSpec>
    decreases turns.len(),
{
    if turns.len() == 0 {
        Seq::empty()
    } else {
        let arcs = arcs_of(turns.drop_last(), gap_min);
        let t = turns.last();
        match boundary(arcs, t, gap_min) {
            Some(reason) => arcs.push(open_arc(t, reason)),
            None => arcs.update(arcs.len() - 1, extend_arc(arcs.last(), t)),
        }
    }
}

/// The tokens of a run of turns.
pub open spec fn tokens_total(turns: Seq<TurnView>) -> nat
    decreases turns.len(),
{
    if turns.len() == 0 {
        0
    } else {
        tokens_total(turns.drop_last()) + turns.last().tokens as nat
    }
}

/// Segment `s` is arc `a`, labelled.
pub open spec fn segment_is(s: Segment, a: ArcSpec) -> bool {
    &&& s.start == a.start
    &&& s.end == a.end
    &&& s.turn_count == a.turn_count
    &&& opt_view(s.branch) == a.branch
    &&& opt_view(s.cwd) == a.cwd
    &&& opt_view(s.started_at) == a.started_at
    &&& opt_view(s.ended_at) == a.ended_at
    &&& s.tokens == a.tokens
    &&& s.reason@ == a.reason
    &&& s.label@ == arc_label(a.branch, a.cwd, a.hint, a.start, a.end)
}

proof fn lemma_tokens_total_mono(turns: Seq<TurnView>, i: int)
    requires
        0 <= i <= turns.len(),
    ensures
        tokens_total(turns.take(i)) <= tokens_total(turns),
    decreases turns.len(),
{
    if i < turns.len() {
        assert(turns.drop_last().take(i) =~= turns.take(i));
        lemma_tokens_total_mono(turns.drop_last(), i);
    } else {
        assert(turns.take(i) =~= turns);
    }
}

/// Segments turns into topic arcs. A new arc starts on a branch change, a
/// cwd change, or an idle gap longer than `gap_min` minutes (`<= 0` disables
/// the gap rule). Returns arcs in order; empty input yields no arcs.
pub fn segment_turns(turns: &[TurnMeta], gap_min: i64) -> (r: Vec<Segment>)
    requires
        tokens_total(turn_views(turns@)) <= u64::MAX,
    ensures
        r@.len() == arcs_of(turn_views(turns@), gap_min).len(),
        forall|k: int| 0 <= k < r@.len() ==> segment_is(#[trigger] r@[k], arcs_of(turn_views(turns@), gap_min)[k]),
{
    let n: usize = turns.len();
    let mut out: Vec<Segment> = Vec::new();
    let mut cur_hint: Option<String> = None;
    let mut i: usize = 0;
    while i < n
        invariant
            n == turns@.len(),
            turn_views(turns@).len() == n,
            out@.len() > 0 ==> opt_view(cur_hint) == arcs_of(turn_views(turns@).take(i as int), gap_min).last().hint,
            i <= n,
            tokens_total(turn_views(turns@)) <= u64::MAX,
            out@.len() == arcs_of(turn_views(turns@).take(i as int), gap_min).len(),
            forall|k: int|
                0 <= k < out@.len() ==> segment_is(
                    #[trigger] out@[k],
                    arcs_of(turn_views(turns@).take(i as int), gap_min)[k],
                ),
            out@.len() > 0 ==> out@.last().tokens <= tokens_total(turn_views(turns@).take(i as int)),
            out@.len() > 0 ==> out@.last().turn_count <= i,
        decreases n - i,
    {
        let t = &turns[i];
        let ghost tv = turn_view(*t);
        assert(turn_views(turns@)[i as int] == tv);
        let ghost arcs = arcs_of(turn_views(turns@).take(i as int), gap_min);
        proof {
            assert(turn_views(turns@).take(i + 1).drop_last() =~= turn_views(turns@).take(i as int));
            lemma_tokens_total_mono(turn_views(turns@), i + 1);
        }
        let reason: Option<&'static str> = if out.len() == 0 {
            Some("start")
        } else {
            let last: usize = out.len() - 1;
            let cur = &out[last];
            if !opt_eq(&t.branch, &cur.branch) {
                Some("branch")
            } else if !opt_eq(&t.cwd, &cur.cwd) {
                Some("cwd")
            } else if gap_min > 0 && match gap_minutes(&cur.ended_at, &t.timestamp) {
                Some(g) => g > gap_min,
                None => false,
            } {
                Some("gap")
            } else {
                None
            }
        };
        proof {
            if out@.len() > 0 {
                assert(segment_is(out@[out@.len() - 1], arcs.last()));
            }
            assert(reason matches Some(r) ==> boundary(arcs, tv, gap_min) == Some(r@));
            assert(reason is None ==> boundary(arcs, tv, gap_min) is None);
            assert(tokens_total(turn_views(turns@).take(i + 1)) == tokens_total(turn_views(turns@).take(i as int))
                + t.tokens);
        }
        let ghost old_out = out@;
        if let Some(reason) = reason {
            cur_hint = opt_copy(&t.label_hint);
            let label = arc_label_exec(&t.branch, &t.cwd, &cur_hint, t.index, t.index);
            out.push(
                Segment {
                    start: t.index,
                    end: t.index,
                    turn_count: 1,
                    branch: opt_copy(&t.branch),
                    cwd: opt_copy(&t.cwd),
                    started_at: opt_copy(&t.timestamp),
                    ended_at: opt_copy(&t.timestamp),
                    tokens: t.tokens,
                    label,
                    reason,
                },
            );
            proof {
                let na = arcs_of(turn_views(turns@).take(i + 1), gap_min);
                assert(na == arcs.push(open_arc(tv, reason@)));
                assert forall|k: int| 0 <= k < out@.len() implies segment_is(
                    #[trigger] out@[k],
                    na[k],
                ) by {
                    if k < old_out.len() {
                        assert(out@[k] == old_out[k]);
                    }
                }
            }
        } else {
            let cur = out.pop().unwrap();
            let ended_at = if t.timestamp.is_some() {
                opt_copy(&t.timestamp)
            } else {
                cur.ended_at
            };
            let label = arc_label_exec(&cur.branch, &cur.cwd, &cur_hint, cur.start, t.index);
            out.push(
                Segment {
                    start: cur.start,
                    end: t.index,
                    turn_count: cur.turn_count + 1,
                    branch: cur.branch,
                    cwd: cur.cwd,
                    started_at: cur.started_at,
                    ended_at,
                    tokens: cur.tokens + t.tokens,
                    label,
                    reason: cur.reason,
                },
            );
            proof {
                let na = arcs_of(turn_views(turns@).take(i + 1), gap_min);
                assert(na == arcs.update(arcs.len() - 1, extend_arc(arcs.last(), tv)));
                assert forall|k: int| 0 <= k < out@.len() implies segment_is(
                    #[trigger] out@[k],
                    na[k],
                ) by {
                    if k < old_out.len() - 1 {
                        assert(out@[k] == old_out[k]);
                    }
                }
            }
        }
        i = i + 1;
    }
    assert(turn_views(turns@).take(n as int) =~= turn_views(turns@));
    out
}


// ---------------------------------------------------------------------------
// Turn records
// ---------------------------------------------------------------------------

/// The fields of one stored turn that segmentation reads.
pub struct TurnRecord {
    /// The turn's recorded index, if it has one.
    pub turn_index: Option<u64>,
    /// The first of the turn's recorded git branches, if it is a string.
    pub first_branch: Option<String>,
    pub cwd: Option<String>,
    pub timestamp: Option<String>,
    /// The unsigned-integer values of the turn's token counts.
    pub token_counts: Vec<u64>,
    /// The user's message, if any.
    pub user_text: Option<String>,
}

/// The sum of a run of counts.
pub open spec fn counts_sum(s: Seq<u64>) -> nat
    decreases s.len(),
{
    if s.len() == 0 {
        0
    } else {
        counts_sum(s.drop_last()) + s.last() as nat
    }
}

/// The first non-empty trimmed line among `ls` from position `i` on.
pub open spec fn first_filled(ls: Seq<Seq<char>>, i: int) -> Option<Seq<char>>
    decreases ls.len() - i,
{
    if i < 0 || i >= ls.len() {
        None
    } else if trim(ls[i]).len() > 0 {
        Some(trim(ls[i]))
    } else {
        first_filled(ls, i + 1)
    }
}

/// At most the first `n` characters of `s`.
pub open spec fn prefix_chars(s: Seq<char>, n: nat) -> Seq<char> {
    if s.len() <= n {
        s
    } else {
        s.take(n as int)
    }
}

/// A label hint: the first non-empty trimmed line of the user's message, cut
/// to 80 characters.
pub open spec fn hint_of(text: Seq<char>) -> Option<Seq<char>> {
    match first_filled(lines(text), 0) {
        Some(l) => Some(prefix_chars(l, 80)),
        None => None,
    }
}

/// The label hint of a user message.
pub fn label_hint_of(text: &str) -> (r: Option<String>)
    ensures
        opt_view(r) == hint_of(text@),
{
    let cs = chars_of(text);
    let ls = crate::text::lines_exec(&cs);
    let n: usize = ls.len();
    let mut i: usize = 0;
    while i < n
        invariant
            n == lines(text@).len(),
            cs@ == text@,
            ls@.len() == n,
            forall|k: int| 0 <= k < n ==> #[trigger] ls@[k]@ == lines(cs@)[k],
            i <= n,
            first_filled(lines(text@), 0) == first_filled(lines(text@), i as int),
        decreases n - i,
    {
        let l = trim_exec(&ls[i]);
        if l.len() > 0 {
            let cut: usize = if l.len() <= 80 {
                l.len()
            } else {
                80
            };
            let p = slice_chars(&l, 0, cut);
            assert(p@ =~= prefix_chars(trim(lines(text@)[i as int]), 80));
            return Some(string_of(&p));
        }
        i = i + 1;
    }
    None
}

/// The sum of the counts, when it fits in 64 bits.
fn sum_counts(s: &Vec<u64>) -> (r: u64)
    requires
        counts_sum(s@) <= u64::MAX,
    ensures
        r == counts_sum(s@),
{
    let n: usize = s.len();
    let mut total: u64 = 0;
    let mut i: usize = 0;
    while i < n
        invariant
            n == s@.len(),
            i <= n,
            total == counts_sum(s@.take(i as int)),
            counts_sum(s@) <= u64::MAX,
        decreases n - i,
    {
        assert(s@.take(i + 1).drop_last() =~= s@.take(i as int));
        proof {
            lemma_counts_sum_mono(s@, i + 1);
        }
        total = total + s[i];
        i = i + 1;
    }
    assert(s@.take(n as int) =~= s@);
    total
}

proof fn lemma_counts_sum_mono(s: Seq<u64>, i: int)
    requires
        0 <= i <= s.len(),
    ensures
        counts_sum(s.take(i)) <= counts_sum(s),
    decreases s.len(),
{
    if i < s.len() {
        assert(s.drop_last().take(i) =~= s.take(i));
        lemma_counts_sum_mono(s.drop_last(), i);
    } else {
        assert(s.take(i) =~= s);
    }
}

/// `m` is the segmentation signal of turn record `rec` stored at `position`.
pub open spec fn meta_from(m: TurnMeta, position: usize, rec: TurnRecord) -> bool {
    &&& m.index == (match rec.turn_index {
        Some(v) => v as usize,
        None => position,
    })
    &&& opt_view(m.branch) == opt_view(rec.first_branch)
    &&& opt_view(m.cwd) == opt_view(rec.cwd)
    &&& opt_view(m.timestamp) == opt_view(rec.timestamp)
    &&& opt_view(m.label_hint) == (match rec.user_text {
        Some(t) => hint_of(t@),
        None => None,
    })
    &&& m.tokens == counts_sum(rec.token_counts@)
}

/// The segmentation signal of the turn stored at `position`: its recorded
/// index (else its position), first branch, cwd, timestamp, label hint and
/// total tokens.
pub fn turn_meta(position: usize, rec: &TurnRecord) -> (m: TurnMeta)
    requires
        counts_sum(rec.token_counts@) <= u64::MAX,
    ensures
        meta_from(m, position, *rec),
{
    let index: usize = match rec.turn_index {
        Some(v) => v as usize,
        None => position,
    };
    let label_hint = match &rec.user_text {
        Some(t) => label_hint_of(t.as_str()),
        None => None,
    };
    TurnMeta {
        index,
        cwd: opt_copy(&rec.cwd),
        branch: opt_copy(&rec.first_branch),
        timestamp: opt_copy(&rec.timestamp),
        label_hint,
        tokens: sum_counts(&rec.token_counts),
    }
}

/// What segmentation reads of the turn record stored at `position`.
pub open spec fn record_view(position: nat, rec: TurnRecord) -> TurnView {
    TurnView {
        index: match rec.turn_index {
            Some(v) => (v as usize) as nat,
            None => position,
        },
        branch: opt_view(rec.first_branch),
        cwd: opt_view(rec.cwd),
        timestamp: opt_view(rec.timestamp),
        hint: match rec.user_text {
            Some(t) => hint_of(t@),
            None => None,
        },
        tokens: counts_sum(rec.token_counts@),
    }
}

/// What segmentation reads of stored turn records, in storage order.
pub open spec fn record_views(rs: Seq<TurnRecord>) -> Seq<TurnView> {
    Seq::new(rs.len(), |i: int| record_view(i as nat, rs[i]))
}

/// The segmentation signal of stored turns, in storage order.
pub fn metas_from_records(records: &Vec<TurnRecord>) -> (r: Vec<TurnMeta>)
    requires
        forall|i: int| 0 <= i < records@.len() ==> counts_sum(#[trigger] records@[i].token_counts@) <= u64::MAX,
    ensures
        r@.len() == records@.len(),
        forall|i: int| 0 <= i < r@.len() ==> meta_from(#[trigger] r@[i], i as usize, records@[i]),
        turn_views(r@) == record_views(records@),
{
    let n: usize = records.len();
    let mut out: Vec<TurnMeta> = Vec::new();
    let mut i: usize = 0;
    while i < n
        invariant
            n == records@.len(),
            i <= n,
            out@.len() == i,
            forall|j: int| 0 <= j < records@.len() ==> counts_sum(#[trigger] records@[j].token_counts@) <= u64::MAX,
            forall|j: int| 0 <= j < i ==> meta_from(#[trigger] out@[j], j as usize, records@[j]),
        decreases n - i,
    {
        out.push(turn_meta(i, &records[i]));
        i = i + 1;
    }
    assert(turn_views(out@) =~= record_views(records@));
    out
}

// ---------------------------------------------------------------------------
// Laws of segmentation
// ---------------------------------------------------------------------------

/// The turns counted over a run of arcs.
pub open spec fn count_sum(arcs: Seq<ArcSpec>) -> nat
    decreases arcs.len(),
{
    if arcs.len() == 0 {
        0
    } else {
        count_sum(arcs.drop_last()) + arcs.last().turn_count
    }
}

/// The tokens counted over a run of arcs.
pub open spec fn arc_tokens_sum(arcs: Seq<ArcSpec>) -> nat
    decreases arcs.len(),
{
    if arcs.len() == 0 {
        0
    } else {
        arc_tokens_sum(arcs.drop_last()) + arcs.last().tokens
    }
}

/// The arcs partition the turns: every turn lands in exactly one arc, so the
/// arcs' turn counts add up to the number of turns and their tokens to the
/// turns' tokens. There are arcs exactly when there are turns, each arc holds
/// at least one turn, and the first arc is the one that "start"s.
pub proof fn law_arcs_partition(turns: Seq<TurnView>, gap_min: i64)
    ensures
        count_sum(arcs_of(turns, gap_min)) == turns.len(),
        arc_tokens_sum(arcs_of(turns, gap_min)) == tokens_total(turns),
        arcs_of(turns, gap_min).len() == 0 <==> turns.len() == 0,
        arcs_of(turns, gap_min).len() <= turns.len(),
        forall|k: int|
            0 <= k < arcs_of(turns, gap_min).len() ==> (#[trigger] arcs_of(turns, gap_min)[k]).turn_count
                >= 1,
        turns.len() > 0 ==> arcs_of(turns, gap_min)[0].reason == "start"@,
    decreases turns.len(),
{
    if turns.len() > 0 {
        let prev = turns.drop_last();
        law_arcs_partition(prev, gap_min);
        let arcs = arcs_of(prev, gap_min);
        let t = turns.last();
        match boundary(arcs, t, gap_min) {
            Some(reason) => {
                let na = arcs.push(open_arc(t, reason));
                assert(na.drop_last() =~= arcs);
                assert forall|k: int| 0 <= k < na.len() implies (#[trigger] na[k]).turn_count >= 1 by {
                    if k < arcs.len() {
                        assert(na[k] == arcs[k]);
                    }
                }
            },
            None => {
                let na = arcs.update(arcs.len() - 1, extend_arc(arcs.last(), t));
                assert(na.drop_last() =~= arcs.drop_last());
                assert forall|k: int| 0 <= k < na.len() implies (#[trigger] na[k]).turn_count >= 1 by {
                    if k < arcs.len() - 1 {
                        assert(na[k] == arcs[k]);
                    }
                }
            },
        }
    }
}

/// A new arc starts at turn `i` exactly when `i` is the first turn, or its
/// branch differs from the current arc's, or its cwd does, or the gap rule
/// is on and the idle gap since the current arc's last timestamp is longer
/// than `gap_min` minutes; otherwise turn `i` joins the current arc.
pub proof fn law_boundary_iff(turns: Seq<TurnView>, gap_min: i64, i: int)
    requires
        0 <= i < turns.len(),
    ensures
        ({
            let before = arcs_of(turns.take(i), gap_min);
            let after = arcs_of(turns.take(i + 1), gap_min);
            let t = turns[i];
            &&& (after.len() == before.len() + 1) <==> (i == 0 || t.branch != before.last().branch
                || t.cwd != before.last().cwd || (gap_min > 0 && (gap_spec(before.last().ended_at, t.timestamp) matches Some(g)
                && g > gap_min)))
            &&& after.len() == before.len() || after.len() == before.len() + 1
            &&& after.len() == before.len() ==> after.last() == extend_arc(before.last(), t)
                && t.branch == after.last().branch && t.cwd == after.last().cwd
        }),
{
    let before = arcs_of(turns.take(i), gap_min);
    assert(turns.take(i + 1).drop_last() =~= turns.take(i));
    assert(turns.take(i + 1).last() == turns[i]);
    law_arcs_partition(turns.take(i), gap_min);
    if i > 0 {
        assert(before.len() > 0);
    }
}

/// Arc `a`, following arc `p`, was split off by the rules: a "branch" arc
/// changes branch; a "cwd" arc keeps the branch and changes directory; a
/// "gap" arc keeps both and only occurs when the gap rule is on.
pub open spec fn split_ok(a: ArcSpec, p: ArcSpec, gap_min: i64) -> bool {
    &&& a.reason == "branch"@ || a.reason == "cwd"@ || a.reason == "gap"@
    &&& a.reason == "branch"@ ==> a.branch != p.branch
    &&& a.reason == "cwd"@ ==> a.branch == p.branch && a.cwd != p.cwd
    &&& a.reason == "gap"@ ==> a.branch == p.branch && a.cwd == p.cwd && gap_min > 0
}

proof fn lemma_boundary_reason(arcs: Seq<ArcSpec>, t: TurnView, gap_min: i64)
    requires
        arcs.len() > 0,
        boundary(arcs, t, gap_min) is Some,
    ensures
        split_ok(open_arc(t, boundary(arcs, t, gap_min)->0), arcs.last(), gap_min),
{
    reveal_strlit("branch");
    reveal_strlit("cwd");
    reveal_strlit("gap");
    let r = boundary(arcs, t, gap_min)->0;
    let cur = arcs.last();
    if t.branch != cur.branch {
        assert(r == "branch"@);
        assert("branch"@ != "cwd"@ && "branch"@ != "gap"@);
    } else if t.cwd != cur.cwd {
        assert(r == "cwd"@);
        assert("cwd"@.len() != "branch"@.len() && "cwd"@[0] != "gap"@[0]);
    } else {
        assert(r == "gap"@);
        assert("gap"@.len() != "branch"@.len() && "gap"@[0] != "cwd"@[0]);
    }
}

/// Every arc after the first was split off by one of the rules, and says
/// which: only the first arc "start"s.
pub proof fn law_split_reasons(turns: Seq<TurnView>, gap_min: i64)
    ensures
        forall|k: int|
            1 <= k < arcs_of(turns, gap_min).len() ==> split_ok(
                #[trigger] arcs_of(turns, gap_min)[k],
                arcs_of(turns, gap_min)[k - 1],
                gap_min,
            ),
    decreases turns.len(),
{
    if turns.len() > 0 {
        let prev = turns.drop_last();
        law_split_reasons(prev, gap_min);
        let arcs = arcs_of(prev, gap_min);
        let t = turns.last();
        match boundary(arcs, t, gap_min) {
            Some(reason) => {
                let na = arcs.push(open_arc(t, reason));
                assert forall|k: int| 1 <= k < na.len() implies split_ok(
                    #[trigger] na[k],
                    na[k - 1],
                    gap_min,
                ) by {
                    if k < arcs.len() {
                        assert(na[k] == arcs[k] && na[k - 1] == arcs[k - 1]);
                    } else {
                        assert(na[k - 1] == arcs.last());
                        lemma_boundary_reason(arcs, t, gap_min);
                    }
                }
            },
            None => {
                let na = arcs.update(arcs.len() - 1, extend_arc(arcs.last(), t));
                assert forall|k: int| 1 <= k < na.len() implies split_ok(
                    #[trigger] na[k],
                    na[k - 1],
                    gap_min,
                ) by {
                    assert(split_ok(arcs[k], arcs[k - 1], gap_min));
                    if k < arcs.len() - 1 {
                        assert(na[k] == arcs[k] && na[k - 1] == arcs[k - 1]);
                    } else {
                        assert(na[k - 1] == arcs[k - 1]);
                        assert(arcs.last() == arcs[k]);
                    }
                }
            },
        }
    }
}


// ---------------------------------------------------------------------------
// Token totals that fit
// ---------------------------------------------------------------------------

proof fn lemma_total_bounds_each(turns: Seq<TurnView>, i: int)
    requires
        0 <= i < turns.len(),
    ensures
        turns[i].tokens <= tokens_total(turns),
    decreases turns.len(),
{
    if i < turns.len() - 1 {
        lemma_total_bounds_each(turns.drop_last(), i);
    }
}

/// Whether the tokens of `turns` add up to a `u64` (segmenting them is
/// only defined then).
pub fn tokens_fit(turns: &[TurnMeta]) -> (r: bool)
    ensures
        r == (tokens_total(turn_views(turns@)) <= u64::MAX),
{
    let ghost tv = turn_views(turns@);
    let n: usize = turns.len();
    let mut sum: u128 = 0;
    let mut i: usize = 0;
    while i < n
        invariant
            n == turns@.len(),
            tv == turn_views(turns@),
            tv.len() == n,
            i <= n,
            sum == tokens_total(tv.take(i as int)),
            sum <= u64::MAX,
        decreases n - i,
    {
        assert(tv.take(i + 1).drop_last() =~= tv.take(i as int));
        sum = sum + turns[i].tokens as u128;
        if sum > 0xFFFF_FFFF_FFFF_FFFFu128 {
            proof {
                lemma_tokens_total_mono(tv, i + 1);
            }
            return false;
        }
        i = i + 1;
    }
    assert(tv.take(n as int) =~= tv);
    true
}

fn counts_fit(counts: &Vec<u64>) -> (r: Option<u64>)
    ensures
        match r {
            Some(t) => t == counts_sum(counts@),
            None => counts_sum(counts@) > u64::MAX,
        },
{
    let n: usize = counts.len();
    let mut sum: u128 = 0;
    let mut i: usize = 0;
    while i < n
        invariant
            n == counts@.len(),
            i <= n,
            sum == counts_sum(counts@.take(i as int)),
            sum <= u64::MAX,
        decreases n - i,
    {
        assert(counts@.take(i + 1).drop_last() =~= counts@.take(i as int));
        sum = sum + counts[i] as u128;
        if sum > 0xFFFF_FFFF_FFFF_FFFFu128 {
            proof {
                lemma_counts_sum_mono(counts@, i + 1);
            }
            return None;
        }
        i = i + 1;
    }
    assert(counts@.take(n as int) =~= counts@);
    Some(sum as u64)
}

/// Whether the token counts of stored turns add up to a `u64`, per turn
/// and in all (reading them is only defined then).
pub fn records_fit(records: &Vec<TurnRecord>) -> (r: bool)
    ensures
        r == ((forall|i: int| 0 <= i < records@.len() ==> counts_sum(#[trigger] records@[i].token_counts@)
            <= u64::MAX) && tokens_total(record_views(records@)) <= u64::MAX),
{
    let ghost rv = record_views(records@);
    let n: usize = records.len();
    let mut sum: u128 = 0;
    let mut i: usize = 0;
    while i < n
        invariant
            n == records@.len(),
            rv == record_views(records@),
            rv.len() == n,
            i <= n,
            sum == tokens_total(rv.take(i as int)),
            sum <= u64::MAX,
            forall|k: int| 0 <= k < i ==> counts_sum(#[trigger] records@[k].token_counts@) <= u64::MAX,
        decreases n - i,
    {
        assert(rv.take(i + 1).drop_last() =~= rv.take(i as int));
        match counts_fit(&records[i].token_counts) {
            None => {
                proof {
                    lemma_total_bounds_each(rv, i as int);
                }
                return false;
            },
            Some(t) => {
                assert(rv[i as int].tokens == t);
                sum = sum + t as u128;
                if sum > 0xFFFF_FFFF_FFFF_FFFFu128 {
                    proof {
                        lemma_tokens_total_mono(rv, i + 1);
                    }
                    return false;
                }
            },
        }
        i = i + 1;
    }
    assert(rv.take(n as int) =~= rv);
    true
}

} // verus!
